//! The opaque payload attached to buckets and events: a key-ordered mapping
//! from strings to JSON values, with each value kept in its serialized form.

use vstd::prelude::*;

verus! {

/// One key/value pair of a payload.  The value is the serialized form of a
/// JSON value and is never inspected, only compared.
#[derive(Debug)]
pub struct DataEntry {
    pub key: String,
    pub value: String,
}

/// The mathematical content of one payload entry.
pub ghost struct DataEntryView {
    pub key: Seq<char>,
    pub value: Seq<char>,
}

impl View for DataEntry {
    type V = DataEntryView;

    open spec fn view(&self) -> DataEntryView {
        DataEntryView { key: self.key@, value: self.value@ }
    }
}

impl Clone for DataEntry {
    fn clone(&self) -> (r: Self)
        ensures
            r@ == self@,
    {
        DataEntry { key: self.key.clone(), value: self.value.clone() }
    }
}

/// A payload: entries kept strictly sorted by key, so that two payloads hold
/// the same mapping exactly when their entry sequences are equal.
#[derive(Debug)]
pub struct DataMap {
    pub entries: Vec<DataEntry>,
}

impl View for DataMap {
    type V = Seq<DataEntryView>;

    open spec fn view(&self) -> Seq<DataEntryView> {
        self.entries@.map_values(|e: DataEntry| e@)
    }
}

/// Strict lexicographic order on character sequences, by code point.
pub open spec fn seq_char_lt(a: Seq<char>, b: Seq<char>) -> bool
    decreases a.len(),
{
    if b.len() == 0 {
        false
    } else if a.len() == 0 {
        true
    } else if a[0] != b[0] {
        (a[0] as int) < (b[0] as int)
    } else {
        seq_char_lt(a.skip(1), b.skip(1))
    }
}

/// A payload is canonical when its keys are strictly increasing.
pub open spec fn data_map_wf(entries: Seq<DataEntryView>) -> bool {
    forall|i: int, j: int|
        0 <= i < j < entries.len() ==> seq_char_lt(#[trigger] entries[i].key, #[trigger] entries[j].key)
}

/// Two keys are ordered one way or the other, or are the same key.
pub proof fn lemma_seq_char_lt_total(a: Seq<char>, b: Seq<char>)
    ensures
        seq_char_lt(a, b) || seq_char_lt(b, a) || a == b,
    decreases a.len(),
{
    if a.len() == 0 && b.len() == 0 {
        assert(a =~= b);
    } else if a.len() != 0 && b.len() != 0 && a[0] == b[0] {
        lemma_seq_char_lt_total(a.skip(1), b.skip(1));
        if !seq_char_lt(a, b) && !seq_char_lt(b, a) {
            assert(a.skip(1) == b.skip(1));
            assert forall|i: int| 0 <= i < a.len() implies a[i] == b[i] by {
                if i > 0 {
                    assert(a.skip(1)[i - 1] == b.skip(1)[i - 1]);
                }
            }
            assert(a =~= b);
        }
    } else if a.len() == 0 {
        assert(seq_char_lt(a, b));
    } else if b.len() == 0 {
        assert(seq_char_lt(b, a));
    } else {
        assert(a[0] != b[0]);
        if (a[0] as int) < (b[0] as int) {
            assert(seq_char_lt(a, b));
        } else {
            assert((b[0] as int) < (a[0] as int));
            assert(seq_char_lt(b, a));
        }
    }
}

/// The key order is transitive.
pub proof fn lemma_seq_char_lt_trans(a: Seq<char>, b: Seq<char>, c: Seq<char>)
    requires
        seq_char_lt(a, b),
        seq_char_lt(b, c),
    ensures
        seq_char_lt(a, c),
    decreases a.len() + b.len() + c.len(),
{
    if a.len() != 0 && b.len() != 0 && c.len() != 0 {
        if a[0] == b[0] && b[0] == c[0] {
            lemma_seq_char_lt_trans(a.skip(1), b.skip(1), c.skip(1));
        }
    }
}

/// Writing a key into a canonical payload: before a greater head key the
/// pair is put in front, a matching head key is overwritten, and otherwise
/// the head stays and the write moves on.
pub open spec fn spec_data_set(
    entries: Seq<DataEntryView>,
    key: Seq<char>,
    value: Seq<char>,
) -> Seq<DataEntryView>
    decreases entries.len(),
{
    if entries.len() == 0 {
        seq![DataEntryView { key, value }]
    } else if seq_char_lt(key, entries[0].key) {
        seq![DataEntryView { key, value }] + entries
    } else if key == entries[0].key {
        entries.update(0, DataEntryView { key, value })
    } else {
        seq![entries[0]] + spec_data_set(entries.skip(1), key, value)
    }
}

/// A write settles at the first position whose key is not below the written
/// key: the entries before it stay put.
pub proof fn lemma_spec_data_set_skip(
    entries: Seq<DataEntryView>,
    key: Seq<char>,
    value: Seq<char>,
    p: int,
)
    requires
        0 <= p <= entries.len(),
        forall|k: int| 0 <= k < p ==> seq_char_lt((#[trigger] entries[k]).key, key),
    ensures
        spec_data_set(entries, key, value) == entries.take(p) + spec_data_set(
            entries.skip(p),
            key,
            value,
        ),
    decreases p,
{
    if p == 0 {
        assert(entries.take(0) =~= Seq::<DataEntryView>::empty());
        assert(entries.skip(0) =~= entries);
        assert(entries.take(0) + spec_data_set(entries, key, value) =~= spec_data_set(
            entries,
            key,
            value,
        ));
    } else {
        assert(seq_char_lt(entries[0].key, key));
        if seq_char_lt(key, entries[0].key) {
            lemma_seq_char_lt_trans(key, entries[0].key, key);
            lemma_seq_char_lt_irreflexive(key);
        }
        if key == entries[0].key {
            lemma_seq_char_lt_irreflexive(key);
        }
        let tail = entries.skip(1);
        assert forall|k: int| 0 <= k < p - 1 implies seq_char_lt(
            (#[trigger] tail[k]).key,
            key,
        ) by {
            assert(tail[k] == entries[k + 1]);
        }
        lemma_spec_data_set_skip(tail, key, value, p - 1);
        assert(tail.take(p - 1) =~= entries.take(p).skip(1));
        assert(tail.skip(p - 1) =~= entries.skip(p));
        assert(seq![entries[0]] + (tail.take(p - 1) + spec_data_set(tail.skip(p - 1), key, value))
            =~= entries.take(p) + spec_data_set(entries.skip(p), key, value));
    }
}

/// No key is below itself.
pub proof fn lemma_seq_char_lt_irreflexive(a: Seq<char>)
    ensures
        !seq_char_lt(a, a),
    decreases a.len(),
{
    if a.len() != 0 {
        lemma_seq_char_lt_irreflexive(a.skip(1));
    }
}

/// Whether one key is strictly below another in the payload order.
fn key_lt_from(a: &str, b: &str, i: usize, alen: usize, blen: usize) -> (r: bool)
    requires
        alen == a@.len(),
        blen == b@.len(),
        i <= alen,
        i <= blen,
    ensures
        r == seq_char_lt(a@.skip(i as int), b@.skip(i as int)),
    decreases alen - i,
{
    if i == blen {
        return false;
    }
    if i == alen {
        return true;
    }
    let ca = a.get_char(i);
    let cb = b.get_char(i);
    proof {
        assert(a@.skip(i as int)[0] == a@[i as int]);
        assert(b@.skip(i as int)[0] == b@[i as int]);
        assert(a@.skip(i as int + 1) =~= a@.skip(i as int).skip(1));
        assert(b@.skip(i as int + 1) =~= b@.skip(i as int).skip(1));
    }
    if ca != cb {
        (ca as u32) < (cb as u32)
    } else {
        key_lt_from(a, b, i + 1, alen, blen)
    }
}

/// Whether one key is strictly below another in the payload order.
fn key_lt(a: &str, b: &str) -> (r: bool)
    ensures
        r == seq_char_lt(a@, b@),
{
    let alen = a.unicode_len();
    let blen = b.unicode_len();
    let r = key_lt_from(a, b, 0, alen, blen);
    proof {
        assert(a@.skip(0) =~= a@);
        assert(b@.skip(0) =~= b@);
    }
    r
}

impl DataMap {
    /// The canonical-form invariant.
    pub open spec fn wf(&self) -> bool {
        data_map_wf(self@)
    }

    /// An empty payload.
    pub fn new() -> (r: DataMap)
        ensures
            r@ == Seq::<DataEntryView>::empty(),
            r.wf(),
    {
        let r = DataMap { entries: Vec::new() };
        proof {
            assert(r@ =~= Seq::<DataEntryView>::empty());
        }
        r
    }

    /// Write a key into the payload, keeping the canonical order: the value
    /// replaces what the key already held, or the pair lands at its ordered
    /// place.
    #[verifier::loop_isolation(false)]
    pub fn set(&mut self, key: String, value: String)
        requires
            old(self).wf(),
        ensures
            final(self)@ == spec_data_set(old(self)@, key@, value@),
            final(self).wf(),
    {
        let n = self.entries.len();
        let mut p: usize = 0;
        while p < n && key_lt(self.entries[p].key.as_str(), key.as_str())
            invariant
                p <= n,
                n == self.entries@.len(),
                forall|k: int| 0 <= k < p ==> seq_char_lt((#[trigger] self@[k]).key, key@),
            decreases n - p,
        {
            proof {
                assert(self@[p as int] == self.entries@[p as int]@);
            }
            p = p + 1;
        }
        let ghost pre = self@;
        let ghost newv = DataEntryView { key: key@, value: value@ };
        proof {
            lemma_spec_data_set_skip(pre, key@, value@, p as int);
        }
        if p == n {
            self.entries.push(DataEntry { key, value });
            proof {
                assert(pre.skip(n as int) =~= Seq::<DataEntryView>::empty());
                assert(pre.take(n as int) =~= pre);
                assert(self@ =~= pre.push(newv));
                assert(pre + spec_data_set(Seq::<DataEntryView>::empty(), newv.key, newv.value)
                    =~= pre.push(newv));
                assert forall|i: int, j: int| 0 <= i < j < self@.len() implies seq_char_lt(
                    (#[trigger] self@[i]).key,
                    (#[trigger] self@[j]).key,
                ) by {
                    if j < pre.len() {
                        assert(self@[i] == pre[i]);
                        assert(self@[j] == pre[j]);
                    } else {
                        assert(self@[i] == pre[i]);
                        assert(self@[j] == newv);
                    }
                }
            }
        } else {
            proof {
                assert(self@[p as int] == self.entries@[p as int]@);
                assert(!seq_char_lt(pre[p as int].key, key@));
            }
            if key_lt(key.as_str(), self.entries[p].key.as_str()) {
                self.entries.insert(p, DataEntry { key, value });
                proof {
                    pre.insert_ensures(p as int, newv);
                    assert forall|q: int| 0 <= q < self@.len() implies #[trigger] self@[q]
                        == pre.insert(p as int, newv)[q] by {
                        if q < p as int {
                            assert(self.entries@[q] == old(self).entries@[q]);
                            assert(pre[q] == old(self).entries@[q]@);
                        } else if q == p as int {
                        } else {
                            assert(self.entries@[q] == old(self).entries@[q - 1]);
                            assert(pre[q - 1] == old(self).entries@[q - 1]@);
                        }
                    }
                    assert(self@ =~= pre.insert(p as int, newv));
                    assert(seq![newv] + pre.skip(p as int) =~= spec_data_set(
                        pre.skip(p as int),
                        newv.key,
                        newv.value,
                    ));
                    assert(self@ =~= pre.take(p as int) + (seq![newv] + pre.skip(p as int)));
                    assert forall|i: int, j: int| 0 <= i < j < self@.len() implies seq_char_lt(
                        (#[trigger] self@[i]).key,
                        (#[trigger] self@[j]).key,
                    ) by {
                        let nv = pre.insert(p as int, newv);
                        if j < p as int {
                            assert(nv[i] == pre[i]);
                            assert(nv[j] == pre[j]);
                        } else if i < p as int && j == p as int {
                            assert(nv[i] == pre[i]);
                        } else if i < p as int && j > p as int {
                            assert(nv[i] == pre[i]);
                            assert(nv[j] == pre[j - 1]);
                        } else if i == p as int {
                            assert(nv[j] == pre[j - 1]);
                            if (p as int) < j - 1 {
                                lemma_seq_char_lt_trans(
                                    newv.key,
                                    pre[p as int].key,
                                    pre[j - 1].key,
                                );
                            }
                        } else {
                            assert(nv[i] == pre[i - 1]);
                            assert(nv[j] == pre[j - 1]);
                        }
                    }
                }
            } else {
                proof {
                    lemma_seq_char_lt_total(key@, pre[p as int].key);
                    assert(key@ == pre[p as int].key);
                }
                self.entries[p] = DataEntry { key, value };
                proof {
                    assert forall|q: int| 0 <= q < self@.len() implies #[trigger] self@[q]
                        == pre.update(p as int, newv)[q] by {
                        if q != p as int {
                            assert(self.entries@[q] == old(self).entries@[q]);
                            assert(pre[q] == old(self).entries@[q]@);
                        }
                    }
                    assert(self@ =~= pre.update(p as int, newv));
                    assert(pre.skip(p as int).update(0, newv) =~= spec_data_set(
                        pre.skip(p as int),
                        newv.key,
                        newv.value,
                    ));
                    assert(self@ =~= pre.take(p as int) + pre.skip(p as int).update(0, newv));
                    assert forall|i: int, j: int| 0 <= i < j < self@.len() implies seq_char_lt(
                        (#[trigger] self@[i]).key,
                        (#[trigger] self@[j]).key,
                    ) by {
                        assert(self@[i].key == pre[i].key);
                        assert(self@[j].key == pre[j].key);
                    }
                }
            }
        }
    }

    /// Two payloads hold the same mapping.
    pub fn same_as(&self, other: &DataMap) -> (r: bool)
        ensures
            r == (self@ == other@),
    {
        if self.entries.len() != other.entries.len() {
            proof {
                assert(self@.len() == self.entries@.len());
                assert(other@.len() == other.entries@.len());
            }
            return false;
        }
        let n = self.entries.len();
        let mut i: usize = 0;
        while i < n
            invariant
                n == self.entries.len(),
                n == other.entries.len(),
                i <= n,
                forall|k: int| 0 <= k < i ==> self@[k] == other@[k],
            decreases n - i,
        {
            let a = &self.entries[i];
            let b = &other.entries[i];
            if !(a.key == b.key) {
                proof {
                    assert(self@[i as int].key == a.key@);
                    assert(other@[i as int].key == b.key@);
                }
                return false;
            }
            if !(a.value == b.value) {
                proof {
                    assert(self@[i as int].value == a.value@);
                    assert(other@[i as int].value == b.value@);
                }
                return false;
            }
            proof {
                assert(self@[i as int] == other@[i as int]);
            }
            i = i + 1;
        }
        proof {
            assert(self@ =~= other@);
        }
        true
    }
}

impl Clone for DataMap {
    fn clone(&self) -> (r: Self)
        ensures
            r@ == self@,
    {
        let entries = self.entries.clone();
        proof {
            assert forall|i: int| 0 <= i < entries@.len() implies entries@[i]@ == self.entries@[i]@ by {
                assert(cloned::<DataEntry>(self.entries@[i], entries@[i]));
            }
            assert(entries@.map_values(|e: DataEntry| e@) =~= self.entries@.map_values(
                |e: DataEntry| e@,
            ));
        }
        DataMap { entries }
    }
}

} // verus!
