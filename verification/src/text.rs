//! Small verified text utilities: decimal rendering of row ids for error
//! messages, the key-matching rule of the key-value store, and the
//! comma-separated form the application allow-list is persisted in.

use vstd::prelude::*;
use vstd::string::StrSliceExecFns;
use vstd::string::StringExecFns;

verus! {

/// The decimal digit character for a value between 0 and 9.
pub open spec fn digit_char(d: int) -> char {
    "0123456789"@[d]
}

/// The decimal rendering of a non-negative number, most significant digit
/// first.
pub open spec fn spec_u64_string(n: int) -> Seq<char>
    decreases n,
{
    if n < 10 {
        seq![digit_char(n)]
    } else {
        spec_u64_string(n / 10).push(digit_char(n % 10))
    }
}

/// The decimal rendering of a signed number.
pub open spec fn spec_i64_string(x: int) -> Seq<char> {
    if x < 0 {
        seq!['-'] + spec_u64_string(-x)
    } else {
        spec_u64_string(x)
    }
}

/// Render a non-negative number in decimal.
pub fn u64_string(n: u64) -> (r: String)
    ensures
        r@ == spec_u64_string(n as int),
    decreases n,
{
    let digits = "0123456789";
    proof {
        reveal_strlit("0123456789");
    }
    if n < 10 {
        let r = digits.substring_char(n as usize, n as usize + 1).to_owned();
        proof {
            assert(r@ =~= spec_u64_string(n as int));
        }
        r
    } else {
        let prefix = u64_string(n / 10);
        let d = (n % 10) as usize;
        let r = prefix.concat(digits.substring_char(d, d + 1));
        proof {
            assert(r@ =~= spec_u64_string(n as int));
        }
        r
    }
}

/// Render a signed number in decimal.
pub fn i64_string(x: i64) -> (r: String)
    ensures
        r@ == spec_i64_string(x as int),
{
    if x < 0 {
        let magnitude: u64 = (-(x as i128)) as u64;
        proof {
            reveal_strlit("-");
        }
        let r = "-".to_owned().concat(u64_string(magnitude).as_str());
        proof {
            assert(r@ =~= spec_i64_string(x as int));
        }
        r
    } else {
        u64_string(x as u64)
    }
}

/// Render a signed 32-bit number in decimal.
pub fn i32_string(x: i32) -> (r: String)
    ensures
        r@ == spec_i64_string(x as int),
{
    i64_string(x as i64)
}

/// Whether two strings hold the same characters.
pub fn str_eq(a: &str, b: &str) -> (r: bool)
    ensures
        r == (a@ == b@),
{
    let al = a.unicode_len();
    let bl = b.unicode_len();
    if al != bl {
        return false;
    }
    let mut i: usize = 0;
    while i < al
        invariant
            i <= al,
            al == a@.len(),
            al == b@.len(),
            forall|k: int| 0 <= k < i ==> a@[k] == b@[k],
        decreases al - i,
    {
        if a.get_char(i) != b.get_char(i) {
            proof {
                if a@ == b@ {
                    assert(false);
                }
            }
            return false;
        }
        i = i + 1;
    }
    proof {
        assert(a@ =~= b@);
    }
    true
}

/// A character folded to lower case where it is an ASCII letter, as its code
/// point.
pub open spec fn ascii_lower(c: char) -> int {
    if 'A' <= c <= 'Z' {
        c as int + 32
    } else {
        c as int
    }
}

/// Whether a key character answers a pattern character: equal up to ASCII
/// case, as the storage engine's key matching has it.
pub open spec fn like_char_eq(p: char, c: char) -> bool {
    ascii_lower(p) == ascii_lower(c)
}

/// SQL-LIKE matching of a whole string: `%` matches any run of characters,
/// `_` exactly one, anything else itself, case-insensitively for ASCII
/// letters.
pub open spec fn spec_like_match(p: Seq<char>, s: Seq<char>) -> bool
    decreases p.len() + s.len(),
{
    if p.len() == 0 {
        s.len() == 0
    } else if p[0] == '%' {
        spec_like_match(p.skip(1), s) || (s.len() > 0 && spec_like_match(p, s.skip(1)))
    } else if p[0] == '_' {
        s.len() > 0 && spec_like_match(p.skip(1), s.skip(1))
    } else {
        s.len() > 0 && like_char_eq(p[0], s[0]) && spec_like_match(p.skip(1), s.skip(1))
    }
}

/// Match the pattern suffix from `pi` against the string suffix from `si`.
fn like_match_from(p: &str, s: &str, pi: usize, si: usize, plen: usize, slen: usize) -> (r: bool)
    requires
        plen == p@.len(),
        slen == s@.len(),
        pi <= plen,
        si <= slen,
    ensures
        r == spec_like_match(p@.skip(pi as int), s@.skip(si as int)),
    decreases plen - pi + slen - si,
{
    let ghost psuf = p@.skip(pi as int);
    let ghost ssuf = s@.skip(si as int);
    if pi == plen {
        proof {
            assert(psuf.len() == 0);
        }
        return si == slen;
    }
    let pc = p.get_char(pi);
    proof {
        assert(psuf[0] == p@[pi as int]);
        assert(p@.skip(pi as int + 1) =~= psuf.skip(1));
        if si < slen {
            assert(s@.skip(si as int + 1) =~= ssuf.skip(1));
        }
    }
    if pc == '%' {
        if like_match_from(p, s, pi + 1, si, plen, slen) {
            return true;
        }
        if si < slen {
            return like_match_from(p, s, pi, si + 1, plen, slen);
        }
        return false;
    }
    if si == slen {
        proof {
            assert(ssuf.len() == 0);
        }
        return false;
    }
    let sc = s.get_char(si);
    proof {
        assert(ssuf[0] == s@[si as int]);
    }
    if pc == '_' {
        return like_match_from(p, s, pi + 1, si + 1, plen, slen);
    }
    let pl: u32 = if 'A' <= pc && pc <= 'Z' {
        pc as u32 + 32
    } else {
        pc as u32
    };
    let sl: u32 = if 'A' <= sc && sc <= 'Z' {
        sc as u32 + 32
    } else {
        sc as u32
    };
    if pl == sl {
        like_match_from(p, s, pi + 1, si + 1, plen, slen)
    } else {
        false
    }
}

/// Whether a string answers an SQL-LIKE pattern.
pub fn like_match(p: &str, s: &str) -> (r: bool)
    ensures
        r == spec_like_match(p@, s@),
{
    let plen = p.unicode_len();
    let slen = s.unicode_len();
    let r = like_match_from(p, s, 0, 0, plen, slen);
    proof {
        assert(p@.skip(0) =~= p@);
        assert(s@.skip(0) =~= s@);
    }
    r
}

/// The pieces of a string split at every comma.  Splitting never yields an
/// empty sequence: a string without commas is one piece.
pub open spec fn spec_split_commas(s: Seq<char>) -> Seq<Seq<char>>
    decreases s.len(),
{
    if s.len() == 0 {
        seq![Seq::<char>::empty()]
    } else if s[0] == ',' {
        seq![Seq::<char>::empty()] + spec_split_commas(s.skip(1))
    } else {
        let rest = spec_split_commas(s.skip(1));
        rest.update(0, seq![s[0]] + rest[0])
    }
}

/// Splitting yields at least one piece.
pub proof fn lemma_split_commas_nonempty(s: Seq<char>)
    ensures
        spec_split_commas(s).len() >= 1,
    decreases s.len(),
{
    if s.len() != 0 {
        lemma_split_commas_nonempty(s.skip(1));
    }
}

/// Split the string suffix from `i` at every comma.
fn split_commas_from(s: &str, i: usize, slen: usize) -> (r: Vec<String>)
    requires
        slen == s@.len(),
        i <= slen,
    ensures
        r@.map_values(|piece: String| piece@) == spec_split_commas(s@.skip(i as int)),
        r@.len() >= 1,
    decreases slen - i,
{
    let ghost suf = s@.skip(i as int);
    if i == slen {
        proof {
            assert(suf.len() == 0);
        }
        let mut r: Vec<String> = Vec::new();
        r.push(String::new());
        proof {
            assert(r@.map_values(|piece: String| piece@) =~= spec_split_commas(suf));
        }
        return r;
    }
    let c = s.get_char(i);
    proof {
        assert(suf[0] == s@[i as int]);
        assert(s@.skip(i as int + 1) =~= suf.skip(1));
    }
    let mut rest = split_commas_from(s, i + 1, slen);
    if c == ',' {
        rest.insert(0, String::new());
        proof {
            assert(rest@.map_values(|piece: String| piece@) =~= spec_split_commas(suf));
        }
        rest
    } else {
        let head = rest.remove(0);
        let piece = s.substring_char(i, i + 1).to_owned().concat(head.as_str());
        rest.insert(0, piece);
        proof {
            let ghost frest = spec_split_commas(suf.skip(1));
            lemma_split_commas_nonempty(suf.skip(1));
            assert(piece@ =~= seq![suf[0]] + frest[0]);
            assert(rest@.map_values(|piece: String| piece@) =~= spec_split_commas(suf));
        }
        rest
    }
}

/// Split a string at every comma.
pub fn split_commas(s: &str) -> (r: Vec<String>)
    ensures
        r@.map_values(|piece: String| piece@) == spec_split_commas(s@),
        r@.len() >= 1,
{
    let slen = s.unicode_len();
    let r = split_commas_from(s, 0, slen);
    proof {
        assert(s@.skip(0) =~= s@);
    }
    r
}

} // verus!
