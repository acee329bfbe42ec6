//! Teams: groups of users under one owner, with a per-team application
//! allow-list, and the request/response shapes built from them.

use vstd::prelude::*;

verus! {

/// One team row.
#[allow(non_snake_case)]
#[derive(Debug)]
pub struct Team {
    pub id: i32,
    pub name: String,
    pub description: String,
    pub ownerId: i32,
}

/// The mathematical content of a team.
#[allow(non_snake_case)]
pub ghost struct TeamView {
    pub id: int,
    pub name: Seq<char>,
    pub description: Seq<char>,
    pub ownerId: int,
}

impl View for Team {
    type V = TeamView;

    open spec fn view(&self) -> TeamView {
        TeamView {
            id: self.id as int,
            name: self.name@,
            description: self.description@,
            ownerId: self.ownerId as int,
        }
    }
}

impl Clone for Team {
    fn clone(&self) -> (r: Self)
        ensures
            r@ == self@,
    {
        Team {
            id: self.id,
            name: self.name.clone(),
            description: self.description.clone(),
            ownerId: self.ownerId,
        }
    }
}

/// The shape of a team-creation request.
#[allow(non_snake_case)]
pub struct TeamRequestModel {
    pub name: String,
    pub description: String,
    pub ownerId: i32,
}

impl View for TeamRequestModel {
    type V = TeamView;

    open spec fn view(&self) -> TeamView {
        TeamView {
            id: 0,
            name: self.name@,
            description: self.description@,
            ownerId: self.ownerId as int,
        }
    }
}

/// A team as listed to its owner, with its member count.
pub struct TeamResponseModel {
    pub id: i32,
    pub name: String,
    pub description: String,
    pub count: i64,
}

/// One team membership, joined with the member's account fields.
#[derive(Debug)]
pub struct Member {
    pub id: i32,
    pub user_id: i32,
    pub name: String,
    pub lastname: String,
    pub email: String,
}

/// The mathematical content of a membership row.
pub ghost struct MemberView {
    pub id: int,
    pub user_id: int,
    pub name: Seq<char>,
    pub lastname: Seq<char>,
    pub email: Seq<char>,
}

impl View for Member {
    type V = MemberView;

    open spec fn view(&self) -> MemberView {
        MemberView {
            id: self.id as int,
            user_id: self.user_id as int,
            name: self.name@,
            lastname: self.lastname@,
            email: self.email@,
        }
    }
}

impl Clone for Member {
    fn clone(&self) -> (r: Self)
        ensures
            r@ == self@,
    {
        Member {
            id: self.id,
            user_id: self.user_id,
            name: self.name.clone(),
            lastname: self.lastname.clone(),
            email: self.email.clone(),
        }
    }
}

/// A team with its members and allow-list inlined.
pub struct TeamDetailModel {
    pub id: i32,
    pub name: String,
    pub description: String,
    pub members: Vec<Member>,
    pub apps: Vec<String>,
}

/// A team as listed to one of its members.
#[derive(Debug)]
pub struct TeamUserModel {
    pub id: i32,
    pub name: String,
    pub description: String,
}

/// The mathematical content of a member-side team listing.
pub ghost struct TeamUserModelView {
    pub id: int,
    pub name: Seq<char>,
    pub description: Seq<char>,
}

impl View for TeamUserModel {
    type V = TeamUserModelView;

    open spec fn view(&self) -> TeamUserModelView {
        TeamUserModelView { id: self.id as int, name: self.name@, description: self.description@ }
    }
}

/// A team's configuration: its application allow-list.
#[derive(Debug)]
pub struct TeamConfiguration {
    pub id: i32,
    pub team_id: i32,
    pub apps: Vec<String>,
}

/// The mathematical content of a team configuration.
pub ghost struct TeamConfigurationView {
    pub id: int,
    pub team_id: int,
    pub apps: Seq<Seq<char>>,
}

impl View for TeamConfiguration {
    type V = TeamConfigurationView;

    open spec fn view(&self) -> TeamConfigurationView {
        TeamConfigurationView {
            id: self.id as int,
            team_id: self.team_id as int,
            apps: self.apps@.map_values(|s: String| s@),
        }
    }
}

/// The body of an HTTP team-creation call.
pub struct TeamModel {
    pub name: String,
    pub description: String,
}

} // verus!
