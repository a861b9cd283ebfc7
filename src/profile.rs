use vstd::prelude::*;

verus! {

/// The driver's status code for a call that succeeded.
pub const STATUS_SUCCESS: i32 = 0;

/// The driver's status code for a profile it does not support.
pub const STATUS_UNSUPPORTED_PROFILE: i32 = 12;

/// A named codec profile with the entry points the driver offers for it.
#[derive(Clone, Debug, Default, PartialEq, Eq)]
pub struct Profile {
    pub name: String,
    pub entrypoints: Vec<String>,
}

/// What the driver answered for one profile code: the code's name, the
/// status of the entry-point query, and the names of the entry points.
#[derive(Clone, Debug, Default, PartialEq, Eq)]
pub struct ProfileQuery {
    pub name: String,
    pub status: i32,
    pub entrypoints: Vec<String>,
}

/// A profile as its name and the names of its entry points.
pub struct ProfileView {
    pub name: Seq<char>,
    pub entrypoints: Seq<Seq<char>>,
}

/// A query's answer as plain values.
pub struct QueryView {
    pub name: Seq<char>,
    pub status: i32,
    pub entrypoints: Seq<Seq<char>>,
}

pub open spec fn strings_view(v: Seq<String>) -> Seq<Seq<char>> {
    v.map_values(|s: String| s@)
}

impl View for Profile {
    type V = ProfileView;

    open spec fn view(&self) -> ProfileView {
        ProfileView { name: self.name@, entrypoints: strings_view(self.entrypoints@) }
    }
}

impl View for ProfileQuery {
    type V = QueryView;

    open spec fn view(&self) -> QueryView {
        QueryView {
            name: self.name@,
            status: self.status,
            entrypoints: strings_view(self.entrypoints@),
        }
    }
}

pub open spec fn profiles_view(v: Seq<Profile>) -> Seq<ProfileView> {
    v.map_values(|p: Profile| p@)
}

pub open spec fn queries_view(v: Seq<ProfileQuery>) -> Seq<QueryView> {
    v.map_values(|q: ProfileQuery| q@)
}

/// The query `q` succeeded and its profile code is called `name`.
pub open spec fn accepts(q: QueryView, name: Seq<char>) -> bool {
    q.status == STATUS_SUCCESS && q.name == name
}

/// Some successful query in `qs` names the profile `name`.
pub open spec fn reported(qs: Seq<QueryView>, name: Seq<char>) -> bool {
    exists|i: int| 0 <= i < qs.len() && accepts(#[trigger] qs[i], name)
}

/// The entry points of every successful query named `name`, concatenated in
/// the order the queries come.
pub open spec fn entrypoints_for(qs: Seq<QueryView>, name: Seq<char>) -> Seq<Seq<char>>
    decreases qs.len(),
{
    if qs.len() == 0 {
        Seq::empty()
    } else {
        let rest = entrypoints_for(qs.drop_last(), name);
        if accepts(qs.last(), name) {
            rest + qs.last().entrypoints
        } else {
            rest
        }
    }
}

/// No two profiles share a name.
pub open spec fn names_unique(r: Seq<ProfileView>) -> bool {
    forall|i: int, j: int| 0 <= i < r.len() && 0 <= j < r.len() && i != j ==> r[i].name != r[j].name
}

/// `r` is the merged result of the queries `qs`: one profile per name that a
/// successful query reports, holding the entry points of all such queries.
pub open spec fn is_merge_of(r: Seq<ProfileView>, qs: Seq<QueryView>) -> bool {
    &&& names_unique(r)
    &&& forall|i: int|
        0 <= i < r.len() ==> reported(qs, #[trigger] r[i].name) && r[i].entrypoints
            == entrypoints_for(qs, r[i].name)
    &&& forall|n: Seq<char>| reported(qs, n) ==> exists|i: int| 0 <= i < r.len() && #[trigger] r[i].name == n
}

} // verus!
