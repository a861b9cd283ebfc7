use vstd::prelude::*;

use crate::driver::DriverError;
use crate::profile::{
    accepts, entrypoints_for, is_merge_of, profiles_view, queries_view, reported, strings_view, Profile,
    ProfileQuery, ProfileView, QueryView, STATUS_SUCCESS,
};

verus! {

proof fn lemma_entrypoints_push(qs: Seq<QueryView>, q: QueryView, n: Seq<char>)
    ensures
        entrypoints_for(qs.push(q), n) == (if accepts(q, n) {
            entrypoints_for(qs, n) + q.entrypoints
        } else {
            entrypoints_for(qs, n)
        }),
{
    assert(qs.push(q).drop_last() =~= qs);
}

proof fn lemma_reported_push(qs: Seq<QueryView>, q: QueryView, n: Seq<char>)
    ensures
        reported(qs.push(q), n) <==> (reported(qs, n) || accepts(q, n)),
{
    let s = qs.push(q);
    if reported(qs, n) {
        let i = choose|i: int| 0 <= i < qs.len() && accepts(#[trigger] qs[i], n);
        assert(s[i] == qs[i]);
    }
    if accepts(q, n) {
        assert(s[qs.len() as int] == q);
    }
    if reported(s, n) {
        let i = choose|i: int| 0 <= i < s.len() && accepts(#[trigger] s[i], n);
        if i < qs.len() {
            assert(s[i] == qs[i]);
        }
    }
}

/// Without a successful query for `n` there are no entry points for `n`.
proof fn lemma_unreported_empty(qs: Seq<QueryView>, n: Seq<char>)
    requires
        !reported(qs, n),
    ensures
        entrypoints_for(qs, n) == Seq::<Seq<char>>::empty(),
    decreases qs.len(),
{
    if qs.len() > 0 {
        let init = qs.drop_last();
        assert(init.push(qs.last()) =~= qs);
        lemma_reported_push(init, qs.last(), n);
        lemma_unreported_empty(init, n);
    }
}

proof fn lemma_strings_view_append(a: Seq<String>, b: Seq<String>)
    ensures
        strings_view(a + b) == strings_view(a) + strings_view(b),
{
    assert(strings_view(a + b) =~= strings_view(a) + strings_view(b));
}

proof fn lemma_step_skip(r: Seq<ProfileView>, qs: Seq<QueryView>, q: QueryView)
    requires
        is_merge_of(r, qs),
        q.status != STATUS_SUCCESS,
    ensures
        is_merge_of(r, qs.push(q)),
{
    let qs2 = qs.push(q);
    assert forall|i: int| 0 <= i < r.len() implies reported(qs2, #[trigger] r[i].name)
        && r[i].entrypoints == entrypoints_for(qs2, r[i].name) by {
        lemma_reported_push(qs, q, r[i].name);
        lemma_entrypoints_push(qs, q, r[i].name);
    }
    assert forall|n: Seq<char>| reported(qs2, n) implies exists|i: int|
        0 <= i < r.len() && #[trigger] r[i].name == n by {
        lemma_reported_push(qs, q, n);
    }
}

proof fn lemma_step_extend(r: Seq<ProfileView>, qs: Seq<QueryView>, q: QueryView, j: int)
    requires
        is_merge_of(r, qs),
        q.status == STATUS_SUCCESS,
        0 <= j < r.len(),
        r[j].name == q.name,
    ensures
        is_merge_of(
            r.update(j, ProfileView { name: q.name, entrypoints: r[j].entrypoints + q.entrypoints }),
            qs.push(q),
        ),
{
    let s = r.update(j, ProfileView { name: q.name, entrypoints: r[j].entrypoints + q.entrypoints });
    let qs2 = qs.push(q);
    assert forall|i: int| 0 <= i < s.len() implies reported(qs2, #[trigger] s[i].name)
        && s[i].entrypoints == entrypoints_for(qs2, s[i].name) by {
        lemma_reported_push(qs, q, s[i].name);
        lemma_entrypoints_push(qs, q, s[i].name);
        if i != j {
            assert(r[i].name != r[j].name);
        }
    }
    assert forall|n: Seq<char>| reported(qs2, n) implies exists|i: int|
        0 <= i < s.len() && #[trigger] s[i].name == n by {
        lemma_reported_push(qs, q, n);
        if reported(qs, n) {
            let i = choose|i: int| 0 <= i < r.len() && #[trigger] r[i].name == n;
            assert(s[i].name == n);
        } else {
            assert(s[j].name == n);
        }
    }
}

proof fn lemma_step_add(r: Seq<ProfileView>, qs: Seq<QueryView>, q: QueryView)
    requires
        is_merge_of(r, qs),
        q.status == STATUS_SUCCESS,
        forall|i: int| 0 <= i < r.len() ==> (#[trigger] r[i]).name != q.name,
    ensures
        is_merge_of(r.push(ProfileView { name: q.name, entrypoints: q.entrypoints }), qs.push(q)),
{
    let s = r.push(ProfileView { name: q.name, entrypoints: q.entrypoints });
    let qs2 = qs.push(q);
    if reported(qs, q.name) {
        let i = choose|i: int| 0 <= i < r.len() && #[trigger] r[i].name == q.name;
    }
    lemma_unreported_empty(qs, q.name);
    assert forall|i: int| 0 <= i < s.len() implies reported(qs2, #[trigger] s[i].name)
        && s[i].entrypoints == entrypoints_for(qs2, s[i].name) by {
        lemma_reported_push(qs, q, s[i].name);
        lemma_entrypoints_push(qs, q, s[i].name);
        if i == r.len() {
            assert(Seq::<Seq<char>>::empty() + q.entrypoints =~= q.entrypoints);
        }
    }
    assert forall|n: Seq<char>| reported(qs2, n) implies exists|i: int|
        0 <= i < s.len() && #[trigger] s[i].name == n by {
        lemma_reported_push(qs, q, n);
        if reported(qs, n) {
            let i = choose|i: int| 0 <= i < r.len() && #[trigger] r[i].name == n;
            assert(s[i].name == n);
        } else {
            assert(s[r.len() as int].name == n);
        }
    }
}

/// Position of the profile called `name` in `profiles`, if there is one.
fn find_name(profiles: &Vec<Profile>, name: &String) -> (r: Option<usize>)
    ensures
        match r {
            Some(j) => j < profiles@.len() && profiles@[j as int]@.name == name@,
            None => forall|i: int| 0 <= i < profiles@.len() ==> (#[trigger] profiles@[i])@.name != name@,
        },
{
    let mut j: usize = 0;
    while j < profiles.len()
        invariant
            j <= profiles@.len(),
            forall|i: int| 0 <= i < j ==> (#[trigger] profiles@[i])@.name != name@,
        decreases profiles@.len() - j,
    {
        if profiles[j].name == *name {
            return Some(j);
        }
        j = j + 1;
    }
    None
}

/// Merges the answers for each profile code into one profile per name. The
/// queries that did not succeed are left out; the entry points of queries
/// that share a name are concatenated in the order the queries come.
pub fn merge_profiles(queries: Vec<ProfileQuery>) -> (r: Vec<Profile>)
    ensures
        is_merge_of(profiles_view(r@), queries_view(queries@)),
{
    let ghost all = queries_view(queries@);
    let mut queries = queries;
    let mut result: Vec<Profile> = Vec::new();
    let ghost mut k: int = 0;
    assert(all.subrange(0, 0) =~= Seq::<QueryView>::empty());
    assert(queries_view(queries@) =~= all.subrange(0, all.len() as int));
    while queries.len() > 0
        invariant
            0 <= k <= all.len(),
            queries_view(queries@) == all.subrange(k, all.len() as int),
            is_merge_of(profiles_view(result@), all.subrange(0, k)),
        decreases queries@.len(),
    {
        let ghost rest = queries@;
        let q = queries.remove(0);
        let ghost done = all.subrange(0, k);
        let ghost before = profiles_view(result@);
        proof {
            assert(queries_view(rest)[0] == q@);
            assert(queries_view(rest).len() == rest.len());
            assert(all.subrange(k, all.len() as int)[0] == all[k]);
            assert(all[k] == q@);
            assert(all.subrange(0, k + 1) =~= done.push(q@));
            assert forall|i: int| 0 <= i < queries@.len() implies queries_view(queries@)[i]
                == all.subrange(k + 1, all.len() as int)[i] by {
                assert(queries@[i] == rest[i + 1]);
                assert(queries_view(rest)[i + 1] == all.subrange(k, all.len() as int)[i + 1]);
            }
            assert(queries_view(queries@) =~= all.subrange(k + 1, all.len() as int));
        }
        if q.status == STATUS_SUCCESS {
            let name = q.name;
            let mut eps = q.entrypoints;
            match find_name(&result, &name) {
                Some(j) => {
                    let ghost old_result = result@;
                    result[j].entrypoints.append(&mut eps);
                    proof {
                        lemma_strings_view_append(old_result[j as int].entrypoints@, q.entrypoints@);
                        lemma_step_extend(before, done, q@, j as int);
                        assert(profiles_view(result@) =~= before.update(
                            j as int,
                            ProfileView {
                                name: q@.name,
                                entrypoints: before[j as int].entrypoints + q@.entrypoints,
                            },
                        ));
                    }
                },
                None => {
                    result.push(Profile { name, entrypoints: eps });
                    proof {
                        lemma_step_add(before, done, q@);
                        assert(profiles_view(result@) =~= before.push(
                            ProfileView { name: q@.name, entrypoints: q@.entrypoints },
                        ));
                    }
                },
            }
        } else {
            proof {
                lemma_step_skip(before, done, q@);
            }
        }
        proof {
            k = k + 1;
        }
    }
    proof {
        assert(all.subrange(0, k) =~= all);
    }
    result
}

/// Enumerates the profiles from the driver's answers: `list_status` is the
/// status of the query for the list of profile codes, and `queries` holds,
/// in the order the driver listed the codes, the answer for each code.
/// A failed list query fails the whole enumeration; a failed query for one
/// code only leaves that code out.
pub fn profiles_from_queries(list_status: i32, queries: Vec<ProfileQuery>) -> (r: Result<
    Vec<Profile>,
    DriverError,
>)
    ensures
        list_status == STATUS_SUCCESS <==> r is Ok,
        list_status != STATUS_SUCCESS ==> r == Err::<Vec<Profile>, DriverError>(
            DriverError::Enumeration,
        ),
        r matches Ok(v) ==> is_merge_of(profiles_view(v@), queries_view(queries@)),
{
    if list_status != STATUS_SUCCESS {
        return Err(DriverError::Enumeration);
    }
    Ok(merge_profiles(queries))
}

/// Every name occurs once in a merged result.
pub proof fn lemma_names_unique(r: Seq<ProfileView>, qs: Seq<QueryView>)
    requires
        is_merge_of(r, qs),
    ensures
        forall|i: int, j: int| 0 <= i < j < r.len() ==> r[i].name != r[j].name,
{
}

/// A driver that lists no profile codes gives an empty result.
pub proof fn lemma_no_codes_no_profiles(r: Seq<ProfileView>)
    requires
        is_merge_of(r, Seq::<QueryView>::empty()),
    ensures
        r.len() == 0,
{
    if r.len() > 0 {
        assert(reported(Seq::<QueryView>::empty(), r[0].name));
    }
}

/// A profile name for which no entry-point query succeeded (the driver said
/// the profile is unsupported, or the query failed otherwise) is absent from
/// the result.
pub proof fn lemma_unsupported_absent(r: Seq<ProfileView>, qs: Seq<QueryView>, name: Seq<char>)
    requires
        is_merge_of(r, qs),
        forall|k: int| 0 <= k < qs.len() && (#[trigger] qs[k]).name == name ==> qs[k].status
            != STATUS_SUCCESS,
    ensures
        forall|i: int| 0 <= i < r.len() ==> (#[trigger] r[i]).name != name,
{
    assert forall|i: int| 0 <= i < r.len() implies (#[trigger] r[i]).name != name by {
        if r[i].name == name {
            let k = choose|k: int| 0 <= k < qs.len() && accepts(#[trigger] qs[k], name);
        }
    }
}

proof fn lemma_entrypoints_two(qs: Seq<QueryView>, a: int, b: int, name: Seq<char>, upto: int)
    requires
        0 <= a < b < qs.len(),
        accepts(qs[a], name),
        accepts(qs[b], name),
        forall|k: int| 0 <= k < qs.len() && k != a && k != b ==> !accepts(#[trigger] qs[k], name),
        0 <= upto <= qs.len(),
    ensures
        entrypoints_for(qs.subrange(0, upto), name) == (if upto <= a {
            Seq::<Seq<char>>::empty()
        } else if upto <= b {
            qs[a].entrypoints
        } else {
            qs[a].entrypoints + qs[b].entrypoints
        }),
    decreases upto,
{
    let s = qs.subrange(0, upto);
    if upto > 0 {
        assert(s.drop_last() =~= qs.subrange(0, upto - 1));
        assert(s.last() == qs[upto - 1]);
        lemma_entrypoints_two(qs, a, b, name, upto - 1);
        if upto - 1 == a {
            assert(Seq::<Seq<char>>::empty() + qs[a].entrypoints =~= qs[a].entrypoints);
        }
    }
}

/// When exactly two successful queries share a name, the result holds that
/// name once, with the entry points of the earlier query followed by those of
/// the later one.
pub proof fn lemma_same_name_merged(r: Seq<ProfileView>, qs: Seq<QueryView>, a: int, b: int)
    requires
        is_merge_of(r, qs),
        0 <= a < b < qs.len(),
        qs[a].status == STATUS_SUCCESS,
        qs[b].status == STATUS_SUCCESS,
        qs[a].name == qs[b].name,
        forall|k: int|
            0 <= k < qs.len() && k != a && k != b && (#[trigger] qs[k]).name == qs[a].name
                ==> qs[k].status != STATUS_SUCCESS,
    ensures
        exists|i: int|
            0 <= i < r.len() && (#[trigger] r[i]).name == qs[a].name && r[i].entrypoints
                == qs[a].entrypoints + qs[b].entrypoints,
        forall|i: int, j: int|
            0 <= i < r.len() && 0 <= j < r.len() && (#[trigger] r[i]).name == qs[a].name
                && (#[trigger] r[j]).name == qs[a].name ==> i == j,
{
    let name = qs[a].name;
    assert(accepts(qs[a], name));
    assert(reported(qs, name));
    lemma_entrypoints_two(qs, a, b, name, qs.len() as int);
    assert(qs.subrange(0, qs.len() as int) =~= qs);
    let i = choose|i: int| 0 <= i < r.len() && #[trigger] r[i].name == name;
    assert(r[i].entrypoints == entrypoints_for(qs, name));
}

/// Two results merged from the same answers hold the same profiles, in
/// whatever order.
pub proof fn lemma_merge_deterministic(r1: Seq<ProfileView>, r2: Seq<ProfileView>, qs: Seq<QueryView>)
    requires
        is_merge_of(r1, qs),
        is_merge_of(r2, qs),
    ensures
        r1.to_set() == r2.to_set(),
{
    assert forall|p: ProfileView| r1.to_set().contains(p) implies r2.to_set().contains(p) by {
        let i = choose|i: int| 0 <= i < r1.len() && r1[i] == p;
        assert(reported(qs, r1[i].name));
        let j = choose|j: int| 0 <= j < r2.len() && #[trigger] r2[j].name == p.name;
        assert(r2[j] == p);
    }
    assert forall|p: ProfileView| r2.to_set().contains(p) implies r1.to_set().contains(p) by {
        let i = choose|i: int| 0 <= i < r2.len() && r2[i] == p;
        assert(reported(qs, r2[i].name));
        let j = choose|j: int| 0 <= j < r1.len() && #[trigger] r1[j].name == p.name;
        assert(r1[j] == p);
    }
    assert(r1.to_set() =~= r2.to_set());
}

} // verus!
