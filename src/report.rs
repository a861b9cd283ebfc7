use vstd::prelude::*;

use crate::profile::{profiles_view, Profile, ProfileView};

verus! {

/// `a` comes no later than `b` in the order of `String`'s `Ord`: code point
/// by code point, a prefix first.
pub open spec fn lex_le(a: Seq<char>, b: Seq<char>) -> bool
    decreases a.len(),
{
    if a.len() == 0 {
        true
    } else if b.len() == 0 {
        false
    } else if a[0] as u32 != b[0] as u32 {
        (a[0] as u32) < (b[0] as u32)
    } else {
        lex_le(a.drop_first(), b.drop_first())
    }
}

/// The profiles are in order of their names.
pub open spec fn sorted_by_name(r: Seq<ProfileView>) -> bool {
    forall|i: int, j: int| 0 <= i < j < r.len() ==> lex_le(r[i].name, r[j].name)
}

proof fn lemma_lex_total(a: Seq<char>, b: Seq<char>)
    ensures
        lex_le(a, b) || lex_le(b, a),
    decreases a.len(),
{
    if a.len() > 0 && b.len() > 0 && a[0] as u32 == b[0] as u32 {
        lemma_lex_total(a.drop_first(), b.drop_first());
    }
}

proof fn lemma_lex_trans(a: Seq<char>, b: Seq<char>, c: Seq<char>)
    requires
        lex_le(a, b),
        lex_le(b, c),
    ensures
        lex_le(a, c),
    decreases a.len(),
{
    if a.len() > 0 && b.len() > 0 && c.len() > 0 && a[0] as u32 == b[0] as u32 && b[0] as u32
        == c[0] as u32 {
        lemma_lex_trans(a.drop_first(), b.drop_first(), c.drop_first());
    }
}

/// Whether the name `a` comes no later than the name `b`.
fn name_le(a: &String, b: &String) -> (r: bool)
    ensures
        r == lex_le(a@, b@),
{
    let sa = a.as_str();
    let sb = b.as_str();
    let la = sa.unicode_len();
    let lb = sb.unicode_len();
    let mut i: usize = 0;
    assert(a@.skip(0) =~= a@);
    assert(b@.skip(0) =~= b@);
    while i < la && i < lb
        invariant
            sa@ == a@,
            sb@ == b@,
            la == a@.len(),
            lb == b@.len(),
            i <= la,
            i <= lb,
            lex_le(a@, b@) == lex_le(a@.skip(i as int), b@.skip(i as int)),
        decreases la - i,
    {
        let ca = sa.get_char(i);
        let cb = sb.get_char(i);
        assert(a@.skip(i as int)[0] == ca);
        assert(b@.skip(i as int)[0] == cb);
        if ca as u32 != cb as u32 {
            return (ca as u32) < (cb as u32);
        }
        assert(a@.skip(i as int).drop_first() =~= a@.skip(i + 1));
        assert(b@.skip(i as int).drop_first() =~= b@.skip(i + 1));
        i = i + 1;
    }
    i == la
}

proof fn lemma_insert_sorted(r: Seq<ProfileView>, p: int, x: ProfileView)
    requires
        sorted_by_name(r),
        0 <= p <= r.len(),
        forall|k: int| 0 <= k < p ==> lex_le((#[trigger] r[k]).name, x.name),
        p < r.len() ==> !lex_le(r[p].name, x.name),
    ensures
        sorted_by_name(r.insert(p, x)),
{
    let s = r.insert(p, x);
    if p < r.len() {
        lemma_lex_total(r[p].name, x.name);
    }
    assert forall|i: int, j: int| 0 <= i < j < s.len() implies lex_le(s[i].name, s[j].name) by {
        if j == p {
            assert(s[i] == r[i]);
        } else if i == p {
            assert(s[j] == r[j - 1]);
            if j - 1 > p {
                lemma_lex_trans(x.name, r[p].name, r[j - 1].name);
            }
        } else {
            let ri = if i < p { i } else { i - 1 };
            let rj = if j < p { j } else { j - 1 };
            assert(s[i] == r[ri]);
            assert(s[j] == r[rj]);
        }
    }
}

/// Orders the profiles by name, as `String`'s `Ord` compares them.
pub fn sort_by_name(profiles: Vec<Profile>) -> (r: Vec<Profile>)
    ensures
        sorted_by_name(profiles_view(r@)),
        profiles_view(r@).to_multiset() == profiles_view(profiles@).to_multiset(),
{
    let ghost orig = profiles_view(profiles@);
    let mut rest = profiles;
    let mut out: Vec<Profile> = Vec::new();
    let ghost mut k: int = 0;
    assert(orig.subrange(0, 0) =~= Seq::<ProfileView>::empty());
    assert(profiles_view(out@) =~= Seq::<ProfileView>::empty());
    assert(profiles_view(rest@) =~= orig.subrange(0, orig.len() as int));
    while rest.len() > 0
        invariant
            0 <= k <= orig.len(),
            profiles_view(rest@) == orig.subrange(k, orig.len() as int),
            sorted_by_name(profiles_view(out@)),
            profiles_view(out@).to_multiset() == orig.subrange(0, k).to_multiset(),
        decreases rest@.len(),
    {
        let ghost before_rest = rest@;
        let x = rest.remove(0);
        let ghost ov = profiles_view(out@);
        proof {
            assert(profiles_view(before_rest)[0] == x@);
            assert(profiles_view(before_rest).len() == before_rest.len());
            assert(orig.subrange(k, orig.len() as int)[0] == orig[k]);
            assert(orig.subrange(0, k + 1) =~= orig.subrange(0, k).push(x@));
            assert forall|i: int| 0 <= i < rest@.len() implies profiles_view(rest@)[i]
                == orig.subrange(k + 1, orig.len() as int)[i] by {
                assert(rest@[i] == before_rest[i + 1]);
                assert(profiles_view(before_rest)[i + 1] == orig.subrange(k, orig.len() as int)[i
                    + 1]);
            }
            assert(profiles_view(rest@) =~= orig.subrange(k + 1, orig.len() as int));
        }
        let mut j: usize = 0;
        while j < out.len() && name_le(&out[j].name, &x.name)
            invariant
                j <= out@.len(),
                ov == profiles_view(out@),
                forall|m: int| 0 <= m < j ==> lex_le((#[trigger] ov[m]).name, x@.name),
            decreases out@.len() - j,
        {
            j = j + 1;
        }
        out.insert(j, x);
        proof {
            lemma_insert_sorted(ov, j as int, x@);
            assert(profiles_view(out@) =~= ov.insert(j as int, x@));
            vstd::seq_lib::to_multiset_insert(ov, j as int, x@);
            vstd::seq_lib::to_multiset_build(orig.subrange(0, k), x@);
            assert(orig.subrange(0, k + 1) == orig.subrange(0, k).push(x@));
            k = k + 1;
        }
    }
    proof {
        assert(orig.subrange(0, k) =~= orig);
    }
    out
}

} // verus!
