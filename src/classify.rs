//! Telling exact duplicates of the original from copies that diverged.

use vstd::prelude::*;

verus! {

/// A family member with its content digest, and whether that digest is the
/// original's.
#[derive(Debug)]
pub struct ClassifiedMember {
    pub path: String,
    pub digest: String,
    pub exact: bool,
}

/// The texts of a sequence of strings.
pub open spec fn texts_of(v: Seq<String>) -> Seq<Seq<char>> {
    v.map_values(|s: String| s@)
}

/// The paths of the exact duplicates, in family order.
pub open spec fn exact_of(c: Seq<ClassifiedMember>) -> Seq<Seq<char>>
    decreases c.len(),
{
    if c.len() == 0 {
        seq![]
    } else if c.last().exact {
        exact_of(c.drop_last()).push(c.last().path@)
    } else {
        exact_of(c.drop_last())
    }
}

/// The paths of the diverged members, in family order.
pub open spec fn diverged_of(c: Seq<ClassifiedMember>) -> Seq<Seq<char>>
    decreases c.len(),
{
    if c.len() == 0 {
        seq![]
    } else if !c.last().exact {
        diverged_of(c.drop_last()).push(c.last().path@)
    } else {
        diverged_of(c.drop_last())
    }
}

/// `c` classifies `members`, whose digests are `digests`, against the
/// original's digest `original`.
pub open spec fn classified_as(
    original: Seq<char>,
    members: Seq<Seq<char>>,
    digests: Seq<Seq<char>>,
    c: Seq<ClassifiedMember>,
) -> bool {
    &&& c.len() == members.len()
    &&& c.len() == digests.len()
    &&& forall|i: int|
        #![trigger c[i]]
        0 <= i < c.len() ==> {
            &&& c[i].path@ == members[i]
            &&& c[i].digest@ == digests[i]
            &&& c[i].exact == (digests[i] == original)
        }
}

/// Labels each member exact when its digest equals the original's digest,
/// diverged otherwise. `digests[i]` is the digest of `members[i]`.
pub fn classify(original_digest: &String, members: &Vec<String>, digests: &Vec<String>) -> (r: Vec<
    ClassifiedMember,
>)
    requires
        members.len() == digests.len(),
    ensures
        classified_as(original_digest@, texts_of(members@), texts_of(digests@), r@),
{
    let mut r: Vec<ClassifiedMember> = Vec::new();
    for i in 0..members.len()
        invariant
            members.len() == digests.len(),
            classified_as(
                original_digest@,
                texts_of(members@.subrange(0, i as int)),
                texts_of(digests@.subrange(0, i as int)),
                r@,
            ),
    {
        let exact = digests[i] == *original_digest;
        r.push(ClassifiedMember { path: members[i].clone(), digest: digests[i].clone(), exact });
        assert(texts_of(members@.subrange(0, i + 1)) =~= texts_of(members@.subrange(0, i as int)).push(members@[i as int]@));
        assert(texts_of(digests@.subrange(0, i + 1)) =~= texts_of(digests@.subrange(0, i as int)).push(digests@[i as int]@));
    }
    assert(members@.subrange(0, members.len() as int) =~= members@);
    assert(digests@.subrange(0, digests.len() as int) =~= digests@);
    r
}

/// The paths of the members labelled `exact` (or not), in family order.
fn paths_labelled(c: &Vec<ClassifiedMember>, exact: bool) -> (r: Vec<String>)
    ensures
        texts_of(r@) == if exact {
            exact_of(c@)
        } else {
            diverged_of(c@)
        },
{
    let mut r: Vec<String> = Vec::new();
    for i in 0..c.len()
        invariant
            texts_of(r@) == if exact {
                exact_of(c@.subrange(0, i as int))
            } else {
                diverged_of(c@.subrange(0, i as int))
            },
    {
        assert(c@.subrange(0, i + 1).drop_last() =~= c@.subrange(0, i as int));
        if c[i].exact == exact {
            r.push(c[i].path.clone());
        }
        assert(texts_of(r@) =~= if exact {
            exact_of(c@.subrange(0, i + 1))
        } else {
            diverged_of(c@.subrange(0, i + 1))
        });
    }
    assert(c@.subrange(0, c.len() as int) =~= c@);
    r
}

/// The paths of the exact duplicates, in family order.
pub fn exact_members(c: &Vec<ClassifiedMember>) -> (r: Vec<String>)
    ensures
        texts_of(r@) == exact_of(c@),
{
    paths_labelled(c, true)
}

/// The paths of the diverged members, in family order: those whose creation
/// times `resolve` needs.
pub fn diverged_members(c: &Vec<ClassifiedMember>) -> (r: Vec<String>)
    ensures
        texts_of(r@) == diverged_of(c@),
{
    paths_labelled(c, false)
}

} // verus!
