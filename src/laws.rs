//! Properties of the plan that hold for every family.

use vstd::prelude::*;
use crate::classify::{classified_as, diverged_of, ClassifiedMember};
use crate::matcher::found_in;
use crate::plan::{
    closing_lines, duplicate_removal_line, header_line, join_lines, lines_for, member_lines,
    plan_lines, removal_line, rename_line, trace_line,
};
use crate::retention::{
    diverged_stamps, lemma_newest_first_unique, lemma_stamp_order, ranked_of,
    resolves_to, stamp_less, stamps_of, RetentionDecision,
};

verus! {

broadcast use vstd::seq_lib::group_to_multiset_ensures;

/// A line that renames a file: one that starts with `mv `.
pub open spec fn is_rename_line(line: Seq<char>) -> bool {
    "mv "@.is_prefix_of(line)
}

/// The first character of each kind of line.
proof fn lemma_line_kinds(a: Seq<char>, b: Seq<char>)
    ensures
        header_line(a, b).len() > 0 && header_line(a, b)[0] == '#',
        trace_line(a, b).len() > 0 && trace_line(a, b)[0] == '#',
        duplicate_removal_line(a, b).len() > 0 && duplicate_removal_line(a, b)[0] == 'r',
        removal_line(a).len() > 0 && removal_line(a)[0] == 'r',
        is_rename_line(rename_line(a, b)),
        forall|l: Seq<char>| l.len() > 0 && l[0] != 'm' ==> !is_rename_line(l),
{
    reveal_strlit("# ------------------------------ ");
    reveal_strlit("# ");
    reveal_strlit("rm \"");
    reveal_strlit("mv \"");
    reveal_strlit("mv ");
    assert(header_line(a, b)[0] == "# ------------------------------ "@[0]);
    assert(trace_line(a, b)[0] == "# "@[0]);
    assert(duplicate_removal_line(a, b)[0] == "rm \""@[0]);
    assert(removal_line(a)[0] == "rm \""@[0]);
    assert(rename_line(a, b).subrange(0, 3) =~= "mv "@);
    assert forall|l: Seq<char>| l.len() > 0 && l[0] != 'm' implies !is_rename_line(l) by {
        if is_rename_line(l) {
            assert(l[0] == l.subrange(0, 3)[0]);
        }
    }
}

/// No member line renames anything.
proof fn lemma_member_lines_rename_nothing(original: Seq<char>, c: Seq<ClassifiedMember>)
    ensures
        forall|k: int|
            0 <= k < member_lines(original, c).len() ==> !is_rename_line(
                #[trigger] member_lines(original, c)[k],
            ),
    decreases c.len(),
{
    if c.len() > 0 {
        let m = c.last();
        lemma_member_lines_rename_nothing(original, c.drop_last());
        lemma_line_kinds(m.path@, m.digest@);
        lemma_line_kinds(m.path@, original);
        let init = member_lines(original, c.drop_last());
        assert forall|k: int| 0 <= k < member_lines(original, c).len() implies !is_rename_line(
            #[trigger] member_lines(original, c)[k],
        ) by {
            if k >= init.len() {
                assert(member_lines(original, c)[k] == lines_for(original, m)[k - init.len()]);
            } else {
                assert(member_lines(original, c)[k] == init[k]);
            }
        }
    }
}

/// An exact member's removal line is among the member lines.
proof fn lemma_member_lines_remove_exact(original: Seq<char>, c: Seq<ClassifiedMember>, i: int)
    requires
        0 <= i < c.len(),
        c[i].exact,
    ensures
        member_lines(original, c).contains(duplicate_removal_line(c[i].path@, original)),
    decreases c.len(),
{
    let init = member_lines(original, c.drop_last());
    if i == c.len() - 1 {
        assert(member_lines(original, c)[init.len() as int + 1] == duplicate_removal_line(
            c[i].path@,
            original,
        ));
    } else {
        assert(c.drop_last()[i] == c[i]);
        lemma_member_lines_remove_exact(original, c.drop_last(), i);
        let k = choose|k: int|
            0 <= k < init.len() && init[k] == duplicate_removal_line(c[i].path@, original);
        assert(member_lines(original, c)[k] == init[k]);
    }
}

/// Each diverged path is the path of a member that is not exact.
proof fn lemma_diverged_paths_are_members(c: Seq<ClassifiedMember>, j: int)
    requires
        0 <= j < diverged_of(c).len(),
    ensures
        exists|k: int| 0 <= k < c.len() && !c[k].exact && c[k].path@ == diverged_of(c)[j],
    decreases c.len(),
{
    let init = diverged_of(c.drop_last());
    if j < init.len() {
        lemma_diverged_paths_are_members(c.drop_last(), j);
        let k = choose|k: int|
            0 <= k < c.drop_last().len() && !c.drop_last()[k].exact && c.drop_last()[k].path@
                == init[j];
        assert(c[k] == c.drop_last()[k]);
    } else {
        assert(!c.last().exact && diverged_of(c)[j] == c.last().path@);
        assert(c[c.len() - 1] == c.last());
    }
}

/// The diverged paths are empty exactly when every member is exact.
proof fn lemma_diverged_empty(c: Seq<ClassifiedMember>)
    ensures
        diverged_of(c).len() == 0 <==> forall|i: int| 0 <= i < c.len() ==> #[trigger] c[i].exact,
    decreases c.len(),
{
    if c.len() > 0 {
        let init = c.drop_last();
        lemma_diverged_empty(init);
        assert forall|i: int| 0 <= i < c.len() - 1 implies #[trigger] init[i] == c[i] by {}
        assert(c.last() == c[c.len() - 1]);
        if diverged_of(c).len() == 0 {
            assert(c.last().exact);
            assert forall|i: int| 0 <= i < c.len() implies #[trigger] c[i].exact by {
                if i < c.len() - 1 {
                    assert(init[i].exact);
                }
            }
        }
        if forall|i: int| 0 <= i < c.len() ==> #[trigger] c[i].exact {
            assert(c[c.len() - 1].exact);
            assert forall|i: int| 0 <= i < init.len() implies #[trigger] init[i].exact by {
                assert(c[i].exact);
            }
        }
    }
}

/// The survivor of a replacing decision is one of the diverged stamps, and
/// none of them is newer.
proof fn lemma_survivor_newest(c: Seq<ClassifiedMember>, times: Seq<i128>, d: RetentionDecision)
    requires
        resolves_to(c, times, d),
        d is ReplaceOriginal,
    ensures
        diverged_stamps(c, times).contains(d->survivor@),
        forall|j: int|
            0 <= j < diverged_stamps(c, times).len() ==> !stamp_less(
                d->survivor@,
                #[trigger] diverged_stamps(c, times)[j],
            ),
{
    let ranked = ranked_of(d->survivor, d->superseded@);
    let all = diverged_stamps(c, times);
    assert(ranked[0] == d->survivor@);
    assert(ranked.contains(d->survivor@));
    assert(ranked.to_multiset().count(d->survivor@) > 0);
    assert forall|j: int| 0 <= j < all.len() implies !stamp_less(d->survivor@, #[trigger] all[j]) by {
        assert(all.contains(all[j]));
        assert(all.to_multiset().count(all[j]) > 0);
        assert(ranked.contains(all[j]));
        let k = choose|k: int| 0 <= k < ranked.len() && ranked[k] == all[j];
        lemma_stamp_order(ranked[0], ranked[0], ranked[0]);
    }
}

/// The original is never a member of its own family; in particular, among
/// the original alone its family is empty.
pub proof fn lemma_original_not_in_own_family(
    pattern: Seq<char>,
    original: Seq<char>,
    candidates: Seq<Seq<char>>,
)
    ensures
        !found_in(pattern, original, candidates).contains(original),
        found_in(pattern, original, seq![original]) == Seq::<Seq<char>>::empty(),
    decreases candidates.len(),
{
    if candidates.len() > 0 {
        lemma_original_not_in_own_family(pattern, original, candidates.drop_last());
        let init = found_in(pattern, original, candidates.drop_last());
        let all = found_in(pattern, original, candidates);
        if all.contains(original) {
            let k = choose|k: int| 0 <= k < all.len() && all[k] == original;
            if k < init.len() {
                assert(all[k] == init[k]);
            }
        }
    }
    let alone = seq![original];
    assert(alone.drop_last() =~= Seq::<Seq<char>>::empty());
    assert(alone.last() == original);
    assert(found_in(pattern, original, alone) == found_in(pattern, original, alone.drop_last()));
}

/// A family without members has an empty plan.
pub proof fn lemma_empty_family_plans_nothing(
    original: Seq<char>,
    digest: Seq<char>,
    c: Seq<ClassifiedMember>,
    times: Seq<i128>,
    d: RetentionDecision,
)
    requires
        c.len() == 0,
        resolves_to(c, times, d),
    ensures
        d is NoAction,
        join_lines(plan_lines(original, digest, c, d)) == Seq::<char>::empty(),
{
}

/// Every member whose digest is the original's gets a removal line naming
/// the original, and no rename line moves it. (A path is taken to name one
/// file: where it occurs twice in the family, its digests agree.)
pub proof fn lemma_exact_duplicates_removed(
    original: Seq<char>,
    digest: Seq<char>,
    members: Seq<Seq<char>>,
    digests: Seq<Seq<char>>,
    c: Seq<ClassifiedMember>,
    times: Seq<i128>,
    d: RetentionDecision,
    i: int,
)
    requires
        classified_as(digest, members, digests, c),
        forall|j: int, k: int|
            0 <= j < members.len() && 0 <= k < members.len() && members[j] == members[k]
                ==> digests[j] == digests[k],
        times.len() == diverged_of(c).len(),
        resolves_to(c, times, d),
        0 <= i < members.len(),
        digests[i] == digest,
    ensures
        plan_lines(original, digest, c, d).contains(duplicate_removal_line(members[i], original)),
        forall|k: int|
            0 <= k < plan_lines(original, digest, c, d).len() && is_rename_line(
                #[trigger] plan_lines(original, digest, c, d)[k],
            ) ==> d is ReplaceOriginal && plan_lines(original, digest, c, d)[k] == rename_line(
                d->survivor.path@,
                original,
            ) && d->survivor.path@ != members[i],
{
    let plan = plan_lines(original, digest, c, d);
    let body = member_lines(original, c);
    assert(c[i].exact);
    lemma_member_lines_remove_exact(original, c, i);
    let w = choose|w: int| 0 <= w < body.len() && body[w] == duplicate_removal_line(members[i], original);
    assert(plan[w + 1] == body[w]);
    lemma_member_lines_rename_nothing(original, c);
    lemma_line_kinds(original, digest);
    lemma_line_kinds(original, original);
    assert forall|k: int| 0 <= k < plan.len() && is_rename_line(#[trigger] plan[k]) implies d is ReplaceOriginal
        && plan[k] == rename_line(d->survivor.path@, original) && d->survivor.path@ != members[i] by {
        if k == 0 {
        } else if k < 1 + body.len() {
            assert(plan[k] == body[k - 1]);
        } else {
            let tail = closing_lines(original, d);
            assert(plan[k] == tail[k - 1 - body.len()]);
            let r = d->superseded@;
            let ups = stamps_of(r).map_values(|s: (int, Seq<char>)| removal_line(s.1));
            let q = k - 1 - body.len();
            if q >= 1 && q < 1 + ups.len() {
                assert(tail[q] == removal_line(stamps_of(r)[q - 1].1));
                lemma_line_kinds(stamps_of(r)[q - 1].1, original);
            }
            assert(q == 1 + ups.len());
            lemma_survivor_newest(c, times, d);
            let all = diverged_stamps(c, times);
            let j = choose|j: int| 0 <= j < all.len() && all[j] == d->survivor@;
            lemma_diverged_paths_are_members(c, j);
            let m = choose|m: int| 0 <= m < c.len() && !c[m].exact && c[m].path@ == diverged_of(c)[j];
            if d->survivor.path@ == members[i] {
                assert(members[m] == members[i]);
            }
        }
    }
}

/// Where every member is an exact duplicate, no line renames anything.
pub proof fn lemma_all_exact_renames_nothing(
    original: Seq<char>,
    digest: Seq<char>,
    members: Seq<Seq<char>>,
    digests: Seq<Seq<char>>,
    c: Seq<ClassifiedMember>,
    times: Seq<i128>,
    d: RetentionDecision,
)
    requires
        classified_as(digest, members, digests, c),
        forall|i: int| 0 <= i < digests.len() ==> digests[i] == digest,
        resolves_to(c, times, d),
    ensures
        forall|k: int|
            0 <= k < plan_lines(original, digest, c, d).len() ==> !is_rename_line(
                #[trigger] plan_lines(original, digest, c, d)[k],
            ),
{
    assert forall|i: int| 0 <= i < c.len() implies #[trigger] c[i].exact by {}
    lemma_diverged_empty(c);
    let plan = plan_lines(original, digest, c, d);
    let body = member_lines(original, c);
    lemma_member_lines_rename_nothing(original, c);
    lemma_line_kinds(original, digest);
    assert forall|k: int| 0 <= k < plan.len() implies !is_rename_line(#[trigger] plan[k]) by {
        if k > 0 {
            assert(plan[k] == body[k - 1]);
        }
    }
}

/// Where some member diverged, the plan ends with the one rename line it
/// holds, which moves the newest diverged member (ties going to the greatest
/// path) onto the original. The original's removal follows the member lines
/// directly, and every other diverged member has a removal line.
pub proof fn lemma_newest_diverged_replaces(
    original: Seq<char>,
    digest: Seq<char>,
    members: Seq<Seq<char>>,
    digests: Seq<Seq<char>>,
    c: Seq<ClassifiedMember>,
    times: Seq<i128>,
    d: RetentionDecision,
    i: int,
)
    requires
        classified_as(digest, members, digests, c),
        times.len() == diverged_of(c).len(),
        resolves_to(c, times, d),
        0 <= i < members.len(),
        digests[i] != digest,
    ensures
        d is ReplaceOriginal,
        plan_lines(original, digest, c, d).last() == rename_line(d->survivor.path@, original),
        is_rename_line(plan_lines(original, digest, c, d).last()),
        forall|k: int|
            0 <= k < plan_lines(original, digest, c, d).len() - 1 ==> !is_rename_line(
                #[trigger] plan_lines(original, digest, c, d)[k],
            ),
        diverged_stamps(c, times).contains(d->survivor@),
        forall|j: int|
            0 <= j < diverged_stamps(c, times).len() ==> !stamp_less(
                d->survivor@,
                #[trigger] diverged_stamps(c, times)[j],
            ),
        plan_lines(original, digest, c, d).contains(removal_line(original)),
        plan_lines(original, digest, c, d)[1 + member_lines(original, c).len() as int] == removal_line(
            original,
        ),
        forall|j: int|
            0 <= j < diverged_stamps(c, times).len() && #[trigger] diverged_stamps(c, times)[j]
                != d->survivor@ ==> plan_lines(original, digest, c, d).contains(
                removal_line(diverged_stamps(c, times)[j].1),
            ),
{
    assert(!c[i].exact);
    lemma_diverged_empty(c);
    lemma_survivor_newest(c, times, d);
    let plan = plan_lines(original, digest, c, d);
    let body = member_lines(original, c);
    let tail = closing_lines(original, d);
    let r = d->superseded@;
    let ups = stamps_of(r).map_values(|s: (int, Seq<char>)| removal_line(s.1));
    lemma_member_lines_rename_nothing(original, c);
    lemma_line_kinds(original, digest);
    lemma_line_kinds(d->survivor.path@, original);
    assert(plan.last() == tail.last());
    assert(plan[1 + body.len() as int] == removal_line(original));
    let all = diverged_stamps(c, times);
    let ranked = ranked_of(d->survivor, r);
    assert forall|j: int| 0 <= j < all.len() && #[trigger] all[j] != d->survivor@ implies plan.contains(
        removal_line(all[j].1),
    ) by {
        assert(all.contains(all[j]));
        assert(all.to_multiset().count(all[j]) > 0);
        assert(ranked.contains(all[j]));
        let k = choose|k: int| 0 <= k < ranked.len() && ranked[k] == all[j];
        assert(k != 0);
        assert(stamps_of(r)[k - 1] == all[j]);
        assert(tail[k] == ups[k - 1]);
        assert(plan[1 + body.len() + k] == tail[k]);
    }
    assert forall|k: int| 0 <= k < plan.len() - 1 implies !is_rename_line(#[trigger] plan[k]) by {
        if k == 0 {
        } else if k < 1 + body.len() {
            assert(plan[k] == body[k - 1]);
        } else {
            let q = k - 1 - body.len();
            assert(plan[k] == tail[q]);
            if q >= 1 {
                assert(tail[q] == removal_line(stamps_of(r)[q - 1].1));
                lemma_line_kinds(stamps_of(r)[q - 1].1, original);
            }
        }
    }
}

/// Resolving the same family again gives the same plan, byte for byte: the
/// decision is fixed by the classified family and the creation times.
pub proof fn lemma_plan_reproducible(
    original: Seq<char>,
    digest: Seq<char>,
    c: Seq<ClassifiedMember>,
    times: Seq<i128>,
    d1: RetentionDecision,
    d2: RetentionDecision,
)
    requires
        resolves_to(c, times, d1),
        resolves_to(c, times, d2),
    ensures
        join_lines(plan_lines(original, digest, c, d1)) == join_lines(
            plan_lines(original, digest, c, d2),
        ),
{
    if d1 is ReplaceOriginal {
        let r1 = ranked_of(d1->survivor, d1->superseded@);
        let r2 = ranked_of(d2->survivor, d2->superseded@);
        lemma_newest_first_unique(r1, r2);
        assert(d1->survivor@ == r1[0]);
        assert(stamps_of(d1->superseded@) =~= r1.drop_first());
        assert(stamps_of(d2->superseded@) =~= r2.drop_first());
        assert(closing_lines(original, d1) =~= closing_lines(original, d2));
    }
    assert(plan_lines(original, digest, c, d1) =~= plan_lines(original, digest, c, d2));
}

} // verus!
