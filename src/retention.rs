//! Choosing which diverged copy survives: the newest by creation time, ties
//! broken by the greatest path text.

use vstd::prelude::*;
use vstd::seq_lib::*;
use crate::classify::{
    diverged_members, diverged_of, exact_members, exact_of, texts_of, ClassifiedMember,
};
use crate::text::{
    lemma_seq_less_asymmetric, lemma_seq_less_irreflexive, lemma_seq_less_total,
    lemma_seq_less_transitive, seq_less, text_less,
};

verus! {

broadcast use group_to_multiset_ensures;

/// A diverged copy with its creation time, in nanoseconds relative to the
/// Unix epoch (negative before it).
#[derive(Debug)]
pub struct Stamped {
    pub created: i128,
    pub path: String,
}

impl View for Stamped {
    type V = (int, Seq<char>);

    open spec fn view(&self) -> (int, Seq<char>) {
        (self.created as int, self.path@)
    }
}

/// The views of a sequence of stamped copies.
pub open spec fn stamps_of(v: Seq<Stamped>) -> Seq<(int, Seq<char>)> {
    v.map_values(|s: Stamped| s@)
}

/// `a` is older than `b`, or as old with a smaller path.
pub open spec fn stamp_less(a: (int, Seq<char>), b: (int, Seq<char>)) -> bool {
    a.0 < b.0 || (a.0 == b.0 && seq_less(a.1, b.1))
}

/// No element is followed by one that is newer (or as new with a greater path).
pub open spec fn newest_first(s: Seq<(int, Seq<char>)>) -> bool {
    forall|i: int, j: int| 0 <= i < j < s.len() ==> !stamp_less(s[i], s[j])
}

/// `stamp_less` is a strict total order.
pub proof fn lemma_stamp_order(
    a: (int, Seq<char>),
    b: (int, Seq<char>),
    c: (int, Seq<char>),
)
    ensures
        !stamp_less(a, a),
        stamp_less(a, b) ==> !stamp_less(b, a),
        stamp_less(a, b) && stamp_less(b, c) ==> stamp_less(a, c),
        a != b ==> stamp_less(a, b) || stamp_less(b, a),
{
    lemma_seq_less_irreflexive(a.1);
    lemma_seq_less_asymmetric(a.1, b.1);
    lemma_seq_less_transitive(a.1, b.1, c.1);
    lemma_seq_less_total(a.1, b.1);
}

/// Two newest-first arrangements of the same stamps are the same sequence.
pub proof fn lemma_newest_first_unique(s1: Seq<(int, Seq<char>)>, s2: Seq<(int, Seq<char>)>)
    requires
        newest_first(s1),
        newest_first(s2),
        s1.to_multiset() == s2.to_multiset(),
    ensures
        s1 == s2,
    decreases s1.len(),
{
    assert(s1.len() == s1.to_multiset().len());
    assert(s2.len() == s2.to_multiset().len());
    if s1.len() == 0 {
        assert(s1 =~= s2);
    } else {
        let x = s1[0];
        let y = s2[0];
        assert(s1.contains(x));
        assert(s1.to_multiset().count(x) > 0);
        assert(s2.contains(x));
        let k = choose|k: int| 0 <= k < s2.len() && s2[k] == x;
        assert(s2.to_multiset().count(y) > 0);
        assert(s1.contains(y));
        let l = choose|l: int| 0 <= l < s1.len() && s1[l] == y;
        lemma_stamp_order(x, y, x);
        if k > 0 {
            assert(!stamp_less(y, x));
        }
        if l > 0 {
            assert(!stamp_less(x, y));
        }
        assert(x == y);
        let t1 = s1.drop_first();
        let t2 = s2.drop_first();
        assert(s1.remove(0) =~= t1);
        assert(s2.remove(0) =~= t2);
        assert(t1.to_multiset() == s1.to_multiset().remove(x));
        assert(t2.to_multiset() == s2.to_multiset().remove(y));
        assert(newest_first(t1)) by {
            assert forall|i: int, j: int| 0 <= i < j < t1.len() implies !stamp_less(t1[i], t1[j]) by {
                assert(t1[i] == s1[i + 1] && t1[j] == s1[j + 1]);
            }
        }
        assert(newest_first(t2)) by {
            assert forall|i: int, j: int| 0 <= i < j < t2.len() implies !stamp_less(t2[i], t2[j]) by {
                assert(t2[i] == s2[i + 1] && t2[j] == s2[j + 1]);
            }
        }
        lemma_newest_first_unique(t1, t2);
        assert(s1 =~= s2) by {
            assert forall|i: int| 0 <= i < s1.len() implies s1[i] == s2[i] by {
                if i > 0 {
                    assert(s1[i] == t1[i - 1] && s2[i] == t2[i - 1]);
                }
            }
        }
    }
}

/// Whether `a` is older than `b`, or as old with a smaller path.
pub fn stamp_before(a: &Stamped, b: &Stamped) -> (r: bool)
    ensures
        r == stamp_less(a@, b@),
{
    if a.created != b.created {
        a.created < b.created
    } else {
        text_less(a.path.as_str(), b.path.as_str())
    }
}

/// The position of a newest element of `v`.
fn index_of_newest(v: &Vec<Stamped>) -> (r: usize)
    requires
        v.len() > 0,
    ensures
        r < v.len(),
        forall|j: int| 0 <= j < v.len() ==> !stamp_less(v@[r as int]@, #[trigger] v@[j]@),
{
    let mut best: usize = 0;
    let mut j: usize = 1;
    proof {
        lemma_stamp_order(v@[0]@, v@[0]@, v@[0]@);
    }
    while j < v.len()
        invariant
            0 < j <= v.len(),
            best < j,
            forall|k: int| 0 <= k < j ==> !stamp_less(v@[best as int]@, #[trigger] v@[k]@),
        decreases v.len() - j,
    {
        if stamp_before(&v[best], &v[j]) {
            proof {
                assert forall|k: int| 0 <= k <= j implies !stamp_less(v@[j as int]@, #[trigger] v@[k]@) by {
                    lemma_stamp_order(v@[best as int]@, v@[j as int]@, v@[k]@);
                    lemma_stamp_order(v@[j as int]@, v@[k]@, v@[j as int]@);
                }
            }
            best = j;
        }
        j = j + 1;
    }
    best
}

/// Arranges the stamped copies newest first: by creation time, then by path
/// text, both descending.
pub fn rank_newest_first(items: Vec<Stamped>) -> (r: Vec<Stamped>)
    ensures
        newest_first(stamps_of(r@)),
        stamps_of(r@).to_multiset() == stamps_of(items@).to_multiset(),
{
    let ghost input = stamps_of(items@);
    let mut rest = items;
    let mut out: Vec<Stamped> = Vec::new();
    assert(stamps_of(out@) =~= Seq::<(int, Seq<char>)>::empty());
    while rest.len() > 0
        invariant
            newest_first(stamps_of(out@)),
            stamps_of(out@).to_multiset().add(stamps_of(rest@).to_multiset()) == input.to_multiset(),
            forall|i: int, j: int|
                0 <= i < out.len() && 0 <= j < rest.len() ==> !stamp_less(
                    #[trigger] out@[i]@,
                    #[trigger] rest@[j]@,
                ),
        decreases rest.len(),
    {
        let m = index_of_newest(&rest);
        let ghost old_out = out@;
        let ghost old_rest = rest@;
        let item = rest.remove(m);
        assert(stamps_of(rest@) =~= stamps_of(old_rest).remove(m as int));
        out.push(item);
        assert(stamps_of(out@) =~= stamps_of(old_out).push(item@));
        assert(stamps_of(out@).to_multiset().add(stamps_of(rest@).to_multiset())
            =~= stamps_of(old_out).to_multiset().add(stamps_of(old_rest).to_multiset()));
        assert(forall|j: int| 0 <= j < rest.len() ==> rest@[j] == old_rest[if j < m { j } else { j + 1 }]);
        assert(newest_first(stamps_of(out@))) by {
            assert forall|i: int, j: int| 0 <= i < j < out.len() implies !stamp_less(
                stamps_of(out@)[i],
                stamps_of(out@)[j],
            ) by {
                if j == out.len() - 1 {
                    assert(old_rest[m as int] == item);
                    assert(!stamp_less(old_out[i]@, old_rest[m as int]@));
                }
            }
        }
    }
    assert(stamps_of(rest@) =~= Seq::<(int, Seq<char>)>::empty());
    assert(stamps_of(out@).to_multiset() =~= input.to_multiset());
    out
}

/// What becomes of a family.
#[derive(Debug)]
pub enum RetentionDecision {
    /// The family is empty.
    NoAction,
    /// No member diverged: the exact duplicates go, the original stays.
    RemoveExactDuplicatesOnly { exact: Vec<String> },
    /// Some members diverged: the exact duplicates, the original and the
    /// `superseded` copies go, and `survivor` takes the original's name.
    /// `superseded` is newest first.
    ReplaceOriginal { exact: Vec<String>, survivor: Stamped, superseded: Vec<Stamped> },
}

/// The diverged members of `c` paired with their creation times `times`.
pub open spec fn diverged_stamps(c: Seq<ClassifiedMember>, times: Seq<i128>) -> Seq<
    (int, Seq<char>),
> {
    Seq::new(times.len(), |i: int| (times[i] as int, diverged_of(c)[i]))
}

/// The diverged copies of a `ReplaceOriginal` decision, newest first.
pub open spec fn ranked_of(survivor: Stamped, superseded: Seq<Stamped>) -> Seq<(int, Seq<char>)> {
    seq![survivor@] + stamps_of(superseded)
}

/// `d` is the decision for the classified family `c`, where `times[i]` is the
/// creation time of the `i`-th diverged member.
pub open spec fn resolves_to(c: Seq<ClassifiedMember>, times: Seq<i128>, d: RetentionDecision) -> bool {
    match d {
        RetentionDecision::NoAction => c.len() == 0,
        RetentionDecision::RemoveExactDuplicatesOnly { exact } => {
            &&& c.len() > 0
            &&& diverged_of(c).len() == 0
            &&& texts_of(exact@) == exact_of(c)
        },
        RetentionDecision::ReplaceOriginal { exact, survivor, superseded } => {
            &&& diverged_of(c).len() > 0
            &&& texts_of(exact@) == exact_of(c)
            &&& newest_first(ranked_of(survivor, superseded@))
            &&& ranked_of(survivor, superseded@).to_multiset() == diverged_stamps(
                c,
                times,
            ).to_multiset()
        },
    }
}

/// Decides what becomes of a classified family. `times[i]` is the creation
/// time of the `i`-th diverged member, as `diverged_members` lists them.
pub fn resolve(classified: &Vec<ClassifiedMember>, times: &Vec<i128>) -> (r: RetentionDecision)
    requires
        times.len() == diverged_of(classified@).len(),
    ensures
        resolves_to(classified@, times@, r),
{
    if classified.len() == 0 {
        return RetentionDecision::NoAction;
    }
    let exact = exact_members(classified);
    let diverged = diverged_members(classified);
    if diverged.len() == 0 {
        return RetentionDecision::RemoveExactDuplicatesOnly { exact };
    }
    let mut stamped: Vec<Stamped> = Vec::new();
    for i in 0..diverged.len()
        invariant
            diverged.len() == times.len(),
            texts_of(diverged@) == diverged_of(classified@),
            stamps_of(stamped@) == diverged_stamps(classified@, times@).subrange(0, i as int),
    {
        assert(diverged@[i as int]@ == texts_of(diverged@)[i as int]);
        let ghost before = stamped@;
        stamped.push(Stamped { created: times[i], path: diverged[i].clone() });
        assert(stamps_of(stamped@) =~= stamps_of(before).push(stamped@[i as int]@));
        assert(stamped@[i as int]@ == diverged_stamps(classified@, times@)[i as int]);
        assert(stamps_of(stamped@) =~= diverged_stamps(classified@, times@).subrange(0, i + 1));
    }
    assert(diverged_stamps(classified@, times@).subrange(0, diverged.len() as int)
        =~= diverged_stamps(classified@, times@));
    let mut ranked = rank_newest_first(stamped);
    let ghost all = stamps_of(ranked@);
    assert(all.len() == all.to_multiset().len());
    let survivor = ranked.remove(0);
    assert(ranked_of(survivor, ranked@) =~= all);
    RetentionDecision::ReplaceOriginal { exact, survivor, superseded: ranked }
}

} // verus!
