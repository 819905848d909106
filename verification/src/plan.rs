use vstd::prelude::*;
use vstd::relations::sorted_by;
use vstd::seq_lib::lemma_sorted_unique;

use crate::text::{
    lemma_lex_le_total, lemma_lex_le_trans, lemma_lex_total_ordering, lex_le, lex_le_fn,
    make_slot_name, slot_name, str_le,
};
use crate::trigger::{RotatedFile, RotationStrategy};

verus! {

/// The names a vector of owned strings stands for.
pub open spec fn names_view(v: Seq<String>) -> Seq<Seq<char>> {
    v.map_values(|s: String| s@)
}

/// The name pairs a vector of owned copy instructions stands for.
pub open spec fn copies_view(v: Seq<(String, String)>) -> Seq<(Seq<char>, Seq<char>)> {
    v.map_values(|c: (String, String)| (c.0@, c.1@))
}

/// Sorts backup file names into lexicographic order.
#[verifier::rlimit(60)]
pub fn sort_file_names(v: &mut Vec<String>)
    ensures
        names_view(final(v)@) == names_view(old(v)@).sort_by(lex_le_fn()),
        sorted_by(names_view(final(v)@), lex_le_fn()),
        names_view(final(v)@).to_multiset() == names_view(old(v)@).to_multiset(),
{
    let ghost orig = names_view(old(v)@);
    let mut i: usize = 1;
    while i < v.len()
        invariant
            v@.len() == orig.len(),
            1 <= i,
            names_view(v@).to_multiset() == orig.to_multiset(),
            forall|a: int, b: int| 0 <= a < b < i && b < v@.len() ==> lex_le(
                #[trigger] v@[a]@,
                #[trigger] v@[b]@,
            ),
        decreases v@.len() - i,
    {
        let ghost before = v@;
        let x = v.remove(i);
        proof {
            broadcast use vstd::seq_lib::to_multiset_insert;
            broadcast use vstd::seq_lib::to_multiset_remove;

            assert(names_view(v@) =~= names_view(before).remove(i as int));
        }
        let mut jj: usize = 0;
        let mut stop: bool = false;
        while jj < i && !stop
            invariant
                i < before.len(),
                v@ == before.remove(i as int),
                v@.len() == before.len() - 1,
                jj <= i,
                forall|k: int| 0 <= k < jj ==> lex_le((#[trigger] v@[k])@, x@),
                stop ==> jj < i && !lex_le(v@[jj as int]@, x@),
            decreases i - jj, (if stop { 0int } else { 1int }),
        {
            if str_le(v[jj].as_str(), x.as_str()) {
                jj += 1;
            } else {
                stop = true;
            }
        }
        let ghost pruned = v@;
        let ghost xv = x@;
        proof {
            pruned.insert_ensures(jj as int, x);
        }
        v.insert(jj, x);
        proof {
            broadcast use vstd::seq_lib::to_multiset_insert;
            broadcast use vstd::seq_lib::to_multiset_remove;

            assert(names_view(v@) =~= names_view(pruned).insert(jj as int, xv));
            assert(names_view(pruned) =~= names_view(before).remove(i as int));
            vstd::seq_lib::to_multiset_remove(names_view(before), i as int);
            vstd::seq_lib::to_multiset_insert(names_view(pruned), jj as int, xv);
            assert(names_view(before)[i as int] == xv);
            assert(names_view(before).to_multiset().contains(xv)) by {
                broadcast use vstd::seq_lib::group_to_multiset_ensures;

                assert(names_view(before)[i as int] == xv);
                assert(names_view(before).contains(xv));
            }
            assert(names_view(v@).to_multiset() =~= names_view(before).to_multiset());
            assert(names_view(v@).to_multiset() == orig.to_multiset());
            // Everything at or past the insertion point is at least `x`.
            assert forall|k: int| jj <= k < i implies lex_le(xv, (#[trigger] pruned[k])@) by {
                lemma_lex_le_total(pruned[jj as int]@, xv);
                assert(lex_le(xv, pruned[jj as int]@));
                if k > jj {
                    assert(pruned[k] == before[k]);
                    assert(pruned[jj as int] == before[jj as int]);
                    assert(lex_le(pruned[jj as int]@, pruned[k]@));
                    lemma_lex_le_trans(xv, pruned[jj as int]@, pruned[k]@);
                }
            }
            assert forall|a: int, b: int| 0 <= a < b < i + 1 && b < v@.len() implies lex_le(
                #[trigger] v@[a]@,
                #[trigger] v@[b]@,
            ) by {
                if a < jj && b < jj {
                    assert(v@[a] == before[a] && v@[b] == before[b]);
                } else if a < jj && b == jj {
                    assert(v@[a] == before[a]);
                    assert(lex_le(v@[a]@, xv));
                } else if a < jj && b > jj {
                    assert(v@[a] == before[a] && v@[b] == before[b - 1]);
                } else if a == jj && b > jj {
                    assert(v@[b] == pruned[b - 1]);
                    assert(lex_le(xv, pruned[b - 1]@));
                } else if a > jj && b > jj {
                    assert(v@[a] == before[a - 1] && v@[b] == before[b - 1]);
                }
            }
        }
        i += 1;
    }
    proof {
        lemma_lex_total_ordering();
        if v@.len() == 0 {
            assert(names_view(v@).to_multiset() == orig.to_multiset());
        }
        assert(sorted_by(names_view(v@), lex_le_fn())) by {
            assert forall|a: int, b: int| 0 <= a < b < names_view(v@).len() implies #[trigger]
                lex_le_fn()(names_view(v@)[a], names_view(v@)[b]) by {
                assert(lex_le(v@[a]@, v@[b]@));
            }
        }
        orig.lemma_sort_by_ensures(lex_le_fn());
        lemma_sorted_unique(names_view(v@), orig.sort_by(lex_le_fn()), lex_le_fn());
    }
}

/// Everything the filesystem must do to rotate one target: first write
/// the transformed sibling, then perform the copies in order, then
/// truncate the named live file.
pub struct RotationPlan {
    pub copies: Vec<(String, String)>,
    pub transform_source: Option<String>,
    pub truncate: Option<String>,
}

/// The generation slots: the matched names in sorted order, extended by
/// one synthesized name while the retained history is still growing.
pub open spec fn plan_slots(sorted: Seq<Seq<char>>, path: Seq<char>, max: nat) -> Seq<Seq<char>> {
    if sorted.len() < max {
        sorted.push(slot_name(path, sorted.len() as nat))
    } else {
        sorted
    }
}

/// The copies that shift every generation up by one, ordered from the
/// highest slot down so that no source is overwritten before it is read.
pub open spec fn shift_copies(slots: Seq<Seq<char>>) -> Seq<(Seq<char>, Seq<char>)> {
    if slots.len() == 0 {
        Seq::empty()
    } else {
        Seq::new((slots.len() - 1) as nat, |k: int| (slots[slots.len() - 2 - k], slots[slots.len() - 1 - k]))
    }
}

/// What a faithful plan for one target looks like, over the sorted
/// matched names.
pub open spec fn plan_matches(
    plan: RotationPlan,
    sorted: Seq<Seq<char>>,
    path: Seq<char>,
    max: nat,
    strategy: RotationStrategy,
    compress: bool,
) -> bool {
    &&& copies_view(plan.copies@) == shift_copies(plan_slots(sorted, path, max))
    &&& plan.transform_source_name() == if compress && max <= sorted.len() && sorted.len() > 0 {
        Some(path)
    } else {
        None::<Seq<char>>
    }
    &&& plan.truncate_name() == if sorted.len() > 0 && strategy is CopyTruncate {
        Some(path)
    } else {
        None::<Seq<char>>
    }
}

impl RotationPlan {
    pub open spec fn transform_source_name(self) -> Option<Seq<char>> {
        match self.transform_source {
            Option::Some(s) => Some(s@),
            Option::None => None,
        }
    }

    pub open spec fn truncate_name(self) -> Option<Seq<char>> {
        match self.truncate {
            Option::Some(s) => Some(s@),
            Option::None => None,
        }
    }
}

/// Decides the whole rotation of one target: with no matched file the
/// plan does nothing; otherwise the matched names are sorted, a new
/// highest slot is synthesized while fewer than `max_files` exist, the
/// transform is requested once the history is at capacity, each
/// generation is copied up one slot from the highest down, and the live
/// file is truncated exactly under the truncating strategy.
pub fn plan_rotation(file: &RotatedFile, files: Vec<String>) -> (r: RotationPlan)
    ensures
        plan_matches(
            r,
            names_view(files@).sort_by(lex_le_fn()),
            file.path@,
            file.max_files as nat,
            file.strategy,
            file.compress,
        ),
        files@.len() == 0 ==> r.copies@.len() == 0 && r.transform_source is None && r.truncate
            is None,
{
    let ghost sorted_spec = names_view(files@).sort_by(lex_le_fn());
    let ghost orig_names = names_view(files@);
    proof {
        lemma_lex_total_ordering();
    }
    let mut files = files;
    sort_file_names(&mut files);
    let n = files.len();
    let mut plan = RotationPlan { copies: Vec::new(), transform_source: None, truncate: None };
    proof {
        vstd::seq_lib::to_multiset_len(names_view(files@));
        vstd::seq_lib::to_multiset_len(orig_names);
    }
    if n == 0 {
        proof {
            assert(copies_view(plan.copies@) =~= shift_copies(plan_slots(sorted_spec, file.path@, file.max_files as nat)));
        }
        return plan;
    }
    if n < file.max_files {
        let slot = make_slot_name(file.path.as_str(), n);
        files.push(slot);
    }
    let ghost slots = names_view(files@);
    proof {
        assert(slots =~= plan_slots(sorted_spec, file.path@, file.max_files as nat));
    }
    if file.compress && file.max_files <= n {
        plan.transform_source = Some(file.path.clone());
    }
    let ghost ts0 = plan.transform_source;
    let m = files.len();
    let mut i: usize = m - 1;
    while i != 0
        invariant
            m == files@.len(),
            m >= 1,
            i <= m - 1,
            slots == names_view(files@),
            plan.transform_source == ts0,
            plan.truncate is None,
            plan.copies@.len() == m - 1 - i,
            forall|k: int| 0 <= k < m - 1 - i ==> #[trigger] plan.copies@[k].0@ == slots[m - 2 - k]
                && plan.copies@[k].1@ == slots[m - 1 - k],
        decreases i,
    {
        plan.copies.push((files[i - 1].clone(), files[i].clone()));
        i = i - 1;
    }
    proof {
        assert(copies_view(plan.copies@) =~= shift_copies(slots));
    }
    match file.strategy {
        RotationStrategy::CopyTruncate => {
            plan.truncate = Some(file.path.clone());
        },
        RotationStrategy::Copy => {},
    }
    plan
}

/// Pairwise-distinct names.
pub open spec fn distinct_names(s: Seq<Seq<char>>) -> bool {
    forall|a: int, b: int| 0 <= a < b < s.len() ==> s[a] != s[b]
}

/// One copy instruction acting on a model of the filesystem (file name
/// to contents): a copy whose source is missing does nothing.
pub open spec fn apply_copy(
    fs: Map<Seq<char>, Seq<u8>>,
    c: (Seq<char>, Seq<char>),
) -> Map<Seq<char>, Seq<u8>> {
    if fs.dom().contains(c.0) {
        fs.insert(c.1, fs[c.0])
    } else {
        fs
    }
}

/// The copy instructions applied in order.
pub open spec fn apply_copies(
    fs: Map<Seq<char>, Seq<u8>>,
    cs: Seq<(Seq<char>, Seq<char>)>,
) -> Map<Seq<char>, Seq<u8>>
    decreases cs.len(),
{
    if cs.len() == 0 {
        fs
    } else {
        apply_copies(apply_copy(fs, cs.first()), cs.drop_first())
    }
}

/// A whole rotation of one target acting on the model: the shifting
/// copies, then the truncation of the live file if asked for.
pub open spec fn apply_plan(
    fs: Map<Seq<char>, Seq<u8>>,
    sorted: Seq<Seq<char>>,
    path: Seq<char>,
    max: nat,
    truncate: bool,
) -> Map<Seq<char>, Seq<u8>> {
    let shifted = apply_copies(fs, shift_copies(plan_slots(sorted, path, max)));
    if truncate {
        shifted.insert(path, Seq::empty())
    } else {
        shifted
    }
}

proof fn lemma_apply_copies_untouched(
    fs: Map<Seq<char>, Seq<u8>>,
    cs: Seq<(Seq<char>, Seq<char>)>,
    p: Seq<char>,
)
    requires
        forall|k: int| 0 <= k < cs.len() ==> (#[trigger] cs[k]).1 != p,
    ensures
        apply_copies(fs, cs).dom().contains(p) == fs.dom().contains(p),
        fs.dom().contains(p) ==> apply_copies(fs, cs)[p] == fs[p],
    decreases cs.len(),
{
    if cs.len() > 0 {
        assert(cs[0].1 != p);
        lemma_apply_copies_untouched(apply_copy(fs, cs.first()), cs.drop_first(), p);
    }
}

proof fn lemma_apply_copies_dom(fs: Map<Seq<char>, Seq<u8>>, cs: Seq<(Seq<char>, Seq<char>)>)
    ensures
        forall|p: Seq<char>| fs.dom().contains(p) ==> #[trigger] apply_copies(
            fs,
            cs,
        ).dom().contains(p),
        forall|p: Seq<char>| #[trigger] apply_copies(fs, cs).dom().contains(p)
            ==> fs.dom().contains(p) || exists|k: int| 0 <= k < cs.len() && (#[trigger] cs[k]).1
            == p,
    decreases cs.len(),
{
    if cs.len() > 0 {
        let fs1 = apply_copy(fs, cs.first());
        lemma_apply_copies_dom(fs1, cs.drop_first());
        assert forall|p: Seq<char>| fs.dom().contains(p) implies #[trigger] apply_copies(
            fs,
            cs,
        ).dom().contains(p) by {
            assert(fs1.dom().contains(p));
            assert(apply_copies(fs1, cs.drop_first()).dom().contains(p));
            assert(apply_copies(fs, cs) == apply_copies(fs1, cs.drop_first()));
        }
        assert forall|p: Seq<char>| #[trigger] apply_copies(fs, cs).dom().contains(p) implies
            fs.dom().contains(p) || exists|k: int| 0 <= k < cs.len() && (#[trigger] cs[k]).1
            == p by {
            if !fs.dom().contains(p) {
                assert(apply_copies(fs, cs) == apply_copies(fs1, cs.drop_first()));
                assert(apply_copies(fs1, cs.drop_first()).dom().contains(p));
                if fs1.dom().contains(p) {
                    assert(cs.first() == cs[0]);
                    assert(cs[0].1 == p);
                } else {
                    let k = choose|k: int| 0 <= k < cs.drop_first().len() && (#[trigger] cs.drop_first()[k]).1 == p;
                    assert(cs.drop_first()[k] == cs[k + 1]);
                    assert(cs[k + 1].1 == p);
                }
            }
        }
    }
}

proof fn lemma_shift_copies_effect(fs: Map<Seq<char>, Seq<u8>>, slots: Seq<Seq<char>>)
    requires
        distinct_names(slots),
        slots.len() >= 2,
        fs.dom().contains(slots[0]),
    ensures
        apply_copies(fs, shift_copies(slots)).dom().contains(slots[1]),
        apply_copies(fs, shift_copies(slots))[slots[1]] == fs[slots[0]],
        apply_copies(fs, shift_copies(slots)).dom().contains(slots[0]),
        apply_copies(fs, shift_copies(slots))[slots[0]] == fs[slots[0]],
    decreases slots.len(),
{
    let cs = shift_copies(slots);
    let n = slots.len();
    if n == 2 {
        assert(cs.len() == 1);
        assert(cs[0] == (slots[0], slots[1]));
        assert(cs.first() == cs[0]);
        let fs1 = apply_copy(fs, cs.first());
        assert(slots[1] != slots[0]);
        assert(fs1 == fs.insert(slots[1], fs[slots[0]]));
        assert(cs.drop_first().len() == 0);
        assert(apply_copies(fs1, cs.drop_first()) == fs1);
        assert(apply_copies(fs, cs) == fs1);
    } else {
        assert(cs.first() == cs[0]);
        assert(cs[0] == (slots[n - 2], slots[n - 1]));
        assert(cs.drop_first() =~= shift_copies(slots.drop_last()));
        let fs1 = apply_copy(fs, cs.first());
        assert(slots[n - 1] != slots[0]);
        assert(fs1.dom().contains(slots[0]) && fs1[slots[0]] == fs[slots[0]]);
        assert(slots.drop_last()[0] == slots[0] && slots.drop_last()[1] == slots[1]);
        assert(distinct_names(slots.drop_last())) by {
            assert forall|a: int, b: int| 0 <= a < b < slots.drop_last().len() implies
                slots.drop_last()[a] != slots.drop_last()[b] by {
                assert(slots.drop_last()[a] == slots[a]);
                assert(slots.drop_last()[b] == slots[b]);
            }
        }
        lemma_shift_copies_effect(fs1, slots.drop_last());
        assert(apply_copies(fs, cs) == apply_copies(fs1, shift_copies(slots.drop_last())));
    }
}

/// After a truncating rotation the live file exists and is empty, and
/// the first backup slot holds exactly the bytes the live file held
/// before the rotation.
pub proof fn lemma_copy_truncate_effect(
    fs: Map<Seq<char>, Seq<u8>>,
    sorted: Seq<Seq<char>>,
    path: Seq<char>,
    max: nat,
)
    requires
        distinct_names(plan_slots(sorted, path, max)),
        sorted.len() >= 1,
        sorted[0] == path,
        fs.dom().contains(path),
        sorted.len() >= 2 || sorted.len() < max,
    ensures
        apply_plan(fs, sorted, path, max, true).dom().contains(path),
        apply_plan(fs, sorted, path, max, true)[path] == Seq::<u8>::empty(),
        apply_plan(fs, sorted, path, max, true).dom().contains(plan_slots(sorted, path, max)[1]),
        apply_plan(fs, sorted, path, max, true)[plan_slots(sorted, path, max)[1]] == fs[path],
{
    let slots = plan_slots(sorted, path, max);
    assert(slots.len() >= 2);
    assert(slots[0] == path);
    lemma_shift_copies_effect(fs, slots);
    assert(slots[1] != path);
}

/// A rotation of a target already holding `max` or more generations
/// creates no file: every copy lands in an existing slot and the
/// truncation rewrites the existing live file, so the generation count
/// never exceeds `max`.
pub proof fn lemma_retention_cap(
    fs: Map<Seq<char>, Seq<u8>>,
    sorted: Seq<Seq<char>>,
    path: Seq<char>,
    max: nat,
    truncate: bool,
)
    requires
        max >= 1,
        sorted.len() >= max,
        sorted.len() >= 1,
        sorted[0] == path,
        forall|k: int| 0 <= k < sorted.len() ==> fs.dom().contains(#[trigger] sorted[k]),
    ensures
        apply_plan(fs, sorted, path, max, truncate).dom() == fs.dom(),
{
    let slots = plan_slots(sorted, path, max);
    assert(slots == sorted);
    let cs = shift_copies(slots);
    lemma_apply_copies_dom(fs, cs);
    let shifted = apply_copies(fs, cs);
    assert forall|p: Seq<char>| #[trigger] shifted.dom().contains(p) implies fs.dom().contains(
        p,
    ) by {
        if !fs.dom().contains(p) {
            let k = choose|k: int| 0 <= k < cs.len() && (#[trigger] cs[k]).1 == p;
            assert(cs[k].1 == slots[slots.len() - 1 - k]);
        }
    }
    assert(apply_plan(fs, sorted, path, max, truncate).dom() =~= fs.dom());
}

/// Once the history is at capacity, the oldest generation's prior
/// contents are overwritten by the next-oldest generation.
pub proof fn lemma_oldest_overwritten(
    fs: Map<Seq<char>, Seq<u8>>,
    sorted: Seq<Seq<char>>,
    path: Seq<char>,
    max: nat,
    truncate: bool,
)
    requires
        distinct_names(sorted),
        sorted.len() >= 2,
        sorted.len() >= max,
        sorted[0] == path,
        fs.dom().contains(sorted[sorted.len() - 2]),
    ensures
        apply_plan(fs, sorted, path, max, truncate).dom().contains(sorted[sorted.len() - 1]),
        apply_plan(fs, sorted, path, max, truncate)[sorted[sorted.len() - 1]] == fs[sorted[sorted.len()
            - 2]],
{
    let slots = plan_slots(sorted, path, max);
    assert(slots == sorted);
    let n = slots.len();
    let cs = shift_copies(slots);
    assert(cs.first() == (slots[n - 2], slots[n - 1]));
    let fs1 = apply_copy(fs, cs.first());
    assert(fs1.dom().contains(slots[n - 1]) && fs1[slots[n - 1]] == fs[slots[n - 2]]);
    assert forall|k: int| 0 <= k < cs.drop_first().len() implies (#[trigger] cs.drop_first()[k]).1
        != slots[n - 1] by {
        assert(cs.drop_first()[k] == cs[k + 1]);
        assert(cs[k + 1].1 == slots[n - 2 - k]);
    }
    lemma_apply_copies_untouched(fs1, cs.drop_first(), slots[n - 1]);
    assert(slots[0] != slots[n - 1]);
}

} // verus!
