//! The occlusion culler: a single forward sweep over the painter-ordered
//! path list. Every path is cut where later paths cross it, and a cut
//! fragment is discarded when a closed, filled, later-drawn shape covers its
//! representative point. Draw order decides occlusion: only later shapes may
//! hide a fragment, so the last path of a document always survives whole.

use vstd::prelude::*;
use crate::path::Path;
use crate::cover::CoveringShape;
use crate::cut::{cut_path, seg_total, prefix_total};
use crate::intersect::{intersect_paths, PathIntersections};
use crate::ext::Tolerance;

verus! {

/// One covering shape slot per path, in document order: `Some` exactly for
/// the paths that can cover and have segments.
pub fn create_covering_shapes(paths: &Vec<Path>) -> (r: Vec<Option<CoveringShape>>)
    ensures
        r@.len() == paths@.len(),
        forall|i: int|
            0 <= i < r@.len() ==> ((#[trigger] r@[i]) is Some <==> (
            paths@[i].spec_can_cover() && paths@[i].segments@.len() > 0)),
        forall|i: int|
            0 <= i < r@.len() ==> ((#[trigger] r@[i]) matches Some(shape) ==> shape.source_id
                == paths@[i].source_id),
{
    let mut r: Vec<Option<CoveringShape>> = Vec::new();
    let mut i: usize = 0;
    while i < paths.len()
        invariant
            i <= paths@.len(),
            r@.len() == i,
            forall|t: int|
                0 <= t < r@.len() ==> ((#[trigger] r@[t]) is Some <==> (
                paths@[t].spec_can_cover() && paths@[t].segments@.len() > 0)),
            forall|t: int|
                0 <= t < r@.len() ==> ((#[trigger] r@[t]) matches Some(shape) ==> shape.source_id
                    == paths@[t].source_id),
        decreases paths@.len() - i,
    {
        r.push(CoveringShape::new(&paths[i]));
        i = i + 1;
    }
    r
}

/// Cuts every path at its recorded intersections: `r[i]` holds the fragments
/// of `paths[i]`, in order. A path with no records is passed through as the
/// single fragment of its group, unchanged.
pub fn cut_paths(paths: Vec<Path>, records: &Vec<PathIntersections>) -> (r: Vec<Vec<Path>>)
    requires
        records@.len() == paths@.len(),
        forall|i: int|
            0 <= i < records@.len() ==> (#[trigger] records@[i])@.len()
                == paths@[i].segments@.len(),
    ensures
        r@.len() == paths@.len(),
        forall|i: int|
            0 <= i < r@.len() ==> (#[trigger] r@[i])@.len() == 1 + seg_total(records@[i]@),
        forall|i: int|
            0 <= i < r@.len() && seg_total(records@[i]@) == 0 ==> (#[trigger] r@[i])@
                =~= seq![paths@[i]],
        forall|i: int, t: int|
            0 <= i < r@.len() && 0 <= t < r@[i]@.len() ==> {
                &&& (#[trigger] r@[i]@[t]).source_id == paths@[i].source_id
                &&& r@[i]@[t].has_fill == paths@[i].has_fill
                &&& r@[i]@[t].fill_rule == paths@[i].fill_rule
            },
{
    let ghost original = paths@;
    let mut remaining = paths;
    let count = remaining.len();
    let mut r: Vec<Vec<Path>> = Vec::new();
    let mut i: usize = 0;
    while remaining.len() > 0
        invariant
            original.len() == count,
            records@.len() == original.len(),
            forall|t: int|
                0 <= t < records@.len() ==> (#[trigger] records@[t])@.len()
                    == original[t].segments@.len(),
            i + remaining@.len() == original.len(),
            remaining@ =~= original.subrange(i as int, original.len() as int),
            r@.len() == i,
            forall|t: int|
                0 <= t < r@.len() ==> (#[trigger] r@[t])@.len() == 1 + seg_total(records@[t]@),
            forall|t: int|
                0 <= t < r@.len() && seg_total(records@[t]@) == 0 ==> (#[trigger] r@[t])@
                    =~= seq![original[t]],
            forall|t: int, f: int|
                0 <= t < r@.len() && 0 <= f < r@[t]@.len() ==> {
                    &&& (#[trigger] r@[t]@[f]).source_id == original[t].source_id
                    &&& r@[t]@[f].has_fill == original[t].has_fill
                    &&& r@[t]@[f].fill_rule == original[t].fill_rule
                },
        decreases remaining@.len(),
    {
        let p = remaining.remove(0);
        proof {
            assert(p == original[i as int]);
            assert(remaining@ =~= original.subrange(i as int + 1, original.len() as int));
        }

        let column = &records[i];
        let mut untouched = true;
        let mut t: usize = 0;
        while t < column.len()
            invariant
                t <= column@.len(),
                untouched <==> prefix_total(column@, t as int) == 0,
            decreases column@.len() - t,
        {
            if column[t].len() > 0 {
                untouched = false;
            }
            proof {
                assert(prefix_total(column@, t as int + 1) == prefix_total(column@, t as int)
                    + column@[t as int]@.len());
            }
            t = t + 1;
        }

        if untouched {
            let group = vec![p];
            proof {
                assert(group@ =~= seq![original[i as int]]);
            }
            r.push(group);
        } else {
            r.push(cut_path(&p, column));
        }
        i = i + 1;
    }
    proof {
        assert(r@.len() == original.len());
    }
    r
}

/// Whether no covering shape stands at any slot after `i`: nothing drawn
/// after the `i`-th path can cover.
pub open spec fn no_later_shape(shapes: Seq<Option<CoveringShape>>, i: int) -> bool {
    forall|s: int| i < s < shapes.len() ==> (#[trigger] shapes[s]) is None
}

/// The fragments among the first `j` of a group that were kept.
pub open spec fn select_kept(fragments: Seq<Path>, kept: Seq<bool>, j: int) -> Seq<Path>
    decreases j,
{
    if j <= 0 {
        Seq::empty()
    } else {
        select_kept(fragments, kept, j - 1) + (if j - 1 < kept.len() && kept[j - 1] {
            seq![fragments[j - 1]]
        } else {
            Seq::<Path>::empty()
        })
    }
}

/// The kept fragments of the first `i` groups, group by group, in order.
pub open spec fn groups_select(groups: Seq<Vec<Path>>, kept: Seq<Seq<bool>>, i: int) -> Seq<Path>
    decreases i,
{
    if i <= 0 {
        Seq::empty()
    } else {
        groups_select(groups, kept, i - 1) + (if i - 1 < kept.len() {
            select_kept(groups[i - 1]@, kept[i - 1], groups[i - 1]@.len() as int)
        } else {
            Seq::<Path>::empty()
        })
    }
}

proof fn lemma_select_extend_flag(fragments: Seq<Path>, kept: Seq<bool>, b: bool, j: int)
    requires
        j <= kept.len(),
    ensures
        select_kept(fragments, kept.push(b), j) == select_kept(fragments, kept, j),
    decreases j,
{
    if j > 0 {
        lemma_select_extend_flag(fragments, kept, b, j - 1);
    }
}

proof fn lemma_groups_select_extend(
    groups: Seq<Vec<Path>>,
    kept: Seq<Seq<bool>>,
    flags: Seq<bool>,
    i: int,
)
    requires
        i <= kept.len(),
    ensures
        groups_select(groups, kept.push(flags), i) == groups_select(groups, kept, i),
    decreases i,
{
    if i > 0 {
        lemma_groups_select_extend(groups, kept, flags, i - 1);
    }
}

/// A group whose flags are all set is selected whole.
pub proof fn lemma_select_all_kept(fragments: Seq<Path>, kept: Seq<bool>, j: int)
    requires
        0 <= j <= fragments.len(),
        forall|f: int| 0 <= f < j ==> f < kept.len() && #[trigger] kept[f],
    ensures
        select_kept(fragments, kept, j) =~= fragments.subrange(0, j),
    decreases j,
{
    if j > 0 {
        assert(kept[j - 1]);
        lemma_select_all_kept(fragments, kept, j - 1);
        assert(select_kept(fragments, kept, j) =~= fragments.subrange(0, j - 1) + seq![
            fragments[j - 1],
        ]);
    }
}

/// Every selected fragment is one of the group's fragments.
pub proof fn lemma_select_member(fragments: Seq<Path>, kept: Seq<bool>, j: int, k: int)
    requires
        j <= fragments.len(),
        0 <= k < select_kept(fragments, kept, j).len(),
    ensures
        exists|t: int|
            0 <= t < j && select_kept(fragments, kept, j)[k] == #[trigger] fragments[t],
    decreases j,
{
    let picked = select_kept(fragments, kept, j);
    let before = select_kept(fragments, kept, j - 1);
    if k < before.len() {
        lemma_select_member(fragments, kept, j - 1, k);
        let t = choose|t: int| 0 <= t < j - 1 && before[k] == #[trigger] fragments[t];
        assert(picked[k] == fragments[t]);
    } else {
        assert(picked[k] == fragments[j - 1]);
    }
}

/// Every fragment of a group selection comes from one of the groups.
pub proof fn lemma_groups_select_member(
    groups: Seq<Vec<Path>>,
    kept: Seq<Seq<bool>>,
    i: int,
    k: int,
)
    requires
        i <= groups.len(),
        0 <= k < groups_select(groups, kept, i).len(),
    ensures
        exists|g: int, t: int|
            0 <= g < i && 0 <= t < groups[g]@.len() && groups_select(groups, kept, i)[k]
                == #[trigger] groups[g]@[t],
    decreases i,
{
    let picked = groups_select(groups, kept, i);
    let before = groups_select(groups, kept, i - 1);
    if k < before.len() {
        lemma_groups_select_member(groups, kept, i - 1, k);
        let (g, t) = choose|g: int, t: int|
            0 <= g < i - 1 && 0 <= t < groups[g]@.len() && before[k] == #[trigger] groups[g]@[t];
        assert(picked[k] == groups[g]@[t]);
    } else {
        assert(i - 1 < kept.len());
        let block = select_kept(groups[i - 1]@, kept[i - 1], groups[i - 1]@.len() as int);
        assert(picked[k] == block[k - before.len()]);
        lemma_select_member(groups[i - 1]@, kept[i - 1], groups[i - 1]@.len() as int, k
            - before.len());
        let t = choose|t: int|
            0 <= t < groups[i - 1]@.len() && block[k - before.len()] == #[trigger] groups[i
                - 1]@[t];
        assert(picked[k] == groups[i - 1]@[t]);
    }
}

/// Keeps, from each path's fragment group, the fragments that no covering
/// shape of a later-drawn path covers. The result is an order-preserving
/// selection of the groups' fragments, group by group in document order,
/// never invented, reordered or repeated; a fragment with no covering shape
/// at any later slot is always kept — in particular the whole final group
/// survives, since no later shape exists that could cover it.
pub fn remove_covered_paths(groups: Vec<Vec<Path>>, shapes: &Vec<Option<CoveringShape>>) -> (r:
    Vec<Path>)
    requires
        groups@.len() == shapes@.len(),
    ensures
        groups@.len() == 0 ==> r@.len() == 0,
        groups@.len() > 0 ==> r@.len() >= groups@.last()@.len() && r@.subrange(
            r@.len() - groups@.last()@.len(),
            r@.len() as int,
        ) =~= groups@.last()@,
        groups@.len() == 1 ==> r@ =~= groups@[0]@,
        exists|kept: Seq<Seq<bool>>| {
            &&& kept.len() == groups@.len()
            &&& (forall|i: int| 0 <= i < kept.len() ==> (#[trigger] kept[i]).len()
                == groups@[i]@.len())
            &&& r@ == #[trigger] groups_select(groups@, kept, groups@.len() as int)
            &&& (forall|i: int, f: int|
                0 <= i < groups@.len() && 0 <= f < groups@[i]@.len() && no_later_shape(
                    shapes@,
                    i,
                ) ==> #[trigger] kept[i][f])
        },
{
    let ghost original = groups@;
    let ghost mut kept: Seq<Seq<bool>> = Seq::empty();
    let mut remaining = groups;
    let count = remaining.len();
    let mut r: Vec<Path> = Vec::new();
    let mut i: usize = 0;
    while remaining.len() > 0
        invariant
            original.len() == count,
            shapes@.len() == original.len(),
            i + remaining@.len() == original.len(),
            remaining@ =~= original.subrange(i as int, original.len() as int),
            kept.len() == i,
            forall|i0: int| 0 <= i0 < i ==> (#[trigger] kept[i0]).len() == original[i0]@.len(),
            r@ == groups_select(original, kept, i as int),
            forall|i0: int, f0: int|
                0 <= i0 < i && 0 <= f0 < original[i0]@.len() && no_later_shape(shapes@, i0)
                    ==> #[trigger] kept[i0][f0],
            i == 0 ==> r@.len() == 0,
            i == original.len() && original.len() > 0 ==> r@.len() >= original.last()@.len()
                && r@.subrange(r@.len() - original.last()@.len(), r@.len() as int)
                =~= original.last()@,
            i == original.len() && original.len() == 1 ==> r@ =~= original[0]@,
        decreases remaining@.len(),
    {
        let mut group = remaining.remove(0);
        proof {
            assert(group@ == original[i as int]@);
            assert(remaining@ =~= original.subrange(i as int + 1, original.len() as int));
        }
        let ghost group0 = group@;
        let ghost r0 = r@;
        let ghost mut flags: Seq<bool> = Seq::empty();
        let fragment_count = group.len();

        let mut f: usize = 0;
        while group.len() > 0
            invariant
                group0.len() == fragment_count,
                original.len() == count,
                shapes@.len() == original.len(),
                i < original.len(),
                f + group@.len() == group0.len(),
                group@ =~= group0.subrange(f as int, group0.len() as int),
                i == original.len() - 1 ==> r@ =~= r0 + group0.subrange(0, f as int),
                r@.len() >= r0.len(),
                r@.subrange(0, r0.len() as int) =~= r0,
                kept.len() == i,
                group0 == original[i as int]@,
                r0 == groups_select(original, kept, i as int),
                flags.len() == f,
                r@ == r0 + select_kept(group0, flags, f as int),
                no_later_shape(shapes@, i as int) ==> forall|x: int|
                    0 <= x < flags.len() ==> flags[x],
            decreases group@.len(),
        {
            let fragment = group.remove(0);
            proof {
                assert(fragment == group0[f as int]);
                assert(group@ =~= group0.subrange(f as int + 1, group0.len() as int));
            }

            let mut covered = false;
            let mut j: usize = i + 1;
            while j < shapes.len()
                invariant
                    i + 1 <= j,
                    no_later_shape(shapes@, i as int) ==> !covered,
                decreases shapes@.len() - j,
            {
                if let Some(shape) = &shapes[j] {
                    if fragment.is_covered_by(shape) {
                        covered = true;
                    }
                }
                j = j + 1;
            }

            proof {
                lemma_select_extend_flag(group0, flags, !covered, f as int);
                flags = flags.push(!covered);
            }
            if !covered {
                let ghost r_before = r@;
                r.push(fragment);
                proof {
                    assert(r@.subrange(0, r0.len() as int) =~= r_before.subrange(
                        0,
                        r0.len() as int,
                    ));
                }
            }
            proof {
                assert(r@ =~= r0 + select_kept(group0, flags, f as int + 1));
                if i == original.len() - 1 {
                    assert(no_later_shape(shapes@, i as int));
                    assert(!covered);
                    assert(r@ =~= r0 + group0.subrange(0, f as int + 1));
                }
            }
            f = f + 1;
        }
        proof {
            lemma_groups_select_extend(original, kept, flags, i as int);
            kept = kept.push(flags);
            assert(r@ == groups_select(original, kept, i as int + 1));
            if i == original.len() - 1 {
                assert(group0.subrange(0, group0.len() as int) =~= group0);
                assert(r@ =~= r0 + group0);
                assert(r@.subrange(r@.len() - group0.len(), r@.len() as int) =~= group0);
                if original.len() == 1 {
                    assert(r0 =~= Seq::<Path>::empty());
                    assert(r@ =~= original[0]@);
                }
            }
        }
        i = i + 1;
    }
    proof {
        assert(kept.len() == original.len());
        assert(r@ == groups_select(original, kept, original.len() as int));
    }
    r
}

/// The whole pass: paths are given in document (painter's, back-to-front)
/// order; the result is the order-preserving list of sub-paths that remain
/// visible. Every survivor is a fragment of some input path and carries that
/// path's identity and fill metadata; a single path passes through
/// unchanged, and the last-drawn path of any document always survives whole
/// — draw order, not geometry, decides who may occlude whom.
pub fn autocut_paths(paths: Vec<Path>, tolerance: &Tolerance) -> (r: Vec<Path>)
    ensures
        paths@.len() == 0 ==> r@.len() == 0,
        paths@.len() == 1 ==> r@ =~= paths@,
        paths@.len() > 0 ==> r@.len() > 0 && r@.last() == paths@.last(),
        forall|k: int|
            0 <= k < r@.len() ==> exists|i: int|
                {
                    &&& 0 <= i < paths@.len()
                    &&& (#[trigger] r@[k]).source_id == paths@[i].source_id
                    &&& r@[k].has_fill == paths@[i].has_fill
                    &&& r@[k].fill_rule == paths@[i].fill_rule
                },
{
    let records = intersect_paths(&paths, tolerance);
    let shapes = create_covering_shapes(&paths);
    let ghost paths0 = paths@;
    let groups = cut_paths(paths, &records);
    proof {
        if paths0.len() > 0 {
            assert(seg_total(records@[paths0.len() - 1]@) == 0);
            assert(groups@.last()@ =~= seq![paths0.last()]);
        }
    }
    let ghost groups0 = groups@;
    let survivors = remove_covered_paths(groups, &shapes);
    proof {
        let kept = choose|kept: Seq<Seq<bool>>|
            {
                &&& kept.len() == groups0.len()
                &&& (forall|i: int| 0 <= i < kept.len() ==> (#[trigger] kept[i]).len()
                    == groups0[i]@.len())
                &&& survivors@ == #[trigger] groups_select(groups0, kept, groups0.len() as int)
                &&& (forall|i: int, f: int|
                    0 <= i < groups0.len() && 0 <= f < groups0[i]@.len() && no_later_shape(
                        shapes@,
                        i,
                    ) ==> #[trigger] kept[i][f])
            };
        assert forall|k: int|
            0 <= k < survivors@.len() implies exists|i: int|
            {
                &&& 0 <= i < paths0.len()
                &&& (#[trigger] survivors@[k]).source_id == paths0[i].source_id
                &&& survivors@[k].has_fill == paths0[i].has_fill
                &&& survivors@[k].fill_rule == paths0[i].fill_rule
            } by {
            lemma_groups_select_member(groups0, kept, groups0.len() as int, k);
            let (g, t) = choose|g: int, t: int|
                0 <= g < groups0.len() && 0 <= t < groups0[g]@.len() && groups_select(
                    groups0,
                    kept,
                    groups0.len() as int,
                )[k] == #[trigger] groups0[g]@[t];
            assert(survivors@[k] == groups0[g]@[t]);
            assert(0 <= g < paths0.len() && survivors@[k].source_id == paths0[g].source_id
                && survivors@[k].has_fill == paths0[g].has_fill && survivors@[k].fill_rule
                == paths0[g].fill_rule);
        }
        if paths0.len() == 1 {
            assert(survivors@ =~= seq![paths0[0]]);
            assert(survivors@ =~= paths0);
        }
        if paths0.len() > 0 {
            assert(survivors@.len() >= 1);
            let tail = survivors@.subrange(survivors@.len() - 1, survivors@.len() as int);
            assert(tail =~= seq![paths0.last()]);
            assert(survivors@.last() == tail[0]);
            assert(survivors@.last() == paths0.last());
        }
    }
    survivors
}

} // verus!
