//! The tessellation skeleton: from a wire's segment count and cut set to
//! the polyline partition, the ribbon vertex layout, and the triangle index
//! buffer.
//!
//! Everything here is a pure function of the cut set and the segment count,
//! so equal cut sets give identical buffers. Sample positions themselves
//! (curve sampling, normals, offsets) are plain geometry on the polylines
//! and are left to the render layer; each emitted vertex names its polyline,
//! its sample index and which side of the ribbon it lies on.

use vstd::prelude::*;

use crate::cutset::CutSet;

verus! {

/// The color a rebuilt wire mesh is drawn in: severed gray when any cut is
/// present, else the power color when a terminal is a generator, else the
/// communication color.
#[derive(Clone, Copy, PartialEq, Eq, Structural, Debug)]
pub enum WireColor {
    Severed,
    Power,
    Communication,
}

/// One ribbon vertex: which polyline it belongs to, which curve sample it
/// sits at, and whether it is offset outward (+normal) or inward (-normal).
#[derive(Clone, Copy, PartialEq, Eq, Structural, Debug)]
pub struct RibbonVertex {
    pub polyline: usize,
    pub sample: usize,
    pub outward: bool,
}

/// The color rule: cuts dominate, then power, then communication.
pub open spec fn color_spec(cuts: Set<int>, powered: bool) -> WireColor {
    if cuts == Set::<int>::empty() {
        if powered {
            WireColor::Power
        } else {
            WireColor::Communication
        }
    } else {
        WireColor::Severed
    }
}

/// The polyline partition of sample indices `0 .. n`, given the cut set:
/// a sample `i` is skipped when `i` is cut, and the current polyline is
/// closed (a boundary inserted) after sample `i` when `i + 1` is cut. This
/// leaves a gap exactly one sample wide at each cut.
pub open spec fn partition_spec(n: nat, cuts: Set<int>) -> Seq<Seq<usize>>
    decreases n,
{
    if n == 0 {
        seq![Seq::<usize>::empty()]
    } else {
        let prev = partition_spec((n - 1) as nat, cuts);
        let i = (n - 1) as int;
        let with_i = if cuts.contains(i) {
            prev
        } else {
            prev.update(prev.len() - 1, prev.last().push(i as usize))
        };
        if cuts.contains(n as int) {
            with_i.push(Seq::<usize>::empty())
        } else {
            with_i
        }
    }
}

/// The partition always holds at least one (possibly empty) polyline.
proof fn lemma_partition_nonempty(n: nat, cuts: Set<int>)
    ensures
        partition_spec(n, cuts).len() >= 1,
    decreases n,
{
    if n > 0 {
        lemma_partition_nonempty((n - 1) as nat, cuts);
    }
}

/// Every sample the partition emits is in range and uncut: a severed
/// sample is skipped, not emitted.
pub proof fn lemma_partition_samples(n: nat, cuts: Set<int>)
    requires
        n <= usize::MAX,
    ensures
        forall|p: int, q: int|
            0 <= p < partition_spec(n, cuts).len() && 0 <= q < partition_spec(n, cuts)[p].len()
                ==> (#[trigger] partition_spec(n, cuts)[p][q]) < n && !cuts.contains(
                partition_spec(n, cuts)[p][q] as int),
    decreases n,
{
    if n > 0 {
        lemma_partition_samples((n - 1) as nat, cuts);
        lemma_partition_nonempty((n - 1) as nat, cuts);
        let prev = partition_spec((n - 1) as nat, cuts);
        let i = (n - 1) as int;
        let cur = partition_spec(n, cuts);
        assert forall|p: int, q: int|
            0 <= p < cur.len() && 0 <= q < cur[p].len() implies (#[trigger] cur[p][q]) < n
            && !cuts.contains(cur[p][q] as int) by {
            if p < prev.len() {
                if !cuts.contains(i) && p == prev.len() - 1 && q == prev.last().len() {
                    assert(cur[p][q] == i as usize);
                } else {
                    assert(cur[p][q] == prev[p][q]);
                }
            }
        }
    }
}

/// Ribbon vertices only ever name samples their polylines hold.
proof fn lemma_ribbon_samples(polys: Seq<Seq<usize>>, n: nat, cuts: Set<int>)
    requires
        forall|p: int, q: int|
            0 <= p < polys.len() && 0 <= q < polys[p].len() ==> (#[trigger] polys[p][q]) < n
                && !cuts.contains(polys[p][q] as int),
    ensures
        forall|j: int|
            0 <= j < ribbon_verts(polys).len() ==> (#[trigger] ribbon_verts(polys)[j]).sample < n
                && !cuts.contains(ribbon_verts(polys)[j].sample as int),
    decreases polys.len(),
{
    if polys.len() > 0 {
        let rest = polys.drop_last();
        assert forall|p: int, q: int|
            0 <= p < rest.len() && 0 <= q < rest[p].len() implies (#[trigger] rest[p][q]) < n
            && !cuts.contains(rest[p][q] as int) by {
            assert(rest[p] == polys[p]);
        }
        lemma_ribbon_samples(rest, n, cuts);
        let vs0 = ribbon_verts(rest);
        let lr = line_ribbon((polys.len() - 1) as usize, polys.last());
        let vs = ribbon_verts(polys);
        assert forall|j: int|
            0 <= j < vs.len() implies (#[trigger] vs[j]).sample < n && !cuts.contains(
            vs[j].sample as int,
        ) by {
            if j < vs0.len() {
                assert(vs[j] == vs0[j]);
            } else {
                assert(vs[j] == lr[j - vs0.len()]);
                assert(lr[j - vs0.len()].sample == polys.last()[(j - vs0.len()) / 2]);
                assert(polys[polys.len() - 1][(j - vs0.len()) / 2] < n);
            }
        }
    }
}

/// The view of a built polyline list.
pub open spec fn polys_view(polys: Seq<Vec<usize>>) -> Seq<Seq<usize>> {
    polys.map_values(|line: Vec<usize>| line@)
}

/// Law: cutting at a position not yet cut and then joining at that same
/// position restores the original cut set, and with it the polyline
/// partition and every buffer derived from it, byte for byte.
pub proof fn lemma_cut_join_roundtrip(cuts: Set<int>, pos: int, n: nat)
    requires
        !cuts.contains(pos),
    ensures
        cuts.insert(pos).remove(pos) == cuts,
        partition_spec(n, cuts.insert(pos).remove(pos)) == partition_spec(n, cuts),
        ribbon_verts(partition_spec(n, cuts.insert(pos).remove(pos))) == ribbon_verts(
            partition_spec(n, cuts),
        ),
        ribbon_breaks(partition_spec(n, cuts.insert(pos).remove(pos))) == ribbon_breaks(
            partition_spec(n, cuts),
        ),
{
    assert(cuts.insert(pos).remove(pos) =~= cuts);
}

/// Law: cutting twice at one position is the same as cutting once, and
/// joining twice is the same as joining once.
pub proof fn lemma_cut_join_idempotent(cuts: Set<int>, pos: int)
    ensures
        cuts.insert(pos).insert(pos) == cuts.insert(pos),
        cuts.remove(pos).remove(pos) == cuts.remove(pos),
{
    assert(cuts.insert(pos).insert(pos) =~= cuts.insert(pos));
    assert(cuts.remove(pos).remove(pos) =~= cuts.remove(pos));
}

/// Ribbon vertices of one polyline: two per sample, offset to either side.
/// A polyline of fewer than two samples spans no segment and emits nothing.
pub open spec fn line_ribbon(p: usize, line: Seq<usize>) -> Seq<RibbonVertex> {
    if line.len() < 2 {
        Seq::empty()
    } else {
        Seq::new(
            (2 * line.len()) as nat,
            |j: int|
                RibbonVertex { polyline: p, sample: line[j / 2], outward: j % 2 == 0 },
        )
    }
}

/// The full vertex buffer: each polyline's ribbon in order.
pub open spec fn ribbon_verts(polys: Seq<Seq<usize>>) -> Seq<RibbonVertex>
    decreases polys.len(),
{
    if polys.len() == 0 {
        Seq::empty()
    } else {
        ribbon_verts(polys.drop_last()) + line_ribbon(
            (polys.len() - 1) as usize,
            polys.last(),
        )
    }
}

/// The boundary record: the vertex count at the end of each emitted
/// polyline's ribbon. Triangle generation never crosses these.
pub open spec fn ribbon_breaks(polys: Seq<Seq<usize>>) -> Seq<usize>
    decreases polys.len(),
{
    if polys.len() == 0 {
        Seq::empty()
    } else {
        let prev = ribbon_breaks(polys.drop_last());
        if polys.last().len() < 2 {
            prev
        } else {
            prev.push(ribbon_verts(polys).len() as usize)
        }
    }
}

/// The boundary positions as a set.
pub open spec fn breaks_set(breaks: Seq<usize>) -> Set<int> {
    Set::new(|p: int| exists|k: int| 0 <= k < breaks.len() && breaks[k] == p)
}

/// Structural facts tying a vertex buffer to its boundary record: vertex
/// counts are even, boundaries are even, positive, increasing, end at the
/// buffer's end, and the owning polyline changes only across a boundary.
pub open spec fn layout_wf(vs: Seq<RibbonVertex>, bs: Seq<usize>) -> bool {
    &&& vs.len() % 2 == 0
    &&& forall|k: int|
        0 <= k < bs.len() ==> (#[trigger] bs[k]) % 2 == 0 && 0 < bs[k] <= vs.len()
    &&& forall|k1: int, k2: int| 0 <= k1 < k2 < bs.len() ==> bs[k1] < bs[k2]
    &&& (vs.len() > 0 ==> bs.len() > 0 && bs.last() == vs.len())
    &&& forall|j: int|
        0 <= j < vs.len() - 1 && (#[trigger] vs[j]).polyline != vs[j + 1].polyline
            ==> breaks_set(bs).contains(j + 1)
}

/// Every generated layout is well formed.
pub proof fn lemma_layout_wf(polys: Seq<Seq<usize>>)
    requires
        ribbon_verts(polys).len() <= usize::MAX,
    ensures
        layout_wf(ribbon_verts(polys), ribbon_breaks(polys)),
    decreases polys.len(),
{
    if polys.len() == 0 {
    } else {
        let rest = polys.drop_last();
        let vs0 = ribbon_verts(rest);
        let bs0 = ribbon_breaks(rest);
        let lr = line_ribbon((polys.len() - 1) as usize, polys.last());
        let vs = ribbon_verts(polys);
        let bs = ribbon_breaks(polys);
        assert(vs == vs0 + lr);
        assert(vs0.len() <= vs.len());
        lemma_layout_wf(rest);
        if polys.last().len() < 2 {
            assert(vs =~= vs0);
            assert(bs == bs0);
        } else {
            assert(lr.len() == 2 * polys.last().len());
            assert(bs == bs0.push(vs.len() as usize));
            assert forall|j: int|
                0 <= j < vs.len() - 1 && (#[trigger] vs[j]).polyline != vs[j + 1].polyline
                    implies breaks_set(bs).contains(j + 1) by {
                if j + 1 < vs0.len() {
                    assert(vs[j] == vs0[j] && vs[j + 1] == vs0[j + 1]);
                    assert(breaks_set(bs0).contains(j + 1));
                    let k = choose|k: int| 0 <= k < bs0.len() && bs0[k] == j + 1;
                    assert(bs[k] == j + 1);
                } else if j + 1 == vs0.len() {
                    assert(vs0.len() > 0);
                    assert(bs0.last() == vs0.len());
                    let k = bs0.len() - 1;
                    assert(bs[k] == j + 1);
                } else {
                    assert(vs[j] == lr[j - vs0.len()]);
                    assert(vs[j + 1] == lr[j + 1 - vs0.len()]);
                    assert(vs[j].polyline == vs[j + 1].polyline);
                }
            }
            assert forall|k1: int, k2: int|
                0 <= k1 < k2 < bs.len() implies bs[k1] < bs[k2] by {
                if k2 == bs.len() - 1 {
                    assert(bs[k1] == bs0[k1] && bs0[k1] <= vs0.len());
                    assert(vs.len() > vs0.len());
                }
            }
        }
    }
}

/// The triangle index stream from position `i` on: for each even position
/// whose pair-successor does not start a new polyline, two triangles tying
/// the vertex pair at `i` to the pair at `i + 2`.
pub open spec fn indices_spec(total: int, bs: Set<int>, i: int) -> Seq<usize>
    decreases (if i < total { total - i } else { 0 }),
{
    if i < 0 || i >= total {
        Seq::empty()
    } else {
        let rest = if i + 2 <= total {
            indices_spec(total, bs, i + 2)
        } else {
            Seq::empty()
        };
        if !bs.contains(i + 2) {
            seq![
                i as usize,
                (i + 3) as usize,
                (i + 1) as usize,
                i as usize,
                (i + 2) as usize,
                (i + 3) as usize,
            ] + rest
        } else {
            rest
        }
    }
}

/// The boundary-respecting property: every index points into the vertex
/// buffer, indices come in whole triangles, and the three corners of each
/// triangle lie on one polyline.
pub open spec fn indices_ok(vs: Seq<RibbonVertex>, ind: Seq<usize>) -> bool {
    &&& ind.len() % 3 == 0
    &&& forall|q: int| 0 <= q < ind.len() ==> (#[trigger] ind[q]) < vs.len()
    &&& forall|t: int|
        0 <= t && 3 * t + 2 < ind.len() ==> {
            &&& vs[(#[trigger] ind[3 * t]) as int].polyline == vs[ind[3 * t + 1] as int].polyline
            &&& vs[ind[3 * t] as int].polyline == vs[ind[3 * t + 2] as int].polyline
        }
}

/// Law: triangle indices stay inside the vertex buffer and never join
/// vertices of two different polylines, whatever the cut set.
#[verifier::rlimit(100)]
pub proof fn lemma_indices_ok(vs: Seq<RibbonVertex>, bs: Seq<usize>, i: int)
    requires
        layout_wf(vs, bs),
        0 <= i,
        i % 2 == 0,
    ensures
        indices_ok(vs, indices_spec(vs.len() as int, breaks_set(bs), i)),
    decreases (if i < vs.len() { vs.len() - i } else { 0 }),
{
    let total = vs.len() as int;
    let bsset = breaks_set(bs);
    let ind = indices_spec(total, bsset, i);
    if i >= total {
    } else {
        assert(total > 0);
        assert(bs.len() > 0 && bs.last() == vs.len());
        assert(bsset.contains(total)) by {
            assert(bs[bs.len() - 1] == vs.len());
        }
        lemma_indices_ok(vs, bs, i + 2);
        let rest = indices_spec(total, bsset, i + 2);
        if !bsset.contains(i + 2) {
            assert(i + 2 != total);
            assert(i + 2 < total);
            assert(i + 3 < total) by {
                assert(total % 2 == 0);
            }
            assert(vs[i].polyline == vs[i + 1].polyline) by {
                if vs[i].polyline != vs[i + 1].polyline {
                    assert(bsset.contains(i + 1));
                    let k = choose|k: int| 0 <= k < bs.len() && bs[k] == i + 1;
                    assert(bs[k] % 2 == 0);
                }
            }
            assert(vs[i + 1].polyline == vs[i + 2].polyline) by {
                if vs[i + 1].polyline != vs[i + 2].polyline {
                    assert(bsset.contains(i + 2));
                }
            }
            assert(vs[i + 2].polyline == vs[i + 3].polyline) by {
                if vs[i + 2].polyline != vs[i + 3].polyline {
                    assert(bsset.contains(i + 3));
                    let k = choose|k: int| 0 <= k < bs.len() && bs[k] == i + 3;
                    assert(bs[k] % 2 == 0);
                }
            }
            let block = seq![
                i as usize,
                (i + 3) as usize,
                (i + 1) as usize,
                i as usize,
                (i + 2) as usize,
                (i + 3) as usize,
            ];
            assert(ind == block + rest);
            assert forall|q: int| 0 <= q < ind.len() implies (#[trigger] ind[q]) < vs.len() by {
                if q >= 6 {
                    assert(ind[q] == rest[q - 6]);
                }
            }
            assert forall|t: int|
                0 <= t && 3 * t + 2 < ind.len() implies {
                &&& vs[(#[trigger] ind[3 * t]) as int].polyline == vs[ind[3 * t
                    + 1] as int].polyline
                &&& vs[ind[3 * t] as int].polyline == vs[ind[3 * t + 2] as int].polyline
            } by {
                if t < 2 {
                    assert(vs[ind[3 * t] as int].polyline == vs[i].polyline);
                    assert(vs[ind[3 * t + 1] as int].polyline == vs[i].polyline);
                    assert(vs[ind[3 * t + 2] as int].polyline == vs[i].polyline);
                } else {
                    let u = t - 2;
                    assert(ind[3 * t] == rest[3 * u]);
                    assert(ind[3 * t + 1] == rest[3 * u + 1]);
                    assert(ind[3 * t + 2] == rest[3 * u + 2]);
                    assert(vs[rest[3 * u] as int].polyline == vs[rest[3 * u + 1] as int].polyline);
                    assert(vs[rest[3 * u] as int].polyline == vs[rest[3 * u + 2] as int].polyline);
                }
            }
        } else {
            assert(ind == rest);
        }
    }
}

/// Partition samples `0 .. segments` into polylines around the cut set.
pub fn polylines(segments: usize, cuts: &CutSet) -> (polys: Vec<Vec<usize>>)
    ensures
        polys_view(polys@) == partition_spec(segments as nat, cuts@),
        polys@.len() >= 1,
{
    let mut polys: Vec<Vec<usize>> = Vec::new();
    let mut line: Vec<usize> = Vec::new();
    let mut i: usize = 0;
    proof {
        assert(partition_spec(0, cuts@) =~= polys_view(polys@).push(line@));
    }
    while i < segments
        invariant
            0 <= i <= segments,
            partition_spec(i as nat, cuts@) == polys_view(polys@).push(line@),
        decreases segments - i,
    {
        let ghost prev = partition_spec(i as nat, cuts@);
        let ghost oldpolys = polys@;
        let ghost oldline = line@;
        if !cuts.contains(i) {
            line.push(i);
            proof {
                assert(prev.update(prev.len() - 1, prev.last().push(i as usize)) =~= polys_view(
                    polys@,
                ).push(line@));
            }
        }
        if cuts.contains(i + 1) {
            polys.push(line);
            line = Vec::new();
            proof {
                let ghost closed = polys_view(polys@);
                assert(closed =~= polys_view(oldpolys).push(polys@.last()@));
                assert(partition_spec((i + 1) as nat, cuts@) =~= polys_view(polys@).push(line@));
            }
        } else {
            proof {
                assert(partition_spec((i + 1) as nat, cuts@) =~= polys_view(polys@).push(line@));
            }
        }
        i += 1;
    }
    polys.push(line);
    proof {
        assert(polys_view(polys@) =~= partition_spec(segments as nat, cuts@));
    }
    polys
}

/// Build the ribbon vertex buffer and the boundary record for a partition.
fn ribbon(polys: &Vec<Vec<usize>>) -> (r: (Vec<RibbonVertex>, Vec<usize>))
    ensures
        r.0@ == ribbon_verts(polys_view(polys@)),
        r.1@ == ribbon_breaks(polys_view(polys@)),
{
    let mut verts: Vec<RibbonVertex> = Vec::new();
    let mut breaks: Vec<usize> = Vec::new();
    let ghost pv = polys_view(polys@);
    let mut p: usize = 0;
    proof {
        assert(pv.take(0) =~= Seq::<Seq<usize>>::empty());
    }
    while p < polys.len()
        invariant
            0 <= p <= polys@.len(),
            pv == polys_view(polys@),
            verts@ == ribbon_verts(pv.take(p as int)),
            breaks@ == ribbon_breaks(pv.take(p as int)),
        decreases polys@.len() - p,
    {
        let line = &polys[p];
        let ghost base = verts@;
        proof {
            assert(pv[p as int] == line@);
        }
        if line.len() >= 2 {
            let mut j: usize = 0;
            while j < line.len()
                invariant
                    0 <= j <= line@.len(),
                    line@.len() >= 2,
                    line@ == polys_view(polys@)[p as int],
                    p < polys@.len(),
                    line == &polys[p as int],
                    verts@ == base + Seq::new(
                        (2 * j) as nat,
                        |q: int|
                            RibbonVertex {
                                polyline: p,
                                sample: line@[q / 2],
                                outward: q % 2 == 0,
                            },
                    ),
                decreases line@.len() - j,
            {
                let s = line[j];
                verts.push(RibbonVertex { polyline: p, sample: s, outward: true });
                verts.push(RibbonVertex { polyline: p, sample: s, outward: false });
                proof {
                    assert(verts@ =~= base + Seq::new(
                        (2 * (j + 1)) as nat,
                        |q: int|
                            RibbonVertex {
                                polyline: p,
                                sample: line@[q / 2],
                                outward: q % 2 == 0,
                            },
                    ));
                }
                j += 1;
            }
            proof {
                assert(verts@ =~= base + line_ribbon(p, line@));
            }
            breaks.push(verts.len());
        } else {
            proof {
                assert(verts@ =~= base + line_ribbon(p, line@));
            }
        }
        proof {
            let taken = pv.take(p + 1);
            assert(taken.drop_last() =~= pv.take(p as int));
            assert(taken.last() == pv[p as int]);
            assert(taken.len() - 1 == p);
            assert(verts@ == ribbon_verts(taken));
            assert(breaks@ == ribbon_breaks(taken));
        }
        p += 1;
    }
    proof {
        assert(pv.take(polys@.len() as int) =~= pv);
    }
    (verts, breaks)
}

/// Whether `x` is one of the recorded polyline boundaries.
fn contains_break(breaks: &Vec<usize>, x: usize) -> (r: bool)
    ensures
        r == breaks_set(breaks@).contains(x as int),
{
    let mut k: usize = 0;
    while k < breaks.len()
        invariant
            0 <= k <= breaks@.len(),
            forall|j: int| 0 <= j < k ==> breaks@[j] != x,
        decreases breaks@.len() - k,
    {
        if breaks[k] == x {
            return true;
        }
        k += 1;
    }
    false
}

/// Emit the triangle index stream for a vertex buffer with the given
/// polyline boundaries.
fn triangle_indices(total: usize, breaks: &Vec<usize>) -> (ind: Vec<usize>)
    requires
        total % 2 == 0,
        total > 0 ==> breaks_set(breaks@).contains(total as int),
        forall|k: int| 0 <= k < breaks@.len() ==> (#[trigger] breaks@[k]) % 2 == 0,
    ensures
        ind@ == indices_spec(total as int, breaks_set(breaks@), 0),
{
    let ghost bsset = breaks_set(breaks@);
    let mut ind: Vec<usize> = Vec::new();
    let mut i: usize = 0;
    while i < total
        invariant
            0 <= i <= total,
            i % 2 == 0,
            total % 2 == 0,
            bsset == breaks_set(breaks@),
            total > 0 ==> bsset.contains(total as int),
            forall|k: int| 0 <= k < breaks@.len() ==> (#[trigger] breaks@[k]) % 2 == 0,
            indices_spec(total as int, bsset, 0) == ind@ + indices_spec(
                total as int,
                bsset,
                i as int,
            ),
        decreases total - i,
    {
        let ghost oldind = ind@;
        if !contains_break(breaks, i + 2) {
            proof {
                assert(i + 2 < total) by {
                    if i + 2 == total {
                        assert(bsset.contains(total as int));
                    }
                }
                assert(i + 3 < total);
            }
            ind.push(i);
            ind.push(i + 3);
            ind.push(i + 1);
            ind.push(i);
            ind.push(i + 2);
            ind.push(i + 3);
            proof {
                let block = seq![
                    i,
                    (i + 3) as usize,
                    (i + 1) as usize,
                    i,
                    (i + 2) as usize,
                    (i + 3) as usize,
                ];
                assert(ind@ =~= oldind + block);
                assert(indices_spec(total as int, bsset, i as int) == block + indices_spec(
                    total as int,
                    bsset,
                    i + 2,
                ));
                assert(oldind + (block + indices_spec(total as int, bsset, i + 2)) =~= ind@
                    + indices_spec(total as int, bsset, i + 2));
            }
        } else {
            proof {
                assert(indices_spec(total as int, bsset, i as int) == indices_spec(
                    total as int,
                    bsset,
                    i + 2,
                ));
            }
        }
        i += 2;
    }
    proof {
        assert(indices_spec(total as int, bsset, i as int) == Seq::<usize>::empty());
        assert(ind@ + Seq::<usize>::empty() =~= ind@);
    }
    ind
}

/// A wire's rebuilt mesh skeleton: the polyline partition, the ribbon
/// vertex layout, the triangle index buffer, and the draw color.
pub struct Tessellation {
    pub polylines: Vec<Vec<usize>>,
    pub vertices: Vec<RibbonVertex>,
    pub indices: Vec<usize>,
    pub color: WireColor,
}

/// Rebuild the mesh skeleton of one wire from its segment count and cut
/// set. The buffers are a pure function of those inputs, and the triangle
/// indices never join vertices of two different polylines.
pub fn tessellate(segments: usize, cuts: &CutSet, powered: bool) -> (t: Tessellation)
    requires
        cuts.wf(),
    ensures
        polys_view(t.polylines@) == partition_spec(segments as nat, cuts@),
        t.vertices@ == ribbon_verts(partition_spec(segments as nat, cuts@)),
        t.indices@ == indices_spec(
            t.vertices@.len() as int,
            breaks_set(ribbon_breaks(partition_spec(segments as nat, cuts@))),
            0,
        ),
        t.color == color_spec(cuts@, powered),
        indices_ok(t.vertices@, t.indices@),
        forall|j: int|
            0 <= j < t.vertices@.len() ==> (#[trigger] t.vertices@[j]).sample < segments
                && !cuts@.contains(t.vertices@[j].sample as int),
{
    let polys = polylines(segments, cuts);
    let (verts, breaks) = ribbon(&polys);
    let vcount = verts.len();
    proof {
        assert(ribbon_verts(polys_view(polys@)).len() == vcount);
        lemma_partition_samples(segments as nat, cuts@);
        lemma_ribbon_samples(polys_view(polys@), segments as nat, cuts@);
        lemma_layout_wf(polys_view(polys@));
        lemma_indices_ok(verts@, breaks@, 0);
        if verts@.len() > 0 {
            assert(breaks@[breaks@.len() - 1] == verts@.len());
            assert(breaks_set(breaks@).contains(verts@.len() as int));
        }
    }
    let ind = triangle_indices(verts.len(), &breaks);
    let color = if cuts.count() > 0 {
        WireColor::Severed
    } else if powered {
        WireColor::Power
    } else {
        WireColor::Communication
    };
    proof {
        if cuts@ == Set::<int>::empty() {
            assert(cuts@ =~= Set::<int>::empty());
        }
    }
    Tessellation { polylines: polys, vertices: verts, indices: ind, color }
}

} // verus!
