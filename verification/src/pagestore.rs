//! The read-paging planner: given the segment index for a volume at an
//! LSN (newest segment first) and a set of requested page offsets, it
//! decides which offsets to load from which segment. Each segment is
//! assigned the cut of the outstanding request it can serve; the scan
//! stops as soon as nothing is outstanding.

use vstd::prelude::*;
use crate::gid::SegmentId;
use crate::splinter::Splinter;

verus! {

/// The view of a segment list: identifier bytes and offset sets.
pub open spec fn seg_views(v: Seq<(SegmentId, Splinter)>) -> Seq<(Seq<u8>, Set<u32>)> {
    Seq::new(v.len(), |i: int| (v[i].0@, v[i].1.set()))
}

/// The view of a plan list.
pub open spec fn plan_views(v: Seq<(SegmentId, Splinter)>) -> Seq<(Seq<u8>, Set<u32>)> {
    Seq::new(v.len(), |i: int| (v[i].0@, v[i].1.set()))
}

/// The planned loads and the outstanding remainder for a scan of
/// `segs` against the request `req`: each segment takes the part of
/// the outstanding request it covers; segments that cover nothing are
/// skipped.
pub open spec fn plan_spec(segs: Seq<(Seq<u8>, Set<u32>)>, req: Set<u32>) -> (Seq<
    (Seq<u8>, Set<u32>),
>, Set<u32>)
    decreases segs.len(),
{
    if segs.len() == 0 {
        (Seq::empty(), req)
    } else {
        let cut = req.intersect(segs[0].1);
        let rest = req.difference(segs[0].1);
        if cut == Set::<u32>::empty() {
            plan_spec(segs.skip(1), req)
        } else {
            let r = plan_spec(segs.skip(1), rest);
            (seq![(segs[0].0, cut)] + r.0, r.1)
        }
    }
}

/// Scanning with nothing outstanding plans nothing.
pub proof fn lemma_plan_empty(segs: Seq<(Seq<u8>, Set<u32>)>)
    ensures
        plan_spec(segs, Set::empty()).0 == Seq::<(Seq<u8>, Set<u32>)>::empty(),
        plan_spec(segs, Set::empty()).1 == Set::<u32>::empty(),
    decreases segs.len(),
{
    if segs.len() > 0 {
        assert(Set::<u32>::empty().intersect(segs[0].1) =~= Set::<u32>::empty());
        assert(Set::<u32>::empty().difference(segs[0].1) =~= Set::<u32>::empty());
        lemma_plan_empty(segs.skip(1));
    }
}

/// The planner partitions the request: the planned cuts are non-empty,
/// pairwise disjoint, drawn from the request, and together with the
/// outstanding remainder they reassemble the request exactly; each cut
/// lies within its segment.
pub proof fn lemma_plan_partition(segs: Seq<(Seq<u8>, Set<u32>)>, req: Set<u32>)
    ensures
        ({
            let (plans, rest) = plan_spec(segs, req);
            &&& forall|k: int| 0 <= k < plans.len() ==> (#[trigger] plans[k]).1 != Set::<u32>::empty()
            &&& forall|k: int| 0 <= k < plans.len() ==> (#[trigger] plans[k]).1.subset_of(req)
            &&& forall|k: int, l: int|
                0 <= k < l < plans.len() ==> (#[trigger] plans[k]).1.intersect(
                    (#[trigger] plans[l]).1,
                ) == Set::<u32>::empty()
            &&& rest.subset_of(req)
            &&& forall|x: u32|
                #[trigger] req.contains(x) && !rest.contains(x) ==> exists|k: int|
                    0 <= k < plans.len() && (#[trigger] plans[k]).1.contains(x)
        }),
    decreases segs.len(),
{
    if segs.len() == 0 {
    } else {
        let cut = req.intersect(segs[0].1);
        let rest0 = req.difference(segs[0].1);
        if cut == Set::<u32>::empty() {
            lemma_plan_partition(segs.skip(1), req);
        } else {
            lemma_plan_partition(segs.skip(1), rest0);
            let r = plan_spec(segs.skip(1), rest0);
            let plans = seq![(segs[0].0, cut)] + r.0;
            assert(rest0.subset_of(req));
            assert(r.1.subset_of(req));
            assert forall|k: int| 0 <= k < plans.len() implies (#[trigger] plans[k]).1
                != Set::<u32>::empty() by {
                if k > 0 {
                    assert(plans[k] == r.0[k - 1]);
                }
            }
            assert forall|k: int| 0 <= k < plans.len() implies (#[trigger] plans[k]).1.subset_of(
                req,
            ) by {
                if k > 0 {
                    assert(plans[k] == r.0[k - 1]);
                    assert(r.0[k - 1].1.subset_of(rest0));
                }
            }
            assert forall|k: int, l: int|
                0 <= k < l < plans.len() implies (#[trigger] plans[k]).1.intersect(
                (#[trigger] plans[l]).1,
            ) == Set::<u32>::empty() by {
                if k == 0 {
                    assert(plans[l] == r.0[l - 1]);
                    assert(r.0[l - 1].1.subset_of(rest0));
                    assert(cut.intersect(plans[l].1) =~= Set::<u32>::empty());
                } else {
                    assert(plans[k] == r.0[k - 1] && plans[l] == r.0[l - 1]);
                }
            }
            assert forall|x: u32| #[trigger] req.contains(x) && !r.1.contains(x) implies exists|
                k: int,
            |
                0 <= k < plans.len() && (#[trigger] plans[k]).1.contains(x) by {
                if cut.contains(x) {
                    assert(plans[0].1.contains(x));
                } else {
                    assert(rest0.contains(x));
                    let k = choose|k: int|
                        0 <= k < r.0.len() && (#[trigger] r.0[k]).1.contains(x);
                    assert(plans[k + 1].1.contains(x));
                }
            }
            assert(plan_spec(segs, req).0 == plans);
            assert(plan_spec(segs, req).1 == r.1);
        }
    }
}

/// Plans the loads for a read request: walks the segments newest
/// first, cuts the outstanding offsets each segment can serve, and
/// stops once nothing is outstanding. Afterwards `requested` holds
/// exactly the offsets no scanned segment covers.
pub fn plan_reads(segments: &Vec<(SegmentId, Splinter)>, requested: &mut Splinter) -> (plans: Vec<
    (SegmentId, Splinter),
>)
    requires
        old(requested).wf(),
        forall|i: int| 0 <= i < segments@.len() ==> (#[trigger] segments@[i]).1.wf(),
    ensures
        final(requested).wf(),
        forall|k: int| 0 <= k < plans@.len() ==> (#[trigger] plans@[k]).1.wf(),
        plan_views(plans@) == plan_spec(seg_views(segments@), old(requested).set()).0,
        final(requested).set() == plan_spec(seg_views(segments@), old(requested).set()).1,
    {
        let ghost sv = seg_views(segments@);
        let ghost req0 = old(requested).set();
        let n = segments.len();
        let mut plans: Vec<(SegmentId, Splinter)> = Vec::new();
        let mut i: usize = 0;
        proof {
            assert(sv.skip(0) =~= sv);
            assert(plan_views(plans@) =~= Seq::<(Seq<u8>, Set<u32>)>::empty());
            assert(plan_views(plans@) + plan_spec(sv, req0).0 =~= plan_spec(sv, req0).0);
        }
        while i < n
            invariant
                i <= n,
                n == segments@.len(),
                sv == seg_views(segments@),
                req0 == old(requested).set(),
                requested.wf(),
                forall|j: int| 0 <= j < segments@.len() ==> (#[trigger] segments@[j]).1.wf(),
                forall|k: int| 0 <= k < plans@.len() ==> (#[trigger] plans@[k]).1.wf(),
                plan_spec(sv, req0).0 == plan_views(plans@) + plan_spec(
                    sv.skip(i as int),
                    requested.set(),
                ).0,
                plan_spec(sv, req0).1 == plan_spec(sv.skip(i as int), requested.set()).1,
            decreases n - i,
        {
            let ghost req_before = requested.set();
            let seg = &segments[i];
            let cut = requested.cut(&seg.1);
            proof {
                assert(sv.skip(i as int)[0] == sv[i as int]);
                assert(sv.skip(i as int).skip(1) =~= sv.skip(i + 1));
                assert(cut.set() =~= req_before.intersect(sv[i as int].1));
                assert(requested.set() =~= req_before.difference(sv[i as int].1));
            }
            if cut.is_empty() {
                proof {
                    assert(cut.set() =~= Set::<u32>::empty());
                    // An empty cut means the segment covered nothing, so
                    // the outstanding set is unchanged.
                    assert(requested.set() =~= req_before);
                    assert(req_before.intersect(sv[i as int].1) == Set::<u32>::empty());
                    assert(plan_spec(sv.skip(i as int), req_before) == plan_spec(
                        sv.skip(i + 1),
                        req_before,
                    ));
                    assert(plan_spec(sv, req0).0 == plan_views(plans@) + plan_spec(
                        sv.skip(i + 1),
                        requested.set(),
                    ).0);
                    assert(plan_spec(sv, req0).1 == plan_spec(
                        sv.skip(i + 1),
                        requested.set(),
                    ).1);
                }
            } else {
                let ghost plans0 = plans@;
                proof {
                    assert(cut.set().contains(cut@[0]));
                    assert(req_before.intersect(sv[i as int].1) != Set::<u32>::empty());
                }
                plans.push((seg.0, cut));
                proof {
                    let item = (sv[i as int].0, req_before.intersect(sv[i as int].1));
                    let tail = plan_spec(sv.skip(i + 1), requested.set());
                    assert(requested.set() == req_before.difference(sv[i as int].1));
                    assert(plan_spec(sv.skip(i as int), req_before).0 == seq![item] + tail.0);
                    assert(plan_spec(sv.skip(i as int), req_before).1 == tail.1);
                    assert(plan_views(plans@) =~= plan_views(plans0).push(item));
                    assert(plan_views(plans0).push(item) + tail.0 =~= plan_views(plans0) + (
                    seq![item] + tail.0));
                    assert(plan_spec(sv, req0).0 == plan_views(plans@) + tail.0);
                    assert(plan_spec(sv, req0).1 == tail.1);
                }
            }
            // Stop as soon as every requested offset is covered.
            if requested.is_empty() {
                proof {
                    assert(requested.set() =~= Set::<u32>::empty());
                    lemma_plan_empty(sv.skip(i + 1));
                    assert(plan_views(plans@) + plan_spec(sv.skip(i + 1), requested.set()).0
                        =~= plan_views(plans@));
                    assert(plan_spec(sv, req0).0 == plan_views(plans@));
                    assert(plan_spec(sv, req0).1 == requested.set());
                }
                return plans;
            }
            i = i + 1;
        }
        proof {
            assert(sv.skip(n as int) =~= Seq::<(Seq<u8>, Set<u32>)>::empty());
            assert(plan_views(plans@) + plan_spec(sv.skip(n as int), requested.set()).0
                =~= plan_views(plans@));
        }
        plans
    }

} // verus!
