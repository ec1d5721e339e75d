//! The client engine's state: the cache of the last consistent view a peer
//! delivered, the sparse merges that maintain it, and the first-in first-out
//! pairing of acknowledgments with outstanding mutations. The session loop
//! around these is plain plumbing; everything it decides is here.
use vstd::prelude::*;

verus! {

use crate::model::{VideohubMessage, MsgV, DeviceInfo};
use crate::matrix::{
    RouterInfo,
    RouterMatrixInfo,
    RouterLabel,
    RouterPatch,
    RouterError,
    RouterEvent,
    RouterLabelV,
    rlabels_view,
};
use crate::frontend::{labels_from_wire, patches_from_wire, router_of_wire_labels, patches_of_routes};
use crate::dummy::clone_bytes;

/// Which part of the cache changed.
#[derive(Clone, Copy, Debug, PartialEq, Eq)]
pub enum CacheEvent {
    InputLabels,
    OutputLabels,
    Routes,
    Disconnected,
}

/// The last consistent view delivered by the peer. Each list is absent until
/// first populated.
#[derive(Clone, Debug, PartialEq, Eq)]
pub struct Cache {
    pub info: RouterInfo,
    pub matrix_info: RouterMatrixInfo,
    pub input_labels: Option<Vec<RouterLabel>>,
    pub output_labels: Option<Vec<RouterLabel>>,
    pub routes: Option<Vec<RouterPatch>>,
}

pub open spec fn opt_labels_view(v: Option<Vec<RouterLabel>>) -> Option<Seq<RouterLabelV>> {
    match v {
        Some(l) => Some(rlabels_view(l@)),
        None => None,
    }
}

pub open spec fn opt_patches_view(v: Option<Vec<RouterPatch>>) -> Option<Seq<RouterPatch>> {
    match v {
        Some(p) => Some(p@),
        None => None,
    }
}

/// First position holding a label with this id, or -1.
pub open spec fn find_label_idx(cur: Seq<RouterLabelV>, id: u32) -> int
    decreases cur.len(),
{
    if cur.len() == 0 {
        -1
    } else if cur[0].id == id {
        0
    } else {
        let r = find_label_idx(cur.drop_first(), id);
        if r < 0 {
            -1
        } else {
            1 + r
        }
    }
}

pub proof fn lemma_find_label_idx(cur: Seq<RouterLabelV>, id: u32)
    ensures
        find_label_idx(cur, id) == -1 ==> forall|j: int|
            0 <= j < cur.len() ==> (#[trigger] cur[j]).id != id,
        find_label_idx(cur, id) != -1 ==> 0 <= find_label_idx(cur, id) < cur.len() && cur[
            find_label_idx(cur, id)
        ].id == id && forall|j: int|
            0 <= j < find_label_idx(cur, id) ==> (#[trigger] cur[j]).id != id,
    decreases cur.len(),
{
    if cur.len() > 0 && cur[0].id != id {
        lemma_find_label_idx(cur.drop_first(), id);
        if find_label_idx(cur, id) == -1 {
            assert forall|j: int| 0 <= j < cur.len() implies (#[trigger] cur[j]).id != id by {
                if j > 0 {
                    assert(cur[j] == cur.drop_first()[j - 1]);
                }
            }
        } else {
            let k = find_label_idx(cur, id);
            assert(cur[k] == cur.drop_first()[k - 1]);
            assert forall|j: int| 0 <= j < k implies (#[trigger] cur[j]).id != id by {
                if j > 0 {
                    assert(cur[j] == cur.drop_first()[j - 1]);
                }
            }
        }
    }
}

pub proof fn lemma_find_label_idx_at(cur: Seq<RouterLabelV>, id: u32, k: int)
    requires
        0 <= k < cur.len(),
        cur[k].id == id,
        forall|j: int| 0 <= j < k ==> (#[trigger] cur[j]).id != id,
    ensures
        find_label_idx(cur, id) == k,
{
    lemma_find_label_idx(cur, id);
}

/// First position holding a patch for this output, or -1.
pub open spec fn find_patch_idx(cur: Seq<RouterPatch>, to_output: u32) -> int
    decreases cur.len(),
{
    if cur.len() == 0 {
        -1
    } else if cur[0].to_output == to_output {
        0
    } else {
        let r = find_patch_idx(cur.drop_first(), to_output);
        if r < 0 {
            -1
        } else {
            1 + r
        }
    }
}

pub proof fn lemma_find_patch_idx(cur: Seq<RouterPatch>, to_output: u32)
    ensures
        find_patch_idx(cur, to_output) == -1 ==> forall|j: int|
            0 <= j < cur.len() ==> (#[trigger] cur[j]).to_output != to_output,
        find_patch_idx(cur, to_output) != -1 ==> 0 <= find_patch_idx(cur, to_output) < cur.len()
            && cur[find_patch_idx(cur, to_output)].to_output == to_output && forall|j: int|
            0 <= j < find_patch_idx(cur, to_output) ==> (#[trigger] cur[j]).to_output
                != to_output,
    decreases cur.len(),
{
    if cur.len() > 0 && cur[0].to_output != to_output {
        lemma_find_patch_idx(cur.drop_first(), to_output);
        if find_patch_idx(cur, to_output) == -1 {
            assert forall|j: int| 0 <= j < cur.len() implies (#[trigger] cur[j]).to_output
                != to_output by {
                if j > 0 {
                    assert(cur[j] == cur.drop_first()[j - 1]);
                }
            }
        } else {
            let k = find_patch_idx(cur, to_output);
            assert(cur[k] == cur.drop_first()[k - 1]);
            assert forall|j: int| 0 <= j < k implies (#[trigger] cur[j]).to_output != to_output by {
                if j > 0 {
                    assert(cur[j] == cur.drop_first()[j - 1]);
                }
            }
        }
    }
}

pub proof fn lemma_find_patch_idx_at(cur: Seq<RouterPatch>, to_output: u32, k: int)
    requires
        0 <= k < cur.len(),
        cur[k].to_output == to_output,
        forall|j: int| 0 <= j < k ==> (#[trigger] cur[j]).to_output != to_output,
    ensures
        find_patch_idx(cur, to_output) == k,
{
    lemma_find_patch_idx(cur, to_output);
}

/// Merge one sparse label change: overwrite the first entry with its id, or
/// append it.
pub open spec fn merge_one_label(cur: Seq<RouterLabelV>, c: RouterLabelV) -> Seq<RouterLabelV> {
    let i = find_label_idx(cur, c.id);
    if i >= 0 {
        cur.update(i, RouterLabelV { id: c.id, name: c.name })
    } else {
        cur.push(c)
    }
}

/// Merge sparse label changes in order; a later change to the same id wins.
pub open spec fn merge_labels(cur: Seq<RouterLabelV>, cs: Seq<RouterLabelV>) -> Seq<RouterLabelV>
    decreases cs.len(),
{
    if cs.len() == 0 {
        cur
    } else {
        merge_labels(merge_one_label(cur, cs[0]), cs.drop_first())
    }
}

/// Merge one sparse patch: overwrite the first entry for its output, or
/// append it.
pub open spec fn merge_one_patch(cur: Seq<RouterPatch>, c: RouterPatch) -> Seq<RouterPatch> {
    let i = find_patch_idx(cur, c.to_output);
    if i >= 0 {
        cur.update(i, RouterPatch { from_input: c.from_input, to_output: cur[i].to_output })
    } else {
        cur.push(c)
    }
}

/// Merge sparse patches in order; a later patch to the same output wins.
pub open spec fn merge_patches(cur: Seq<RouterPatch>, cs: Seq<RouterPatch>) -> Seq<RouterPatch>
    decreases cs.len(),
{
    if cs.len() == 0 {
        cur
    } else {
        merge_patches(merge_one_patch(cur, cs[0]), cs.drop_first())
    }
}

/// First position holding a label with this id.
fn find_label_pos(cur: &Vec<RouterLabel>, id: u32) -> (r: Option<usize>)
    ensures
        match r {
            Some(k) => k < cur@.len() && rlabels_view(cur@)[k as int].id == id && forall|q: int|
                0 <= q < k ==> (#[trigger] rlabels_view(cur@)[q]).id != id,
            None => forall|q: int|
                0 <= q < cur@.len() ==> (#[trigger] rlabels_view(cur@)[q]).id != id,
        },
{
    let mut k: usize = 0;
    while k < cur.len()
        invariant
            k <= cur@.len(),
            forall|q: int| 0 <= q < k ==> (#[trigger] rlabels_view(cur@)[q]).id != id,
        decreases cur.len() - k,
    {
        proof {
            assert(rlabels_view(cur@)[k as int] == cur@[k as int]@);
        }
        if cur[k].id == id {
            return Some(k);
        }
        k = k + 1;
    }
    None
}

/// First position holding a patch for this output.
fn find_patch_pos(cur: &Vec<RouterPatch>, to_output: u32) -> (r: Option<usize>)
    ensures
        match r {
            Some(k) => k < cur@.len() && cur@[k as int].to_output == to_output && forall|q: int|
                0 <= q < k ==> (#[trigger] cur@[q]).to_output != to_output,
            None => forall|q: int|
                0 <= q < cur@.len() ==> (#[trigger] cur@[q]).to_output != to_output,
        },
{
    let mut k: usize = 0;
    while k < cur.len()
        invariant
            k <= cur@.len(),
            forall|q: int| 0 <= q < k ==> (#[trigger] cur@[q]).to_output != to_output,
        decreases cur.len() - k,
    {
        if cur[k].to_output == to_output {
            return Some(k);
        }
        k = k + 1;
    }
    None
}

/// Merge sparse label changes into an optional cached list, bounded by the
/// matrix dimension. A change outside the dimension rejects the whole update
/// and leaves the cache as it was.
pub fn update_labels(
    opt: &mut Option<Vec<RouterLabel>>,
    changes: Vec<RouterLabel>,
    max_idx: u32,
) -> (r: Result<(), RouterError>)
    ensures
        match r {
            Ok(()) => {
                &&& forall|i: int|
                    0 <= i < changes@.len() ==> (#[trigger] changes@[i]).id < max_idx
                &&& opt_labels_view(*final(opt)) == Some(
                    merge_labels(
                        match *old(opt) {
                            Some(cur) => rlabels_view(cur@),
                            None => Seq::empty(),
                        },
                        rlabels_view(changes@),
                    ),
                )
            },
            Err(e) => {
                &&& e == RouterError::OutOfRange
                &&& opt_labels_view(*final(opt)) == opt_labels_view(*old(opt))
                &&& exists|i: int|
                    0 <= i < changes@.len() && (#[trigger] changes@[i]).id >= max_idx
            },
        },
{
    let mut i: usize = 0;
    while i < changes.len()
        invariant
            i <= changes@.len(),
            *opt == *old(opt),
            forall|q: int| 0 <= q < i ==> (#[trigger] changes@[q]).id < max_idx,
        decreases changes.len() - i,
    {
        if changes[i].id >= max_idx {
            proof {
                assert(0 <= i < changes@.len() && (#[trigger] changes@[i as int]).id >= max_idx);
            }
            return Err(RouterError::OutOfRange);
        }
        i = i + 1;
    }
    let mut cur: Vec<RouterLabel> = match opt.take() {
        Some(v) => v,
        None => Vec::new(),
    };
    let ghost origv = rlabels_view(cur@);
    let ghost csv = rlabels_view(changes@);
    proof {
        assert(csv.skip(0) =~= csv);
        match *old(opt) {
            Some(v0) => {
                assert(origv == rlabels_view(v0@));
            },
            None => {
                assert(origv =~= Seq::<RouterLabelV>::empty());
            },
        }
    }
    let mut j: usize = 0;
    while j < changes.len()
        invariant
            j <= changes@.len(),
            csv == rlabels_view(changes@),
            merge_labels(origv, csv) == merge_labels(rlabels_view(cur@), csv.skip(j as int)),
        decreases changes.len() - j,
    {
        let c = &changes[j];
        let ghost curv = rlabels_view(cur@);
        let ghost cv = changes@[j as int]@;
        let ghost prevv = rlabels_view(cur@);
        match find_label_pos(&cur, c.id) {
            Some(k) => {
                proof {
                    lemma_find_label_idx_at(curv, cv.id, k as int);
                }
                let name = clone_bytes(&changes[j].name);
                cur[k] = RouterLabel { id: changes[j].id, name };
                proof {
                    assert(rlabels_view(cur@) =~= merge_one_label(prevv, cv));
                }
            },
            None => {
                proof {
                    lemma_find_label_idx_at_none(curv, cv.id);
                }
                let name = clone_bytes(&changes[j].name);
                cur.push(RouterLabel { id: changes[j].id, name });
                proof {
                    assert(rlabels_view(cur@) =~= merge_one_label(prevv, cv));
                }
            },
        }
        proof {
            assert(csv.skip(j as int)[0] == csv[j as int]);
            assert(csv.skip(j as int).drop_first() =~= csv.skip(j as int + 1));
        }
        j = j + 1;
    }
    proof {
        assert(csv.skip(changes@.len() as int) =~= Seq::<RouterLabelV>::empty());
    }
    *opt = Some(cur);
    Ok(())
}

/// When no entry has the id, the search comes up empty.
proof fn lemma_find_label_idx_at_none(cur: Seq<RouterLabelV>, id: u32)
    requires
        forall|j: int| 0 <= j < cur.len() ==> (#[trigger] cur[j]).id != id,
    ensures
        find_label_idx(cur, id) == -1,
{
    lemma_find_label_idx(cur, id);
    if find_label_idx(cur, id) != -1 {
        assert(false);
    }
}

/// When no entry has the output, the search comes up empty.
proof fn lemma_find_patch_idx_at_none(cur: Seq<RouterPatch>, to_output: u32)
    requires
        forall|j: int| 0 <= j < cur.len() ==> (#[trigger] cur[j]).to_output != to_output,
    ensures
        find_patch_idx(cur, to_output) == -1,
{
    lemma_find_patch_idx(cur, to_output);
    if find_patch_idx(cur, to_output) != -1 {
        assert(false);
    }
}

/// Merge sparse patches into an optional cached list, bounded by the matrix
/// dimensions. A patch outside the dimensions rejects the whole update and
/// leaves the cache as it was.
pub fn update_routes(
    opt: &mut Option<Vec<RouterPatch>>,
    changes: Vec<RouterPatch>,
    max_input_idx: u32,
    max_output_idx: u32,
) -> (r: Result<(), RouterError>)
    ensures
        match r {
            Ok(()) => {
                &&& forall|i: int|
                    0 <= i < changes@.len() ==> (#[trigger] changes@[i]).to_output
                        < max_output_idx && changes@[i].from_input < max_input_idx
                &&& opt_patches_view(*final(opt)) == Some(
                    merge_patches(
                        match *old(opt) {
                            Some(cur) => cur@,
                            None => Seq::empty(),
                        },
                        changes@,
                    ),
                )
            },
            Err(e) => {
                &&& e == RouterError::OutOfRange
                &&& opt_patches_view(*final(opt)) == opt_patches_view(*old(opt))
                &&& exists|i: int|
                    0 <= i < changes@.len() && ((#[trigger] changes@[i]).to_output
                        >= max_output_idx || changes@[i].from_input >= max_input_idx)
            },
        },
{
    let mut i: usize = 0;
    while i < changes.len()
        invariant
            i <= changes@.len(),
            *opt == *old(opt),
            forall|q: int|
                0 <= q < i ==> (#[trigger] changes@[q]).to_output < max_output_idx && changes@[
                    q
                ].from_input < max_input_idx,
        decreases changes.len() - i,
    {
        if changes[i].to_output >= max_output_idx || changes[i].from_input >= max_input_idx {
            proof {
                assert(0 <= i < changes@.len() && ((#[trigger] changes@[i as int]).to_output
                    >= max_output_idx || changes@[i as int].from_input >= max_input_idx));
            }
            return Err(RouterError::OutOfRange);
        }
        i = i + 1;
    }
    let mut cur: Vec<RouterPatch> = match opt.take() {
        Some(v) => v,
        None => Vec::new(),
    };
    let ghost origv = cur@;
    let ghost csv = changes@;
    proof {
        assert(csv.skip(0) =~= csv);
        match *old(opt) {
            Some(v0) => {
                assert(origv == v0@);
            },
            None => {
                assert(origv =~= Seq::<RouterPatch>::empty());
            },
        }
    }
    let mut j: usize = 0;
    while j < changes.len()
        invariant
            j <= changes@.len(),
            csv == changes@,
            merge_patches(origv, csv) == merge_patches(cur@, csv.skip(j as int)),
        decreases changes.len() - j,
    {
        let c = changes[j];
        let ghost prevv = cur@;
        match find_patch_pos(&cur, c.to_output) {
            Some(k) => {
                proof {
                    lemma_find_patch_idx_at(prevv, c.to_output, k as int);
                }
                let kept = cur[k].to_output;
                cur[k] = RouterPatch { from_input: c.from_input, to_output: kept };
                proof {
                    assert(cur@ =~= merge_one_patch(prevv, c));
                }
            },
            None => {
                proof {
                    lemma_find_patch_idx_at_none(prevv, c.to_output);
                }
                cur.push(c);
                proof {
                    assert(cur@ =~= merge_one_patch(prevv, c));
                }
            },
        }
        proof {
            assert(csv.skip(j as int)[0] == csv[j as int]);
            assert(csv.skip(j as int).drop_first() =~= csv.skip(j as int + 1));
        }
        j = j + 1;
    }
    proof {
        assert(csv.skip(changes@.len() as int) =~= Seq::<RouterPatch>::empty());
    }
    *opt = Some(cur);
    Ok(())
}

/// A mutation merged into the cache can be read straight back: the merged
/// list holds the change's name under its id, with no further round trip.
pub proof fn lemma_cache_read_back(cur: Seq<RouterLabelV>, c: RouterLabelV)
    ensures
        exists|i: int|
            0 <= i < merge_labels(cur, seq![c]).len() && (#[trigger] merge_labels(
                cur,
                seq![c],
            )[i]).id == c.id && merge_labels(cur, seq![c])[i].name == c.name,
{
    let cs = seq![c];
    assert(cs.drop_first() =~= Seq::<RouterLabelV>::empty());
    let m1 = merge_one_label(cur, c);
    assert(merge_labels(cur, cs) == merge_labels(m1, Seq::empty()));
    assert(merge_labels(m1, Seq::empty()) == m1);
    lemma_find_label_idx(cur, c.id);
    let i = find_label_idx(cur, c.id);
    if i >= 0 {
        assert(m1[i].id == c.id && m1[i].name == c.name);
    } else {
        assert(m1[cur.len() as int].id == c.id && m1[cur.len() as int].name == c.name);
    }
}


/// The label changes whose id lies inside the dimension; the rest are
/// dropped, not surfaced.
pub open spec fn in_range_labels(cs: Seq<RouterLabelV>, max: u32) -> Seq<RouterLabelV>
    decreases cs.len(),
{
    if cs.len() == 0 {
        Seq::empty()
    } else if cs[0].id < max {
        seq![cs[0]] + in_range_labels(cs.drop_first(), max)
    } else {
        in_range_labels(cs.drop_first(), max)
    }
}

/// The patches whose coordinates lie inside the dimensions.
pub open spec fn in_range_patches(cs: Seq<RouterPatch>, max_in: u32, max_out: u32) -> Seq<
    RouterPatch,
>
    decreases cs.len(),
{
    if cs.len() == 0 {
        Seq::empty()
    } else if cs[0].to_output < max_out && cs[0].from_input < max_in {
        seq![cs[0]] + in_range_patches(cs.drop_first(), max_in, max_out)
    } else {
        in_range_patches(cs.drop_first(), max_in, max_out)
    }
}

fn filter_labels(changes: Vec<RouterLabel>, max: u32) -> (r: Vec<RouterLabel>)
    ensures
        rlabels_view(r@) == in_range_labels(rlabels_view(changes@), max),
        forall|i: int| 0 <= i < r@.len() ==> (#[trigger] r@[i]).id < max,
{
    let ghost csv = rlabels_view(changes@);
    let mut out: Vec<RouterLabel> = Vec::new();
    let mut j: usize = 0;
    proof {
        assert(csv.skip(0) =~= csv);
        assert(rlabels_view(out@) =~= Seq::<RouterLabelV>::empty());
        assert(Seq::<RouterLabelV>::empty() + in_range_labels(csv, max) =~= in_range_labels(
            csv,
            max,
        ));
    }
    let mut changes = changes;
    while j < changes.len()
        invariant
            j <= changes@.len(),
            csv == rlabels_view(changes@),
            forall|i: int| 0 <= i < out@.len() ==> (#[trigger] out@[i]).id < max,
            in_range_labels(csv, max) == rlabels_view(out@) + in_range_labels(
                csv.skip(j as int),
                max,
            ),
        decreases changes.len() - j,
    {
        let ghost before = rlabels_view(out@);
        let ghost cv = changes@[j as int]@;
        proof {
            assert(csv.skip(j as int)[0] == csv[j as int]);
            assert(csv.skip(j as int).drop_first() =~= csv.skip(j as int + 1));
        }
        if changes[j].id < max {
            let name = clone_bytes(&changes[j].name);
            out.push(RouterLabel { id: changes[j].id, name });
            proof {
                assert(rlabels_view(out@) =~= before.push(cv));
                assert(before + (seq![cv] + in_range_labels(csv.skip(j as int + 1), max))
                    =~= before.push(cv) + in_range_labels(csv.skip(j as int + 1), max));
            }
        }
        j = j + 1;
    }
    proof {
        assert(csv.skip(changes@.len() as int) =~= Seq::<RouterLabelV>::empty());
        assert(rlabels_view(out@) + Seq::<RouterLabelV>::empty() =~= rlabels_view(out@));
    }
    out
}

fn filter_patches(changes: Vec<RouterPatch>, max_in: u32, max_out: u32) -> (r: Vec<RouterPatch>)
    ensures
        r@ == in_range_patches(changes@, max_in, max_out),
        forall|i: int|
            0 <= i < r@.len() ==> (#[trigger] r@[i]).to_output < max_out && r@[i].from_input
                < max_in,
{
    let ghost csv = changes@;
    let mut out: Vec<RouterPatch> = Vec::new();
    let mut j: usize = 0;
    proof {
        assert(csv.skip(0) =~= csv);
        assert(Seq::<RouterPatch>::empty() + in_range_patches(csv, max_in, max_out)
            =~= in_range_patches(csv, max_in, max_out));
    }
    while j < changes.len()
        invariant
            j <= changes@.len(),
            csv == changes@,
            forall|i: int|
                0 <= i < out@.len() ==> (#[trigger] out@[i]).to_output < max_out
                    && out@[i].from_input < max_in,
            in_range_patches(csv, max_in, max_out) == out@ + in_range_patches(
                csv.skip(j as int),
                max_in,
                max_out,
            ),
        decreases changes.len() - j,
    {
        let ghost before = out@;
        let c = changes[j];
        proof {
            assert(csv.skip(j as int)[0] == csv[j as int]);
            assert(csv.skip(j as int).drop_first() =~= csv.skip(j as int + 1));
        }
        if c.to_output < max_out && c.from_input < max_in {
            out.push(c);
            proof {
                assert(before + (seq![c] + in_range_patches(csv.skip(j as int + 1), max_in, max_out))
                    =~= before.push(c) + in_range_patches(csv.skip(j as int + 1), max_in, max_out));
            }
        }
        j = j + 1;
    }
    proof {
        assert(csv.skip(changes@.len() as int) =~= Seq::<RouterPatch>::empty());
        assert(out@ + Seq::<RouterPatch>::empty() =~= out@);
    }
    out
}

/// Digest one inbound message that is not an acknowledgment: merge it into
/// the cache and name the event to publish. Label and route updates merge by
/// id or output, bounded by the cached dimensions; entries outside them are
/// dropped, not surfaced.
pub fn apply_message(cache: &mut Cache, msg: VideohubMessage) -> (ev: Option<CacheEvent>)
    ensures
        (match msg@ {
            MsgV::DeviceInfo(d) => {
                &&& ev is None
                &&& final(cache).info@.model == (if d.model_name is Some {
                    d.model_name
                } else {
                    old(cache).info@.model
                })
                &&& final(cache).info@.name == (if d.friendly_name is Some {
                    d.friendly_name
                } else {
                    old(cache).info@.name
                })
                &&& final(cache).matrix_info.input_count == (if d.video_inputs is Some {
                    d.video_inputs->0
                } else {
                    old(cache).matrix_info.input_count
                })
                &&& final(cache).matrix_info.output_count == (if d.video_outputs is Some {
                    d.video_outputs->0
                } else {
                    old(cache).matrix_info.output_count
                })
                &&& opt_labels_view(final(cache).input_labels) == opt_labels_view(
                    old(cache).input_labels,
                )
                &&& opt_labels_view(final(cache).output_labels) == opt_labels_view(
                    old(cache).output_labels,
                )
                &&& opt_patches_view(final(cache).routes) == opt_patches_view(old(cache).routes)
            },
            MsgV::InputLabels(ls) => {
                &&& ev == Some(CacheEvent::InputLabels)
                &&& opt_labels_view(final(cache).input_labels) == Some(
                    merge_labels(
                        match old(cache).input_labels {
                            Some(cur) => rlabels_view(cur@),
                            None => Seq::empty(),
                        },
                        in_range_labels(
                            router_of_wire_labels(ls),
                            old(cache).matrix_info.input_count,
                        ),
                    ),
                )
                &&& final(cache).matrix_info == old(cache).matrix_info
            },
            MsgV::OutputLabels(ls) => {
                &&& ev == Some(CacheEvent::OutputLabels)
                &&& opt_labels_view(final(cache).output_labels) == Some(
                    merge_labels(
                        match old(cache).output_labels {
                            Some(cur) => rlabels_view(cur@),
                            None => Seq::empty(),
                        },
                        in_range_labels(
                            router_of_wire_labels(ls),
                            old(cache).matrix_info.output_count,
                        ),
                    ),
                )
                &&& final(cache).matrix_info == old(cache).matrix_info
            },
            MsgV::VideoOutputRouting(rs) => {
                &&& ev == Some(CacheEvent::Routes)
                &&& opt_patches_view(final(cache).routes) == Some(
                    merge_patches(
                        match old(cache).routes {
                            Some(cur) => cur@,
                            None => Seq::empty(),
                        },
                        in_range_patches(
                            patches_of_routes(rs),
                            old(cache).matrix_info.input_count,
                            old(cache).matrix_info.output_count,
                        ),
                    ),
                )
                &&& final(cache).matrix_info == old(cache).matrix_info
            },
            _ => ev is None && *final(cache) == *old(cache),
        }),
{
    match msg {
        VideohubMessage::DeviceInfo(d) => {
            if let Some(model) = d.model_name {
                cache.info.model = Some(model);
            }
            if let Some(name) = d.friendly_name {
                cache.info.name = Some(name);
            }
            if let Some(inc) = d.video_inputs {
                cache.matrix_info.input_count = inc;
            }
            if let Some(outc) = d.video_outputs {
                cache.matrix_info.output_count = outc;
            }
            None
        },
        VideohubMessage::InputLabels(ls) => {
            let updates = labels_from_wire(ls);
            let bounded = filter_labels(updates, cache.matrix_info.input_count);
            let r = update_labels(&mut cache.input_labels, bounded, cache.matrix_info.input_count);
            Some(CacheEvent::InputLabels)
        },
        VideohubMessage::OutputLabels(ls) => {
            let updates = labels_from_wire(ls);
            let bounded = filter_labels(updates, cache.matrix_info.output_count);
            let r = update_labels(
                &mut cache.output_labels,
                bounded,
                cache.matrix_info.output_count,
            );
            Some(CacheEvent::OutputLabels)
        },
        VideohubMessage::VideoOutputRouting(rs) => {
            let updates = patches_from_wire(rs);
            let bounded = filter_patches(
                updates,
                cache.matrix_info.input_count,
                cache.matrix_info.output_count,
            );
            let r = update_routes(
                &mut cache.routes,
                bounded,
                cache.matrix_info.input_count,
                cache.matrix_info.output_count,
            );
            Some(CacheEvent::Routes)
        },
        _ => None,
    }
}

/// The cache a fresh connection starts from, filled from the first device
/// information the peer sends. Missing dimensions abort the connection.
pub fn connect_init(d: &DeviceInfo) -> (r: Result<Cache, RouterError>)
    ensures
        match r {
            Ok(c) => {
                &&& d@.video_inputs is Some && d@.video_outputs is Some
                &&& c.info@.model == d@.model_name
                &&& c.info@.name == d@.friendly_name
                &&& c.info@.matrix_count == Some(1u32)
                &&& c.matrix_info.input_count == d@.video_inputs->0
                &&& c.matrix_info.output_count == d@.video_outputs->0
                &&& c.input_labels is None && c.output_labels is None && c.routes is None
            },
            Err(e) => e == RouterError::Unsupported && (d@.video_inputs is None
                || d@.video_outputs is None),
        },
{
    let input_count = match &d.video_inputs {
        Some(n) => *n,
        None => {
            return Err(RouterError::Unsupported);
        },
    };
    let output_count = match &d.video_outputs {
        Some(n) => *n,
        None => {
            return Err(RouterError::Unsupported);
        },
    };
    let model = match &d.model_name {
        Some(b) => Some(clone_bytes(b)),
        None => None,
    };
    let name = match &d.friendly_name {
        Some(b) => Some(clone_bytes(b)),
        None => None,
    };
    Ok(
        Cache {
            info: RouterInfo { model, name, matrix_count: Some(1) },
            matrix_info: RouterMatrixInfo { input_count, output_count },
            input_labels: None,
            output_labels: None,
            routes: None,
        },
    )
}



/// Project a cache event into a router event carrying a snapshot of the
/// cached list of that kind; an empty snapshot stands for a list never
/// populated.
pub fn project_cache_event(cache: &Cache, ev: CacheEvent) -> (r: RouterEvent)
    ensures
        (match ev {
            CacheEvent::InputLabels => r matches RouterEvent::InputLabelUpdate(ix, ls) && ix == 0
                && opt_labels_view(cache.input_labels) == (match cache.input_labels {
                Some(_) => Some(rlabels_view(ls@)),
                None => None,
            }) && (cache.input_labels is None ==> ls@.len() == 0),
            CacheEvent::OutputLabels => r matches RouterEvent::OutputLabelUpdate(ix, ls) && ix
                == 0 && opt_labels_view(cache.output_labels) == (match cache.output_labels {
                Some(_) => Some(rlabels_view(ls@)),
                None => None,
            }) && (cache.output_labels is None ==> ls@.len() == 0),
            CacheEvent::Routes => r matches RouterEvent::RouteUpdate(ix, ps) && ix == 0 && (
            match cache.routes {
                Some(cur) => ps@ == cur@,
                None => ps@.len() == 0,
            }),
            CacheEvent::Disconnected => r == RouterEvent::Disconnected,
        }),
{
    match ev {
        CacheEvent::InputLabels => {
            let ls = match &cache.input_labels {
                Some(cur) => crate::dummy::clone_labels(cur),
                None => Vec::new(),
            };
            RouterEvent::InputLabelUpdate(0, ls)
        },
        CacheEvent::OutputLabels => {
            let ls = match &cache.output_labels {
                Some(cur) => crate::dummy::clone_labels(cur),
                None => Vec::new(),
            };
            RouterEvent::OutputLabelUpdate(0, ls)
        },
        CacheEvent::Routes => {
            let ps = match &cache.routes {
                Some(cur) => crate::dummy::clone_patches(cur),
                None => Vec::new(),
            };
            RouterEvent::RouteUpdate(0, ps)
        },
        CacheEvent::Disconnected => RouterEvent::Disconnected,
    }
}


/// A mutation sent to the peer, held until its acknowledgment arrives.
pub enum PendingChange {
    InputLabels(Vec<RouterLabel>),
    OutputLabels(Vec<RouterLabel>),
    Routes(Vec<RouterPatch>),
}

/// Commit one resolved mutation: a mutation is reflected in the cache only
/// after its positive acknowledgment; a negative one leaves the cache as it
/// was and surfaces the rejection; an in-range positive one merges and names
/// the event to publish.
pub fn commit_mutation(cache: &mut Cache, change: PendingChange, positive: bool) -> (r: Result<
    CacheEvent,
    RouterError,
>)
    ensures
        final(cache).info == old(cache).info,
        final(cache).matrix_info == old(cache).matrix_info,
        !positive ==> r == Result::<CacheEvent, RouterError>::Err(RouterError::Rejected)
            && *final(cache) == *old(cache),
        match change {
            PendingChange::InputLabels(cs) => {
                &&& opt_labels_view(final(cache).output_labels) == opt_labels_view(
                    old(cache).output_labels,
                )
                &&& opt_patches_view(final(cache).routes) == opt_patches_view(old(cache).routes)
                &&& (positive && (forall|i: int|
                    0 <= i < cs@.len() ==> (#[trigger] cs@[i]).id < old(
                        cache,
                    ).matrix_info.input_count)) ==> r == Result::<
                    CacheEvent,
                    RouterError,
                >::Ok(CacheEvent::InputLabels) && opt_labels_view(final(cache).input_labels)
                    == Some(
                    merge_labels(
                        match old(cache).input_labels {
                            Some(cur) => rlabels_view(cur@),
                            None => Seq::empty(),
                        },
                        rlabels_view(cs@),
                    ),
                )
                &&& (positive && (exists|i: int|
                    0 <= i < cs@.len() && (#[trigger] cs@[i]).id >= old(
                        cache,
                    ).matrix_info.input_count)) ==> r == Result::<
                    CacheEvent,
                    RouterError,
                >::Err(RouterError::OutOfRange) && opt_labels_view(final(cache).input_labels)
                    == opt_labels_view(old(cache).input_labels)
            },
            PendingChange::OutputLabels(cs) => {
                &&& opt_labels_view(final(cache).input_labels) == opt_labels_view(
                    old(cache).input_labels,
                )
                &&& opt_patches_view(final(cache).routes) == opt_patches_view(old(cache).routes)
                &&& (positive && (forall|i: int|
                    0 <= i < cs@.len() ==> (#[trigger] cs@[i]).id < old(
                        cache,
                    ).matrix_info.output_count)) ==> r == Result::<
                    CacheEvent,
                    RouterError,
                >::Ok(CacheEvent::OutputLabels) && opt_labels_view(final(cache).output_labels)
                    == Some(
                    merge_labels(
                        match old(cache).output_labels {
                            Some(cur) => rlabels_view(cur@),
                            None => Seq::empty(),
                        },
                        rlabels_view(cs@),
                    ),
                )
                &&& (positive && (exists|i: int|
                    0 <= i < cs@.len() && (#[trigger] cs@[i]).id >= old(
                        cache,
                    ).matrix_info.output_count)) ==> r == Result::<
                    CacheEvent,
                    RouterError,
                >::Err(RouterError::OutOfRange) && opt_labels_view(final(cache).output_labels)
                    == opt_labels_view(old(cache).output_labels)
            },
            PendingChange::Routes(cs) => {
                &&& opt_labels_view(final(cache).input_labels) == opt_labels_view(
                    old(cache).input_labels,
                )
                &&& opt_labels_view(final(cache).output_labels) == opt_labels_view(
                    old(cache).output_labels,
                )
                &&& (positive && (forall|i: int|
                    0 <= i < cs@.len() ==> (#[trigger] cs@[i]).to_output < old(
                        cache,
                    ).matrix_info.output_count && cs@[i].from_input < old(
                        cache,
                    ).matrix_info.input_count)) ==> r == Result::<
                    CacheEvent,
                    RouterError,
                >::Ok(CacheEvent::Routes) && opt_patches_view(final(cache).routes) == Some(
                    merge_patches(
                        match old(cache).routes {
                            Some(cur) => cur@,
                            None => Seq::empty(),
                        },
                        cs@,
                    ),
                )
                &&& (positive && (exists|i: int|
                    0 <= i < cs@.len() && ((#[trigger] cs@[i]).to_output >= old(
                        cache,
                    ).matrix_info.output_count || cs@[i].from_input >= old(
                        cache,
                    ).matrix_info.input_count))) ==> r == Result::<
                    CacheEvent,
                    RouterError,
                >::Err(RouterError::OutOfRange) && opt_patches_view(final(cache).routes)
                    == opt_patches_view(old(cache).routes)
            },
        },
{
    if !positive {
        return Err(RouterError::Rejected);
    }
    match change {
        PendingChange::InputLabels(cs) => {
            let bound = cache.matrix_info.input_count;
            match update_labels(&mut cache.input_labels, cs, bound) {
                Ok(()) => Ok(CacheEvent::InputLabels),
                Err(e) => Err(e),
            }
        },
        PendingChange::OutputLabels(cs) => {
            let bound = cache.matrix_info.output_count;
            match update_labels(&mut cache.output_labels, cs, bound) {
                Ok(()) => Ok(CacheEvent::OutputLabels),
                Err(e) => Err(e),
            }
        },
        PendingChange::Routes(cs) => {
            let max_in = cache.matrix_info.input_count;
            let max_out = cache.matrix_info.output_count;
            match update_routes(&mut cache.routes, cs, max_in, max_out) {
                Ok(()) => Ok(CacheEvent::Routes),
                Err(e) => Err(e),
            }
        },
    }
}

/// Duplicate outputs in one routing update overwrite, last wins: merging a
/// patch and then another for the same output leaves exactly what merging
/// the later one alone would.
pub proof fn lemma_route_last_wins(cur: Seq<RouterPatch>, c1: RouterPatch, c2: RouterPatch)
    requires
        c1.to_output == c2.to_output,
    ensures
        merge_patches(cur, seq![c1, c2]) == merge_patches(cur, seq![c2]),
{
    let cs = seq![c1, c2];
    assert(cs[0] == c1);
    assert(cs.drop_first() =~= seq![c2]);
    assert(seq![c2].drop_first() =~= Seq::<RouterPatch>::empty());
    let m1 = merge_one_patch(cur, c1);
    lemma_find_patch_idx(cur, c1.to_output);
    let i = find_patch_idx(cur, c1.to_output);
    if i >= 0 {
        assert forall|j: int| 0 <= j < i implies (#[trigger] m1[j]).to_output
            != c2.to_output by {
            assert(m1[j] == cur[j]);
        }
        assert(m1[i].to_output == c2.to_output);
        lemma_find_patch_idx_at(m1, c2.to_output, i);
        assert(merge_one_patch(m1, c2) =~= merge_one_patch(cur, c2));
    } else {
        assert forall|j: int| 0 <= j < cur.len() implies (#[trigger] m1[j]).to_output
            != c2.to_output by {
            assert(m1[j] == cur[j]);
        }
        assert(m1[cur.len() as int].to_output == c2.to_output);
        lemma_find_patch_idx_at(m1, c2.to_output, cur.len() as int);
        assert(merge_one_patch(m1, c2) =~= merge_one_patch(cur, c2));
    }
    assert(seq![c2][0] == c2);
    assert(merge_patches(merge_one_patch(m1, c2), Seq::<RouterPatch>::empty())
        == merge_one_patch(m1, c2));
    assert(merge_patches(m1, seq![c2]) == merge_one_patch(m1, c2));
    assert(merge_patches(cur, cs) == merge_one_patch(m1, c2));
    assert(merge_patches(merge_one_patch(cur, c2), Seq::<RouterPatch>::empty())
        == merge_one_patch(cur, c2));
    assert(merge_patches(cur, seq![c2]) == merge_one_patch(cur, c2));
}

// ------------------------------------------------------------------
// Acknowledgment pairing
// ------------------------------------------------------------------
/// The outstanding mutation slots, first in first out: each issued mutation
/// takes a fresh ticket; each inbound acknowledgment resolves the oldest.
pub struct PendingAcks {
    pub next_ticket: u64,
    pub queue: Vec<u64>,
}

impl PendingAcks {
    pub fn new() -> (r: PendingAcks)
        ensures
            r.queue@.len() == 0,
            r.next_ticket == 0,
    {
        PendingAcks { next_ticket: 0, queue: Vec::new() }
    }

    /// Enqueue a slot for a mutation about to be sent; its ticket is handed
    /// to the caller awaiting the reply.
    pub fn enqueue(&mut self) -> (t: u64)
        requires
            old(self).next_ticket < u64::MAX,
        ensures
            t == old(self).next_ticket,
            final(self).queue@ == old(self).queue@.push(t),
            final(self).next_ticket == old(self).next_ticket + 1,
    {
        let t = self.next_ticket;
        self.next_ticket = self.next_ticket + 1;
        self.queue.push(t);
        t
    }

    /// Resolve the oldest outstanding slot with this verdict. The engine
    /// calls this for each inbound positive or negative acknowledgment, so
    /// replies pair with mutations strictly in issue order.
    pub fn resolve(&mut self, positive: bool) -> (r: Option<(u64, bool)>)
        ensures
            old(self).queue@.len() == 0 ==> ((r is None) && *final(self) == *old(self)),
            old(self).queue@.len() > 0 ==> r == Some((old(self).queue@[0], positive)),
            old(self).queue@.len() > 0 ==> final(self).queue@ == old(self).queue@.skip(1),
            old(self).queue@.len() > 0 ==> final(self).next_ticket == old(self).next_ticket,
    {
        if self.queue.len() == 0 {
            None
        } else {
            let t = self.queue.remove(0);
            proof {
                assert(self.queue@ =~= old(self).queue@.skip(1));
            }
            Some((t, positive))
        }
    }
}

/// Acknowledgments pair with mutations strictly in issue order. By
/// `resolve`'s contract the queue after `n` resolutions is `q.skip(n)`, so
/// the acknowledgment that arrives next resolves ticket `q[n]`: the reply to
/// a mutation issued earlier always resolves before the reply to one issued
/// later.
pub proof fn lemma_ack_fifo(q: Seq<u64>, n: int)
    requires
        0 <= n < q.len(),
    ensures
        q.skip(n)[0] == q[n],
        forall|m: int| 0 <= m < n ==> q.skip(m)[0] == q[m],
{
}

} // verus!
