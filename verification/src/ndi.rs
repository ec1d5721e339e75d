//! The NDI discovery backend's decisions: how discovered sources map onto
//! input slots, which outputs must be repatched when sources come and go,
//! and the label and route bookkeeping. Talking to the fabric itself is the
//! surrounding program's work: it performs the returned actions.
use vstd::prelude::*;

verus! {

use crate::matrix::{
    RouterLabelV,
    RouterInfo,
    RouterMatrixInfo,
    RouterLabel,
    RouterPatch,
    RouterError,
    RouterEvent,
    rlabels_view,
};
use crate::dummy::{clone_bytes, clone_labels, clone_patches, clone_info};
use crate::text::{ascii_bytes, push_dec, bytes_eq};

/// One thing the fabric must be told after a decision.
#[derive(Clone, Debug, PartialEq, Eq)]
pub enum OutputAction {
    /// Route nothing to this output.
    ClearOutput(u32),
    /// Route the source with this name and address to this output.
    RouteOutput(u32, Vec<u8>, Vec<u8>),
}

/// A discovered source: its name and its address.
#[derive(Clone, Debug, Default, PartialEq, Eq)]
pub struct SourceEntry {
    pub name: Vec<u8>,
    pub url: Vec<u8>,
}


/// The address prefix of a local source.
pub open spec fn local_prefix() -> Seq<u8> {
    crate::text::bytes_of("127.0.0.1"@)
}

pub open spec fn starts_with(s: Seq<u8>, p: Seq<u8>) -> bool {
    p.len() <= s.len() && s.take(p.len() as int) == p
}

pub open spec fn ends_with(s: Seq<u8>, p: Seq<u8>) -> bool {
    p.len() <= s.len() && s.skip(s.len() - p.len()) == p
}

/// Whether `s` opens with `p`.
pub fn bytes_starts_with(s: &Vec<u8>, p: &Vec<u8>) -> (r: bool)
    ensures
        r == starts_with(s@, p@),
{
    if p.len() > s.len() {
        return false;
    }
    let mut i: usize = 0;
    while i < p.len()
        invariant
            i <= p.len() <= s.len(),
            forall|j: int| 0 <= j < i ==> s@[j] == p@[j],
        decreases p.len() - i,
    {
        if s[i] != p[i] {
            proof {
                assert(s@.take(p@.len() as int)[i as int] == s@[i as int]);
            }
            return false;
        }
        i = i + 1;
    }
    proof {
        assert(s@.take(p@.len() as int) =~= p@);
    }
    true
}

/// Whether `s` closes with `p`.
pub fn bytes_ends_with(s: &Vec<u8>, p: &Vec<u8>) -> (r: bool)
    ensures
        r == ends_with(s@, p@),
{
    if p.len() > s.len() {
        return false;
    }
    let base = s.len() - p.len();
    let mut i: usize = 0;
    while i < p.len()
        invariant
            i <= p.len() <= s.len(),
            base == s.len() - p.len(),
            forall|j: int| 0 <= j < i ==> s@[base + j] == p@[j],
        decreases p.len() - i,
    {
        if s[base + i] != p[i] {
            proof {
                assert(s@.skip(base as int)[i as int] == s@[base + i]);
            }
            return false;
        }
        i = i + 1;
    }
    proof {
        assert(s@.skip(base as int) =~= p@);
    }
    true
}


/// Whether an input slot can be realized on the fabric: the slot is free
/// (empty name, the output is cleared) or its name is a known source.
pub open spec fn slot_routable(
    labels: Seq<RouterLabel>,
    map: Seq<SourceEntry>,
    input: int,
) -> bool {
    labels[input].name@.len() == 0 || exists|k: int|
        0 <= k < map.len() && (#[trigger] map[k]).name@ == labels[input].name@
}


/// The ids of the label changes that actually rename, in order, against the
/// state each change finds. A change that repeats the current name is a
/// no-op and rebuilds nothing.
pub open spec fn renamed_ids(cur: Seq<RouterLabelV>, cs: Seq<RouterLabelV>) -> Seq<u32>
    decreases cs.len(),
{
    if cs.len() == 0 {
        Seq::empty()
    } else {
        let c = cs[0];
        if cur[c.id as int].name != c.name {
            seq![c.id] + renamed_ids(
                cur.update(c.id as int, RouterLabelV { id: c.id, name: c.name }),
                cs.drop_first(),
            )
        } else {
            renamed_ids(cur, cs.drop_first())
        }
    }
}


/// The suffix a fabric appends to its own outputs' source names: the output
/// label in parentheses.
pub open spec fn own_suffix(n: Seq<u8>) -> Seq<u8> {
    seq![32u8, 40u8] + n + seq![41u8]
}


/// Every remembered source is one of the given discovered ones, address
/// included.
pub open spec fn entries_from(map: Seq<SourceEntry>, current: Seq<SourceEntry>) -> bool {
    forall|q: int|
        0 <= q < map.len() ==> exists|c: int|
            0 <= c < current.len() && (#[trigger] map[q]).name@ == (
            #[trigger] current[c]).name@ && map[q].url@ == current[c].url@
}

/// Some remembered source bears this name.
pub open spec fn has_name(map: Seq<SourceEntry>, n: Seq<u8>) -> bool {
    exists|q: int| 0 <= q < map.len() && (#[trigger] map[q]).name@ == n
}

/// No input slot is free.
pub open spec fn slots_full(labels: Seq<RouterLabel>) -> bool {
    forall|s: int| 0 <= s < labels.len() ==> (#[trigger] labels[s]).name@.len() > 0
}

/// The first `upto` discovered sources with usable names are each remembered
/// or found every slot taken.
pub open spec fn current_accounted(
    map: Seq<SourceEntry>,
    current: Seq<SourceEntry>,
    labels: Seq<RouterLabel>,
    upto: int,
) -> bool {
    forall|c: int|
        0 <= c < upto && (#[trigger] current[c]).name@.len() > 0 ==> has_name(
            map,
            current[c].name@,
        ) || slots_full(labels)
}

/// The routing state of an NDI discovery fabric: discovered sources fill
/// input slots by name; each output is one created route instance.
pub struct NDIRouter {
    pub info: RouterInfo,
    pub matrix_info: RouterMatrixInfo,
    pub input_labels: Vec<RouterLabel>,
    pub output_labels: Vec<RouterLabel>,
    pub routes: Vec<RouterPatch>,
    pub source_map: Vec<SourceEntry>,
}

impl NDIRouter {
    /// One full matrix: a label per slot, ids in position, every output
    /// patched to a valid input.
    pub open spec fn wf(&self) -> bool {
        &&& self.input_labels@.len() == self.matrix_info.input_count
        &&& self.output_labels@.len() == self.matrix_info.output_count
        &&& self.routes@.len() == self.matrix_info.output_count
        &&& forall|i: int|
            0 <= i < self.input_labels@.len() ==> (#[trigger] self.input_labels@[i]).id == i
        &&& forall|i: int|
            0 <= i < self.output_labels@.len() ==> (#[trigger] self.output_labels@[i]).id == i
        &&& forall|i: int|
            0 <= i < self.routes@.len() ==> (#[trigger] self.routes@[i]).to_output == i
                && self.routes@[i].from_input < self.matrix_info.input_count
    }

    /// A fabric with `max_inputs` discovery slots and `output_count` route
    /// instances, every output patched to input 0 and every slot free.
    pub fn new(name: &Vec<u8>, max_inputs: usize, output_count: usize) -> (r: NDIRouter)
        requires
            max_inputs <= u32::MAX,
            output_count <= u32::MAX,
            max_inputs > 0 || output_count == 0,
        ensures
            r.wf(),
            r.matrix_info.input_count == max_inputs,
            r.matrix_info.output_count == output_count,
            r.source_map@.len() == 0,
            forall|i: int|
                0 <= i < r.input_labels@.len() ==> (#[trigger] r.input_labels@[i]).name@.len()
                    == 0,
    {
        let mut input_labels: Vec<RouterLabel> = Vec::new();
        let mut i: usize = 0;
        while i < max_inputs
            invariant
                i <= max_inputs <= u32::MAX,
                input_labels@.len() == i,
                forall|q: int|
                    0 <= q < i ==> (#[trigger] input_labels@[q]).id == q && input_labels@[
                        q
                    ].name@.len() == 0,
            decreases max_inputs - i,
        {
            input_labels.push(RouterLabel { id: i as u32, name: Vec::new() });
            i = i + 1;
        }
        let mut output_labels: Vec<RouterLabel> = Vec::new();
        let mut j: usize = 0;
        while j < output_count
            invariant
                j <= output_count <= u32::MAX,
                output_labels@.len() == j,
                forall|q: int|
                    0 <= q < j ==> (#[trigger] output_labels@[q]).id == q,
            decreases output_count - j,
        {
            let mut oname = clone_bytes(name);
            oname.push(32);
            push_dec((j + 1) as u32, &mut oname);
            output_labels.push(RouterLabel { id: j as u32, name: oname });
            j = j + 1;
        }
        let mut routes: Vec<RouterPatch> = Vec::new();
        let mut k: usize = 0;
        while k < output_count
            invariant
                k <= output_count <= u32::MAX,
                routes@.len() == k,
                forall|q: int|
                    0 <= q < k ==> (#[trigger] routes@[q]).to_output == q && routes@[
                        q
                    ].from_input == 0,
            decreases output_count - k,
        {
            routes.push(RouterPatch { from_input: 0, to_output: k as u32 });
            k = k + 1;
        }
        proof {
            reveal_strlit("NDIRouter");
        }
        let model = ascii_bytes("NDIRouter");
        NDIRouter {
            info: RouterInfo {
                model: Some(model),
                name: Some(clone_bytes(name)),
                matrix_count: Some(1),
            },
            matrix_info: RouterMatrixInfo {
                input_count: max_inputs as u32,
                output_count: output_count as u32,
            },
            input_labels,
            output_labels,
            routes,
            source_map: Vec::new(),
        }
    }

    /// The fabric is one matrix; any other index is out of range.
    pub fn assert_matrix_zero(index: u32) -> (r: Result<(), RouterError>)
        ensures
            match r {
                Ok(()) => index == 0,
                Err(e) => e == RouterError::OutOfRange && index != 0,
            },
    {
        if index != 0 {
            Err(RouterError::OutOfRange)
        } else {
            Ok(())
        }
    }

    pub fn get_router_info(&self) -> (r: RouterInfo)
        ensures
            r@ == self.info@,
    {
        clone_info(&self.info)
    }

    pub fn get_matrix_info(&self, index: u32) -> (r: Result<RouterMatrixInfo, RouterError>)
        ensures
            match r {
                Ok(mi) => index == 0 && mi == self.matrix_info,
                Err(e) => e == RouterError::OutOfRange && index != 0,
            },
    {
        match NDIRouter::assert_matrix_zero(index) {
            Ok(()) => Ok(self.matrix_info),
            Err(e) => Err(e),
        }
    }

    pub fn get_input_labels(&self, index: u32) -> (r: Result<Vec<RouterLabel>, RouterError>)
        ensures
            match r {
                Ok(v) => index == 0 && rlabels_view(v@) == rlabels_view(self.input_labels@),
                Err(e) => e == RouterError::OutOfRange && index != 0,
            },
    {
        match NDIRouter::assert_matrix_zero(index) {
            Ok(()) => Ok(clone_labels(&self.input_labels)),
            Err(e) => Err(e),
        }
    }

    pub fn get_output_labels(&self, index: u32) -> (r: Result<Vec<RouterLabel>, RouterError>)
        ensures
            match r {
                Ok(v) => index == 0 && rlabels_view(v@) == rlabels_view(self.output_labels@),
                Err(e) => e == RouterError::OutOfRange && index != 0,
            },
    {
        match NDIRouter::assert_matrix_zero(index) {
            Ok(()) => Ok(clone_labels(&self.output_labels)),
            Err(e) => Err(e),
        }
    }

    pub fn get_routes(&self, index: u32) -> (r: Result<Vec<RouterPatch>, RouterError>)
        ensures
            match r {
                Ok(v) => index == 0 && v@ == self.routes@,
                Err(e) => e == RouterError::OutOfRange && index != 0,
            },
    {
        match NDIRouter::assert_matrix_zero(index) {
            Ok(()) => Ok(clone_patches(&self.routes)),
            Err(e) => Err(e),
        }
    }

    /// Discovery owns the input labels: a caller cannot set them.
    pub fn update_input_labels(&self, _index: u32, _changed: &Vec<RouterLabel>) -> (r: Result<
        (),
        RouterError,
    >)
        ensures
            r == Result::<(), RouterError>::Err(RouterError::Unsupported),
    {
        Err(RouterError::Unsupported)
    }

    /// Rename outputs: each renamed output needs its route instance rebuilt
    /// by the fabric under the new name. Out-of-range ids reject the whole
    /// update.
    pub fn update_output_labels(&mut self, index: u32, changed: Vec<RouterLabel>) -> (r: Result<
        (Vec<u32>, Option<RouterEvent>),
        RouterError,
    >)
        requires
            old(self).wf(),
        ensures
            final(self).wf(),
            final(self).matrix_info == old(self).matrix_info,
            final(self).input_labels == old(self).input_labels,
            final(self).routes == old(self).routes,
            final(self).info == old(self).info,
            final(self).source_map == old(self).source_map,
            match r {
                Ok((rebuilt, ev)) => index == 0 && (forall|i: int|
                    0 <= i < changed@.len() ==> (#[trigger] changed@[i]).id < old(
                        self,
                    ).matrix_info.output_count) && rlabels_view(final(self).output_labels@)
                    == crate::dummy::apply_label_changes(
                    rlabels_view(old(self).output_labels@),
                    rlabels_view(changed@),
                ) && rebuilt@ == renamed_ids(
                    rlabels_view(old(self).output_labels@),
                    rlabels_view(changed@),
                ) && (match ev {
                    Some(RouterEvent::OutputLabelUpdate(ix, ls)) => ix == 0 && rebuilt@.len()
                        > 0 && rlabels_view(ls@) == rlabels_view(final(self).output_labels@),
                    None => rebuilt@.len() == 0,
                    _ => false,
                }),
                Err(e) => (e == RouterError::OutOfRange && (index != 0 || exists|i: int|
                    0 <= i < changed@.len() && (#[trigger] changed@[i]).id >= old(
                        self,
                    ).matrix_info.output_count)) && final(self).output_labels == old(
                    self,
                ).output_labels,
            },
    {
        if let Err(e) = NDIRouter::assert_matrix_zero(index) {
            return Err(e);
        }
        let mut i: usize = 0;
        while i < changed.len()
            invariant
                i <= changed@.len(),
                old(self).wf(),
                *self == *old(self),
                forall|q: int|
                    0 <= q < i ==> (#[trigger] changed@[q]).id
                        < old(self).matrix_info.output_count,
            decreases changed.len() - i,
        {
            if changed[i].id >= self.matrix_info.output_count {
                proof {
                    assert(0 <= i < changed@.len() && (#[trigger] changed@[i as int]).id >= old(
                        self,
                    ).matrix_info.output_count);
                }
                return Err(RouterError::OutOfRange);
            }
            i = i + 1;
        }
        let mut rebuilt: Vec<u32> = Vec::new();
        let mut ev_labels: bool = false;
        let mut j: usize = 0;
        proof {
            assert(changed@.take(0) =~= Seq::<RouterLabel>::empty());
            assert(rlabels_view(changed@.take(0)) =~= Seq::<RouterLabelV>::empty());
            assert(changed@.skip(0) =~= changed@);
            assert(rebuilt@ =~= Seq::<u32>::empty());
            assert(Seq::<u32>::empty() + renamed_ids(
                rlabels_view(old(self).output_labels@),
                rlabels_view(changed@),
            ) =~= renamed_ids(
                rlabels_view(old(self).output_labels@),
                rlabels_view(changed@),
            ));
        }
        while j < changed.len()
            invariant
                j <= changed@.len(),
                self.wf(),
                self.matrix_info == old(self).matrix_info,
                self.input_labels == old(self).input_labels,
                self.routes == old(self).routes,
                self.info == old(self).info,
                self.source_map == old(self).source_map,
                forall|q: int|
                    0 <= q < changed@.len() ==> (#[trigger] changed@[q]).id
                        < old(self).matrix_info.output_count,
                rlabels_view(self.output_labels@) == crate::dummy::apply_label_changes(
                    rlabels_view(old(self).output_labels@),
                    rlabels_view(changed@.take(j as int)),
                ),
                renamed_ids(rlabels_view(old(self).output_labels@), rlabels_view(changed@))
                    == rebuilt@ + renamed_ids(
                    rlabels_view(self.output_labels@),
                    rlabels_view(changed@.skip(j as int)),
                ),
                ev_labels == (rebuilt@.len() > 0),
            decreases changed.len() - j,
        {
            let cid = changed[j].id as usize;
            let ghost prevl = self.output_labels@;
            let ghost prevrebuilt = rebuilt@;
            let ghost cv = changed@[j as int]@;
            proof {
                assert(rlabels_view(changed@.skip(j as int))[0] == cv);
                assert(rlabels_view(changed@.skip(j as int)).drop_first() =~= rlabels_view(
                    changed@.skip(j as int + 1),
                ));
                assert(rlabels_view(prevl)[cid as int] == prevl[cid as int]@);
            }
            if !bytes_eq(&self.output_labels[cid].name, &changed[j].name) {
                // An actual rename: the fabric must recreate this output.
                let name = clone_bytes(&changed[j].name);
                self.output_labels[cid] = RouterLabel { id: changed[j].id, name };
                proof {
                    assert forall|q: int|
                        0 <= q < self.output_labels@.len() implies (
                    #[trigger] self.output_labels@[q]).id == q by {
                        if q != cid {
                            assert(self.output_labels@[q] == prevl[q]);
                        }
                    }
                }
                rebuilt.push(changed[j].id);
                ev_labels = true;
                proof {
                    assert(rlabels_view(self.output_labels@) =~= rlabels_view(prevl).update(
                        cv.id as int,
                        RouterLabelV { id: cv.id, name: cv.name },
                    ));
                    assert(prevrebuilt + (seq![cv.id] + renamed_ids(
                        rlabels_view(self.output_labels@),
                        rlabels_view(changed@.skip(j as int + 1)),
                    )) =~= rebuilt@ + renamed_ids(
                        rlabels_view(self.output_labels@),
                        rlabels_view(changed@.skip(j as int + 1)),
                    ));
                }
            } else {
                proof {
                    assert(rlabels_view(prevl)[cv.id as int].name == cv.name);
                    assert(rlabels_view(self.output_labels@) =~= rlabels_view(prevl).update(
                        cv.id as int,
                        RouterLabelV { id: cv.id, name: cv.name },
                    ));
                }
            }
            proof {
                assert(rlabels_view(changed@.take(j as int + 1)) =~= rlabels_view(
                    changed@.take(j as int),
                ).push(cv));
                crate::dummy::lemma_apply_label_changes_snoc(
                    rlabels_view(old(self).output_labels@),
                    rlabels_view(changed@.take(j as int)),
                    cv,
                );
            }
            j = j + 1;
        }
        proof {
            assert(changed@.take(changed@.len() as int) =~= changed@);
            assert(changed@.skip(changed@.len() as int) =~= Seq::<RouterLabel>::empty());
            assert(rlabels_view(changed@.skip(changed@.len() as int)) =~= Seq::<
                RouterLabelV,
            >::empty());
            assert(rebuilt@ + Seq::<u32>::empty() =~= rebuilt@);
        }
        let ev = if ev_labels {
            Some(RouterEvent::OutputLabelUpdate(0, clone_labels(&self.output_labels)))
        } else {
            None
        };
        Ok((rebuilt, ev))
    }

    /// Discovery never reports the fabric itself as dead: the state is in
    /// memory and the route instances are owned here.
    pub fn is_alive(&self) -> (r: bool)
        ensures
            r == true,
    {
        true
    }

    /// Whether a discovered source is one of this fabric's own outputs:
    /// exactly when it is local and its name ends in one of the output
    /// labels in parentheses. Discovery skips such sources.
    pub fn is_own(&self, source: &SourceEntry) -> (r: bool)
        ensures
            r == (starts_with(source.url@, local_prefix()) && exists|k: int|
                0 <= k < self.output_labels@.len() && ends_with(
                    source.name@,
                    own_suffix((#[trigger] self.output_labels@[k]).name@),
                )),
    {
        proof {
            reveal_strlit("127.0.0.1");
        }
        let prefix = ascii_bytes("127.0.0.1");
        if !bytes_starts_with(&source.url, &prefix) {
            return false;
        }
        let mut k: usize = 0;
        while k < self.output_labels.len()
            invariant
                k <= self.output_labels@.len(),
                starts_with(source.url@, local_prefix()),
                forall|q: int|
                    0 <= q < k ==> !ends_with(
                        source.name@,
                        own_suffix((#[trigger] self.output_labels@[q]).name@),
                    ),
            decreases self.output_labels.len() - k,
        {
            let mut pat: Vec<u8> = Vec::new();
            pat.push(32);
            pat.push(40);
            let mut j: usize = 0;
            let own = &self.output_labels[k].name;
            while j < own.len()
                invariant
                    j <= own@.len(),
                    pat@ =~= seq![32u8, 40u8] + own@.take(j as int),
                decreases own.len() - j,
            {
                pat.push(own[j]);
                proof {
                    assert(pat@ =~= seq![32u8, 40u8] + own@.take(j as int + 1));
                }
                j = j + 1;
            }
            pat.push(41);
            proof {
                assert(own@.take(own@.len() as int) =~= own@);
                assert(pat@ =~= own_suffix(own@));
            }
            if bytes_ends_with(&source.name, &pat) {
                proof {
                    assert(0 <= k < self.output_labels@.len() && ends_with(
                        source.name@,
                        own_suffix((#[trigger] self.output_labels@[k as int]).name@),
                    ));
                }
                return true;
            }
            k = k + 1;
        }
        false
    }

    /// The position of the source with this name in the map, if any.
    pub fn find_source(&self, name: &Vec<u8>) -> (r: Option<usize>)
        ensures
            match r {
                Some(k) => k < self.source_map@.len() && self.source_map@[k as int].name@
                    == name@,
                None => forall|q: int|
                    0 <= q < self.source_map@.len() ==> (
                    #[trigger] self.source_map@[q]).name@ != name@,
            },
    {
        let mut k: usize = 0;
        while k < self.source_map.len()
            invariant
                k <= self.source_map@.len(),
                forall|q: int|
                    0 <= q < k ==> (#[trigger] self.source_map@[q]).name@ != name@,
            decreases self.source_map.len() - k,
        {
            if bytes_eq(&self.source_map[k].name, name) {
                return Some(k);
            }
            k = k + 1;
        }
        None
    }

    /// The input slot labeled with this name, if any.
    pub fn find_input_slot(&self, name: &Vec<u8>) -> (r: Option<usize>)
        ensures
            match r {
                Some(k) => k < self.input_labels@.len() && self.input_labels@[k as int].name@
                    == name@,
                None => forall|q: int|
                    0 <= q < self.input_labels@.len() ==> (
                    #[trigger] self.input_labels@[q]).name@ != name@,
            },
    {
        let mut k: usize = 0;
        while k < self.input_labels.len()
            invariant
                k <= self.input_labels@.len(),
                forall|q: int|
                    0 <= q < k ==> (#[trigger] self.input_labels@[q]).name@ != name@,
            decreases self.input_labels.len() - k,
        {
            if bytes_eq(&self.input_labels[k].name, name) {
                return Some(k);
            }
            k = k + 1;
        }
        None
    }

    /// Patch one output to one input: record the route and say what the
    /// fabric must do — clear the output when the slot is free, else route
    /// the slot's source to it. It fails exactly when the slot names a
    /// source the map does not know.
    pub fn patch_output(&mut self, output: u32, input: u32) -> (r: Result<
        OutputAction,
        RouterError,
    >)
        requires
            old(self).wf(),
            output < old(self).matrix_info.output_count,
            input < old(self).matrix_info.input_count,
        ensures
            final(self).wf(),
            final(self).matrix_info == old(self).matrix_info,
            final(self).input_labels == old(self).input_labels,
            final(self).output_labels == old(self).output_labels,
            final(self).source_map == old(self).source_map,
            final(self).info == old(self).info,
            match r {
                Ok(a) => {
                    &&& slot_routable(
                        old(self).input_labels@,
                        old(self).source_map@,
                        input as int,
                    )
                    &&& final(self).routes@ == old(self).routes@.update(
                        output as int,
                        RouterPatch { from_input: input, to_output: output },
                    )
                    &&& (old(self).input_labels@[input as int].name@.len() == 0 <==> a
                        == OutputAction::ClearOutput(output))
                    &&& (old(self).input_labels@[input as int].name@.len() > 0 ==> (
                    a matches OutputAction::RouteOutput(o, n, u) && o == output && n@ == old(
                        self,
                    ).input_labels@[input as int].name@ && exists|k: int|
                        0 <= k < old(self).source_map@.len() && (
                        #[trigger] old(self).source_map@[k]).name@ == n@ && old(
                            self,
                        ).source_map@[k].url@ == u@))
                },
                Err(e) => e == RouterError::OutOfRange && !slot_routable(
                    old(self).input_labels@,
                    old(self).source_map@,
                    input as int,
                ) && final(self).routes@ == old(self).routes@,
            },
    {
        let name = clone_bytes(&self.input_labels[input as usize].name);
        let action = if name.len() == 0 {
            OutputAction::ClearOutput(output)
        } else {
            match self.find_source(&name) {
                Some(k) => {
                    proof {
                        assert(0 <= k < self.source_map@.len() && (
                        #[trigger] self.source_map@[k as int]).name@ == name@);
                    }
                    let url = clone_bytes(&self.source_map[k].url);
                    OutputAction::RouteOutput(output, name, url)
                },
                None => {
                    proof {
                        assert(!slot_routable(
                            self.input_labels@,
                            self.source_map@,
                            input as int,
                        ));
                    }
                    return Err(RouterError::OutOfRange);
                },
            }
        };
        let ghost prev = self.routes@;
        self.routes[output as usize] = RouterPatch { from_input: input, to_output: output };
        proof {
            assert(self.routes@ =~= prev.update(
                output as int,
                RouterPatch { from_input: input, to_output: output },
            ));
            assert forall|i: int| 0 <= i < self.routes@.len() implies (
            #[trigger] self.routes@[i]).to_output == i && self.routes@[i].from_input
                < self.matrix_info.input_count by {
                if i != output {
                    assert(self.routes@[i] == prev[i]);
                }
            }
        }
        Ok(action)
    }

    /// Apply sparse patches. The whole update is validated first — the
    /// matrix index, both coordinates of every patch, and that every
    /// referenced slot can be realized on the fabric — and rejected without
    /// effect if any part fails; otherwise every patch is recorded and
    /// turned into the fabric action that realizes it.
    pub fn update_routes(&mut self, index: u32, changes: Vec<RouterPatch>) -> (r: Result<
        (Vec<OutputAction>, Option<RouterEvent>),
        RouterError,
    >)
        requires
            old(self).wf(),
        ensures
            final(self).wf(),
            final(self).matrix_info == old(self).matrix_info,
            final(self).input_labels == old(self).input_labels,
            final(self).output_labels == old(self).output_labels,
            final(self).source_map == old(self).source_map,
            final(self).info == old(self).info,
            match r {
                Ok((actions, ev)) => index == 0 && (forall|i: int|
                    0 <= i < changes@.len() ==> (#[trigger] changes@[i]).to_output < old(
                        self,
                    ).matrix_info.output_count && changes@[i].from_input < old(
                        self,
                    ).matrix_info.input_count && slot_routable(
                        old(self).input_labels@,
                        old(self).source_map@,
                        changes@[i].from_input as int,
                    )) && actions@.len() == changes@.len() && final(self).routes@
                    == crate::dummy::apply_patch_changes(old(self).routes@, changes@) && (
                match ev {
                    Some(RouterEvent::RouteUpdate(ix, ps)) => ix == 0 && changes@.len() > 0
                        && ps@ == final(self).routes@,
                    None => changes@.len() == 0,
                    _ => false,
                }),
                Err(e) => e == RouterError::OutOfRange && *final(self) == *old(self) && (index
                    != 0 || (exists|i: int|
                    0 <= i < changes@.len() && ((#[trigger] changes@[i]).to_output >= old(
                        self,
                    ).matrix_info.output_count || changes@[i].from_input >= old(
                        self,
                    ).matrix_info.input_count)) || (exists|i: int|
                    0 <= i < changes@.len() && (#[trigger] changes@[i]).from_input < old(
                        self,
                    ).matrix_info.input_count && !slot_routable(
                        old(self).input_labels@,
                        old(self).source_map@,
                        changes@[i].from_input as int,
                    ))),
            },
    {
        if index != 0 {
            return Err(RouterError::OutOfRange);
        }
        let mut i: usize = 0;
        while i < changes.len()
            invariant
                i <= changes@.len(),
                old(self).wf(),
                *self == *old(self),
                forall|q: int|
                    0 <= q < i ==> (#[trigger] changes@[q]).to_output
                        < old(self).matrix_info.output_count && changes@[q].from_input
                        < old(self).matrix_info.input_count,
            decreases changes.len() - i,
        {
            if changes[i].to_output >= self.matrix_info.output_count || changes[i].from_input
                >= self.matrix_info.input_count {
                proof {
                    assert(0 <= i < changes@.len() && ((#[trigger] changes@[i as int]).to_output
                        >= old(self).matrix_info.output_count || changes@[i as int].from_input
                        >= old(self).matrix_info.input_count));
                }
                return Err(RouterError::OutOfRange);
            }
            i = i + 1;
        }
        let mut v: usize = 0;
        while v < changes.len()
            invariant
                v <= changes@.len(),
                old(self).wf(),
                *self == *old(self),
                forall|q: int|
                    0 <= q < changes@.len() ==> (#[trigger] changes@[q]).to_output
                        < old(self).matrix_info.output_count && changes@[q].from_input
                        < old(self).matrix_info.input_count,
                forall|q: int|
                    0 <= q < v ==> slot_routable(
                        old(self).input_labels@,
                        old(self).source_map@,
                        (#[trigger] changes@[q]).from_input as int,
                    ),
            decreases changes.len() - v,
        {
            let slot = changes[v].from_input as usize;
            if self.input_labels[slot].name.len() > 0 {
                let name = clone_bytes(&self.input_labels[slot].name);
                match self.find_source(&name) {
                    Some(k) => {
                        proof {
                            assert(0 <= k < self.source_map@.len() && (
                            #[trigger] self.source_map@[k as int]).name@
                                == self.input_labels@[slot as int].name@);
                        }
                    },
                    None => {
                        proof {
                            assert(0 <= v < changes@.len() && (
                            #[trigger] changes@[v as int]).from_input < old(
                                self,
                            ).matrix_info.input_count && !slot_routable(
                                old(self).input_labels@,
                                old(self).source_map@,
                                changes@[v as int].from_input as int,
                            ));
                        }
                        return Err(RouterError::OutOfRange);
                    },
                }
            }
            v = v + 1;
        }
        let mut actions: Vec<OutputAction> = Vec::new();
        let mut j: usize = 0;
        proof {
            assert(changes@.take(0) =~= Seq::<RouterPatch>::empty());
        }
        while j < changes.len()
            invariant
                j <= changes@.len(),
                actions@.len() == j,
                self.wf(),
                self.matrix_info == old(self).matrix_info,
                self.input_labels == old(self).input_labels,
                self.output_labels == old(self).output_labels,
                self.source_map == old(self).source_map,
                self.info == old(self).info,
                forall|q: int|
                    0 <= q < changes@.len() ==> (#[trigger] changes@[q]).to_output
                        < old(self).matrix_info.output_count && changes@[q].from_input
                        < old(self).matrix_info.input_count,
                forall|q: int|
                    0 <= q < changes@.len() ==> slot_routable(
                        old(self).input_labels@,
                        old(self).source_map@,
                        (#[trigger] changes@[q]).from_input as int,
                    ),
                self.routes@ == crate::dummy::apply_patch_changes(
                    old(self).routes@,
                    changes@.take(j as int),
                ),
            decreases changes.len() - j,
        {
            let p = changes[j];
            match self.patch_output(p.to_output, p.from_input) {
                Ok(a) => {
                    actions.push(a);
                },
                Err(e) => {
                    // Every slot was validated against the source map, which
                    // the patches leave untouched, so a failing patch cannot
                    // arise here.
                    proof {
                        assert(slot_routable(
                            old(self).input_labels@,
                            old(self).source_map@,
                            changes@[j as int].from_input as int,
                        ));
                        assert(false);
                    }
                    return Err(RouterError::OutOfRange);
                },
            }
            proof {
                assert(changes@.take(j as int + 1) =~= changes@.take(j as int).push(
                    changes@[j as int],
                ));
                crate::dummy::lemma_apply_patch_changes_snoc(
                    old(self).routes@,
                    changes@.take(j as int),
                    changes@[j as int],
                );
            }
            j = j + 1;
        }
        proof {
            assert(changes@.take(changes@.len() as int) =~= changes@);
        }
        let ev = if changes.len() > 0 {
            Some(RouterEvent::RouteUpdate(0, clone_patches(&self.routes)))
        } else {
            None
        };
        Ok((actions, ev))
    }

    /// Fold one round of discovery into the state: a source that vanished
    /// frees its slot, the outputs routed to that slot are repatched to
    /// input 0, and the source is forgotten; a new source takes a free slot;
    /// a kept source adopts its current address. Afterwards every remembered
    /// source is a discovered one, and every discovered source with a usable
    /// name is either remembered or found no slot left. Returns whether the
    /// slot assignment changed and what the fabric must do.
    pub fn sync_sources(&mut self, current: Vec<SourceEntry>) -> (r: (bool, Vec<OutputAction>))
        requires
            old(self).wf(),
        ensures
            final(self).wf(),
            final(self).matrix_info == old(self).matrix_info,
            final(self).output_labels == old(self).output_labels,
            final(self).info == old(self).info,
            entries_from(final(self).source_map@, current@),
            current_accounted(
                final(self).source_map@,
                current@,
                final(self).input_labels@,
                current@.len() as int,
            ),
    {
        let mut actions: Vec<OutputAction> = Vec::new();
        // Sources that vanished: free their slot, repatch their outputs to
        // input 0, and forget them.
        let mut kept: Vec<SourceEntry> = Vec::new();
        let mut changed: bool = false;
        let mut i: usize = 0;
        proof {
            assert(entries_from(kept@, current@));
        }
        while i < self.source_map.len()
            invariant
                i <= self.source_map@.len(),
                self.wf(),
                self.matrix_info == old(self).matrix_info,
                self.output_labels == old(self).output_labels,
                self.info == old(self).info,
                self.source_map == old(self).source_map,
                entries_from(kept@, current@),
            decreases self.source_map.len() - i,
        {
            let name = clone_bytes(&self.source_map[i].name);
            let mut found: Option<usize> = None;
            let mut c: usize = 0;
            while c < current.len()
                invariant
                    c <= current@.len(),
                    match found {
                        Some(k) => k < current@.len() && current@[k as int].name@ == name@,
                        None => true,
                    },
                decreases current.len() - c,
            {
                if bytes_eq(&current[c].name, &name) {
                    found = Some(c);
                    break ;
                }
                c = c + 1;
            }
            match found {
                Some(k) => {
                    // Keep it, taking over a changed address.
                    let ghost prevk = kept@;
                    let url = clone_bytes(&current[k].url);
                    let ghost namev = name@;
                    let ghost urlv = url@;
                    kept.push(SourceEntry { name, url });
                    proof {
                        assert forall|q: int| 0 <= q < kept@.len() implies exists|c2: int|
                            0 <= c2 < current@.len() && (#[trigger] kept@[q]).name@ == (
                            #[trigger] current@[c2]).name@ && kept@[q].url@ == current@[
                                c2
                            ].url@ by {
                            if q < prevk.len() {
                                assert(kept@[q] == prevk[q]);
                                assert(entries_from(prevk, current@));
                            } else {
                                assert(kept@[q].name@ == namev && kept@[q].url@ == urlv);
                                assert(0 <= k < current@.len() && current@[k as int].name@
                                    == namev && current@[k as int].url@ == urlv);
                            }
                        }
                        assert(entries_from(kept@, current@));
                    }
                },
                None => {
                    // Vanished: free its slot and repatch its outputs.
                    changed = true;
                    match self.find_input_slot(&name) {
                        Some(slot) => {
                            let ghost prevl = self.input_labels@;
                            self.input_labels[slot] = RouterLabel {
                                id: slot as u32,
                                name: Vec::new(),
                            };
                            proof {
                                assert forall|q: int|
                                    0 <= q < self.input_labels@.len() implies (
                                #[trigger] self.input_labels@[q]).id == q by {
                                    if q != slot {
                                        assert(self.input_labels@[q] == prevl[q]);
                                    }
                                }
                            }
                            let mut out: usize = 0;
                            while out < self.routes.len()
                                invariant
                                    out <= self.routes@.len(),
                                    self.wf(),
                                    self.matrix_info == old(self).matrix_info,
                                    self.output_labels == old(self).output_labels,
                                    self.info == old(self).info,
                                    self.source_map == old(self).source_map,
                                    slot < self.input_labels@.len(),
                                    entries_from(kept@, current@),
                                decreases self.routes.len() - out,
                            {
                                if self.routes[out].from_input as usize == slot {
                                    // Repatch to input 0, as a route update
                                    // would; a failing repatch (slot 0 names
                                    // an unknown source) leaves the route
                                    // and tells the fabric nothing.
                                    match self.patch_output(out as u32, 0) {
                                        Ok(a) => {
                                            actions.push(a);
                                        },
                                        Err(_) => {
                                        },
                                    }
                                }
                                out = out + 1;
                            }
                        },
                        None => {
                        },
                    }
                },
            }
            i = i + 1;
        }
        self.source_map = kept;
        // New sources take a free slot; a source without a usable name
        // cannot occupy one, since the empty name marks a slot as free.
        let mut c: usize = 0;
        proof {
            assert(entries_from(self.source_map@, current@)) by {
                assert(self.source_map@ == kept@);
            }
            assert(current_accounted(self.source_map@, current@, self.input_labels@, 0));
        }
        while c < current.len()
            invariant
                c <= current@.len(),
                self.wf(),
                self.matrix_info == old(self).matrix_info,
                self.output_labels == old(self).output_labels,
                self.info == old(self).info,
                entries_from(self.source_map@, current@),
                current_accounted(self.source_map@, current@, self.input_labels@, c as int),
            decreases current.len() - c,
        {
            let ghost m0 = self.source_map@;
            let ghost l0 = self.input_labels@;
            let name = clone_bytes(&current[c].name);
            let ghost namev = name@;
            if name.len() > 0 {
                match self.find_source(&name) {
                    Some(k) => {
                        proof {
                            assert(0 <= k < self.source_map@.len() && (
                            #[trigger] self.source_map@[k as int]).name@ == namev);
                            assert(has_name(m0, current@[c as int].name@));
                        }
                    },
                    None => {
                        let empty: Vec<u8> = Vec::new();
                        match self.find_input_slot(&empty) {
                            Some(slot) => {
                                let ghost prevl = self.input_labels@;
                                self.input_labels[slot] = RouterLabel {
                                    id: slot as u32,
                                    name: clone_bytes(&name),
                                };
                                proof {
                                    assert forall|q: int|
                                        0 <= q < self.input_labels@.len() implies (
                                    #[trigger] self.input_labels@[q]).id == q by {
                                        if q != slot {
                                            assert(self.input_labels@[q] == prevl[q]);
                                        }
                                    }
                                }
                                let url = clone_bytes(&current[c].url);
                                let ghost urlv = url@;
                                self.source_map.push(SourceEntry { name, url });
                                changed = true;
                                proof {
                                    assert forall|q: int|
                                        0 <= q < self.source_map@.len() implies exists|c2: int|
                                        0 <= c2 < current@.len() && (
                                        #[trigger] self.source_map@[q]).name@ == (
                                        #[trigger] current@[c2]).name@ && self.source_map@[
                                            q
                                        ].url@ == current@[c2].url@ by {
                                        if q < m0.len() {
                                            assert(self.source_map@[q] == m0[q]);
                                            assert(entries_from(m0, current@));
                                        } else {
                                            assert(self.source_map@[q].name@ == namev
                                                && self.source_map@[q].url@ == urlv);
                                            assert(0 <= c < current@.len() && current@[
                                                c as int
                                            ].name@ == namev && current@[c as int].url@
                                                == urlv);
                                        }
                                    }
                                    assert(entries_from(self.source_map@, current@));
                                    assert(0 <= self.source_map@.len() - 1
                                        < self.source_map@.len() && (
                                    #[trigger] self.source_map@[
                                        self.source_map@.len() - 1
                                    ]).name@ == namev);
                                    assert(has_name(
                                        self.source_map@,
                                        current@[c as int].name@,
                                    ));
                                }
                            },
                            None => {
                                // No free slot: every slot carries a name,
                                // and this loop never frees one.
                                proof {
                                    assert forall|s: int|
                                        0 <= s < self.input_labels@.len() implies (
                                    #[trigger] self.input_labels@[s]).name@.len() > 0 by {
                                        assert(self.input_labels@[s].name@ != empty@);
                                        if self.input_labels@[s].name@.len() == 0 {
                                            assert(self.input_labels@[s].name@ =~= empty@);
                                        }
                                    }
                                    assert(slots_full(self.input_labels@));
                                }
                            },
                        }
                    },
                }
            }
            proof {
                assert forall|c2: int|
                    0 <= c2 < c + 1 && (#[trigger] current@[c2]).name@.len() > 0 implies
                    has_name(self.source_map@, current@[c2].name@) || slots_full(
                    self.input_labels@,
                ) by {
                    if c2 < c {
                        assert(current_accounted(m0, current@, l0, c as int));
                        if has_name(m0, current@[c2].name@) {
                            let q0 = choose|q: int|
                                0 <= q < m0.len() && (#[trigger] m0[q]).name@ == current@[
                                    c2
                                ].name@;
                            assert(0 <= q0 < self.source_map@.len() && self.source_map@[
                                q0
                            ].name@ == current@[c2].name@);
                            assert(has_name(self.source_map@, current@[c2].name@));
                        } else {
                            assert(slots_full(l0));
                            assert forall|s: int|
                                0 <= s < self.input_labels@.len() implies (
                            #[trigger] self.input_labels@[s]).name@.len() > 0 by {
                                assert(l0[s].name@.len() > 0);
                            }
                            assert(slots_full(self.input_labels@));
                        }
                    }
                }
                assert(current_accounted(
                    self.source_map@,
                    current@,
                    self.input_labels@,
                    c + 1,
                ));
            }
            c = c + 1;
        }
        (changed, actions)
    }
}

} // verus!
