//! The server engine's decisions: what a fresh client is sent, how each
//! client message is answered, and which router events are forwarded. The
//! connection loop around these is plain plumbing; everything it decides is
//! here.
use vstd::prelude::*;
use vstd::multiset::Multiset;

verus! {

use crate::model::{Label, Route, LabelV, Present, DeviceInfo, VideohubMessage, MsgV, PreambleV, labels_view};
use crate::matrix::{
    RouterInfo,
    RouterMatrixInfo,
    RouterLabel,
    RouterPatch,
    RouterEvent,
    RouterLabelV,
    rlabels_view,
};
use crate::dummy::clone_bytes;
use crate::text::{ascii_bytes, bytes_of};

/// Cached protocol state of one serving connection. The protocol needs none
/// beyond what the router itself holds.
pub struct VideohubFrontendState {
}

impl VideohubFrontendState {
    pub fn new() -> (r: VideohubFrontendState) {
        VideohubFrontendState {  }
    }
}

/// What the connection loop must do with one inbound client message.
#[derive(Clone, Debug, PartialEq, Eq)]
pub enum FrontendCommand {
    /// Send this reply as it stands.
    Reply(VideohubMessage),
    /// Answer with the current input labels.
    QueryInputLabels,
    /// Answer with the current output labels.
    QueryOutputLabels,
    /// Answer with the current routes.
    QueryRoutes,
    /// Apply these label changes to the router's inputs, then ACK or NAK.
    UpdateInputLabels(Vec<RouterLabel>),
    /// Apply these label changes to the router's outputs, then ACK or NAK.
    UpdateOutputLabels(Vec<RouterLabel>),
    /// Apply these patches to the router, then ACK or NAK.
    UpdateRoutes(Vec<RouterPatch>),
}

pub open spec fn router_of_wire_labels(s: Seq<LabelV>) -> Seq<RouterLabelV> {
    s.map_values(|l: LabelV| RouterLabelV { id: l.id, name: l.name })
}

pub open spec fn wire_of_router_labels(s: Seq<RouterLabelV>) -> Seq<LabelV> {
    s.map_values(|l: RouterLabelV| LabelV { id: l.id, name: l.name })
}

pub open spec fn patches_of_routes(s: Seq<Route>) -> Seq<RouterPatch> {
    s.map_values(|r: Route| RouterPatch { from_input: r.from_input, to_output: r.to_output })
}

pub open spec fn routes_of_patches(s: Seq<RouterPatch>) -> Seq<Route> {
    s.map_values(|p: RouterPatch| Route { from_input: p.from_input, to_output: p.to_output })
}

pub open spec fn labels_sorted(s: Seq<RouterLabel>) -> bool {
    forall|i: int, j: int| 0 <= i < j < s.len() ==> (#[trigger] s[i]).id <= (#[trigger] s[j]).id
}

pub open spec fn patches_sorted(s: Seq<RouterPatch>) -> bool {
    forall|i: int, j: int|
        0 <= i < j < s.len() ==> (#[trigger] s[i]).to_output <= (#[trigger] s[j]).to_output
}

/// Sort labels ascending by id: selection of the least remaining id.
pub fn sort_labels(v: Vec<RouterLabel>) -> (r: Vec<RouterLabel>)
    ensures
        labels_sorted(r@),
        rlabels_view(r@).to_multiset() == rlabels_view(v@).to_multiset(),
        r@.len() == v@.len(),
{
    broadcast use vstd::seq_lib::group_to_multiset_ensures;
    broadcast use vstd::multiset::group_multiset_axioms;

    let mut rest = v;
    let mut out: Vec<RouterLabel> = Vec::new();
    proof {
        assert(rlabels_view(out@).to_multiset().add(rlabels_view(rest@).to_multiset())
            =~= rlabels_view(v@).to_multiset());
    }
    while rest.len() > 0
        invariant
            rlabels_view(out@).to_multiset().add(rlabels_view(rest@).to_multiset())
                == rlabels_view(v@).to_multiset(),
            out@.len() + rest@.len() == v@.len(),
            labels_sorted(out@),
            forall|a: int, b: int|
                0 <= a < out@.len() && 0 <= b < rest@.len() ==> (#[trigger] out@[a]).id <= (
                #[trigger] rest@[b]).id,
        decreases rest.len(),
    {
        let mut min: usize = 0;
        let mut k: usize = 1;
        while k < rest.len()
            invariant
                min < rest@.len(),
                k <= rest@.len(),
                forall|q: int| 0 <= q < k ==> (#[trigger] rest@[q]).id >= rest@[min as int].id,
            decreases rest.len() - k,
        {
            if rest[k].id < rest[min].id {
                min = k;
            }
            k = k + 1;
        }
        let ghost pr = rlabels_view(rest@);
        let ghost po = rlabels_view(out@);
        let ghost prev_rest = rest@;
        let ghost prev_out = out@;
        let x = rest.remove(min);
        let ghost xv = x@;
        proof {
            assert(rlabels_view(rest@) =~= pr.remove(min as int));
            vstd::seq_lib::to_multiset_remove(pr, min as int);
            assert(pr[min as int] == xv);
            assert forall|b: int| 0 <= b < rest@.len() implies (#[trigger] rest@[b]).id >= x.id by {
                if b < min {
                    assert(rest@[b] == prev_rest[b]);
                } else {
                    assert(rest@[b] == prev_rest[b + 1]);
                }
            }
        }
        out.push(x);
        proof {
            assert(rlabels_view(out@) =~= po.push(xv));
            vstd::seq_lib::to_multiset_build(po, xv);
            assert(pr.contains(xv)) by {
                assert(0 <= min < pr.len() && pr[min as int] == xv);
            }
            vstd::seq_lib::to_multiset_contains(pr, xv);
            assert(pr.to_multiset().count(xv) > 0);
            assert(po.to_multiset().insert(xv).add(pr.to_multiset().remove(xv)) =~= po.to_multiset().add(
                pr.to_multiset(),
            ));
            assert(rlabels_view(out@).to_multiset().add(rlabels_view(rest@).to_multiset())
                =~= rlabels_view(v@).to_multiset());
            assert forall|a: int, b: int|
                0 <= a < out@.len() && 0 <= b < rest@.len() implies (#[trigger] out@[a]).id <= (
            #[trigger] rest@[b]).id by {
                if a < prev_out.len() {
                    assert(out@[a] == prev_out[a]);
                    assert(prev_rest[min as int] == x);
                } else {
                    assert(out@[a] == x);
                }
            }
            assert forall|a: int, b: int|
                0 <= a < b < out@.len() implies (#[trigger] out@[a]).id <= (
            #[trigger] out@[b]).id by {
                if b < prev_out.len() {
                } else {
                    assert(out@[b] == x);
                    assert(prev_rest[min as int] == x);
                }
            }
        }
    }
    proof {
        assert(rlabels_view(rest@) =~= Seq::<RouterLabelV>::empty());
        assert(rlabels_view(rest@).to_multiset() =~= Multiset::<RouterLabelV>::empty());
        assert(rlabels_view(out@).to_multiset().add(Multiset::<RouterLabelV>::empty())
            =~= rlabels_view(out@).to_multiset());
    }
    out
}

/// Sort patches ascending by output: selection of the least remaining output.
pub fn sort_patches(v: Vec<RouterPatch>) -> (r: Vec<RouterPatch>)
    ensures
        patches_sorted(r@),
        r@.to_multiset() == v@.to_multiset(),
        r@.len() == v@.len(),
{
    broadcast use vstd::seq_lib::group_to_multiset_ensures;
    broadcast use vstd::multiset::group_multiset_axioms;

    let mut rest = v;
    let mut out: Vec<RouterPatch> = Vec::new();
    proof {
        assert(out@.to_multiset().add(rest@.to_multiset()) =~= v@.to_multiset());
    }
    while rest.len() > 0
        invariant
            out@.to_multiset().add(rest@.to_multiset()) == v@.to_multiset(),
            out@.len() + rest@.len() == v@.len(),
            patches_sorted(out@),
            forall|a: int, b: int|
                0 <= a < out@.len() && 0 <= b < rest@.len() ==> (#[trigger] out@[a]).to_output
                    <= (#[trigger] rest@[b]).to_output,
        decreases rest.len(),
    {
        let mut min: usize = 0;
        let mut k: usize = 1;
        while k < rest.len()
            invariant
                min < rest@.len(),
                k <= rest@.len(),
                forall|q: int|
                    0 <= q < k ==> (#[trigger] rest@[q]).to_output >= rest@[
                        min as int
                    ].to_output,
            decreases rest.len() - k,
        {
            if rest[k].to_output < rest[min].to_output {
                min = k;
            }
            k = k + 1;
        }
        let ghost prev_rest = rest@;
        let ghost prev_out = out@;
        let x = rest.remove(min);
        proof {
            vstd::seq_lib::to_multiset_remove(prev_rest, min as int);
            assert forall|b: int| 0 <= b < rest@.len() implies (#[trigger] rest@[b]).to_output
                >= x.to_output by {
                if b < min {
                    assert(rest@[b] == prev_rest[b]);
                } else {
                    assert(rest@[b] == prev_rest[b + 1]);
                }
            }
        }
        out.push(x);
        proof {
            vstd::seq_lib::to_multiset_build(prev_out, x);
            assert(prev_rest.contains(x)) by {
                assert(0 <= min < prev_rest.len() && prev_rest[min as int] == x);
            }
            vstd::seq_lib::to_multiset_contains(prev_rest, x);
            assert(prev_rest.to_multiset().count(x) > 0);
            assert(prev_out.to_multiset().insert(x).add(prev_rest.to_multiset().remove(x))
                =~= prev_out.to_multiset().add(prev_rest.to_multiset()));
            assert(out@.to_multiset().add(rest@.to_multiset()) =~= v@.to_multiset());
            assert forall|a: int, b: int|
                0 <= a < out@.len() && 0 <= b < rest@.len() implies (
            #[trigger] out@[a]).to_output <= (#[trigger] rest@[b]).to_output by {
                if a < prev_out.len() {
                    assert(out@[a] == prev_out[a]);
                    assert(prev_rest[min as int] == x);
                } else {
                    assert(out@[a] == x);
                }
            }
            assert forall|a: int, b: int|
                0 <= a < b < out@.len() implies (#[trigger] out@[a]).to_output <= (
            #[trigger] out@[b]).to_output by {
                if b < prev_out.len() {
                } else {
                    assert(out@[b] == x);
                    assert(prev_rest[min as int] == x);
                }
            }
        }
    }
    proof {
        assert(rest@.to_multiset() =~= Multiset::<RouterPatch>::empty());
        assert(out@.to_multiset().add(Multiset::<RouterPatch>::empty()) =~= out@.to_multiset());
    }
    out
}

/// Wire labels of router labels, order kept.
pub fn labels_to_wire(v: Vec<RouterLabel>) -> (r: Vec<Label>)
    ensures
        labels_view(r@) == wire_of_router_labels(rlabels_view(v@)),
        r@.len() == v@.len(),
{
    let mut r: Vec<Label> = Vec::new();
    let mut i: usize = 0;
    while i < v.len()
        invariant
            i <= v.len(),
            r@.len() == i,
            forall|q: int|
                0 <= q < i ==> (#[trigger] r@[q]).id == v@[q].id && r@[q].name@ == v@[q].name@,
        decreases v.len() - i,
    {
        let name = clone_bytes(&v[i].name);
        r.push(Label { id: v[i].id, name });
        i = i + 1;
    }
    assert(labels_view(r@) =~= wire_of_router_labels(rlabels_view(v@)));
    r
}

/// Router labels of wire labels, order kept.
pub fn labels_from_wire(v: Vec<Label>) -> (r: Vec<RouterLabel>)
    ensures
        rlabels_view(r@) == router_of_wire_labels(labels_view(v@)),
        r@.len() == v@.len(),
{
    let mut r: Vec<RouterLabel> = Vec::new();
    let mut i: usize = 0;
    while i < v.len()
        invariant
            i <= v.len(),
            r@.len() == i,
            forall|q: int|
                0 <= q < i ==> (#[trigger] r@[q]).id == v@[q].id && r@[q].name@ == v@[q].name@,
        decreases v.len() - i,
    {
        let name = clone_bytes(&v[i].name);
        r.push(RouterLabel { id: v[i].id, name });
        i = i + 1;
    }
    assert(rlabels_view(r@) =~= router_of_wire_labels(labels_view(v@)));
    r
}

/// Wire routes of patches, order kept.
pub fn patches_to_wire(v: Vec<RouterPatch>) -> (r: Vec<Route>)
    ensures
        r@ == routes_of_patches(v@),
{
    let mut r: Vec<Route> = Vec::new();
    let mut i: usize = 0;
    while i < v.len()
        invariant
            i <= v.len(),
            r@ =~= routes_of_patches(v@.take(i as int)),
        decreases v.len() - i,
    {
        r.push(Route { from_input: v[i].from_input, to_output: v[i].to_output });
        assert(r@ =~= routes_of_patches(v@.take(i + 1)));
        i = i + 1;
    }
    assert(r@ =~= routes_of_patches(v@));
    r
}

/// Patches of wire routes, order kept.
pub fn patches_from_wire(v: Vec<Route>) -> (r: Vec<RouterPatch>)
    ensures
        r@ == patches_of_routes(v@),
{
    let mut r: Vec<RouterPatch> = Vec::new();
    let mut i: usize = 0;
    while i < v.len()
        invariant
            i <= v.len(),
            r@ =~= patches_of_routes(v@.take(i as int)),
        decreases v.len() - i,
    {
        r.push(RouterPatch { from_input: v[i].from_input, to_output: v[i].to_output });
        assert(r@ =~= patches_of_routes(v@.take(i + 1)));
        i = i + 1;
    }
    assert(r@ =~= patches_of_routes(v@));
    r
}

/// Decide what to do with one inbound client message: a ping is
/// acknowledged, an empty label or routing block asks for the current state,
/// a nonempty one is a mutation, and anything else is refused.
pub fn handle_message(msg: VideohubMessage) -> (c: FrontendCommand)
    ensures
        msg@ == MsgV::Ping ==> (c matches FrontendCommand::Reply(r) && r@ == MsgV::ACK),
        forall|ls: Seq<LabelV>|
            msg@ == MsgV::InputLabels(ls) && ls.len() == 0 ==> c
                == FrontendCommand::QueryInputLabels,
        forall|ls: Seq<LabelV>|
            msg@ == MsgV::OutputLabels(ls) && ls.len() == 0 ==> c
                == FrontendCommand::QueryOutputLabels,
        forall|rs: Seq<Route>|
            msg@ == MsgV::VideoOutputRouting(rs) && rs.len() == 0 ==> c
                == FrontendCommand::QueryRoutes,
        forall|ls: Seq<LabelV>|
            msg@ == MsgV::InputLabels(ls) && ls.len() > 0 ==> (
            c matches FrontendCommand::UpdateInputLabels(ch) && rlabels_view(ch@)
                == router_of_wire_labels(ls)),
        forall|ls: Seq<LabelV>|
            msg@ == MsgV::OutputLabels(ls) && ls.len() > 0 ==> (
            c matches FrontendCommand::UpdateOutputLabels(ch) && rlabels_view(ch@)
                == router_of_wire_labels(ls)),
        forall|rs: Seq<Route>|
            msg@ == MsgV::VideoOutputRouting(rs) && rs.len() > 0 ==> (
            c matches FrontendCommand::UpdateRoutes(ch) && ch@ == patches_of_routes(rs)),
        (match msg@ {
            MsgV::Ping => false,
            MsgV::InputLabels(_) => false,
            MsgV::OutputLabels(_) => false,
            MsgV::VideoOutputRouting(_) => false,
            _ => true,
        }) ==> (c matches FrontendCommand::Reply(r) && r@ == MsgV::NAK),
{
    match msg {
        VideohubMessage::Ping => FrontendCommand::Reply(VideohubMessage::ACK),
        VideohubMessage::InputLabels(labels) => {
            if labels.len() == 0 {
                FrontendCommand::QueryInputLabels
            } else {
                FrontendCommand::UpdateInputLabels(labels_from_wire(labels))
            }
        },
        VideohubMessage::OutputLabels(labels) => {
            if labels.len() == 0 {
                FrontendCommand::QueryOutputLabels
            } else {
                FrontendCommand::UpdateOutputLabels(labels_from_wire(labels))
            }
        },
        VideohubMessage::VideoOutputRouting(routes) => {
            if routes.len() == 0 {
                FrontendCommand::QueryRoutes
            } else {
                FrontendCommand::UpdateRoutes(patches_from_wire(routes))
            }
        },
        _ => FrontendCommand::Reply(VideohubMessage::NAK),
    }
}

/// The definitive answer to a mutation: positive or negative acknowledgment.
pub fn update_reply(ok: bool) -> (r: VideohubMessage)
    ensures
        ok ==> r@ == MsgV::ACK,
        !ok ==> r@ == MsgV::NAK,
{
    if ok {
        VideohubMessage::ACK
    } else {
        VideohubMessage::NAK
    }
}

/// The ids of a wire label list never descend.
pub open spec fn wire_labels_sorted(s: Seq<LabelV>) -> bool {
    forall|i: int, j: int| 0 <= i < j < s.len() ==> (#[trigger] s[i]).id <= (#[trigger] s[j]).id
}

pub open spec fn wire_routes_sorted(s: Seq<Route>) -> bool {
    forall|i: int, j: int|
        0 <= i < j < s.len() ==> (#[trigger] s[i]).to_output <= (#[trigger] s[j]).to_output
}

/// An input-label block of exactly the given labels, sorted ascending by id.
pub fn input_labels_reply(labels: Vec<RouterLabel>) -> (r: VideohubMessage)
    ensures
        r@ matches MsgV::InputLabels(ls) && wire_labels_sorted(ls) && router_of_wire_labels(
            ls,
        ).to_multiset() == rlabels_view(labels@).to_multiset() && ls.len() == labels@.len(),
{
    let ghost lv = rlabels_view(labels@);
    let sorted = sort_labels(labels);
    let ghost sv = sorted@;
    let wire = labels_to_wire(sorted);
    proof {
        assert forall|a: int, b: int|
            0 <= a < b < labels_view(wire@).len() implies (#[trigger] labels_view(wire@)[a]).id
            <= (#[trigger] labels_view(wire@)[b]).id by {
            assert(labels_view(wire@)[a] == wire_of_router_labels(rlabels_view(sv))[a]);
            assert(labels_view(wire@)[b] == wire_of_router_labels(rlabels_view(sv))[b]);
            assert(rlabels_view(sv)[a].id == sv[a].id);
            assert(rlabels_view(sv)[b].id == sv[b].id);
        }
        assert(router_of_wire_labels(labels_view(wire@)) =~= rlabels_view(sv));
    }
    VideohubMessage::InputLabels(wire)
}

/// An output-label block of exactly the given labels, sorted ascending by id.
pub fn output_labels_reply(labels: Vec<RouterLabel>) -> (r: VideohubMessage)
    ensures
        r@ matches MsgV::OutputLabels(ls) && wire_labels_sorted(ls) && router_of_wire_labels(
            ls,
        ).to_multiset() == rlabels_view(labels@).to_multiset() && ls.len() == labels@.len(),
{
    let ghost lv = rlabels_view(labels@);
    let sorted = sort_labels(labels);
    let ghost sv = sorted@;
    let wire = labels_to_wire(sorted);
    proof {
        assert forall|a: int, b: int|
            0 <= a < b < labels_view(wire@).len() implies (#[trigger] labels_view(wire@)[a]).id
            <= (#[trigger] labels_view(wire@)[b]).id by {
            assert(labels_view(wire@)[a] == wire_of_router_labels(rlabels_view(sv))[a]);
            assert(labels_view(wire@)[b] == wire_of_router_labels(rlabels_view(sv))[b]);
            assert(rlabels_view(sv)[a].id == sv[a].id);
            assert(rlabels_view(sv)[b].id == sv[b].id);
        }
        assert(router_of_wire_labels(labels_view(wire@)) =~= rlabels_view(sv));
    }
    VideohubMessage::OutputLabels(wire)
}

/// A routing block of exactly the given patches, sorted ascending by output.
pub fn routing_reply(patches: Vec<RouterPatch>) -> (r: VideohubMessage)
    ensures
        r@ matches MsgV::VideoOutputRouting(rs) && wire_routes_sorted(rs) && patches_of_routes(
            rs,
        ).to_multiset() == patches@.to_multiset() && rs.len() == patches@.len(),
{
    let sorted = sort_patches(patches);
    let ghost sv = sorted@;
    let wire = patches_to_wire(sorted);
    proof {
        assert forall|a: int, b: int|
            0 <= a < b < wire@.len() implies (#[trigger] wire@[a]).to_output <= (
        #[trigger] wire@[b]).to_output by {
            assert(wire@[a] == routes_of_patches(sv)[a]);
            assert(wire@[b] == routes_of_patches(sv)[b]);
        }
        assert(patches_of_routes(wire@) =~= sv);
    }
    VideohubMessage::VideoOutputRouting(wire)
}

/// Forward a router event to the client: only a route update of this
/// connection's own matrix becomes a message, sorted ascending by output.
pub fn handle_event(event: RouterEvent, index: u32) -> (r: Option<VideohubMessage>)
    ensures
        (match event {
            RouterEvent::RouteUpdate(ix, _) => ix == index,
            _ => false,
        }) <==> r is Some,
        match r {
            Some(m) => (match event {
                RouterEvent::RouteUpdate(_, ps) => m@ matches MsgV::VideoOutputRouting(rs)
                    && wire_routes_sorted(rs) && patches_of_routes(rs).to_multiset()
                    == ps@.to_multiset() && rs.len() == ps@.len(),
                _ => false,
            }),
            None => true,
        },
{
    match event {
        RouterEvent::RouteUpdate(ix, updates) => {
            if ix == index {
                Some(routing_reply(updates))
            } else {
                None
            }
        },
        _ => None,
    }
}

/// The device-information block a fresh client is shown.
pub fn dump_device_info(alive: bool, info: &RouterInfo, mi: &RouterMatrixInfo) -> (r: DeviceInfo)
    ensures
        r@.present == (if alive {
            Some(Present::Yes)
        } else {
            Some(Present::No)
        }),
        alive ==> r@.model_name == info@.model && r@.friendly_name == info@.name
            && r@.video_inputs == Some(mi.input_count) && r@.video_outputs == Some(
            mi.output_count,
        ),
        !alive ==> r@.model_name is None && r@.friendly_name is None && r@.video_inputs is None
            && r@.video_outputs is None,
        r@.unique_id is None && r@.video_processing_units is None
            && r@.video_monitoring_outputs is None && r@.serial_ports is None
            && r@.unknown_fields is None,
{
    let mut d = DeviceInfo {
        present: Some(if alive {
            Present::Yes
        } else {
            Present::No
        }),
        model_name: None,
        friendly_name: None,
        unique_id: None,
        video_inputs: None,
        video_processing_units: None,
        video_outputs: None,
        video_monitoring_outputs: None,
        serial_ports: None,
        unknown_fields: None,
    };
    if alive {
        d.model_name = match &info.model {
            Some(b) => Some(clone_bytes(b)),
            None => None,
        };
        d.friendly_name = match &info.name {
            Some(b) => Some(clone_bytes(b)),
            None => None,
        };
        d.video_inputs = Some(mi.input_count);
        d.video_outputs = Some(mi.output_count);
    }
    d
}

/// The version the server engine advertises.
pub fn advertised_version() -> (r: Vec<u8>)
    ensures
        r@ == bytes_of("2.7"@),
{
    proof {
        reveal_strlit("2.7");
    }
    ascii_bytes("2.7")
}

/// The initial dump shown to a fresh client, in its exact order: the
/// preamble, the device information, then — only when the router is alive —
/// input labels, output labels and routes, each sorted ascending, and the
/// end-of-prelude mark last.
pub fn create_initial_dump(
    alive: bool,
    info: &RouterInfo,
    mi: &RouterMatrixInfo,
    input_labels: Vec<RouterLabel>,
    output_labels: Vec<RouterLabel>,
    routes: Vec<RouterPatch>,
) -> (r: Vec<VideohubMessage>)
    ensures
        alive ==> r@.len() == 6,
        !alive ==> r@.len() == 3,
        r@[0]@ == MsgV::Preamble(PreambleV { version: bytes_of("2.7"@) }),
        r@[1]@ matches MsgV::DeviceInfo(d) && d.present == (if alive {
            Some(Present::Yes)
        } else {
            Some(Present::No)
        }) && d.model_name == (if alive {
            info@.model
        } else {
            None
        }) && d.friendly_name == (if alive {
            info@.name
        } else {
            None
        }) && d.video_inputs == (if alive {
            Some(mi.input_count)
        } else {
            None
        }) && d.video_outputs == (if alive {
            Some(mi.output_count)
        } else {
            None
        }) && d.unique_id is None && d.video_processing_units is None
            && d.video_monitoring_outputs is None && d.serial_ports is None
            && d.unknown_fields is None,
        alive ==> (r@[2]@ matches MsgV::InputLabels(ls) && wire_labels_sorted(ls)
            && router_of_wire_labels(ls).to_multiset() == rlabels_view(
            input_labels@,
        ).to_multiset()),
        alive ==> (r@[3]@ matches MsgV::OutputLabels(ls) && wire_labels_sorted(ls)
            && router_of_wire_labels(ls).to_multiset() == rlabels_view(
            output_labels@,
        ).to_multiset()),
        alive ==> (r@[4]@ matches MsgV::VideoOutputRouting(rs) && wire_routes_sorted(rs)
            && patches_of_routes(rs).to_multiset() == routes@.to_multiset()),
        alive ==> r@[5]@ == MsgV::EndPrelude,
        !alive ==> r@[2]@ == MsgV::EndPrelude,
{
    let mut out: Vec<VideohubMessage> = Vec::new();
    out.push(VideohubMessage::Preamble(crate::model::Preamble { version: advertised_version() }));
    out.push(VideohubMessage::DeviceInfo(dump_device_info(alive, info, mi)));
    if alive {
        out.push(input_labels_reply(input_labels));
        out.push(output_labels_reply(output_labels));
        out.push(routing_reply(routes));
    }
    out.push(VideohubMessage::EndPrelude);
    out
}

} // verus!
