//! The router abstraction's data model: the capability surface every backend
//! fills in, expressed over plain values.
use vstd::prelude::*;

verus! {

use crate::model::{Label, Route};

/// Identity of a router.
#[derive(Clone, Debug, Default, PartialEq, Eq)]
pub struct RouterInfo {
    pub model: Option<Vec<u8>>,
    pub name: Option<Vec<u8>>,
    pub matrix_count: Option<u32>,
}

/// Dimensions of one matrix.
#[derive(Clone, Copy, Debug, Default, PartialEq, Eq)]
pub struct RouterMatrixInfo {
    pub input_count: u32,
    pub output_count: u32,
}

/// One label of a matrix port.
#[derive(Clone, Debug, Default, PartialEq, Eq)]
pub struct RouterLabel {
    pub id: u32,
    pub name: Vec<u8>,
}

/// One patch: `to_output` carries `from_input`.
#[derive(Clone, Copy, Debug, Default, PartialEq, Eq)]
pub struct RouterPatch {
    pub from_input: u32,
    pub to_output: u32,
}

/// Errors a router operation can surface.
#[derive(Clone, Copy, Debug, PartialEq, Eq)]
pub enum RouterError {
    /// A matrix index, label id or patch coordinate outside the dimensions.
    OutOfRange,
    /// The backend does not offer this operation.
    Unsupported,
    /// The peer answered a mutation with a negative acknowledgment.
    Rejected,
    /// The connection to the peer is gone.
    Disconnected,
}

/// An asynchronous notification from a router.
#[derive(Clone, Debug, PartialEq, Eq)]
pub enum RouterEvent {
    Connected,
    Disconnected,
    InfoUpdate(RouterInfo),
    MatrixInfoUpdate(u32, RouterMatrixInfo),
    InputLabelUpdate(u32, Vec<RouterLabel>),
    OutputLabelUpdate(u32, Vec<RouterLabel>),
    RouteUpdate(u32, Vec<RouterPatch>),
}

// ------------------------------------------------------------------
// Views
// ------------------------------------------------------------------
pub struct RouterLabelV {
    pub id: u32,
    pub name: Seq<u8>,
}

impl View for RouterLabel {
    type V = RouterLabelV;

    open spec fn view(&self) -> RouterLabelV {
        RouterLabelV { id: self.id, name: self.name@ }
    }
}

pub open spec fn rlabels_view(v: Seq<RouterLabel>) -> Seq<RouterLabelV> {
    v.map_values(|l: RouterLabel| l@)
}

pub struct RouterInfoV {
    pub model: Option<Seq<u8>>,
    pub name: Option<Seq<u8>>,
    pub matrix_count: Option<u32>,
}

impl View for RouterInfo {
    type V = RouterInfoV;

    open spec fn view(&self) -> RouterInfoV {
        RouterInfoV {
            model: match self.model {
                Some(ref v) => Some(v@),
                None => None,
            },
            name: match self.name {
                Some(ref v) => Some(v@),
                None => None,
            },
            matrix_count: self.matrix_count,
        }
    }
}

// ------------------------------------------------------------------
// Conversions to and from the wire model
// ------------------------------------------------------------------
impl From<Label> for RouterLabel {
    /// A wire label is a router label with the same id and name.
    fn from(item: Label) -> (r: RouterLabel)
        ensures
            r.id == item.id && r.name@ == item.name@,
    {
        RouterLabel { id: item.id, name: item.name }
    }
}

impl vstd::std_specs::convert::FromSpecImpl<Label> for RouterLabel {
    open spec fn obeys_from_spec() -> bool {
        false
    }

    open spec fn from_spec(t: Label) -> RouterLabel {
        RouterLabel { id: t.id, name: t.name }
    }
}

impl From<RouterLabel> for Label {
    /// A router label is a wire label with the same id and name.
    fn from(item: RouterLabel) -> (r: Label)
        ensures
            r.id == item.id && r.name@ == item.name@,
    {
        Label { id: item.id, name: item.name }
    }
}

impl vstd::std_specs::convert::FromSpecImpl<RouterLabel> for Label {
    open spec fn obeys_from_spec() -> bool {
        false
    }

    open spec fn from_spec(t: RouterLabel) -> Label {
        Label { id: t.id, name: t.name }
    }
}

impl From<Route> for RouterPatch {
    /// A wire route is a patch with the same coordinates.
    fn from(item: Route) -> (r: RouterPatch)
        ensures
            r.from_input == item.from_input && r.to_output == item.to_output,
    {
        RouterPatch { from_input: item.from_input, to_output: item.to_output }
    }
}

impl vstd::std_specs::convert::FromSpecImpl<Route> for RouterPatch {
    open spec fn obeys_from_spec() -> bool {
        false
    }

    open spec fn from_spec(t: Route) -> RouterPatch {
        RouterPatch { from_input: t.from_input, to_output: t.to_output }
    }
}

impl From<RouterPatch> for Route {
    /// A patch is a wire route with the same coordinates.
    fn from(item: RouterPatch) -> (r: Route)
        ensures
            r.from_input == item.from_input && r.to_output == item.to_output,
    {
        Route { from_input: item.from_input, to_output: item.to_output }
    }
}

impl vstd::std_specs::convert::FromSpecImpl<RouterPatch> for Route {
    open spec fn obeys_from_spec() -> bool {
        false
    }

    open spec fn from_spec(t: RouterPatch) -> Route {
        Route { from_input: t.from_input, to_output: t.to_output }
    }
}

} // verus!
