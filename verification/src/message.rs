//! The text messages that the relay server sends about the room: who joined,
//! who left, the id it gave this client, and the start of the computation.

use vstd::prelude::*;

verus! {

/// What a room message reports.
#[derive(Clone, Copy, Debug, PartialEq, Eq, Structural)]
pub enum SyncType {
    Join,
    Leave,
    GenUuid,
    Start,
}

impl Default for SyncType {
    fn default() -> (r: SyncType)
        ensures
            r == SyncType::Join,
    {
        SyncType::Join
    }
}

/// A room message: what happened, and to which device.
#[derive(Clone, Debug)]
pub struct SyncMsg {
    pub type_: SyncType,
    pub device: String,
}

impl Default for SyncMsg {
    fn default() -> (r: SyncMsg)
        ensures
            r.type_ == SyncType::Join,
            r.device@ == Seq::<char>::empty(),
    {
        SyncMsg { type_: SyncType::Join, device: String::new() }
    }
}

impl PartialEq for SyncMsg {
    fn eq(&self, other: &SyncMsg) -> (r: bool) {
        self.type_ == other.type_ && self.device == other.device
    }
}

impl vstd::std_specs::cmp::PartialEqSpecImpl for SyncMsg {
    open spec fn obeys_eq_spec() -> bool {
        true
    }

    open spec fn eq_spec(&self, other: &SyncMsg) -> bool {
        self.type_ == other.type_ && self.device@ == other.device@
    }
}

} // verus!
