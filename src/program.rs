use vstd::prelude::*;

use crate::pilot::Pilot;

verus! {

/// One step of a program: a pause of some seconds, or a command to the bulb.
#[derive(Clone, Copy, Debug)]
pub enum Action {
    Sleep(u64),
    SetPilot(Pilot),
}

} // verus!
