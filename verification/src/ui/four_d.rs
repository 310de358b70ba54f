use vstd::prelude::*;
use crate::four_d::engine::{layered_relay_state, layered_state};
use crate::four_d::models::Timeline;

verus! {

/// Whether a relay's indicator is lit at playback time `t_ms`: walking the instances from
/// the topmost down, the first one that is running at `t_ms` and has already switched the
/// relay decides; OFF when none has.
pub fn is_relay_active<A>(timeline: &Timeline<A>, relay_id: u8, t_ms: u64) -> (active: bool)
    ensures
        active == layered_state(timeline.instances@, timeline.templates@, relay_id, t_ms as int),
{
    layered_relay_state(timeline, relay_id, t_ms)
}

} // verus!
