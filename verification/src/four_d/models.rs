use vstd::prelude::*;

verus! {

/// Represents the smallest unit of a command to a relay.
#[derive(Debug, Clone, Copy, PartialEq, Eq, Structural)]
pub struct AtomicAction {
    /// The target relay ID (1 to 8)
    pub relay_id: u8,
    /// The state to set the relay to: true = ON, false = OFF
    pub state: bool,
    /// The exact millisecond offset from the start of the effect when this action should occur
    pub offset_ms: u64,
}

pub type Action = AtomicAction;

/// Hardware actuator target category for an effect template.
#[derive(Debug, Clone, Copy, PartialEq, Eq, Hash, Structural)]
pub enum HardwareTarget {
    Water,
    Wind,
    SeatVibration,
    Smoke,
    Auxiliary,
    Any,
}

/// Primary relay of each hardware category.
pub open spec fn primary_relay_spec(t: HardwareTarget) -> Option<u8> {
    match t {
        HardwareTarget::Water => Some(1u8),
        HardwareTarget::Wind => Some(2u8),
        HardwareTarget::SeatVibration => Some(3u8),
        HardwareTarget::Smoke => Some(4u8),
        HardwareTarget::Auxiliary => Some(5u8),
        HardwareTarget::Any => None,
    }
}

/// Relays 5..=8 are auxiliary triggers.
pub open spec fn is_aux_relay(relay_id: u8) -> bool {
    5 <= relay_id <= 8
}

/// Which relays a hardware category may be placed on.
pub open spec fn compatible_spec(t: HardwareTarget, relay_id: u8) -> bool {
    match t {
        HardwareTarget::Water => relay_id == 1 || is_aux_relay(relay_id),
        HardwareTarget::Wind => relay_id == 2 || is_aux_relay(relay_id),
        HardwareTarget::SeatVibration => relay_id == 3 || is_aux_relay(relay_id),
        HardwareTarget::Smoke => relay_id == 4 || is_aux_relay(relay_id),
        HardwareTarget::Auxiliary => is_aux_relay(relay_id),
        HardwareTarget::Any => 1 <= relay_id <= 8,
    }
}

/// Default hardware category of each relay.
pub open spec fn for_relay_spec(relay_id: u8) -> HardwareTarget {
    if relay_id == 1 {
        HardwareTarget::Water
    } else if relay_id == 2 {
        HardwareTarget::Wind
    } else if relay_id == 3 {
        HardwareTarget::SeatVibration
    } else if relay_id == 4 {
        HardwareTarget::Smoke
    } else if is_aux_relay(relay_id) {
        HardwareTarget::Auxiliary
    } else {
        HardwareTarget::Any
    }
}

/// User-facing label of each hardware category.
pub open spec fn display_name_spec(t: HardwareTarget) -> Seq<char> {
    match t {
        HardwareTarget::Water => "Water Valve"@,
        HardwareTarget::Wind => "Wind Fan"@,
        HardwareTarget::SeatVibration => "Seat Vibration"@,
        HardwareTarget::Smoke => "Smoke Machine"@,
        HardwareTarget::Auxiliary => "Aux Relay"@,
        HardwareTarget::Any => "General Cue"@,
    }
}

impl HardwareTarget {
    /// Returns the primary default hardware relay ID (1-based).
    pub fn primary_relay_id(&self) -> (r: Option<u8>)
        ensures
            r == primary_relay_spec(*self),
    {
        match self {
            HardwareTarget::Water => Some(1),
            HardwareTarget::Wind => Some(2),
            HardwareTarget::SeatVibration => Some(3),
            HardwareTarget::Smoke => Some(4),
            HardwareTarget::Auxiliary => Some(5),
            HardwareTarget::Any => None,
        }
    }

    /// Checks if a physical relay ID (1-based) is compatible with this target.
    pub fn is_compatible_with_relay(&self, relay_id: u8) -> (r: bool)
        ensures
            r == compatible_spec(*self, relay_id),
    {
        let aux = 5 <= relay_id && relay_id <= 8;
        match self {
            HardwareTarget::Water => relay_id == 1 || aux,
            HardwareTarget::Wind => relay_id == 2 || aux,
            HardwareTarget::SeatVibration => relay_id == 3 || aux,
            HardwareTarget::Smoke => relay_id == 4 || aux,
            HardwareTarget::Auxiliary => aux,
            HardwareTarget::Any => 1 <= relay_id && relay_id <= 8,
        }
    }

    /// Infers the default HardwareTarget for a given relay ID.
    pub fn for_relay(relay_id: u8) -> (t: HardwareTarget)
        ensures
            t == for_relay_spec(relay_id),
    {
        match relay_id {
            1 => HardwareTarget::Water,
            2 => HardwareTarget::Wind,
            3 => HardwareTarget::SeatVibration,
            4 => HardwareTarget::Smoke,
            5..=8 => HardwareTarget::Auxiliary,
            _ => HardwareTarget::Any,
        }
    }

    /// User-friendly label for badges and tooltips.
    pub fn display_name(&self) -> (name: &'static str)
        ensures
            name@ == display_name_spec(*self),
    {
        match self {
            HardwareTarget::Water => "Water Valve",
            HardwareTarget::Wind => "Wind Fan",
            HardwareTarget::SeatVibration => "Seat Vibration",
            HardwareTarget::Smoke => "Smoke Machine",
            HardwareTarget::Auxiliary => "Aux Relay",
            HardwareTarget::Any => "General Cue",
        }
    }
}

/// The hardware category given to effects that name none.
pub fn default_hardware_target() -> (t: HardwareTarget)
    ensures
        t == HardwareTarget::Any,
{
    HardwareTarget::Any
}

/// Draws a fresh random (version 4) UUID with `uuid::Uuid::new_v4` and hands back its
/// 128-bit value (`Uuid::as_u128`). Nothing is stated of the value: it is random.
#[verifier::external_body]
pub(crate) fn new_uuid() -> u128 {
    uuid::Uuid::new_v4().as_u128()
}

/// A reusable template or macro defining a sequence of actions.
#[derive(Debug, Clone, PartialEq, Eq)]
pub struct Effect {
    /// Unique identifier for this effect template (the 128-bit value of a UUID)
    pub id: u128,
    /// Human-readable name (e.g., "Water Splash")
    pub name: String,
    /// Path or identifier for the UI icon
    pub icon: String,
    /// Total duration of the effect in milliseconds
    pub duration_ms: u64,
    /// Hardware actuator target type for track compatibility
    pub target: HardwareTarget,
    /// List of actions that make up this effect
    pub actions: Vec<AtomicAction>,
}

impl Effect {
    /// A new template with a fresh random id, targeting any relay.
    pub fn new(name: String, icon: String, duration_ms: u64, actions: Vec<AtomicAction>) -> (e: Self)
        ensures
            e.name == name,
            e.icon == icon,
            e.duration_ms == duration_ms,
            e.target == HardwareTarget::Any,
            e.actions == actions,
    {
        Effect::with_id(new_uuid(), name, icon, duration_ms, HardwareTarget::Any, actions)
    }

    /// A new template with the given id and hardware target.
    pub fn with_id(
        id: u128,
        name: String,
        icon: String,
        duration_ms: u64,
        target: HardwareTarget,
        actions: Vec<AtomicAction>,
    ) -> (e: Self)
        ensures
            e.id == id,
            e.name == name,
            e.icon == icon,
            e.duration_ms == duration_ms,
            e.target == target,
            e.actions == actions,
    {
        Effect { id, name, icon, duration_ms, target, actions }
    }

    /// A new template with a fresh random id and the given hardware target.
    pub fn with_target(
        name: String,
        icon: String,
        duration_ms: u64,
        target: HardwareTarget,
        actions: Vec<AtomicAction>,
    ) -> (e: Self)
        ensures
            e.name == name,
            e.icon == icon,
            e.duration_ms == duration_ms,
            e.target == target,
            e.actions == actions,
    {
        Effect::with_id(new_uuid(), name, icon, duration_ms, target, actions)
    }

    /// A field-by-field copy of this template that carries the given id.
    pub fn copy_with_id(&self, id: u128) -> (e: Self)
        ensures
            e.id == id,
            e.name == self.name,
            e.icon == self.icon,
            e.duration_ms == self.duration_ms,
            e.target == self.target,
            e.actions@ == self.actions@,
    {
        let mut actions: Vec<AtomicAction> = Vec::new();
        let mut i: usize = 0;
        while i < self.actions.len()
            invariant
                i <= self.actions.len(),
                actions@ == self.actions@.take(i as int),
            decreases self.actions.len() - i,
        {
            actions.push(self.actions[i]);
            i = i + 1;
            assert(actions@ =~= self.actions@.take(i as int));
        }
        assert(self.actions@.take(i as int) =~= self.actions@);
        Effect {
            id,
            name: self.name.clone(),
            icon: self.icon.clone(),
            duration_ms: self.duration_ms,
            target: self.target,
            actions,
        }
    }
}

/// A specific placement of an Effect on the main timeline.
#[derive(Debug, Clone, Copy, PartialEq, Eq, Structural)]
pub struct EffectInstance {
    /// Unique identifier for this instance on the timeline (the 128-bit value of a UUID)
    pub id: u128,
    /// Reference to the template Effect
    pub effect_id: u128,
    /// The start time in milliseconds relative to the start of the video
    pub start_time_ms: u64,
}

impl EffectInstance {
    /// A new placement with a fresh random id.
    pub fn new(effect_id: u128, start_time_ms: u64) -> (i: Self)
        ensures
            i.effect_id == effect_id,
            i.start_time_ms == start_time_ms,
    {
        EffectInstance::with_id(new_uuid(), effect_id, start_time_ms)
    }

    /// A new placement with the given id.
    pub fn with_id(id: u128, effect_id: u128, start_time_ms: u64) -> (i: Self)
        ensures
            i.id == id,
            i.effect_id == effect_id,
            i.start_time_ms == start_time_ms,
    {
        EffectInstance { id, effect_id, start_time_ms }
    }
}

/// The entire sequence of effects programmed for a video. `A` is the type of the
/// continuous analog curve tracks that travel with it.
#[derive(Debug, Clone)]
pub struct Timeline<A> {
    /// The specific instances placed on the timeline
    pub instances: Vec<EffectInstance>,
    /// Available effect templates in this project
    pub templates: Vec<Effect>,
    /// Continuous analog curve tracks (e.g. PWM fan curves, rumblers)
    pub analog_tracks: Vec<A>,
}

impl<A> Timeline<A> {
    /// An empty relay timeline carrying the given analog tracks.
    pub fn new(analog_tracks: Vec<A>) -> (t: Self)
        ensures
            t.instances@.len() == 0,
            t.templates@.len() == 0,
            t.analog_tracks == analog_tracks,
    {
        Timeline { instances: Vec::new(), templates: Vec::new(), analog_tracks }
    }
}

/// Position of the first template with the given id.
pub open spec fn template_index(ts: Seq<Effect>, id: u128) -> Option<int>
    decreases ts.len(),
{
    if ts.len() == 0 {
        None
    } else if ts[0].id == id {
        Some(0)
    } else {
        match template_index(ts.drop_first(), id) {
            Some(i) => Some(i + 1),
            None => None,
        }
    }
}

pub proof fn lemma_template_index(ts: Seq<Effect>, id: u128)
    ensures
        match template_index(ts, id) {
            Some(i) => 0 <= i < ts.len() && ts[i].id == id && forall|j: int|
                0 <= j < i ==> ts[j].id != id,
            None => forall|j: int| 0 <= j < ts.len() ==> ts[j].id != id,
        },
    decreases ts.len(),
{
    if ts.len() > 0 && ts[0].id != id {
        lemma_template_index(ts.drop_first(), id);
        assert forall|j: int| 1 <= j < ts.len() implies ts[j] == ts.drop_first()[j - 1] by {}
    }
}

/// Finds the position of the first template with the given id.
pub fn find_template_index(templates: &Vec<Effect>, id: u128) -> (r: Option<usize>)
    ensures
        match r {
            Some(i) => template_index(templates@, id) == Some(i as int),
            None => template_index(templates@, id) is None,
        },
{
    let mut k: usize = 0;
    assert(templates@.skip(0) =~= templates@);
    while k < templates.len()
        invariant
            k <= templates.len(),
            forall|j: int| 0 <= j < k ==> templates@[j].id != id,
        decreases templates.len() - k,
    {
        if templates[k].id == id {
            proof {
                lemma_template_index(templates@, id);
                match template_index(templates@, id) {
                    Some(i) => {
                        assert(!(i < k as int));
                        assert(!(i > k as int));
                    },
                    None => {},
                }
            }
            return Some(k);
        }
        k = k + 1;
    }
    proof {
        lemma_template_index(templates@, id);
        match template_index(templates@, id) {
            Some(i) => {
                assert(templates@[i].id != id);
            },
            None => {},
        }
    }
    None
}

} // verus!
