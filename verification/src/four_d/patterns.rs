use vstd::prelude::*;
use crate::four_d::models::AtomicAction;

verus! {

/// Number of ON/OFF toggles a blink pattern emits before its duration ends.
pub open spec fn blink_count(interval_ms: u64, duration_ms: u64) -> nat
    recommends
        interval_ms > 0,
{
    ((duration_ms + interval_ms - 1) / (interval_ms as int)) as nat
}

/// The blink pattern: alternating ON/OFF actions every `interval_ms` from offset 0
/// while the offset is below `duration_ms`, then an OFF at `duration_ms` when the
/// last toggle left the relay ON (or no toggle happened).
pub open spec fn blink_spec(relay_id: u8, interval_ms: u64, duration_ms: u64) -> Seq<AtomicAction> {
    let n = blink_count(interval_ms, duration_ms);
    let toggles = Seq::new(
        n,
        |k: int| AtomicAction { relay_id, state: k % 2 == 0, offset_ms: (k * interval_ms) as u64 },
    );
    if n == 0 || n % 2 == 1 {
        toggles.push(AtomicAction { relay_id, state: false, offset_ms: duration_ms })
    } else {
        toggles
    }
}

proof fn lemma_blink_count(i: u64, d: u64, k: nat)
    requires
        i > 0,
    ensures
        (k * i < d) == (k < blink_count(i, d)),
{
    let n = blink_count(i, d);
    assert(n * i >= d && (n - 1) * i < d) by (nonlinear_arith)
        requires
            n == (d + i - 1) / (i as int),
            i > 0,
            d >= 0,
    ;
    if k < n {
        assert(k * i <= (n - 1) * i) by (nonlinear_arith)
            requires
                k <= n - 1,
                i > 0,
        ;
    } else {
        assert(k * i >= n * i) by (nonlinear_arith)
            requires
                k >= n,
                i > 0,
        ;
    }
}

/// Generates a blinking pattern for a relay
pub fn generate_blink(relay_id: u8, interval_ms: u64, duration_ms: u64) -> (actions: Vec<AtomicAction>)
    requires
        interval_ms > 0 || duration_ms == 0,
        interval_ms > 0 ==> blink_count(interval_ms, duration_ms) * interval_ms <= u64::MAX,
    ensures
        interval_ms > 0 ==> actions@ == blink_spec(relay_id, interval_ms, duration_ms),
        interval_ms == 0 ==> actions@ == seq![
            AtomicAction { relay_id, state: false, offset_ms: 0 },
        ],
{
    let mut actions: Vec<AtomicAction> = Vec::new();
    let mut current_offset: u64 = 0;
    let mut state = true;
    let ghost n = if interval_ms > 0 {
        blink_count(interval_ms, duration_ms)
    } else {
        0
    };
    while current_offset < duration_ms
        invariant
            interval_ms > 0 || duration_ms == 0,
            interval_ms > 0 ==> n == blink_count(interval_ms, duration_ms),
            interval_ms > 0 ==> n * interval_ms <= u64::MAX,
            actions@.len() <= n,
            current_offset == actions@.len() * interval_ms,
            state == (actions@.len() % 2 == 0),
            forall|k: int|
                0 <= k < actions@.len() ==> actions@[k] == (AtomicAction {
                    relay_id,
                    state: k % 2 == 0,
                    offset_ms: (k * interval_ms) as u64,
                }),
        decreases n - actions@.len(),
    {
        proof {
            lemma_blink_count(interval_ms, duration_ms, actions@.len());
            assert((actions@.len() + 1) * interval_ms <= n * interval_ms) by (nonlinear_arith)
                requires
                    actions@.len() + 1 <= n,
                    interval_ms > 0,
            ;
            assert(actions@.len() * interval_ms + interval_ms == (actions@.len() + 1) * interval_ms)
                by (nonlinear_arith);
        }
        actions.push(AtomicAction { relay_id, state, offset_ms: current_offset });
        current_offset = current_offset + interval_ms;
        state = !state;
        assert((actions@.len() - 1) * interval_ms + interval_ms == actions@.len() * interval_ms)
            by (nonlinear_arith);
    }
    proof {
        if interval_ms > 0 {
            lemma_blink_count(interval_ms, duration_ms, actions@.len());
        }
    }
    // Close with an OFF when the last toggle switched the relay ON, or when there was
    // no toggle at all.
    if actions.len() == 0 || !state {
        actions.push(AtomicAction { relay_id, state: false, offset_ms: duration_ms });
    }
    proof {
        if interval_ms > 0 {
            let toggles = Seq::new(
                n,
                |k: int|
                    AtomicAction { relay_id, state: k % 2 == 0, offset_ms: (k * interval_ms) as u64 },
            );
            if n == 0 || n % 2 == 1 {
                assert(actions@ =~= toggles.push(
                    AtomicAction { relay_id, state: false, offset_ms: duration_ms },
                ));
            } else {
                assert(actions@ =~= toggles);
            }
        } else {
            assert(actions@ =~= seq![AtomicAction { relay_id, state: false, offset_ms: 0 }]);
        }
    }
    actions
}

/// Generates a constant state (usually ON) for the duration
pub fn generate_constant(relay_id: u8, state: bool, duration_ms: u64) -> (actions: Vec<AtomicAction>)
    ensures
        actions@ == seq![
            AtomicAction { relay_id, state, offset_ms: 0 },
            AtomicAction { relay_id, state: !state, offset_ms: duration_ms },
        ],
{
    let mut actions: Vec<AtomicAction> = Vec::new();
    actions.push(AtomicAction { relay_id, state, offset_ms: 0 });
    actions.push(AtomicAction { relay_id, state: !state, offset_ms: duration_ms });
    assert(actions@ =~= seq![
        AtomicAction { relay_id, state, offset_ms: 0 },
        AtomicAction { relay_id, state: !state, offset_ms: duration_ms },
    ]);
    actions
}

} // verus!
