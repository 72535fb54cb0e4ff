//! What holds of the small state machines: the idle lock, the pointer and the
//! delays between attempts.
use crate::backoff::{counted, delay_at};
use crate::modules::idle_inhibitor::{after, effect_of, Effect, Event, State};
use crate::surface::{fades_of, touched, Motion, Touch};
use vstd::prelude::*;

verus! {

/// The lock is asked for only while it is not held, let go only while it is, and
/// held only once it was granted.
pub proof fn law_the_lock_is_what_was_granted(s: State, event: Event)
    ensures
        effect_of(s, event) == Effect::Inhibit <==> event is Toggle && !s.pending && !s.held,
        effect_of(s, event) == Effect::Release <==> event is Toggle && !s.pending && s.held,
        effect_of(s, event) == Effect::Hold <==> event is Engaged,
        after(s, event).held && !s.held ==> event is Engaged,
        event is Engaged ==> after(s, event).held && !after(s, event).pending,
        s.held && !after(s, event).held ==> effect_of(s, event) == Effect::Release,
        effect_of(s, event) == Effect::Release ==> !after(s, event).held,
        effect_of(s, event) == Effect::Inhibit ==> after(s, event).pending,
        event matches Event::Failed(error) ==> after(s, event).error == Some(error) && !after(
            s,
            event,
        ).pending && after(s, event).held == s.held,
        event is Toggle && s.pending ==> after(s, event) == s,
        event is Toggle && !s.pending ==> after(s, event).error is None,
{
}

/// The pointer is inside where the last motion was over it, a button is down only
/// after a press inside, and a fade starts exactly where something turned.
pub proof fn law_fades_follow_the_pointer(t: Touch, motion: Motion)
    ensures
        motion matches Motion::Moved { over } ==> touched(t, motion).inside == over,
        motion is Left ==> !touched(t, motion).inside,
        motion is Pressed || motion is Released ==> touched(t, motion).inside == t.inside,
        motion is Released ==> !touched(t, motion).down,
        motion matches Motion::Pressed { over } ==> (touched(t, motion).down <==> over || t.down),
        !t.down && touched(t, motion).down ==> motion == (Motion::Pressed { over: true }),
        motion matches Motion::Moved { over } ==> (over ==> touched(t, motion).down == t.down),
        t.inside && !touched(t, motion).inside ==> !touched(t, motion).down,
        ({
            let fades = fades_of(t, touched(t, motion));
            &&& fades.hover is Some <==> t.inside != touched(t, motion).inside
            &&& fades.hover matches Some(to) ==> to == touched(t, motion).inside
            &&& fades.press is Some <==> t.down != touched(t, motion).down
            &&& fades.press matches Some(to) ==> to == touched(t, motion).down
        }),
{
}

/// Attempts climb the ladder one by one and stay on its last step; what was
/// healthy starts over from the first.
pub proof fn law_attempts_climb_the_ladder(steps: Seq<u64>, attempt: usize)
    requires
        steps.len() > 0,
    ensures
        delay_at(steps, counted(attempt, true) as int) == steps[0],
        attempt < steps.len() ==> delay_at(steps, counted(attempt, false) as int)
            == steps[attempt as int],
        attempt >= steps.len() ==> delay_at(steps, counted(attempt, false) as int) == steps.last(),
{
}

/// The lock has no popup.
pub proof fn law_the_lock_has_no_popup(s: State)
    ensures
        !s.pops_up(),
{
}

} // verus!
