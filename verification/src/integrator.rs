//! The course of one light path: when a ray is cast, and what ends the path.
//!
//! The colours are the caller's business. The caller casts the rays and says what each of
//! them met; the functions here say what to do next. A path gathers light backwards from
//! the eye: each surface that it meets adds what the surface gives off, dimmed by all the
//! surfaces before it, and the path ends with the light of whatever stops it.

use vstd::prelude::*;

verus! {

/// What a cast ray met.
#[derive(Clone, Copy, Debug, PartialEq, Eq, Structural)]
pub enum Event {
    /// Nothing.
    Miss,
    /// A surface that sends no ray on.
    Absorbed,
    /// A surface that sends a ray on.
    Scattered,
}

/// The light with which a path ends.
#[derive(Clone, Copy, Debug, PartialEq, Eq, Structural)]
pub enum Light {
    /// None: the path was cut off.
    Black,
    /// That of the background.
    Background,
    /// What the last surface gives off, and no more.
    Emission,
}

/// What to do next on a path.
#[derive(Clone, Copy, Debug, PartialEq, Eq, Structural)]
pub enum Step {
    /// Cast a ray; `depth` rays may still be cast on this path, this one included.
    Cast { depth: u32 },
    /// The path has ended.
    Done(Light),
}

/// The step with which a path of at most `depth` rays goes on: it ends in black when no ray
/// is left, and casts one otherwise.
pub open spec fn step_at(depth: u32) -> Step {
    if depth == 0 {
        Step::Done(Light::Black)
    } else {
        Step::Cast { depth }
    }
}

/// The step after a ray was cast with `depth` rays left and met `event`.
///
/// A miss ends the path with the background. A surface that sends no ray on ends it with
/// what the surface gives off. A surface that sends a ray on adds what it gives off, and
/// the path goes on along that ray with one ray less.
pub open spec fn step_after(depth: u32, event: Event) -> Step {
    if depth == 0 {
        Step::Done(Light::Black)
    } else {
        match event {
            Event::Miss => Step::Done(Light::Background),
            Event::Absorbed => Step::Done(Light::Emission),
            Event::Scattered => step_at((depth - 1) as u32),
        }
    }
}

/// How many rays are cast on a path of at most `depth` rays, when the ray cast as the
/// `k`-th of the path meets `events(k)`; `from` is the number of rays cast so far.
pub open spec fn rays_cast(depth: u32, events: spec_fn(nat) -> Event, from: nat) -> nat
    decreases depth,
{
    match step_at(depth) {
        Step::Done(_) => 0,
        Step::Cast { depth: left } => match step_after(left, events(from)) {
            Step::Done(_) => 1,
            Step::Cast { depth: next } => 1 + rays_cast(next, events, from + 1),
        },
    }
}

/// The first step of a path of at most `max_depth` rays, see [`step_at`].
pub fn first_step(max_depth: u32) -> (step: Step)
    ensures
        step == step_at(max_depth),
{
    if max_depth == 0 {
        Step::Done(Light::Black)
    } else {
        Step::Cast { depth: max_depth }
    }
}

/// The step after a ray was cast with `depth` rays left and met `event`, see
/// [`step_after`].
pub fn next_step(depth: u32, event: Event) -> (step: Step)
    ensures
        step == step_after(depth, event),
        step matches Step::Cast { depth: left } ==> left < depth,
{
    if depth == 0 {
        Step::Done(Light::Black)
    } else {
        match event {
            Event::Miss => Step::Done(Light::Background),
            Event::Absorbed => Step::Done(Light::Emission),
            Event::Scattered => first_step(depth - 1),
        }
    }
}

/// A path of at most `depth` rays casts at most `depth` rays, whatever they meet; with no
/// ray allowed it casts none, and it casts just one where the first ray misses or is
/// absorbed.
pub proof fn lemma_path_is_bounded(depth: u32, events: spec_fn(nat) -> Event, from: nat)
    ensures
        rays_cast(depth, events, from) <= depth,
        depth == 0 ==> rays_cast(depth, events, from) == 0,
        depth > 0 && events(from) != Event::Scattered ==> rays_cast(depth, events, from) == 1,
    decreases depth,
{
    if depth > 0 {
        if let Step::Cast { depth: next } = step_after(depth, events(from)) {
            lemma_path_is_bounded(next, events, from + 1);
        }
    }
}

} // verus!
