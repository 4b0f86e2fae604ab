use rand::Rng;
use vstd::prelude::*;

verus! {

/// The keys that the simulation reacts to.
#[derive(Clone, Copy, Debug, PartialEq, Eq)]
pub enum KeyCode {
    Escape,
    /// Adds a circle.
    N,
    /// Removes a circle.
    R,
    Other,
}

/// A window event, as far as the simulation looks at it.
#[derive(Clone, Copy, Debug, PartialEq, Eq)]
pub enum InputEvent {
    CloseRequested,
    Key { key: KeyCode, pressed: bool },
    Other,
}

/// What the main loop does in answer to an event.
#[derive(Clone, Copy, Debug, PartialEq, Eq)]
pub enum Command {
    Close,
    AddCircle,
    RemoveCircle,
    Ignore,
}

/// Closing the window or Escape (pressed or released) closes; a press of N
/// adds a circle; a press of R removes one when there is one; anything else
/// is ignored.
pub open spec fn spec_command_for(event: InputEvent, circle_count: nat) -> Command {
    match event {
        InputEvent::CloseRequested => Command::Close,
        InputEvent::Key { key: KeyCode::Escape, pressed: _ } => Command::Close,
        InputEvent::Key { key: KeyCode::N, pressed: true } => Command::AddCircle,
        InputEvent::Key { key: KeyCode::R, pressed: true } => if circle_count == 0 {
            Command::Ignore
        } else {
            Command::RemoveCircle
        },
        _ => Command::Ignore,
    }
}

/// Whatever number of circles is on screen, a press of N adds one, a press
/// of R removes one exactly when there is at least one (and is ignored on an
/// empty screen), and Escape or closing the window closes; only these
/// presses add or remove circles.
pub proof fn lemma_commands_for_every_count(n: nat)
    ensures
        spec_command_for(InputEvent::Key { key: KeyCode::N, pressed: true }, n) == Command::AddCircle,
        n >= 1 ==> spec_command_for(InputEvent::Key { key: KeyCode::R, pressed: true }, n)
            == Command::RemoveCircle,
        n == 0 ==> spec_command_for(InputEvent::Key { key: KeyCode::R, pressed: true }, n)
            == Command::Ignore,
        spec_command_for(InputEvent::Key { key: KeyCode::Escape, pressed: true }, n) == Command::Close,
        spec_command_for(InputEvent::Key { key: KeyCode::Escape, pressed: false }, n) == Command::Close,
        spec_command_for(InputEvent::CloseRequested, n) == Command::Close,
        forall|e: InputEvent| #[trigger] spec_command_for(e, n) == Command::AddCircle
            ==> e == (InputEvent::Key { key: KeyCode::N, pressed: true }),
        forall|e: InputEvent| #[trigger] spec_command_for(e, n) == Command::RemoveCircle
            ==> e == (InputEvent::Key { key: KeyCode::R, pressed: true }) && n >= 1,
{
}

/// The answer to one event while `circle_count` circles are on screen.
pub fn command_for(event: InputEvent, circle_count: usize) -> (c: Command)
    ensures
        c == spec_command_for(event, circle_count as nat),
        event == InputEvent::CloseRequested ==> c == Command::Close,
        event matches InputEvent::Key { key: KeyCode::Escape, pressed: _ } ==> c == Command::Close,
        event == (InputEvent::Key { key: KeyCode::N, pressed: true }) ==> c == Command::AddCircle,
        event == (InputEvent::Key { key: KeyCode::R, pressed: true }) ==> (c == Command::RemoveCircle
            <==> circle_count > 0),
        event == (InputEvent::Key { key: KeyCode::R, pressed: true }) ==> (c == Command::Ignore
            <==> circle_count == 0),
        c == Command::AddCircle ==> event == (InputEvent::Key { key: KeyCode::N, pressed: true }),
        c == Command::RemoveCircle ==> event == (InputEvent::Key { key: KeyCode::R, pressed: true })
            && circle_count > 0,
{
    match event {
        InputEvent::CloseRequested => Command::Close,
        InputEvent::Key { key, pressed } => match (key, pressed) {
            (KeyCode::Escape, _) => Command::Close,
            (KeyCode::N, true) => Command::AddCircle,
            (KeyCode::R, true) => {
                if circle_count == 0 {
                    Command::Ignore
                } else {
                    Command::RemoveCircle
                }
            },
            _ => Command::Ignore,
        },
        InputEvent::Other => Command::Ignore,
    }
}

/// A uniformly drawn index below `len`, from `rand::thread_rng().gen_range(0, len)`.
/// rand 0.7 documents the result to lie in `[0, len)` and panics when the range is
/// empty; which index comes out is left open.
#[verifier::external_body]
fn random_index(len: usize) -> (i: usize)
    requires
        0 < len,
    ensures
        i < len,
{
    rand::thread_rng().gen_range(0, len)
}

/// Removes one circle, chosen at random, when there is one. Returns the
/// position it was taken from.
pub fn remove_random_circle<T>(circles: &mut Vec<T>) -> (removed: Option<usize>)
    ensures
        old(circles)@.len() == 0 ==> removed is None && final(circles)@ == old(circles)@,
        old(circles)@.len() > 0 ==> (removed matches Some(i) && i < old(circles)@.len()
            && final(circles)@ == old(circles)@.remove(i as int)),
{
    if circles.len() == 0 {
        None
    } else {
        let idx_remove = random_index(circles.len());
        circles.remove(idx_remove);
        Some(idx_remove)
    }
}

} // verus!
