use vstd::prelude::*;

verus! {

/// Phase of a play session.
#[derive(Clone, Copy, Debug, PartialEq, Eq, Structural)]
pub enum GameState {
    TitleScreen,
    Playing,
    GameOver,
}

/// Where the camera sits relative to the ship.
#[derive(Clone, Copy, Debug, PartialEq, Eq, Structural)]
pub enum CameraMode {
    FirstPerson,
    ThirdPerson,
}

/// Reaction to the Enter key: the title screen starts play, a finished game
/// restarts with a fresh world (`true` asks the caller to rebuild it), and
/// during play the key does nothing.
pub fn on_enter(state: GameState) -> (r: (GameState, bool))
    ensures
        r == match state {
            GameState::TitleScreen => (GameState::Playing, false),
            GameState::GameOver => (GameState::Playing, true),
            GameState::Playing => (GameState::Playing, false),
        },
{
    match state {
        GameState::TitleScreen => (GameState::Playing, false),
        GameState::GameOver => (GameState::Playing, true),
        GameState::Playing => (GameState::Playing, false),
    }
}

/// End-of-frame check: a session in play ends once the energy is used up.
pub fn game_state_update(state: GameState, energy_depleted: bool) -> (r: GameState)
    ensures
        r == if state == GameState::Playing && energy_depleted {
            GameState::GameOver
        } else {
            state
        },
{
    if state == GameState::Playing && energy_depleted {
        GameState::GameOver
    } else {
        state
    }
}

/// Switch between first- and third-person view.
pub fn toggle_camera(mode: CameraMode) -> (r: CameraMode)
    ensures
        r == match mode {
            CameraMode::FirstPerson => CameraMode::ThirdPerson,
            CameraMode::ThirdPerson => CameraMode::FirstPerson,
        },
{
    match mode {
        CameraMode::FirstPerson => CameraMode::ThirdPerson,
        CameraMode::ThirdPerson => CameraMode::FirstPerson,
    }
}

/// Flight keys that can be held.
#[derive(Clone, Copy, Debug, PartialEq, Eq, Hash, Structural)]
pub enum PlayerInput {
    PitchCW,
    PitchCCW,
    YawCW,
    YawCCW,
    RollCW,
    RollCCW,
    IncTrust,
    DecTrust,
}

/// Net command per axis: `+1`, `-1`, or `0` when neither or both opposing
/// keys are held (which lets the axis damp instead of freezing).
#[derive(Clone, Copy, Debug, PartialEq, Eq, Structural)]
pub struct NetInput {
    pub pitch: i32,
    pub yaw: i32,
    pub roll: i32,
    pub thrust: i32,
}

/// `+1` if `plus` is held, `-1` for `minus`, `0` for both or neither.
pub open spec fn axis_value(held: Seq<PlayerInput>, plus: PlayerInput, minus: PlayerInput) -> int {
    (if held.contains(plus) { 1int } else { 0int }) - (if held.contains(minus) { 1int } else { 0int })
}

fn holds(held: &Vec<PlayerInput>, key: PlayerInput) -> (r: bool)
    ensures
        r == held@.contains(key),
{
    let mut i: usize = 0;
    while i < held.len()
        invariant
            i <= held@.len(),
            forall|j: int| 0 <= j < i ==> held@[j] != key,
        decreases held@.len() - i,
    {
        if held[i] == key {
            return true;
        }
        i = i + 1;
    }
    false
}

fn axis(held: &Vec<PlayerInput>, plus: PlayerInput, minus: PlayerInput) -> (r: i32)
    ensures
        r == axis_value(held@, plus, minus),
{
    (if holds(held, plus) { 1 } else { 0 }) - (if holds(held, minus) { 1 } else { 0 })
}

/// Accumulate the held keys into a net command per axis.
pub fn net_input(held: &Vec<PlayerInput>) -> (n: NetInput)
    ensures
        n.pitch == axis_value(held@, PlayerInput::PitchCW, PlayerInput::PitchCCW),
        n.yaw == axis_value(held@, PlayerInput::YawCW, PlayerInput::YawCCW),
        n.roll == axis_value(held@, PlayerInput::RollCW, PlayerInput::RollCCW),
        n.thrust == axis_value(held@, PlayerInput::IncTrust, PlayerInput::DecTrust),
{
    NetInput {
        pitch: axis(held, PlayerInput::PitchCW, PlayerInput::PitchCCW),
        yaw: axis(held, PlayerInput::YawCW, PlayerInput::YawCCW),
        roll: axis(held, PlayerInput::RollCW, PlayerInput::RollCCW),
        thrust: axis(held, PlayerInput::IncTrust, PlayerInput::DecTrust),
    }
}

} // verus!
