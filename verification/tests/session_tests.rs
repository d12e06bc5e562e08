use roxlap_game_demo::session::{
    game_state_update, net_input, on_enter, toggle_camera, CameraMode, GameState, NetInput,
    PlayerInput,
};

#[test]
fn enter_starts_and_restarts() {
    assert_eq!(on_enter(GameState::TitleScreen), (GameState::Playing, false));
    assert_eq!(on_enter(GameState::GameOver), (GameState::Playing, true));
    assert_eq!(on_enter(GameState::Playing), (GameState::Playing, false));
}

#[test]
fn game_over_when_energy_runs_out() {
    assert_eq!(game_state_update(GameState::Playing, true), GameState::GameOver);
    assert_eq!(game_state_update(GameState::Playing, false), GameState::Playing);
    assert_eq!(game_state_update(GameState::TitleScreen, true), GameState::TitleScreen);
    assert_eq!(game_state_update(GameState::GameOver, false), GameState::GameOver);
}

#[test]
fn camera_toggles() {
    assert_eq!(toggle_camera(CameraMode::FirstPerson), CameraMode::ThirdPerson);
    assert_eq!(toggle_camera(CameraMode::ThirdPerson), CameraMode::FirstPerson);
}

#[test]
fn opposite_keys_cancel() {
    let held = vec![
        PlayerInput::PitchCW,
        PlayerInput::PitchCCW,
        PlayerInput::YawCCW,
        PlayerInput::IncTrust,
    ];
    assert_eq!(
        net_input(&held),
        NetInput {
            pitch: 0,
            yaw: -1,
            roll: 0,
            thrust: 1
        }
    );
    assert_eq!(
        net_input(&vec![]),
        NetInput {
            pitch: 0,
            yaw: 0,
            roll: 0,
            thrust: 0
        }
    );
    assert_eq!(net_input(&vec![PlayerInput::RollCW, PlayerInput::RollCW]).roll, 1);
}
