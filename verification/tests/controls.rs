use game_of_life::display::{DisplayConfig, Mode, Palette};
use game_of_life::game_of_life::GameOfLife;
use game_of_life::option_bar::MenuState;
use game_of_life::sim_state::SimulationState;
use game_of_life::user_input::{apply_command, command_for_key, pointer_to_cell, Command};

fn fresh_context() -> (GameOfLife, SimulationState, DisplayConfig, MenuState) {
    let game = GameOfLife::new(6, 6);
    let state = SimulationState::Paused;
    let config = DisplayConfig {
        show_neighbor_count: false,
        mode: Mode::Normal,
        color_palette: Palette::White,
    };
    (game, state, config, MenuState::Main)
}

#[test]
fn keys_map_to_commands() {
    assert_eq!(command_for_key('p'), Some(Command::TogglePause));
    assert_eq!(command_for_key('P'), Some(Command::TogglePause));
    assert_eq!(command_for_key('r'), Some(Command::Randomize));
    assert_eq!(command_for_key('C'), Some(Command::Clear));
    assert_eq!(command_for_key('q'), Some(Command::Quit));
    assert_eq!(command_for_key('b'), Some(Command::MenuMain));
    assert_eq!(command_for_key('D'), Some(Command::MenuDisplay));
    assert_eq!(command_for_key('s'), Some(Command::ToggleDigits));
    assert_eq!(command_for_key('1'), Some(Command::PaletteWhite));
    assert_eq!(command_for_key('2'), Some(Command::PaletteHeatmap));
    assert_eq!(command_for_key('3'), Some(Command::PaletteTrail));
    assert_eq!(command_for_key('x'), None);
    assert_eq!(command_for_key(' '), None);
}

#[test]
fn pause_toggles_between_paused_and_playing() {
    let (mut game, mut state, mut config, mut menu) = fresh_context();
    apply_command(&mut game, &mut state, &mut config, &mut menu, Command::TogglePause);
    assert_eq!(state, SimulationState::Playing);
    apply_command(&mut game, &mut state, &mut config, &mut menu, Command::TogglePause);
    assert_eq!(state, SimulationState::Paused);
    state = SimulationState::Exiting;
    apply_command(&mut game, &mut state, &mut config, &mut menu, Command::TogglePause);
    assert_eq!(state, SimulationState::Exiting);
}

#[test]
fn quit_marks_the_loop_for_exit() {
    let (mut game, mut state, mut config, mut menu) = fresh_context();
    apply_command(&mut game, &mut state, &mut config, &mut menu, Command::Quit);
    assert_eq!(state, SimulationState::Exiting);
    assert_eq!(menu, MenuState::Main);
}

#[test]
fn board_commands_keep_the_shape() {
    let (mut game, mut state, mut config, mut menu) = fresh_context();
    game.update();
    apply_command(&mut game, &mut state, &mut config, &mut menu, Command::Randomize);
    assert_eq!(game.board().len(), 6);
    assert_eq!(game.board()[0].len(), 6);
    assert_eq!(*game.step(), 0);
    game.update();
    apply_command(&mut game, &mut state, &mut config, &mut menu, Command::Clear);
    assert_eq!(game.board().len(), 6);
    assert_eq!(*game.step(), 1);
    for row in game.board() {
        for cell in row {
            assert!(!cell.alive);
            assert_eq!(cell.neighbors, 0);
            assert_eq!(cell.trail_lifetime, 0);
        }
    }
}

#[test]
fn menu_and_display_commands_flip_the_settings() {
    let (mut game, mut state, mut config, mut menu) = fresh_context();
    apply_command(&mut game, &mut state, &mut config, &mut menu, Command::MenuDisplay);
    assert_eq!(menu, MenuState::Display);
    apply_command(&mut game, &mut state, &mut config, &mut menu, Command::ToggleDigits);
    assert!(config.show_neighbor_count);
    apply_command(&mut game, &mut state, &mut config, &mut menu, Command::PaletteHeatmap);
    assert_eq!(config.color_palette, Palette::Heatmap);
    assert_eq!(config.mode, Mode::Normal);
    assert!(config.show_neighbor_count);
    apply_command(&mut game, &mut state, &mut config, &mut menu, Command::PaletteTrail);
    assert_eq!(config.color_palette, Palette::Heatmap);
    assert_eq!(config.mode, Mode::Trail);
    apply_command(&mut game, &mut state, &mut config, &mut menu, Command::PaletteWhite);
    assert_eq!(config.color_palette, Palette::White);
    assert_eq!(config.mode, Mode::Normal);
    apply_command(&mut game, &mut state, &mut config, &mut menu, Command::MenuMain);
    assert_eq!(menu, MenuState::Main);
    assert_eq!(state, SimulationState::Paused);
}

#[test]
fn pointer_positions_map_onto_cells() {
    // Two terminal columns per cell, positions are one-based.
    assert_eq!(pointer_to_cell(1, 1, 4, 5), Some((0, 0)));
    assert_eq!(pointer_to_cell(2, 1, 4, 5), Some((0, 0)));
    assert_eq!(pointer_to_cell(3, 1, 4, 5), Some((1, 0)));
    assert_eq!(pointer_to_cell(10, 4, 4, 5), Some((4, 3)));
    assert_eq!(pointer_to_cell(0, 1, 4, 5), None);
    assert_eq!(pointer_to_cell(1, 0, 4, 5), None);
    assert_eq!(pointer_to_cell(11, 1, 4, 5), None);
    assert_eq!(pointer_to_cell(1, 5, 4, 5), None);
}

#[test]
fn simulation_state_labels() {
    assert_eq!(SimulationState::Playing.to_string(), "Playing");
    assert_eq!(SimulationState::Paused.to_string(), "Paused");
    assert_eq!(SimulationState::Exiting.to_string(), "Exiting");
}
