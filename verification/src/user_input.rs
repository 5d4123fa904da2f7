//! The decisions behind user input: which command a key stands for, how a
//! pointer press maps onto a cell, and what each command does to the game,
//! the run state, the display configuration, and the menu. Reading the
//! terminal events themselves is the driving loop's concern.

use vstd::prelude::*;

use crate::display::{DisplayConfig, Mode, Palette};
use crate::game_of_life::{GameOfLife, PIXEL_WIDTH};
use crate::grid::{Cell, TRAIL_LIFETIME_MAX};
use crate::option_bar::MenuState;
use crate::sim_state::SimulationState;

verus! {

/// Everything a key press or menu choice can ask of the engine and the
/// surrounding state.
#[derive(Clone, Copy, Debug, PartialEq, Eq, Structural)]
pub enum Command {
    TogglePause,
    Randomize,
    Clear,
    Quit,
    MenuMain,
    MenuDisplay,
    ToggleDigits,
    PaletteWhite,
    PaletteHeatmap,
    PaletteTrail,
}

/// The command a character key stands for, if any.
pub fn command_for_key(key: char) -> (r: Option<Command>)
    ensures
        r == (match key {
            'p' | 'P' => Some(Command::TogglePause),
            'r' | 'R' => Some(Command::Randomize),
            'c' | 'C' => Some(Command::Clear),
            'q' | 'Q' => Some(Command::Quit),
            'b' | 'B' => Some(Command::MenuMain),
            'd' | 'D' => Some(Command::MenuDisplay),
            's' | 'S' => Some(Command::ToggleDigits),
            '1' => Some(Command::PaletteWhite),
            '2' => Some(Command::PaletteHeatmap),
            '3' => Some(Command::PaletteTrail),
            _ => None::<Command>,
        }),
{
    match key {
        'p' | 'P' => Some(Command::TogglePause),
        'r' | 'R' => Some(Command::Randomize),
        'c' | 'C' => Some(Command::Clear),
        'q' | 'Q' => Some(Command::Quit),
        'b' | 'B' => Some(Command::MenuMain),
        'd' | 'D' => Some(Command::MenuDisplay),
        's' | 'S' => Some(Command::ToggleDigits),
        '1' => Some(Command::PaletteWhite),
        '2' => Some(Command::PaletteHeatmap),
        '3' => Some(Command::PaletteTrail),
        _ => None,
    }
}

/// Maps a one-based terminal pointer position onto the cell it covers, with
/// each cell spanning `PIXEL_WIDTH` terminal columns. Presses outside the
/// board, or at the impossible position 0, map to no cell; a returned cell
/// always lies within the given shape, so it can be handed straight to the
/// board's bounds-checked mutation.
pub fn pointer_to_cell(x: u16, y: u16, rows: usize, columns: usize) -> (r: Option<(usize, usize)>)
    requires
        columns * (PIXEL_WIDTH as int) <= usize::MAX,
    ensures
        match r {
            Some(cell) => {
                &&& 1 <= x && 1 <= y
                &&& y as int <= rows
                &&& x as int <= columns * (PIXEL_WIDTH as int)
                &&& cell.0 as int == (x - 1) as int / (PIXEL_WIDTH as int)
                &&& cell.1 as int == y - 1
                &&& cell.0 < columns
                &&& cell.1 < rows
            },
            None => x == 0 || y == 0 || y as int > rows || x as int > columns * (
            PIXEL_WIDTH as int),
        },
{
    if x == 0 || y == 0 {
        return None;
    }
    if y as usize > rows || x as usize > columns * (PIXEL_WIDTH as usize) {
        return None;
    }
    let cx = (x as usize - 1) / (PIXEL_WIDTH as usize);
    let cy = y as usize - 1;
    Some((cx, cy))
}

/// Applies one command: stepping state toggles between paused and playing,
/// board commands repopulate or clear the board in place (randomizing keeps
/// the shape and resets the generation counter), menu and display commands
/// flip the matching settings, and quitting marks the loop for exit. Exactly
/// the state a command names changes; everything else is left alone.
pub fn apply_command(
    game: &mut GameOfLife,
    state: &mut SimulationState,
    config: &mut DisplayConfig,
    menu_state: &mut MenuState,
    command: Command,
)
    requires
        old(game).wf(),
    ensures
        final(game).wf(),
        final(game).spec_rows() == old(game).spec_rows(),
        final(game).spec_columns() == old(game).spec_columns(),
        command == Command::TogglePause ==> *final(state) == (match *old(state) {
            SimulationState::Paused => SimulationState::Playing,
            SimulationState::Playing => SimulationState::Paused,
            SimulationState::Exiting => SimulationState::Exiting,
        }) && final(game).grid() == old(game).grid() && final(game).generation() == old(
            game,
        ).generation(),
        command == Command::Quit ==> *final(state) == SimulationState::Exiting && final(game).grid()
            == old(game).grid() && final(game).generation() == old(game).generation(),
        command == Command::Randomize ==> final(game).generation() == 0 && forall|x: int, y: int|
            0 <= x < old(game).spec_columns() && 0 <= y < old(game).spec_rows() ==> (
            #[trigger] final(game).grid()[y][x]).trail_lifetime == (if final(game).grid()[y][x].alive {
                TRAIL_LIFETIME_MAX
            } else {
                0
            }),
        command == Command::Clear ==> final(game).generation() == old(game).generation() && forall|
            x: int,
            y: int,
        |
            0 <= x < old(game).spec_columns() && 0 <= y < old(game).spec_rows()
                ==> #[trigger] final(game).grid()[y][x] == (Cell {
                alive: false,
                neighbors: 0,
                trail_lifetime: 0,
            }),
        command == Command::MenuMain ==> *final(menu_state) == MenuState::Main,
        command == Command::MenuDisplay ==> *final(menu_state) == MenuState::Display,
        command == Command::ToggleDigits ==> *final(config) == (DisplayConfig {
            show_neighbor_count: !old(config).show_neighbor_count,
            ..*old(config)
        }),
        command == Command::PaletteWhite ==> *final(config) == (DisplayConfig {
            show_neighbor_count: old(config).show_neighbor_count,
            mode: Mode::Normal,
            color_palette: Palette::White,
        }),
        command == Command::PaletteHeatmap ==> *final(config) == (DisplayConfig {
            show_neighbor_count: old(config).show_neighbor_count,
            mode: Mode::Normal,
            color_palette: Palette::Heatmap,
        }),
        command == Command::PaletteTrail ==> *final(config) == (DisplayConfig {
            show_neighbor_count: old(config).show_neighbor_count,
            mode: Mode::Trail,
            color_palette: Palette::Heatmap,
        }),
        !(command == Command::TogglePause || command == Command::Quit) ==> *final(state) == *old(
            state,
        ),
        !(command == Command::MenuMain || command == Command::MenuDisplay) ==> *final(menu_state)
            == *old(menu_state),
        !(command == Command::ToggleDigits || command == Command::PaletteWhite || command
            == Command::PaletteHeatmap || command == Command::PaletteTrail) ==> *final(config)
            == *old(config),
        !(command == Command::Randomize || command == Command::Clear) ==> final(game).grid() == old(
            game,
        ).grid() && final(game).generation() == old(game).generation(),
{
    match command {
        Command::TogglePause => {
            match state {
                SimulationState::Paused => {
                    *state = SimulationState::Playing;
                },
                SimulationState::Playing => {
                    *state = SimulationState::Paused;
                },
                SimulationState::Exiting => {},
            }
        },
        Command::Randomize => {
            let rows = game.rows();
            let columns = game.columns();
            game.create_random_board(rows, columns, 2, 5);
        },
        Command::Clear => {
            game.clear_board();
        },
        Command::Quit => {
            *state = SimulationState::Exiting;
        },
        Command::MenuMain => {
            *menu_state = MenuState::Main;
        },
        Command::MenuDisplay => {
            *menu_state = MenuState::Display;
        },
        Command::ToggleDigits => {
            config.show_neighbor_count = !config.show_neighbor_count;
        },
        Command::PaletteWhite => {
            config.color_palette = Palette::White;
            config.mode = Mode::Normal;
        },
        Command::PaletteHeatmap => {
            config.color_palette = Palette::Heatmap;
            config.mode = Mode::Normal;
        },
        Command::PaletteTrail => {
            config.color_palette = Palette::Heatmap;
            config.mode = Mode::Trail;
        },
    }
}

} // verus!
