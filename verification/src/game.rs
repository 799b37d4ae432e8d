//! The state of a running game and the decisions of each frame: what an
//! input event does, where the held keys steer the camera, and which cells
//! are drawn.

use crate::board::{Board, Grid};
use crate::clock::now_ns;
use crate::keyset::KeySet;
use vstd::prelude::*;

verus! {

/// Actions to take from the game loop.
#[derive(Clone, Copy, Debug, PartialEq, Eq, Structural)]
pub enum Action {
    Continue,
    Stop,
}

/// What the window reported, as far as the game state depends on it.
#[derive(Clone, Copy, Debug, PartialEq, Eq, Structural)]
pub enum InputEvent {
    /// The window was closed.
    Closed,
    /// The key with this code went down.
    KeyPressed(u16),
    /// The key with this code came up.
    KeyReleased(u16),
    /// Anything else.
    Other,
}

/// The codes of the four keys that steer the camera.
#[derive(Clone, Copy, Debug, PartialEq, Eq, Structural)]
pub struct DirectionKeys {
    pub right: u16,
    pub left: u16,
    pub up: u16,
    pub down: u16,
}

/// Where the camera is steered: `1`, `-1` or `0` along each axis.
#[derive(Clone, Copy, Debug, PartialEq, Eq, Structural)]
pub struct Direction {
    pub x: i8,
    pub y: i8,
}

/// What one frame's update found.
#[derive(Clone, Copy, Debug, PartialEq, Eq, Structural)]
pub struct FrameStep {
    /// The nanoseconds since the frame before.
    pub elapsed_ns: u64,
    /// Where the held keys steer the camera.
    pub direction: Direction,
}

/// How brightly a cell is drawn.
#[derive(Clone, Copy, Debug, PartialEq, Eq, Structural)]
pub enum Shade {
    /// A cell that is switched on.
    Active,
    /// A cell that is switched on, under the pointer.
    ActiveHover,
    /// A cell that is switched off, under the pointer.
    Hover,
}

impl Shade {
    /// How bright the shade is, in hundredths of full brightness.
    pub open spec fn brightness(self) -> u8 {
        match self {
            Shade::Active => 100,
            Shade::ActiveHover => 70,
            Shade::Hover => 20,
        }
    }

    /// How bright the shade is, in hundredths of full brightness.
    pub fn percent(self) -> (percent: u8)
        ensures
            percent == self.brightness(),
            percent <= 100,
    {
        match self {
            Shade::Active => 100,
            Shade::ActiveHover => 70,
            Shade::Hover => 20,
        }
    }
}

/// A cell to draw.
#[derive(Clone, Copy, Debug, PartialEq, Eq, Structural)]
pub struct Quad {
    pub x: usize,
    pub y: usize,
    pub shade: Shade,
}

/// What a game state holds.
pub struct GameView {
    pub held: Set<u16>,
    pub board: Grid<bool>,
    pub time_last_frame: u64,
}

/// What the game loop does after `event`.
pub open spec fn action_for(event: InputEvent) -> Action {
    match event {
        InputEvent::Closed => Action::Stop,
        _ => Action::Continue,
    }
}

/// The keys that are held after `event`.
pub open spec fn held_after(held: Set<u16>, event: InputEvent) -> Set<u16> {
    match event {
        InputEvent::KeyPressed(key) => held.insert(key),
        InputEvent::KeyReleased(key) => held.remove(key),
        _ => held,
    }
}

/// Where two opposed keys steer: `1` if only `positive` is held, `-1` if only
/// `negative` is held, `0` if both or neither are.
pub open spec fn key_direction(held: Set<u16>, positive: u16, negative: u16) -> i8 {
    if held.contains(positive) && !held.contains(negative) {
        1i8
    } else if !held.contains(positive) && held.contains(negative) {
        -1i8
    } else {
        0i8
    }
}

/// Where the held keys steer the camera.
pub open spec fn camera_direction(held: Set<u16>, keys: DirectionKeys) -> Direction {
    Direction {
        x: key_direction(held, keys.right, keys.left),
        y: key_direction(held, keys.up, keys.down),
    }
}

/// How a cell is drawn, if it is drawn at all.
pub open spec fn shade_of(enabled: bool, hover: bool) -> Option<Shade> {
    if enabled && hover {
        Some(Shade::ActiveHover)
    } else if enabled {
        Some(Shade::Active)
    } else if hover {
        Some(Shade::Hover)
    } else {
        None
    }
}

/// Whether the pointer is over the cell in column `x` and row `y`, going by a
/// grid that says so for each cell it has.
pub open spec fn hovered(hover: Grid<bool>, x: int, y: int) -> bool {
    hover.contains(y, x) && hover.at(y, x)
}

/// What is drawn for the cell in column `x` and row `y`.
pub open spec fn cell_quads(board: Grid<bool>, hover: Grid<bool>, x: int, y: int) -> Seq<Quad> {
    match shade_of(board.at(y, x), hovered(hover, x, y)) {
        Some(shade) => seq![Quad { x: x as usize, y: y as usize, shade }],
        None => Seq::empty(),
    }
}

/// What is drawn for the first `rows` cells of column `x`, top to bottom.
pub open spec fn column_quads(board: Grid<bool>, hover: Grid<bool>, x: int, rows: nat) -> Seq<
    Quad,
>
    decreases rows,
{
    if rows == 0 {
        Seq::empty()
    } else {
        column_quads(board, hover, x, (rows - 1) as nat) + cell_quads(board, hover, x, rows - 1)
    }
}

/// What is drawn for the first `columns` columns, left to right.
pub open spec fn board_quads(board: Grid<bool>, hover: Grid<bool>, columns: nat) -> Seq<Quad>
    decreases columns,
{
    if columns == 0 {
        Seq::empty()
    } else {
        board_quads(board, hover, (columns - 1) as nat) + column_quads(
            board,
            hover,
            columns - 1,
            board.height,
        )
    }
}

/// The cells to draw, column after column and each column from the top.
pub open spec fn draw_list(board: Grid<bool>, hover: Grid<bool>) -> Seq<Quad> {
    board_quads(board, hover, board.width)
}

/// With no key held the camera is steered nowhere, whatever keys steer it.
pub proof fn lemma_no_keys_no_motion(keys: DirectionKeys)
    ensures
        camera_direction(Set::empty(), keys) == (Direction { x: 0, y: 0 }),
{
}

/// The state of a running game.
pub struct GameState {
    held_keys: KeySet,
    board: Board<bool>,
    /// The reading of the clock at the start of the last frame's update.
    time_last_frame: u64,
}

impl View for GameState {
    type V = GameView;

    closed spec fn view(&self) -> GameView {
        GameView {
            held: self.held_keys@,
            board: self.board@,
            time_last_frame: self.time_last_frame,
        }
    }
}

impl GameState {
    /// A game on the test board, with no key held, timed from now.
    pub fn new() -> (state: Self)
        ensures
            state@.held == Set::<u16>::empty(),
            state@.board == (Grid {
                width: 2,
                height: 3,
                cells: seq![true, false, true, false, true, true],
            }),
    {
        GameState {
            held_keys: KeySet::new(),
            board: Board::new_test_board(),
            time_last_frame: now_ns(),
        }
    }

    /// Takes in one input event: a key that goes down is held from now on, a
    /// key that comes up no longer is, and a closed window stops the game.
    pub fn handle_input(&mut self, event: InputEvent) -> (action: Action)
        ensures
            action == action_for(event),
            final(self)@ == (GameView { held: held_after(old(self)@.held, event), ..old(self)@ }),
    {
        match event {
            InputEvent::Closed => {
                return Action::Stop;
            },
            InputEvent::KeyPressed(key) => {
                self.held_keys.insert(key);
            },
            InputEvent::KeyReleased(key) => {
                self.held_keys.remove(key);
            },
            InputEvent::Other => {},
        }
        Action::Continue
    }

    /// Starts a frame at the clock reading `now`: says how long the frame
    /// before took and where the held keys steer the camera.
    pub fn advance(&mut self, now: u64, keys: &DirectionKeys) -> (step: FrameStep)
        requires
            old(self)@.time_last_frame <= now,
        ensures
            step.elapsed_ns == now - old(self)@.time_last_frame,
            step.direction == camera_direction(old(self)@.held, *keys),
            final(self)@ == (GameView { time_last_frame: now, ..old(self)@ }),
    {
        let elapsed_ns: u64 = now - self.time_last_frame;
        self.time_last_frame = now;
        let direction = Direction {
            x: self.get_key_direction(keys.right, keys.left),
            y: self.get_key_direction(keys.up, keys.down),
        };
        FrameStep { elapsed_ns, direction }
    }

    /// Starts a frame at the present reading of the clock. Where the clock has
    /// gone back since the frame before, nothing changes and there is no step.
    pub fn update(&mut self, keys: &DirectionKeys) -> (step: Option<FrameStep>)
        ensures
            exists|now: u64|
                step == #[trigger] frame_step(old(self)@, now, *keys) && final(self)@
                    == after_frame(old(self)@, now),
            old(self)@.time_last_frame == 0 ==> step is Some,
    {
        let now: u64 = now_ns();
        let step: Option<FrameStep> = if now < self.time_last_frame {
            None
        } else {
            Some(self.advance(now, keys))
        };
        assert(step == frame_step(old(self)@, now, *keys) && self@ == after_frame(
            old(self)@,
            now,
        ));
        step
    }

    /// The cells to draw, given for each cell whether the pointer is over it:
    /// column after column, each column from the top, leaving out the cells
    /// that are switched off and not under the pointer. A cell that `hover`
    /// does not reach is not under the pointer.
    pub fn render(&self, hover: &Board<bool>) -> (quads: Vec<Quad>)
        ensures
            quads@ == draw_list(self@.board, hover@),
    {
        let width: usize = self.board.width();
        let height: usize = self.board.height();
        let hover_width: usize = hover.width();
        let hover_height: usize = hover.height();
        let mut quads: Vec<Quad> = Vec::new();
        let mut x: usize = 0;
        while x < width
            invariant
                x <= width,
                width == self@.board.width,
                height == self@.board.height,
                hover@.width == hover_width,
                hover@.height == hover_height,
                quads@ == board_quads(self@.board, hover@, x as nat),
            decreases width - x,
        {
            let ghost before = quads@;
            let mut y: usize = 0;
            while y < height
                invariant
                    x < width,
                    y <= height,
                    width == self@.board.width,
                    height == self@.board.height,
                    hover@.width == hover_width,
                    hover@.height == hover_height,
                    quads@ == before + column_quads(self@.board, hover@, x as int, y as nat),
                decreases height - y,
            {
                let enabled: bool = *self.board.get(y, x);
                let mouse_hover: bool = y < hover_height && x < hover_width && *hover.get(y, x);
                let ghost drawn = quads@;
                if enabled && mouse_hover {
                    quads.push(Quad { x, y, shade: Shade::ActiveHover });
                } else if enabled {
                    quads.push(Quad { x, y, shade: Shade::Active });
                } else if mouse_hover {
                    quads.push(Quad { x, y, shade: Shade::Hover });
                }
                assert(quads@ =~= drawn + cell_quads(self@.board, hover@, x as int, y as int));
                y += 1;
            }
            x += 1;
        }
        quads
    }

    /// The board that is played on.
    pub fn board(&self) -> (board: &Board<bool>)
        ensures
            board@ == self@.board,
    {
        &self.board
    }

    /// Returns whether the key is currently being held down by the user.
    pub fn is_key_held(&self, key: u16) -> (held: bool)
        ensures
            held == self@.held.contains(key),
    {
        self.held_keys.contains(key)
    }

    /// Returns `1` if `positive` is held, `-1` if `negative` is held, and `0` if
    /// both or neither are held.
    pub fn get_key_direction(&self, positive: u16, negative: u16) -> (direction: i8)
        ensures
            direction == key_direction(self@.held, positive, negative),
    {
        let forward: bool = self.is_key_held(positive);
        let backward: bool = self.is_key_held(negative);
        if forward && !backward {
            1
        } else if !forward && backward {
            -1
        } else {
            0
        }
    }
}

/// What a frame finds that starts at the clock reading `now`: how long the
/// frame before took and where the held keys steer the camera, or nothing
/// where the clock has gone back since the frame before.
pub open spec fn frame_step(state: GameView, now: u64, keys: DirectionKeys) -> Option<FrameStep> {
    if state.time_last_frame <= now {
        Some(
            FrameStep {
                elapsed_ns: (now - state.time_last_frame) as u64,
                direction: camera_direction(state.held, keys),
            },
        )
    } else {
        None
    }
}

/// The state after a frame that starts at the clock reading `now`: timed from
/// `now`, or as it was where the clock has gone back.
pub open spec fn after_frame(state: GameView, now: u64) -> GameView {
    if state.time_last_frame <= now {
        GameView { time_last_frame: now, ..state }
    } else {
        state
    }
}

} // verus!
