//! The game: menus, the falling and lockdown of the active piece, locking,
//! line clears, scoring and levels, holding a piece, and game over.
//!
//! Times are counted in microseconds.
use vstd::prelude::*;

use crate::controls::{Control, Key};
use crate::menus::{main_menu_entries, paused_menu_entries, Menu, MenuState, PausedState};
use crate::playfield::{
    cleared_cells, collides, complete_rows, down, lemma_cleared_has_no_complete_rows,
    lemma_empty_has_no_complete_rows, lemma_lock_completes_at_most_four, lemma_no_new_complete_rows,
    locks_kept_from, within, Playfield, PlayfieldView, SlotState, TranslationDirection,
};
use crate::rustomino::{
    deal, lemma_moved_cells, shift, iv, IVec2, Rotation, Rustomino, RustominoBag, RustominoState, RustominoType,
};
use crate::util::variants_equal;

verus! {

// GAMEPLAY CONSTANTS
const STARTING_LEVEL: usize = 20;

// number of lines that need to be cleared before level advances
const LINES_PER_LEVEL: usize = 10;

// how long to wait before locking block, in microseconds (Tetris Guideline)
const LOCKDOWN_DELAY: u64 = 500000;

// maximum number of times the lockdown timer can be reset (Tetris Guideline)
const LOCKDOWN_MAX_RESETS: u32 = 15;

// SCORING CONSTANTS
const SINGLE_LINE_SCORE: usize = 100;

const TRIPLE_LINE_SCORE: usize = 500;

const DOUBLE_LINE_SCORE: usize = 300;

const RUSTRIS_SCORE: usize = 800;

/// The screens and phases of the game.
#[derive(Debug, PartialEq, Eq, Clone, Copy, Structural)]
pub enum GameState {
    Menu,
    Playing,
    Paused,
    GameOver,
    Options,
    Quit,
}

/// What a frame asks of the program around the game.
#[derive(Debug, PartialEq, Eq, Clone, Copy, Structural)]
pub enum UpdateAction {
    Nothing,
    PlayGameOverSound,
    Quit,
}

/// The points of clearing `num_lines` lines at once, before the level factor.
pub open spec fn line_score(num_lines: int) -> int {
    if num_lines == 1 {
        100
    } else if num_lines == 2 {
        300
    } else if num_lines == 3 {
        500
    } else if num_lines == 4 {
        800
    } else {
        0
    }
}

/// All four cells are above the visible playfield.
pub open spec fn above_playfield(cs: [IVec2; 4]) -> bool {
    cs[0].y >= 20 && cs[1].y >= 20 && cs[2].y >= 20 && cs[3].y >= 20
}

/// The piece is as dealt: at its spawn position, facing north, falling for no time.
pub open spec fn fresh(r: Rustomino) -> bool {
    r == Rustomino::spec_new(r.rtype)
}

/// The abstract game.
pub struct GameView {
    pub playfield: PlayfieldView,
    pub next: Option<Rustomino>,
    pub held: Option<Rustomino>,
    pub previous_state: GameState,
    pub state: GameState,
    pub level: usize,
    pub score: usize,
    pub menu_selected: nat,
    pub paused_selected: nat,
    pub bag: Seq<RustominoType>,
    pub total_lines_cleared: usize,
    pub hold_used: bool,
    pub lockdown_resets: u32,
}

impl GameView {
    /// The playfield is well-formed, and its slots agree with its pieces
    /// unless the game is over (a piece hard-dropped above the playfield ends
    /// the game with its slots already emptied); the next and held pieces are
    /// as dealt, the options screen is never shown, and the menu selections
    /// are entries.
    pub open spec fn wf_parts(self) -> bool {
        &&& self.wf_core()
        &&& (self.state != GameState::GameOver ==> self.playfield.consistent())
    }

    /// As `wf_parts`, short of the agreement of the slots with the pieces.
    pub open spec fn wf_core(self) -> bool {
        &&& self.playfield.wf()
        &&& (self.next matches Some(n) ==> fresh(n))
        &&& (self.held matches Some(h) ==> fresh(h))
        &&& self.state != GameState::Options
        &&& self.menu_selected < 3
        &&& self.paused_selected < 4
    }

    /// As `wf_parts`, and no row of the playfield is complete.
    pub open spec fn wf(self) -> bool {
        &&& self.wf_parts()
        &&& complete_rows(self.playfield.cells).len() == 0
    }

    /// Locking a piece cannot overflow the score, the line count, the level or
    /// the lockdown reset count.
    pub open spec fn has_room(self) -> bool {
        &&& self.score + 800 * self.level <= usize::MAX
        &&& self.total_lines_cleared + 4 <= usize::MAX
        &&& self.level < usize::MAX
        &&& self.lockdown_resets < u32::MAX
    }

    /// The game as it starts: the main menu, an empty playfield and bag, level 20.
    pub open spec fn initial() -> GameView {
        GameView {
            playfield: PlayfieldView {
                cells: Seq::new(220, |i: int| SlotState::Empty),
                active: None,
                ghost_piece: None,
            },
            next: None,
            held: None,
            previous_state: GameState::Menu,
            state: GameState::Menu,
            level: 20,
            score: 0,
            menu_selected: 0,
            paused_selected: 0,
            bag: Seq::empty(),
            total_lines_cleared: 0,
            hold_used: false,
            lockdown_resets: 0,
        }
    }

    /// A new game: as the game starts, keeping the previous state and the
    /// menu selections.
    pub open spec fn restarted(self) -> GameView {
        GameView {
            previous_state: self.previous_state,
            menu_selected: self.menu_selected,
            paused_selected: self.paused_selected,
            ..GameView::initial()
        }
    }

    pub open spec fn in_state(self, s: GameState) -> GameView {
        GameView { state: s, ..self }
    }

    pub open spec fn on_playfield(self, p: PlayfieldView) -> GameView {
        GameView { playfield: p, ..self }
    }

    /// The active piece put in lockdown; a piece that was in lockdown before
    /// counts a lockdown reset.
    pub open spec fn lockdown_set(self) -> GameView {
        GameView {
            lockdown_resets: if self.lockdown_resets > 0 {
                (self.lockdown_resets + 1) as u32
            } else {
                self.lockdown_resets
            },
            playfield: self.playfield.with_state(RustominoState::Lockdown { time: 0 }),
            ..self
        }
    }

    /// After a move or turn: a falling piece that can no longer fall, once
    /// lockdown has been reset before, goes back to lockdown and counts a
    /// reset; a piece in lockdown counts a reset and falls again if it can,
    /// else restarts its lockdown.
    pub open spec fn resets_bumped(self) -> GameView {
        match self.playfield.active {
            None => self,
            Some(a) => match a.state {
                RustominoState::Falling { .. } => if !self.playfield.can_fall() && self.lockdown_resets
                    > 0 {
                    GameView {
                        playfield: self.playfield.with_state(RustominoState::Lockdown { time: 0 }),
                        lockdown_resets: (self.lockdown_resets + 1) as u32,
                        ..self
                    }
                } else {
                    self
                },
                RustominoState::Lockdown { .. } => GameView {
                    lockdown_resets: (self.lockdown_resets + 1) as u32,
                    playfield: if self.playfield.can_fall() {
                        self.playfield.with_state(RustominoState::Falling { time: 0 })
                    } else {
                        self.playfield.with_state(RustominoState::Lockdown { time: 0 })
                    },
                    ..self
                },
            },
        }
    }

    /// The complete rows cleared and scored: `level` times the points of the
    /// number of lines; the level rises by one for every multiple of ten that
    /// the line count passes.
    pub open spec fn lines_handled(self) -> GameView {
        let n = complete_rows(self.playfield.cells).len();
        if n == 0 {
            self
        } else {
            let total = self.total_lines_cleared + n;
            GameView {
                playfield: (PlayfieldView {
                    cells: cleared_cells(self.playfield.cells),
                    ..self.playfield
                }).refresh_ghost(false),
                score: (self.score + self.level * line_score(n as int)) as usize,
                total_lines_cleared: total as usize,
                level: (self.level + (total / 10 - self.total_lines_cleared / 10)) as usize,
                ..self
            }
        }
    }

    /// The active piece locked: the game is over if the piece lies wholly above
    /// the visible playfield; otherwise it locks, the hold is available again,
    /// the lockdown resets are cleared, and complete rows are cleared and scored.
    pub open spec fn locked_in(self) -> GameView {
        match self.playfield.active {
            None => self,
            Some(a) => if above_playfield(a.cells()) {
                self.in_state(GameState::GameOver)
            } else {
                GameView {
                    hold_used: false,
                    playfield: self.playfield.locked(),
                    lockdown_resets: 0,
                    ..self
                }.lines_handled()
            },
        }
    }

    /// A one-slot move of the active piece, if it fits.
    pub open spec fn moved(self, direction: TranslationDirection) -> GameView {
        if self.playfield.can_move(direction.delta()) {
            self.on_playfield(self.playfield.shifted(direction.delta())).resets_bumped()
        } else {
            self
        }
    }

    /// A quarter turn of the active piece, if it fits with some wall kick.
    pub open spec fn turned(self, rotation: Rotation) -> GameView {
        if self.playfield.kick(rotation) is Some {
            self.on_playfield(self.playfield.turned(rotation)).resets_bumped()
        } else {
            self
        }
    }

    /// A soft drop: one row down if it fits, else lockdown (a soft drop never
    /// locks the piece).
    pub open spec fn soft_dropped(self) -> GameView {
        if self.playfield.can_move(iv(0, -1i32)) {
            self.on_playfield(self.playfield.shifted(iv(0, -1i32)))
        } else if self.playfield.active.unwrap().state is Lockdown {
            self
        } else {
            self.lockdown_set()
        }
    }

    /// A hard drop: the piece dropped as far as it goes and locked.
    pub open spec fn hard_dropped(self) -> GameView {
        self.on_playfield(self.playfield.dropped()).locked_in()
    }

    /// One frame of play lasting `delta` with the given gravity delay: a falling
    /// piece falls a row once its time reaches the delay, or goes into lockdown
    /// when it cannot; a piece in lockdown locks once its time reaches the
    /// lockdown delay, or at once after the maximum number of resets, when it
    /// cannot fall; otherwise the piece's time grows by `delta`.
    pub open spec fn gravity_tick(self, delta: u64, gravity_delay: u64) -> GameView {
        match self.playfield.active {
            None => self,
            Some(a) => match a.state {
                RustominoState::Falling { time } => if time + delta >= gravity_delay {
                    if self.playfield.can_fall() {
                        self.on_playfield(
                            self.playfield.fallen().with_state(RustominoState::Falling { time: 0 }),
                        )
                    } else {
                        self.lockdown_set()
                    }
                } else {
                    self.on_playfield(
                        self.playfield.with_state(
                            RustominoState::Falling { time: time.saturating_add(delta) },
                        ),
                    )
                },
                RustominoState::Lockdown { time } => if self.lockdown_resets >= 15
                    && !self.playfield.can_fall() {
                    self.on_playfield(
                        self.playfield.with_state(
                            RustominoState::Lockdown { time: time.saturating_add(delta) },
                        ),
                    ).locked_in()
                } else if time + delta >= 500000 && !self.playfield.can_fall() {
                    self.locked_in()
                } else {
                    self.on_playfield(
                        self.playfield.with_state(
                            RustominoState::Lockdown { time: time.saturating_add(delta) },
                        ),
                    )
                },
            },
        }
    }

    /// The selected entry of the main menu chosen: start, nothing, or quit;
    /// the selection goes back to the top.
    pub open spec fn menu_chosen(self) -> GameView {
        let chosen = if self.menu_selected == 0 {
            self.in_state(GameState::Playing)
        } else if self.menu_selected == 2 {
            self.in_state(GameState::Quit)
        } else {
            self
        };
        GameView { menu_selected: 0, ..chosen }
    }

    /// The selected entry of the pause menu chosen: resume, nothing, a new
    /// game, or quit; the selection goes back to the top.
    pub open spec fn paused_chosen(self) -> GameView {
        let chosen = if self.paused_selected == 0 {
            self.in_state(GameState::Playing)
        } else if self.paused_selected == 2 {
            self.restarted()
        } else if self.paused_selected == 3 {
            self.in_state(GameState::Quit)
        } else {
            self
        };
        GameView { paused_selected: 0, ..chosen }
    }

    /// A key pressed (`repeated` when the press is the keyboard's repeat).
    pub open spec fn key_pressed(self, key: Option<Key>, repeated: bool) -> GameView {
        match self.state {
            GameState::Menu => if repeated {
                self
            } else {
                match key {
                    Some(Key::Return) => self.menu_chosen(),
                    Some(Key::Escape) => self.in_state(GameState::Quit),
                    Some(Key::Up) => GameView {
                        menu_selected: if self.menu_selected == 0 {
                            2
                        } else {
                            (self.menu_selected - 1) as nat
                        },
                        ..self
                    },
                    Some(Key::Down) => GameView {
                        menu_selected: ((self.menu_selected + 1) % 3) as nat,
                        ..self
                    },
                    _ => self,
                }
            },
            GameState::Playing => if key == Some(Key::Escape) {
                self.in_state(GameState::Paused)
            } else {
                self
            },
            GameState::Paused => match key {
                Some(Key::Escape) => if repeated {
                    self
                } else {
                    GameView { paused_selected: 0, state: GameState::Playing, ..self }
                },
                Some(Key::Return) => self.paused_chosen(),
                Some(Key::NumpadEnter) => if repeated {
                    self
                } else {
                    self.paused_chosen()
                },
                Some(Key::Up) => if repeated {
                    self
                } else {
                    GameView {
                        paused_selected: if self.paused_selected == 0 {
                            3
                        } else {
                            (self.paused_selected - 1) as nat
                        },
                        ..self
                    }
                },
                Some(Key::Down) => if repeated {
                    self
                } else {
                    GameView { paused_selected: ((self.paused_selected + 1) % 4) as nat, ..self }
                },
                _ => self,
            },
            GameState::GameOver => self.restarted(),
            _ => self,
        }
    }

    /// The window gained or lost the focus: losing it pauses a game in play.
    pub open spec fn focus_changed(self, gained: bool) -> GameView {
        if !gained && self.state == GameState::Playing {
            self.in_state(GameState::Paused)
        } else {
            self
        }
    }
}

/// `after` is `before` once `piece` is taken as the next piece to play: the
/// pending next piece when there is one, else a piece dealt from the bag; a
/// piece dealt from the bag becomes the next one. Nothing else changes.
pub open spec fn next_dealt(before: GameView, piece: Rustomino, after: GameView) -> bool {
    &&& after == GameView { next: after.next, bag: after.bag, ..before }
    &&& after.next is Some
    &&& fresh(after.next.unwrap())
    &&& fresh(piece)
    &&& match before.next {
        Some(p) => piece == p && deal(before.bag, after.bag, after.next.unwrap().rtype),
        None => exists|mid: Seq<RustominoType>|
            deal(before.bag, mid, piece.rtype) && deal(mid, after.bag, after.next.unwrap().rtype),
    }
}

/// `after` is `before` with the playfield readied: when it has no active
/// piece, the next piece is placed on it, and the game is over (and `ok`
/// false) when that piece collides.
pub open spec fn readied(before: GameView, ok: bool, after: GameView) -> bool {
    if before.playfield.active is Some {
        ok && after == before
    } else {
        exists|piece: Rustomino, mid: GameView|
            {
                &&& next_dealt(before, piece, mid)
                &&& ok == !collides(before.playfield.cells, piece.cells())
                &&& after == GameView {
                    playfield: mid.playfield.placed(piece),
                    state: if ok {
                        mid.state
                    } else {
                        GameState::GameOver
                    },
                    ..mid
                }
            }
    }
}

/// The state that a hold which places `piece` leaves, from the state `mid`
/// in which `piece` was taken out of hold or dealt.
pub open spec fn held_result(before: GameView, piece: Rustomino, mid: GameView) -> GameView {
    GameView {
        playfield: mid.playfield.taken().placed(piece),
        held: match before.playfield.active {
            None => None,
            Some(a) => Some(Rustomino::spec_new(a.rtype)),
        },
        state: if collides(mid.playfield.taken().cells, piece.cells()) {
            GameState::GameOver
        } else {
            mid.state
        },
        hold_used: true,
        ..mid
    }
}

/// `after` is `before` after the hold action: unless it was used since the
/// last lock, the held piece (or else the next piece) is placed on the
/// playfield, a fresh piece of the active piece's type is held, the game is
/// over when the placed piece collides, and the hold is used up.
pub open spec fn held_after(before: GameView, after: GameView) -> bool {
    if before.hold_used {
        after == before
    } else {
        exists|piece: Rustomino, mid: GameView|
            #![trigger held_result(before, piece, mid)]
            {
                &&& match before.held {
                    Some(h) => piece == h && mid == GameView { held: None, ..before },
                    None => next_dealt(before, piece, mid),
                }
                &&& after == held_result(before, piece, mid)
            }
    }
}

/// Unfolds `held_after` at the piece and the state that the hold took.
proof fn lemma_held_after_intro(before: GameView, piece: Rustomino, mid: GameView, after: GameView)
    requires
        !before.hold_used,
        match before.held {
            Some(h) => piece == h && mid == (GameView { held: None, ..before }),
            None => next_dealt(before, piece, mid),
        },
        after == held_result(before, piece, mid),
    ensures
        held_after(before, after),
{
}

/// `after` is `before` after a control is used.
pub open spec fn control_applied(before: GameView, control: Control, after: GameView) -> bool {
    match control {
        Control::Left => after == before.moved(TranslationDirection::Left),
        Control::Right => after == before.moved(TranslationDirection::Right),
        Control::RotateCW => after == before.turned(Rotation::Cw),
        Control::RotateCCW => after == before.turned(Rotation::Ccw),
        Control::SoftDrop => after == before.soft_dropped(),
        Control::HardDrop => after == before.hard_dropped(),
        Control::Hold => held_after(before, after),
    }
}

/// `after` is `before` after one frame of `delta` with the given gravity
/// delay, and `action` is what the frame asks of the program around it.
pub open spec fn ticked(
    before: GameView,
    delta: u64,
    gravity_delay: u64,
    action: UpdateAction,
    after: GameView,
) -> bool {
    match before.state {
        GameState::Playing => {
            &&& action == UpdateAction::Nothing
            &&& exists|ok: bool, mid: GameView|
                {
                    &&& readied(before, ok, mid)
                    &&& after == ({
                        let g = if ok {
                            mid.gravity_tick(delta, gravity_delay)
                        } else {
                            mid
                        };
                        GameView { previous_state: GameState::Playing, ..g }
                    })
                }
        },
        GameState::GameOver => {
            &&& action == if before.previous_state != GameState::GameOver {
                UpdateAction::PlayGameOverSound
            } else {
                UpdateAction::Nothing
            }
            &&& after == GameView { previous_state: GameState::GameOver, ..before }
        },
        GameState::Quit => {
            &&& action == UpdateAction::Quit
            &&& after == GameView { previous_state: GameState::Quit, ..before }
        },
        _ => {
            &&& action == UpdateAction::Nothing
            &&& after == GameView { previous_state: before.state, ..before }
        },
    }
}

/// The points for clearing `num_lines` lines at once at level `level`.
pub fn score_cleared_lines(num_lines: usize, level: usize) -> (r: usize)
    requires
        1 <= num_lines <= 4,
        level * 800 <= usize::MAX,
    ensures
        r == level * line_score(num_lines as int),
{
    // Single line 100xlevel
    // Double line 300xlevel
    // Triple line 500xlevel
    // Rustris (4 lines) 800xlevel
    let points = if num_lines == 1 {
        SINGLE_LINE_SCORE
    } else if num_lines == 2 {
        DOUBLE_LINE_SCORE
    } else if num_lines == 3 {
        TRIPLE_LINE_SCORE
    } else {
        RUSTRIS_SCORE
    };
    assert(level * points <= level * 800) by (nonlinear_arith)
        requires
            points <= 800,
    ;
    level * points
}

// checks to see if ALL of the slots in the provided
// slots array are above the playfield
fn fully_out_of_bounds(slots: &[IVec2; 4]) -> (r: bool)
    ensures
        r == above_playfield(*slots),
{
    let mut i: usize = 0;
    while i < 4
        invariant
            i <= 4,
            forall|j: int| 0 <= j < i ==> #[trigger] slots[j].y >= 20,
        decreases 4 - i,
    {
        if slots[i].y < 20 {
            return false;
        }
        i = i + 1;
    }
    true
}

/// The game's state.
pub struct RustrisState {
    pub playfield: Playfield,
    pub next_rustomino: Option<Rustomino>,
    pub held_rustomino: Option<Rustomino>,
    pub previous_state: GameState,
    pub state: GameState,
    pub level: usize,
    pub score: usize,
    menu_state: MenuState,
    paused_state: PausedState,
    rustomino_bag: RustominoBag,
    total_lines_cleared: usize,
    hold_used: bool,
    lockdown_resets: u32,
}

impl View for RustrisState {
    type V = GameView;

    closed spec fn view(&self) -> GameView {
        GameView {
            playfield: self.playfield@,
            next: self.next_rustomino,
            held: self.held_rustomino,
            previous_state: self.previous_state,
            state: self.state,
            level: self.level,
            score: self.score,
            menu_selected: self.menu_state.selection(),
            paused_selected: self.paused_state.selection(),
            bag: self.rustomino_bag.contents(),
            total_lines_cleared: self.total_lines_cleared,
            hold_used: self.hold_used,
            lockdown_resets: self.lockdown_resets,
        }
    }
}

impl RustrisState {
    /// The menus hold their entries, the bag holds no type twice, and the
    /// abstract game satisfies `wf_parts`.
    pub closed spec fn parts_wf(&self) -> bool {
        &&& self.core_wf()
        &&& (self@.state != GameState::GameOver ==> self@.playfield.consistent())
    }

    /// As `parts_wf`, short of the agreement of the slots with the pieces.
    pub closed spec fn core_wf(&self) -> bool {
        &&& self@.wf_core()
        &&& self.rustomino_bag.wf()
        &&& self.menu_state.entries() == main_menu_entries()
        &&& self.menu_state.menu_wf()
        &&& self.paused_state.entries() == paused_menu_entries()
        &&& self.paused_state.menu_wf()
    }

    /// As `parts_wf`, and no row of the playfield is complete.
    pub open spec fn wf(&self) -> bool {
        self.parts_wf() && self@.wf()
    }

    /// A new game at the main menu; the bag's shuffles draw from a generator
    /// seeded with `seed`.
    pub fn new(seed: u64) -> (r: Self)
        ensures
            r.wf(),
            r@ == GameView::initial(),
    {
        let playfield = Playfield::new();
        let s = RustrisState {
            playfield,
            next_rustomino: None,
            held_rustomino: None,
            previous_state: GameState::Menu,
            state: GameState::Menu,  // Start the game at the menu screen
            level: STARTING_LEVEL,
            menu_state: MenuState::new(),
            paused_state: PausedState::new(),
            score: 0,
            rustomino_bag: RustominoBag::new(seed),
            total_lines_cleared: 0,
            hold_used: false,
            lockdown_resets: 0,
        };
        proof {
            lemma_empty_has_no_complete_rows();
        }
        s
    }

    /// The main menu.
    pub fn menu_state(&self) -> (r: &MenuState)
        ensures
            r.selection() == self@.menu_selected,
            self.wf() ==> r.entries() == main_menu_entries(),
    {
        &self.menu_state
    }

    /// The pause menu.
    pub fn paused_state(&self) -> (r: &PausedState)
        ensures
            r.selection() == self@.paused_selected,
            self.wf() ==> r.entries() == paused_menu_entries(),
    {
        &self.paused_state
    }

    /// The number of lines cleared in this game.
    pub fn total_lines_cleared(&self) -> (r: usize)
        ensures
            r == self@.total_lines_cleared,
    {
        self.total_lines_cleared
    }

    /// Whether the hold was used since the last lock.
    pub fn hold_used(&self) -> (r: bool)
        ensures
            r == self@.hold_used,
    {
        self.hold_used
    }

    /// The number of lockdown resets of the active piece.
    pub fn lockdown_resets(&self) -> (r: u32)
        ensures
            r == self@.lockdown_resets,
    {
        self.lockdown_resets
    }

    /// Whether locking a piece could not overflow the score, the line count,
    /// the level or the lockdown reset count.
    pub fn has_room(&self) -> (r: bool)
        ensures
            r == self@.has_room(),
    {
        if self.level > usize::MAX / 800 {
            proof {
                assert(self.level * 800 > usize::MAX) by (nonlinear_arith)
                    requires
                        self.level > usize::MAX / 800,
                ;
            }
            return false;
        }
        proof {
            assert(800 * self.level <= usize::MAX) by (nonlinear_arith)
                requires
                    self.level <= usize::MAX / 800,
            ;
        }
        let cap = 800 * self.level;
        self.score <= usize::MAX - cap && self.total_lines_cleared <= usize::MAX - 4
            && self.lockdown_resets < u32::MAX
    }

    fn playing_update(&mut self, delta_time: u64, gravity_delay: u64)
        requires
            old(self).wf(),
            old(self)@.has_room(),
        ensures
            final(self).wf(),
            final(self)@ == old(self)@.gravity_tick(delta_time, gravity_delay),
    {
        let current_state = match self.playfield.get_active_state() {
            Some(s) => s,
            None => {
                return;
            },
        };
        match current_state {
            RustominoState::Falling { time } if time.saturating_add(delta_time) >= gravity_delay => {
                // check to see if the block can still fall
                if self.playfield.active_can_fall() {
                    proof {
                        self.playfield@.lemma_fallen_keeps_locks();
                        lemma_no_new_complete_rows(
                            self.playfield@.cells,
                            self.playfield@.fallen().cells,
                        );
                    }
                    // apply gravity if it can
                    self.playfield.apply_gravity();
                    // reset the accumulated time
                    self.playfield.set_active_state(RustominoState::Falling { time: 0 });
                } else {
                    // if the block can't fall, set it's state to lockdown
                    self.set_lockdown();
                }
            },
            RustominoState::Falling { time } => {
                self.playfield.set_active_state(
                    RustominoState::Falling { time: time.saturating_add(delta_time) },
                );
            },
            RustominoState::Lockdown { time } if self.lockdown_resets >= LOCKDOWN_MAX_RESETS
                && !self.playfield.active_can_fall() => {
                // accumulate lockdown time
                self.playfield.set_active_state(
                    RustominoState::Lockdown { time: time.saturating_add(delta_time) },
                );

                // if the user has exceeded the maximum number of resets
                // lock the block
                self.lock();
            },
            RustominoState::Lockdown { time } if time.saturating_add(delta_time) >= LOCKDOWN_DELAY
                && !self.playfield.active_can_fall() => {
                // if the current lockdown time has exceed the maximum
                // lock the block
                self.lock();
            },
            RustominoState::Lockdown { time } => {
                // accumulate lockdown time
                self.playfield.set_active_state(
                    RustominoState::Lockdown { time: time.saturating_add(delta_time) },
                );
            },
        }
    }

    fn set_lockdown(&mut self)
        requires
            old(self).wf(),
            old(self)@.lockdown_resets < u32::MAX,
        ensures
            final(self).wf(),
            final(self)@ == old(self)@.lockdown_set(),
    {
        // check if this block has been in Lockdown state before
        if self.lockdown_resets > 0 {
            // hitting the deck again causes a lockdown reset
            self.lockdown_resets = self.lockdown_resets + 1;
        }
        self.playfield.set_active_state(RustominoState::Lockdown { time: 0 });
    }

    fn get_next_rustomino(&mut self) -> (r: Rustomino)
        requires
            old(self).wf(),
        ensures
            final(self).wf(),
            next_dealt(old(self)@, r, final(self)@),
    {
        // get the current next_rustomino
        // by replacing it's value with one from the bag
        let drawn = self.rustomino_bag.get_rustomino();
        let next_rustomino = self.next_rustomino;
        self.next_rustomino = Some(drawn);
        // check there was a rustomino
        match next_rustomino {
            // return it if there was
            Some(rustomino) => rustomino,
            None => {
                let ghost mid = self.rustomino_bag.contents();
                // take the next rustomino
                let drawn_again = self.rustomino_bag.get_rustomino();
                let rustomino = drawn;
                self.next_rustomino = Some(drawn_again);
                assert(deal(old(self)@.bag, mid, rustomino.rtype));
                rustomino
            },
        }
    }

    fn ready_playfield(&mut self) -> (r: bool)
        requires
            old(self).wf(),
        ensures
            final(self).wf(),
            readied(old(self)@, r, final(self)@),
    {
        // check to see if the playfield is ready for the next rustomino
        if !self.playfield.ready_for_next() {
            return true;
        }

        // get the next rustomino
        let active_rustomino = self.get_next_rustomino();
        let ghost mid = self@;
        proof {
            lemma_fresh_within(active_rustomino.rtype);
            self.playfield@.lemma_placed_keeps_locks(active_rustomino);
            lemma_no_new_complete_rows(
                self.playfield@.cells,
                self.playfield@.placed(active_rustomino).cells,
            );
        }

        // add the next rustomino to the playfield
        if !self.playfield.set_active(active_rustomino) {
            // game over if it can't be placed without a collision
            self.game_over();
            return false;
        }

        true
    }

    fn translate(&mut self, direction: TranslationDirection)
        requires
            old(self).wf(),
            old(self)@.has_room(),
        ensures
            final(self).wf(),
            final(self)@ == old(self)@.moved(direction),
    {
        proof {
            if self@.playfield.can_move(direction.delta()) {
                self@.playfield.lemma_shifted_keeps_locks(direction.delta());
                lemma_no_new_complete_rows(
                    self@.playfield.cells,
                    self@.playfield.shifted(direction.delta()).cells,
                );
            }
        }
        if self.playfield.translate_active(direction) {
            self.increment_lockdown_resets();
        }
    }

    fn rotate(&mut self, rotation: Rotation)
        requires
            old(self).wf(),
            old(self)@.has_room(),
        ensures
            final(self).wf(),
            final(self)@ == old(self)@.turned(rotation),
    {
        proof {
            if self@.playfield.kick(rotation) is Some {
                self@.playfield.lemma_turned_keeps_locks(rotation);
                lemma_no_new_complete_rows(
                    self@.playfield.cells,
                    self@.playfield.turned(rotation).cells,
                );
            }
        }
        if self.playfield.rotate_active(rotation) {
            self.increment_lockdown_resets();
        }
    }

    // performs a soft drop
    fn soft_drop(&mut self)
        requires
            old(self).wf(),
            old(self)@.has_room(),
            old(self)@.playfield.active is Some,
        ensures
            final(self).wf(),
            final(self)@ == old(self)@.soft_dropped(),
    {
        proof {
            if self@.playfield.can_move(iv(0, -1i32)) {
                self@.playfield.lemma_shifted_keeps_locks(iv(0, -1i32));
                lemma_no_new_complete_rows(
                    self@.playfield.cells,
                    self@.playfield.shifted(iv(0, -1i32)).cells,
                );
            }
        }
        // attempt to translate the block down
        if !self.playfield.translate_active(TranslationDirection::Down) {
            // per the teris guide we shouldn't lock a block with soft drop
            let state = match self.playfield.get_active_state() {
                Some(s) => s,
                None => {
                    return;
                },
            };
            // check if the block state is already in lockdown
            if !variants_equal(&state, &RustominoState::Lockdown { time: 0 }) {
                self.set_lockdown();
            }
            // else do nothing

        }
    }

    fn hard_drop(&mut self)
        requires
            old(self).wf(),
            old(self)@.has_room(),
        ensures
            final(self).wf(),
            final(self)@ == old(self)@.hard_dropped(),
    {
        proof {
            self@.playfield.lemma_dropped_keeps_locks();
            lemma_no_new_complete_rows(self@.playfield.cells, self@.playfield.dropped().cells);
        }
        self.playfield.hard_drop_active();
        self.lock();
    }

    // Hold action. Hold a rustomino for later use.
    // If a rustomino has not yet been held, the active rustomino is held,
    // and the next rustomino is added to the playfield
    // If a rustomino is already held, this rustomino is added to the playfield,
    // and the active rustomino is held
    // The player can't use the hold action again until the active rustomino is locked
    #[verifier::spinoff_prover]
    #[verifier::rlimit(40)]
    fn hold(&mut self)
        requires
            old(self).wf(),
        ensures
            final(self).wf(),
            held_after(old(self)@, final(self)@),
    {
        // check to see if the player has used the hold action
        // and they haven't yet locked the previous block they took from hold
        if self.hold_used {
            return;
        }

        // check to see if there is a held rustomino
        let next_rustomino = match self.held_rustomino {
            Some(rustomino) => {
                self.held_rustomino = None;
                rustomino
            },  // use the held rustomino
            None => self.get_next_rustomino(),  // use the next rustomino
        };
        let ghost mid = self@;
        proof {
            self.playfield@.lemma_taken_keeps_locks();
            lemma_no_new_complete_rows(self.playfield@.cells, self.playfield@.taken().cells);
            lemma_fresh_within(next_rustomino.rtype);
            self.playfield@.taken().lemma_placed_keeps_locks(next_rustomino);
            lemma_no_new_complete_rows(
                self.playfield@.taken().cells,
                self.playfield@.taken().placed(next_rustomino).cells,
            );
        }

        // take active_rustomino and make it the hold_rustomino
        self.held_rustomino = self.playfield.take_active();

        // trigger game over in the unusual circumstance
        // a collision with a locked block occurs
        // when the next rustomino is added to the board
        if !self.playfield.set_active(next_rustomino.reset()) {
            self.game_over();
        }

        // prevent the player from taking the hold action again
        // until the next rustomino is locked
        self.hold_used = true;
        proof {
            lemma_held_after_intro(old(self)@, next_rustomino, mid, self@);
        }
    }

    fn pause(&mut self)
        requires
            old(self).wf(),
            old(self)@.state != GameState::GameOver,
        ensures
            final(self).wf(),
            final(self)@ == old(self)@.in_state(GameState::Paused),
    {
        self.state = GameState::Paused;
    }

    fn resume(&mut self)
        requires
            old(self).wf(),
            old(self)@.state != GameState::GameOver,
        ensures
            final(self).wf(),
            final(self)@ == old(self)@.in_state(GameState::Playing),
    {
        self.state = GameState::Playing;
    }

    fn game_over(&mut self)
        requires
            old(self).core_wf(),
        ensures
            final(self).parts_wf(),
            final(self)@ == old(self)@.in_state(GameState::GameOver),
    {
        self.state = GameState::GameOver;
    }

    fn new_game(&mut self)
        requires
            old(self).wf(),
        ensures
            final(self).wf(),
            final(self)@ == old(self)@.restarted(),
    {
        self.playfield = Playfield::new();
        self.next_rustomino = None;
        self.held_rustomino = None;
        self.state = GameState::Menu;  // Start the game at the menu screen
        self.level = STARTING_LEVEL;
        self.score = 0;
        self.rustomino_bag.clear();
        self.total_lines_cleared = 0;
        self.hold_used = false;
        self.lockdown_resets = 0;
        proof {
            lemma_empty_has_no_complete_rows();
        }
    }

    fn increase_game_level(&mut self)
        requires
            old(self).level < usize::MAX,
        ensures
            final(self)@ == (GameView { level: (old(self)@.level + 1) as usize, ..old(self)@ }),
            final(self).parts_wf() == old(self).parts_wf(),
    {
        self.level = self.level + 1;
    }

    fn lock(&mut self)
        requires
            old(self).core_wf(),
            complete_rows(old(self)@.playfield.cells).len() == 0,
            old(self)@.state != GameState::GameOver ==> old(self)@.playfield.locked().consistent(),
            old(self)@.has_room(),
        ensures
            final(self).wf(),
            final(self)@ == old(self)@.locked_in(),
    {
        let rustomino = match self.playfield.active_rustomino() {
            Some(r) => r,
            None => {
                return;
            },
        };

        // if the block we've been asked to lock is fully
        // out of bounds the game is over
        if fully_out_of_bounds(&rustomino.playfield_slots()) {
            self.game_over();
            return;
        }

        proof {
            lemma_lock_completes_at_most_four(
                self.playfield@.cells,
                rustomino.cells(),
                rustomino.rtype,
            );
        }
        self.hold_used = false;
        self.playfield.lock_active();

        self.lockdown_resets = 0;
        self.handle_completed_lines();
    }

    // increment the number of lockdown resets
    // and reset the lockdown time to 0
    fn increment_lockdown_resets(&mut self)
        requires
            old(self).wf(),
            old(self)@.lockdown_resets < u32::MAX,
        ensures
            final(self).wf(),
            final(self)@ == old(self)@.resets_bumped(),
    {
        let active_state = match self.playfield.get_active_state() {
            Some(s) => s,
            None => {
                return;
            },
        };
        // this is handled differently depending on the active rustomino's state
        match active_state {
            RustominoState::Falling { time: _ } if !self.playfield.active_can_fall()
                && self.lockdown_resets > 0 => {
                // set the state back to lockdown
                self.playfield.set_active_state(RustominoState::Lockdown { time: 0 });
                self.lockdown_resets = self.lockdown_resets + 1;
            },
            RustominoState::Lockdown { time: _ } => {
                self.lockdown_resets = self.lockdown_resets + 1;
                // if the block can fall again it needs to continue falling
                if self.playfield.active_can_fall() {
                    // if so set the state back to falling
                    self.playfield.set_active_state(RustominoState::Falling { time: 0 });
                } else {
                    self.playfield.set_active_state(RustominoState::Lockdown { time: 0 });
                }
            },
            _ => {},
        }
    }

    fn handle_completed_lines(&mut self)
        requires
            old(self).parts_wf(),
            old(self)@.playfield.active is None,
            complete_rows(old(self)@.playfield.cells).len() <= 4,
            old(self)@.has_room(),
        ensures
            final(self).wf(),
            final(self)@ == old(self)@.lines_handled(),
    {
        proof {
            lemma_cleared_has_no_complete_rows(self@.playfield.cells);
            let v = PlayfieldView { cells: cleared_cells(self@.playfield.cells), ..self@.playfield };
            assert(v.wf());
            v.lemma_refresh_ghost(false);
            lemma_no_new_complete_rows(v.cells, v.refresh_ghost(false).cells);
        }
        let cleared_lines = self.playfield.clear_completed_lines();
        if cleared_lines.len() == 0 {
            return;
        }
        let num_lines_cleared = cleared_lines.len();
        let old_total = self.total_lines_cleared;
        assert(num_lines_cleared == complete_rows(old(self)@.playfield.cells).len());

        // score the completed lines and append it to the total score
        let score = score_cleared_lines(num_lines_cleared, self.level);
        self.score = self.score + score;

        // track the total number of lines cleared
        self.total_lines_cleared = self.total_lines_cleared + num_lines_cleared;

        // increase the game level every LINES_PER_LEVEL
        assert(self.total_lines_cleared / 10 - old_total / 10 <= 1);
        if self.total_lines_cleared / LINES_PER_LEVEL > old_total / LINES_PER_LEVEL {
            self.increase_game_level();
        }
    }

    fn translate_left(&mut self)
        requires
            old(self).wf(),
            old(self)@.has_room(),
        ensures
            final(self).wf(),
            final(self)@ == old(self)@.moved(TranslationDirection::Left),
    {
        self.translate(TranslationDirection::Left);
    }

    fn translate_right(&mut self)
        requires
            old(self).wf(),
            old(self)@.has_room(),
        ensures
            final(self).wf(),
            final(self)@ == old(self)@.moved(TranslationDirection::Right),
    {
        self.translate(TranslationDirection::Right);
    }

    fn rotate_cw(&mut self)
        requires
            old(self).wf(),
            old(self)@.has_room(),
        ensures
            final(self).wf(),
            final(self)@ == old(self)@.turned(Rotation::Cw),
    {
        self.rotate(Rotation::Cw);
    }

    fn rotate_ccw(&mut self)
        requires
            old(self).wf(),
            old(self)@.has_room(),
        ensures
            final(self).wf(),
            final(self)@ == old(self)@.turned(Rotation::Ccw),
    {
        self.rotate(Rotation::Ccw);
    }

    /// Performs the game's action for `control`.
    pub fn control_handler(&mut self, control: &Control)
        requires
            old(self).wf(),
            old(self)@.has_room(),
            *control == Control::SoftDrop ==> old(self)@.playfield.active is Some,
        ensures
            final(self).wf(),
            control_applied(old(self)@, *control, final(self)@),
    {
        match control {
            Control::Left => self.translate_left(),
            Control::Right => self.translate_right(),
            Control::RotateCW => self.rotate_cw(),
            Control::RotateCCW => self.rotate_ccw(),
            Control::SoftDrop => self.soft_drop(),
            Control::HardDrop => self.hard_drop(),
            Control::Hold => self.hold(),
        }
    }

    fn menu_item_selected(&mut self)
        requires
            old(self).wf(),
            old(self)@.state == GameState::Menu,
        ensures
            final(self).wf(),
            final(self)@ == old(self)@.menu_chosen(),
    {
        if self.menu_state.selected() == 0 {
            self.resume();
        } else if self.menu_state.selected() == 1 {
            // self.state = GameState::Options;
        } else if self.menu_state.selected() == 2 {
            self.state = GameState::Quit;
        }
        self.menu_state.reset_selection();
    }

    fn paused_item_selected(&mut self)
        requires
            old(self).wf(),
            old(self)@.state == GameState::Paused,
        ensures
            final(self).wf(),
            final(self)@ == old(self)@.paused_chosen(),
    {
        if self.paused_state.selected() == 0 {
            self.resume();
        } else if self.paused_state.selected() == 1 {
            // self.state = GameState::Options;
        } else if self.paused_state.selected() == 2 {
            self.new_game();
        } else if self.paused_state.selected() == 3 {
            self.state = GameState::Quit;
        }
        self.paused_state.reset_selection();
    }

    /// One frame of `delta_time` microseconds with the given gravity delay
    /// (also in microseconds): readies the playfield and advances play while
    /// playing, and tells the caller to play the game-over sound or to quit.
    pub fn update(&mut self, delta_time: u64, gravity_delay: u64) -> (r: UpdateAction)
        requires
            old(self).wf(),
            old(self)@.has_room(),
        ensures
            final(self).wf(),
            ticked(old(self)@, delta_time, gravity_delay, r, final(self)@),
    {
        let mut action = UpdateAction::Nothing;
        // handle the game states
        match self.state {
            GameState::Menu => {
                self.previous_state = GameState::Menu;
            },
            GameState::Playing => {
                let ghost before = self@;
                let ok = self.ready_playfield();
                let ghost mid = self@;
                if ok {
                    self.playing_update(delta_time, gravity_delay);
                }
                self.previous_state = GameState::Playing;
                assert(readied(before, ok, mid));
            },
            GameState::Paused => {
                self.previous_state = GameState::Paused;
            },
            GameState::GameOver => {
                if self.previous_state != self.state {
                    // play game over sound
                    action = UpdateAction::PlayGameOverSound;
                    self.previous_state = GameState::GameOver;
                }
            },
            GameState::Options => {
                self.previous_state = GameState::Options;
            },
            GameState::Quit => {
                action = UpdateAction::Quit;
                self.previous_state = GameState::Quit;
            },
        }
        action
    }

    /// A key pressed; `repeated` when the press comes from the keyboard's repeat.
    pub fn key_down(&mut self, key: Option<Key>, repeated: bool)
        requires
            old(self).wf(),
        ensures
            final(self).wf(),
            final(self)@ == old(self)@.key_pressed(key, repeated),
    {
        match self.state {
            GameState::Menu => {
                // handle the user's inputs
                if key == Some(Key::Return) && !repeated {
                    self.menu_item_selected();
                }
                if key == Some(Key::Escape) && !repeated {
                    self.state = GameState::Quit;
                }
                if key == Some(Key::Up) && !repeated {
                    self.menu_state.previous();
                }
                if key == Some(Key::Down) && !repeated {
                    self.menu_state.next();
                }
            },
            GameState::Playing => {
                // pause the game immediately
                // clear all other inputs and continue
                if key == Some(Key::Escape) {
                    self.pause();
                }
            },
            GameState::Paused => {
                if key == Some(Key::Escape) && !repeated {
                    self.paused_state.reset_selection();
                    self.resume();
                }
                if key == Some(Key::Return) || key == Some(Key::NumpadEnter) && !repeated {
                    self.paused_item_selected();
                }
                if key == Some(Key::Up) && !repeated {
                    self.paused_state.previous();
                }
                if key == Some(Key::Down) && !repeated {
                    self.paused_state.next();
                }
            },
            GameState::GameOver => {
                self.new_game();
            },
            GameState::Options => {},
            GameState::Quit => {},
        }
    }

    /// The window gained or lost the input focus.
    pub fn focus(&mut self, gained: bool)
        requires
            old(self).wf(),
        ensures
            final(self).wf(),
            final(self)@ == old(self)@.focus_changed(gained),
    {
        if !gained && self.state == GameState::Playing {
            self.pause();
        }
    }
}

/// Locking the active piece never lowers the score, the line count or the level.
proof fn lemma_locked_in_keeps_score(g: GameView)
    requires
        g.playfield.wf(),
        complete_rows(g.playfield.cells).len() == 0,
        g.has_room(),
    ensures
        g.locked_in().score >= g.score,
        g.locked_in().total_lines_cleared >= g.total_lines_cleared,
        g.locked_in().level >= g.level,
{
    if let Some(a) = g.playfield.active {
        if !above_playfield(a.cells()) {
            lemma_lock_completes_at_most_four(g.playfield.cells, a.cells(), a.rtype);
            let n = complete_rows(g.playfield.locked().cells).len();
            let pts = line_score(n as int);
            assert(0 <= pts <= 800);
            assert(g.level * pts <= g.level * 800) by (nonlinear_arith)
                requires
                    0 <= pts <= 800,
            ;
        }
    }
}

/// Play never lowers the score, the number of lines cleared or the level:
/// whatever control the player uses, each of them stays or grows.
pub proof fn lemma_control_keeps_score(before: GameView, control: Control, after: GameView)
    requires
        before.wf(),
        before.has_room(),
        control_applied(before, control, after),
    ensures
        after.score >= before.score,
        after.total_lines_cleared >= before.total_lines_cleared,
        after.level >= before.level,
{
    match control {
        Control::Left => lemma_moves_keep_score(before, TranslationDirection::Left),
        Control::Right => lemma_moves_keep_score(before, TranslationDirection::Right),
        Control::RotateCW => lemma_turns_keep_score(before, Rotation::Cw),
        Control::RotateCCW => lemma_turns_keep_score(before, Rotation::Ccw),
        Control::SoftDrop => lemma_soft_drop_keeps_score(before),
        Control::HardDrop => lemma_hard_drop_keeps_score(before),
        Control::Hold => lemma_hold_keeps_score(before, after),
    }
}

/// Counting a lockdown reset changes neither the score, nor the line count,
/// nor the level.
proof fn lemma_resets_keep_score(g: GameView)
    ensures
        g.resets_bumped().score == g.score,
        g.resets_bumped().total_lines_cleared == g.total_lines_cleared,
        g.resets_bumped().level == g.level,
{
}

/// A move changes neither the score, nor the line count, nor the level.
proof fn lemma_moves_keep_score(g: GameView, direction: TranslationDirection)
    ensures
        g.moved(direction).score == g.score,
        g.moved(direction).total_lines_cleared == g.total_lines_cleared,
        g.moved(direction).level == g.level,
{
    lemma_resets_keep_score(g.on_playfield(g.playfield.shifted(direction.delta())));
}

/// A turn changes neither the score, nor the line count, nor the level.
proof fn lemma_turns_keep_score(g: GameView, rotation: Rotation)
    ensures
        g.turned(rotation).score == g.score,
        g.turned(rotation).total_lines_cleared == g.total_lines_cleared,
        g.turned(rotation).level == g.level,
{
    lemma_resets_keep_score(g.on_playfield(g.playfield.turned(rotation)));
}

/// A soft drop changes neither the score, nor the line count, nor the level.
proof fn lemma_soft_drop_keeps_score(g: GameView)
    ensures
        g.soft_dropped().score == g.score,
        g.soft_dropped().total_lines_cleared == g.total_lines_cleared,
        g.soft_dropped().level == g.level,
{
}

/// A hard drop never lowers the score, the line count or the level.
proof fn lemma_hard_drop_keeps_score(g: GameView)
    requires
        g.wf(),
        g.has_room(),
    ensures
        g.hard_dropped().score >= g.score,
        g.hard_dropped().total_lines_cleared >= g.total_lines_cleared,
        g.hard_dropped().level >= g.level,
{
    g.playfield.lemma_dropped_keeps_locks();
    lemma_no_new_complete_rows(g.playfield.cells, g.playfield.dropped().cells);
    lemma_locked_in_keeps_score(g.on_playfield(g.playfield.dropped()));
}

/// The hold changes neither the score, nor the line count, nor the level.
proof fn lemma_hold_keeps_score(before: GameView, after: GameView)
    requires
        held_after(before, after),
    ensures
        after.score == before.score,
        after.total_lines_cleared == before.total_lines_cleared,
        after.level == before.level,
{
    if !before.hold_used {
        let (piece, mid) = choose|piece: Rustomino, mid: GameView|
            {
                &&& match before.held {
                    Some(h) => piece == h && mid == (GameView { held: None, ..before }),
                    None => next_dealt(before, piece, mid),
                }
                &&& after == held_result(before, piece, mid)
            };
        assert(after == held_result(before, piece, mid));
    }
}

/// Gravity never lowers the score, the number of lines cleared or the level:
/// however long a frame lasts and whatever the delay, each of them stays or grows.
pub proof fn lemma_gravity_keeps_score(before: GameView, delta: u64, gravity_delay: u64)
    requires
        before.wf(),
        before.has_room(),
    ensures
        before.gravity_tick(delta, gravity_delay).score >= before.score,
        before.gravity_tick(delta, gravity_delay).total_lines_cleared
            >= before.total_lines_cleared,
        before.gravity_tick(delta, gravity_delay).level >= before.level,
{
    if let Some(a) = before.playfield.active {
        if let RustominoState::Lockdown { time } = a.state {
            let s = RustominoState::Lockdown { time: time.saturating_add(delta) };
            let g = before.on_playfield(before.playfield.with_state(s));
            assert(g.playfield.cells == before.playfield.cells);
            assert(g.playfield.active.unwrap().cells() == a.cells());
            lemma_locked_in_keeps_score(g);
            lemma_locked_in_keeps_score(before);
        }
    }
}

/// The hold works once per piece: a second hold before the next lock
/// changes nothing.
pub proof fn lemma_hold_once_per_lock(g: GameView, g1: GameView, g2: GameView)
    requires
        held_after(g, g1),
        held_after(g1, g2),
    ensures
        g2 == g1,
{
    if !g.hold_used {
        let (piece, mid) = choose|piece: Rustomino, mid: GameView|
            {
                &&& match g.held {
                    Some(h) => piece == h && mid == (GameView { held: None, ..g }),
                    None => next_dealt(g, piece, mid),
                }
                &&& g1 == held_result(g, piece, mid)
            };
        assert(g1.hold_used);
    }
}

/// A soft drop never locks the piece: a piece in play stays in play, and no
/// slot of the playfield becomes locked.
pub proof fn lemma_soft_drop_never_locks(g: GameView)
    requires
        g.wf(),
        g.playfield.active is Some,
    ensures
        g.soft_dropped().playfield.active is Some,
        locks_kept_from(g.soft_dropped().playfield.cells, g.playfield.cells),
{
    if g.playfield.can_move(iv(0, -1i32)) {
        g.playfield.lemma_shifted_keeps_locks(iv(0, -1i32));
    }
}

/// The game-over sound is asked for once: a frame of play that ends the game
/// is followed by a frame that asks for the sound, and the frames after that
/// ask for nothing while the game stays over.
pub proof fn lemma_game_over_sound_once(
    g0: GameView,
    g1: GameView,
    g2: GameView,
    g3: GameView,
    a1: UpdateAction,
    a2: UpdateAction,
    a3: UpdateAction,
    delta: u64,
    gravity_delay: u64,
)
    requires
        g0.state == GameState::Playing,
        ticked(g0, delta, gravity_delay, a1, g1),
        g1.state == GameState::GameOver,
        ticked(g1, delta, gravity_delay, a2, g2),
        ticked(g2, delta, gravity_delay, a3, g3),
    ensures
        a1 == UpdateAction::Nothing,
        a2 == UpdateAction::PlayGameOverSound,
        g2.state == GameState::GameOver,
        a3 == UpdateAction::Nothing,
        g3 == g2,
{
    let (ok, mid) = choose|ok: bool, mid: GameView|
        {
            &&& readied(g0, ok, mid)
            &&& g1 == ({
                let g = if ok {
                    mid.gravity_tick(delta, gravity_delay)
                } else {
                    mid
                };
                GameView { previous_state: GameState::Playing, ..g }
            })
        };
    assert(g1.previous_state == GameState::Playing);
}

/// Only a piece that rests on something is in lockdown: there is an active
/// piece in lockdown only where it cannot fall.
pub open spec fn lockdown_rests(p: PlayfieldView) -> bool {
    (p.active matches Some(a) && a.state is Lockdown) ==> !p.can_fall()
}

/// A move that fits leaves the piece falling wherever it can fall: a piece
/// moved off its support leaves lockdown, so that gravity takes it down.
pub proof fn lemma_move_leaves_falling_where_it_can_fall(g: GameView, direction: TranslationDirection)
    requires
        g.playfield.can_move(direction.delta()),
    ensures
        lockdown_rests(g.moved(direction).playfield),
{
}

/// A turn that fits leaves the piece falling wherever it can fall.
pub proof fn lemma_turn_leaves_falling_where_it_can_fall(g: GameView, rotation: Rotation)
    requires
        g.playfield.kick(rotation) is Some,
    ensures
        lockdown_rests(g.turned(rotation).playfield),
{
}

/// A move, a turn or a soft drop keeps pieces in lockdown resting: from a
/// game in which only a resting piece is in lockdown, none of them leaves a
/// piece in lockdown that could fall.
pub proof fn lemma_controls_keep_lockdown_resting(g: GameView, direction: TranslationDirection, rotation: Rotation)
    requires
        lockdown_rests(g.playfield),
        g.playfield.active is Some,
    ensures
        lockdown_rests(g.moved(direction).playfield),
        lockdown_rests(g.turned(rotation).playfield),
        lockdown_rests(g.soft_dropped().playfield),
{
    let a = g.playfield.active.unwrap();
    if g.playfield.can_move(iv(0, -1i32)) {
        assert(g.playfield.can_fall() == g.playfield.can_move(iv(0, -1i32))) by {
            assert(down(1) == iv(0, -1i32));
        }
        assert(!(a.state is Lockdown));
        let s = g.playfield.shifted(iv(0, -1i32));
        assert(s.active.unwrap().state == a.state);
    } else {
        assert(g.playfield.can_fall() == g.playfield.can_move(iv(0, -1i32))) by {
            assert(down(1) == iv(0, -1i32));
        }
        if !(a.state is Lockdown) {
            assert(g.lockdown_set().playfield.cells == g.playfield.cells);
            assert(g.lockdown_set().playfield.active.unwrap().cells() == a.cells());
        }
    }
}

/// A soft drop that cannot move the piece down leaves a piece already in
/// lockdown exactly as it was: same state, same lockdown time, same reset
/// count; it neither restarts nor ends the lockdown.
pub proof fn lemma_soft_drop_keeps_lockdown(g: GameView)
    requires
        (g.playfield.active matches Some(a) && a.state is Lockdown),
        !g.playfield.can_move(iv(0, -1i32)),
    ensures
        g.soft_dropped() == g,
{
}

/// The points for a clear by the number of rows, per level: a single 100, a
/// double 300, a triple 500 and four rows at once 800.
pub open spec fn points_per_level(n: int) -> int {
    if n == 1 {
        100
    } else if n == 2 {
        300
    } else if n == 3 {
        500
    } else {
        800
    }
}

/// Clearing `n` rows (one to four) adds exactly `level` times the points of
/// `n` rows to the score and `n` to the line count, so that at any level
/// above zero more rows at once score more, and four rows score most.
pub proof fn lemma_clear_scores_by_rows(g: GameView)
    requires
        1 <= complete_rows(g.playfield.cells).len() <= 4,
        g.has_room(),
    ensures
        g.lines_handled().score == g.score + g.level * points_per_level(
            complete_rows(g.playfield.cells).len() as int,
        ),
        g.lines_handled().total_lines_cleared == g.total_lines_cleared + complete_rows(
            g.playfield.cells,
        ).len(),
        g.lines_handled().level == g.level + (g.total_lines_cleared + complete_rows(
            g.playfield.cells,
        ).len()) / 10 - g.total_lines_cleared / 10,
        forall|m: int, n: int|
            1 <= m < n <= 4 && g.level > 0 ==> g.level * points_per_level(m) < g.level
                * points_per_level(n),
{
    let n = complete_rows(g.playfield.cells).len() as int;
    assert(0 <= g.level * points_per_level(n) <= g.level * 800) by (nonlinear_arith)
        requires
            0 <= points_per_level(n) <= 800,
            g.level >= 0,
    ;
    assert forall|m: int, k: int|
        1 <= m < k <= 4 && g.level > 0 implies g.level * points_per_level(m) < g.level
            * points_per_level(k) by {
        assert(points_per_level(m) < points_per_level(k));
        assert(g.level * points_per_level(m) < g.level * points_per_level(k)) by (nonlinear_arith)
            requires
                points_per_level(m) < points_per_level(k),
                g.level > 0,
        ;
    }
}

/// A piece in lockdown that cannot fall locks once it has spent half a
/// second (500000 microseconds) in lockdown, or at once after fifteen
/// lockdown resets; before that it stays in play, its lockdown time growing
/// by the frame's length.
pub proof fn lemma_lockdown_timing(g: GameView, delta: u64, gravity_delay: u64)
    requires
        (g.playfield.active matches Some(a) && a.state is Lockdown),
        !g.playfield.can_fall(),
    ensures
        ({
            let a = g.playfield.active.unwrap();
            let time = a.state->Lockdown_time;
            let after = g.gravity_tick(delta, gravity_delay);
            if g.lockdown_resets >= 15 || time + delta >= 500000 {
                after == g.on_playfield(
                    g.playfield.with_state(RustominoState::Lockdown { time: time.saturating_add(delta) }),
                ).locked_in() || after == g.locked_in()
            } else {
                &&& after.playfield.active == Some(Rustomino { state: RustominoState::Lockdown { time: (time + delta) as u64 }, ..a })
                &&& after.playfield.cells == g.playfield.cells
            }
        }),
{
}

/// The cells `cs` each moved by `dx` columns and `dy` rows.
pub open spec fn cells_moved(cs: [IVec2; 4], dx: int, dy: int) -> [IVec2; 4] {
    [
        iv((cs[0].x + dx) as i32, (cs[0].y + dy) as i32),
        iv((cs[1].x + dx) as i32, (cs[1].y + dy) as i32),
        iv((cs[2].x + dx) as i32, (cs[2].y + dy) as i32),
        iv((cs[3].x + dx) as i32, (cs[3].y + dy) as i32),
    ]
}

/// A move goes one column left or right, a soft drop and a gravity step one
/// row down: where the piece fits, its cells are its old cells moved by
/// exactly one slot that way, and its type and blocks stay.
pub proof fn lemma_moves_go_one_slot(g: GameView, direction: TranslationDirection, delta: u64, gravity_delay: u64)
    requires
        g.playfield.wf(),
        g.playfield.active is Some,
    ensures
        ({
            let a = g.playfield.active.unwrap();
            let (dx, dy) = match direction {
                TranslationDirection::Left => (-1int, 0int),
                TranslationDirection::Right => (1int, 0int),
                TranslationDirection::Down => (0int, -1int),
            };
            g.playfield.can_move(direction.delta()) ==> {
                let b = g.moved(direction).playfield.active.unwrap();
                &&& b.cells() == cells_moved(a.cells(), dx, dy)
                &&& b.rtype == a.rtype
                &&& b.blocks == a.blocks
            }
        }),
        ({
            let a = g.playfield.active.unwrap();
            g.playfield.can_move(iv(0, -1i32)) ==> g.soft_dropped().playfield.active.unwrap().cells()
                == cells_moved(a.cells(), 0, -1)
        }),
        ({
            let a = g.playfield.active.unwrap();
            (a.state matches RustominoState::Falling { time } && time + delta >= gravity_delay
                && g.playfield.can_fall()) ==> {
                let b = g.gravity_tick(delta, gravity_delay).playfield.active.unwrap();
                &&& b.cells() == cells_moved(a.cells(), 0, -1)
                &&& b.state == RustominoState::Falling { time: 0 }
            }
        }),
{
    let a = g.playfield.active.unwrap();
    let d = direction.delta();
    lemma_moved_cells(a, d);
    lemma_moved_cells(a, iv(0, -1i32));
    lemma_moved_cells(a, down(1));
    assert(down(1) == iv(0, -1i32));
    assert(shift(a.cells(), d) =~= cells_moved(
        a.cells(),
        match direction {
            TranslationDirection::Left => -1int,
            TranslationDirection::Right => 1int,
            TranslationDirection::Down => 0int,
        },
        match direction {
            TranslationDirection::Down => -1int,
            _ => 0int,
        },
    ));
    assert(shift(a.cells(), iv(0, -1i32)) =~= cells_moved(a.cells(), 0, -1));
}

/// The hold puts away a fresh piece of the active piece's type and brings
/// in the piece held before, when there was one; it is then used up until the
/// next lock.
pub proof fn lemma_hold_swaps(before: GameView, after: GameView)
    requires
        held_after(before, after),
        !before.hold_used,
        before.playfield.active is Some,
    ensures
        after.held == Some(Rustomino::spec_new(before.playfield.active.unwrap().rtype)),
        after.hold_used,
        (before.held matches Some(h) ==> after.playfield.active == Some(h)),
{
    let (piece, mid) = choose|piece: Rustomino, mid: GameView|
        {
            &&& match before.held {
                Some(h) => piece == h && mid == (GameView { held: None, ..before }),
                None => next_dealt(before, piece, mid),
            }
            &&& after == held_result(before, piece, mid)
        };
    assert(after == held_result(before, piece, mid));
}

/// Before its time reaches the gravity delay, a falling piece stays where it
/// is and its time grows by the frame's length.
pub proof fn lemma_gravity_waits_for_its_delay(g: GameView, delta: u64, gravity_delay: u64)
    requires
        (g.playfield.active matches Some(a) && a.state matches RustominoState::Falling { time }
            && time + delta < gravity_delay),
    ensures
        ({
            let a = g.playfield.active.unwrap();
            let time = a.state->Falling_time;
            let after = g.gravity_tick(delta, gravity_delay);
            &&& after.playfield.cells == g.playfield.cells
            &&& after.playfield.active == Some(
                Rustomino { state: RustominoState::Falling { time: (time + delta) as u64 }, ..a },
            )
        }),
{
}

/// Pausing with the escape key and pressing it again resumes the game as it
/// was, when the pause menu's selection was at the top.
pub proof fn lemma_pause_then_resume(g: GameView, repeated: bool)
    requires
        g.state == GameState::Playing,
        g.paused_selected == 0,
    ensures
        g.key_pressed(Some(Key::Escape), repeated).key_pressed(Some(Key::Escape), false) == g,
        g.focus_changed(false).key_pressed(Some(Key::Escape), false) == g,
{
}

/// A freshly dealt piece lies inside the playfield.
pub proof fn lemma_fresh_within(t: RustominoType)
    ensures
        within(Rustomino::spec_new(t).cells()),
{
}

} // verus!
