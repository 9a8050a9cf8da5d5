use vstd::prelude::*;
use crate::shape::{Shape, shape_offsets};
use crate::piece::{Piece, turned, quarter_turns};
use crate::board::{
    Board, Cell, TOTAL_HEIGHT, in_bounds, placeable, committed, cleared, full_count,
    lemma_kept_rows, grid_wf,
};
use crate::bag::{is_batch, next_batch};

verus! {

/// Number of ticks between two steps of gravity.
pub const GRAVITY_PERIOD: u64 = 30;

/// Column of a freshly spawned piece's origin.
pub const SPAWN_X: i32 = 5;

/// Row of a freshly spawned piece's origin.
pub const SPAWN_Y: i32 = 20;

/// What the host can ask of the game.
#[derive(Clone, Copy, Debug, PartialEq, Eq, Structural)]
pub enum Intent {
    MoveLeft,
    MoveRight,
    SoftDrop,
    RotateCW,
    HardReset,
}

/// A piece of the given shape at the spawn position, unrotated.
pub open spec fn spawn_piece(s: Shape) -> Piece {
    Piece { shape: s, x: SPAWN_X, y: SPAWN_Y, rotation: 0 }
}

/// The piece one row lower.
pub open spec fn down(p: Piece) -> Piece {
    Piece { y: (p.y - 1) as i32, ..p }
}

/// The piece that an intent proposes in place of `p`.
pub open spec fn candidate(p: Piece, intent: Intent) -> Piece {
    match intent {
        Intent::MoveLeft => Piece { x: (p.x - 1) as i32, ..p },
        Intent::MoveRight => Piece { x: (p.x + 1) as i32, ..p },
        Intent::SoftDrop => down(p),
        Intent::RotateCW => Piece { rotation: ((p.rotation + 1) % 4) as i32, ..p },
        Intent::HardReset => p,
    }
}

/// The game state as the host sees it.
pub struct ModelView {
    pub piece: Piece,
    pub board: Seq<Seq<Cell>>,
    pub pending: Seq<Shape>,
    pub lines_cleared: int,
    pub active: bool,
    pub ticks: int,
}

/// Whether `s` may come next off `q`, leaving `q2`: the last queued shape, or,
/// with the queue empty, the last shape of a fresh bag.
pub open spec fn drawn(q: Seq<Shape>, s: Shape, q2: Seq<Shape>) -> bool {
    if q.len() > 0 {
        s == q.last() && q2 == q.drop_last()
    } else {
        is_batch(q2.push(s))
    }
}

/// A fresh game: an empty board, a spawned piece drawn from a new bag, no lines,
/// no ticks, running.
pub open spec fn is_fresh(v: ModelView) -> bool {
    &&& grid_wf(v.board)
    &&& forall|x: int, y: int| in_bounds(x, y) ==> #[trigger] v.board[y][x] == Cell::Empty
    &&& v.piece == spawn_piece(v.piece.shape)
    &&& is_batch(v.pending.push(v.piece.shape))
    &&& v.lines_cleared == 0
    &&& v.active
    &&& v.ticks == 0
}

/// The state after an intent other than a reset: a running game takes the
/// candidate piece where it fits and ignores the intent otherwise; a finished
/// game ignores it.
pub open spec fn after_intent(v: ModelView, intent: Intent) -> ModelView {
    if v.active && placeable(v.board, candidate(v.piece, intent).cells()) {
        ModelView { piece: candidate(v.piece, intent), ..v }
    } else {
        v
    }
}

/// The state after the active piece locks and a piece of shape `s` is to spawn:
/// the piece is committed, full rows are cleared and counted, and the spawn
/// piece replaces it if it fits; otherwise the game is over and the piece stays.
pub open spec fn after_lock(v: ModelView, s: Shape) -> ModelView {
    let b = cleared(committed(v.board, v.piece.cells()));
    let n = full_count(committed(v.board, v.piece.cells()));
    if placeable(b, spawn_piece(s).cells()) {
        ModelView { piece: spawn_piece(s), board: b, lines_cleared: v.lines_cleared + n, ..v }
    } else {
        ModelView { board: b, lines_cleared: v.lines_cleared + n, active: false, ..v }
    }
}

/// Whether the piece cannot move one row down.
pub open spec fn resting(v: ModelView) -> bool {
    !placeable(v.board, down(v.piece).cells())
}

/// The game: the falling piece, the board, the queue of shapes to come and the counters.
pub struct Model {
    piece: Piece,
    board: Board,
    pending: Vec<Shape>,
    lines_cleared: u64,
    active: bool,
    ticks: u64,
}

impl View for Model {
    type V = ModelView;

    closed spec fn view(&self) -> ModelView {
        ModelView {
            piece: self.piece,
            board: self.board@,
            pending: self.pending@,
            lines_cleared: self.lines_cleared as int,
            active: self.active,
            ticks: self.ticks as int,
        }
    }
}

/// Every shape has a cell at its origin, whatever the rotation.
proof fn lemma_origin_is_cell(p: Piece)
    ensures
        exists|i: int| 0 <= i < p.cells().len() && #[trigger] p.cells()[i] == (p.x as int, p.y as int),
{
    let k = quarter_turns(p.rotation as int);
    assert(turned((0, 0), k) == (0int, 0int)) by {
        assert(turned((0, 0), 0) == (0int, 0int));
        assert(turned((0, 0), 1) == (0int, 0int));
        assert(turned((0, 0), 2) == (0int, 0int));
        assert(turned((0, 0), 3) == (0int, 0int));
    }
    let i: int = match p.shape {
        Shape::T => 1,
        Shape::S => 2,
        Shape::Z => 1,
        Shape::J => 3,
        Shape::L => 3,
        Shape::O => 0,
        Shape::I => 2,
    };
    assert(shape_offsets(p.shape)[i] == (0int, 0int));
    assert(p.cells()[i] == (p.x as int, p.y as int));
}

/// A placeable piece has its origin on the grid.
proof fn lemma_placed_origin(g: Seq<Seq<Cell>>, p: Piece)
    requires
        placeable(g, p.cells()),
    ensures
        in_bounds(p.x as int, p.y as int),
{
    lemma_origin_is_cell(p);
}

/// A spawn piece lies on the grid, in rows 18 to 20 and columns 3 to 6.
proof fn lemma_spawn_cells(s: Shape)
    ensures
        spawn_piece(s).cells().len() == 4,
        forall|i: int|
            0 <= i < 4 ==> 3 <= (#[trigger] spawn_piece(s).cells()[i]).0 <= 6 && 18
                <= spawn_piece(s).cells()[i].1 <= 20,
{
    assert(quarter_turns(0) == 0);
}

/// When the spawn cell is filled, no shape can spawn.
pub proof fn lemma_spawn_blocked(g: Seq<Seq<Cell>>, s: Shape)
    requires
        grid_wf(g),
        g[SPAWN_Y as int][SPAWN_X as int] == Cell::Filled,
    ensures
        !placeable(g, spawn_piece(s).cells()),
{
    lemma_origin_is_cell(spawn_piece(s));
}

impl Model {
    /// The board is well formed, the rotation is kept in `0..4`, the piece's
    /// origin is on the grid, and a running game's piece fits where it is.
    pub closed spec fn wf(&self) -> bool {
        &&& self.board.wf()
        &&& 0 <= self.piece.rotation < 4
        &&& in_bounds(self.piece.x as int, self.piece.y as int)
        &&& self.active ==> placeable(self.board@, self.piece.cells())
    }

    /// The board, for drawing.
    pub fn board(&self) -> (b: &Board)
        requires
            self.wf(),
        ensures
            b@ == self@.board,
            b.wf(),
    {
        &self.board
    }

    /// The falling piece.
    pub fn piece(&self) -> (p: Piece)
        ensures
            p == self@.piece,
    {
        self.piece
    }

    /// The shapes queued to come next; the last one comes first.
    pub fn pending(&self) -> (q: &Vec<Shape>)
        ensures
            q@ == self@.pending,
    {
        &self.pending
    }

    /// How many rows have been cleared since the game began.
    pub fn lines_cleared(&self) -> (n: u64)
        ensures
            n as int == self@.lines_cleared,
    {
        self.lines_cleared
    }

    /// Whether the game is still running.
    pub fn is_active(&self) -> (r: bool)
        ensures
            r == self@.active,
    {
        self.active
    }

    /// How many ticks the running game has seen.
    pub fn tick_count(&self) -> (n: u64)
        ensures
            n as int == self@.ticks,
    {
        self.ticks
    }
}

/// Takes the next shape off the queue, refilling it with a fresh bag when empty.
fn draw_shape(pending: &mut Vec<Shape>) -> (s: Shape)
    ensures
        drawn(old(pending)@, s, final(pending)@),
{
    if pending.len() == 0 {
        *pending = next_batch();
    }
    let ghost q = pending@;
    match pending.pop() {
        Some(s) => {
            assert(q == pending@.push(s));
            s
        },
        None => {
            assert(false);
            Shape::T
        },
    }
}

/// Starts a new game.
pub fn model() -> (m: Model)
    ensures
        m.wf(),
        is_fresh(m@),
{
    let board = Board::new();
    let mut pending: Vec<Shape> = Vec::new();
    let s = draw_shape(&mut pending);
    let piece = Piece::new(s, SPAWN_X, SPAWN_Y, 0);
    proof {
        lemma_spawn_cells(s);
    }
    Model { piece, board, pending, lines_cleared: 0, active: true, ticks: 0 }
}

/// Locks the active piece into the board, clears full rows and spawns a piece of
/// shape `next`; when that piece does not fit, the game is over.
pub fn lock_and_spawn(state: &mut Model, next: Shape)
    requires
        old(state).wf(),
        old(state)@.active,
        old(state)@.lines_cleared + TOTAL_HEIGHT <= u64::MAX,
    ensures
        final(state).wf(),
        final(state)@ == after_lock(old(state)@, next),
{
    let ghost v = state@;
    state.board.commit(&state.piece);
    let ghost c = state.board@;
    let n = state.board.clear_full_lines();
    proof {
        lemma_kept_rows(c);
    }
    state.lines_cleared = state.lines_cleared + n as u64;
    let spawn = Piece::new(next, SPAWN_X, SPAWN_Y, 0);
    if state.board.can_place(&spawn) {
        state.piece = spawn;
    } else {
        state.active = false;
    }
    assert(state@ == after_lock(v, next));
}

/// Advances the game by one tick. A running game counts the tick; on every
/// `GRAVITY_PERIOD`-th tick the piece moves one row down, or, when it rests,
/// locks and the next shape spawns. A finished game does not change.
pub fn update(state: &mut Model)
    requires
        old(state).wf(),
        old(state)@.ticks < u64::MAX,
        old(state)@.lines_cleared + TOTAL_HEIGHT <= u64::MAX,
    ensures
        final(state).wf(),
        final(state)@.lines_cleared >= old(state)@.lines_cleared,
        !old(state)@.active ==> final(state)@ == old(state)@,
        old(state)@.active ==> ({
            let t = ModelView { ticks: old(state)@.ticks + 1, ..old(state)@ };
            if t.ticks % GRAVITY_PERIOD as int != 0 {
                final(state)@ == t
            } else if !resting(t) {
                final(state)@ == (ModelView { piece: down(t.piece), ..t })
            } else {
                exists|s: Shape, q: Seq<Shape>|
                    drawn(t.pending, s, q) && final(state)@ == after_lock(
                        ModelView { pending: q, ..t },
                        s,
                    )
            }
        }),
{
    if !state.active {
        return;
    }
    state.ticks = state.ticks + 1;
    if state.ticks % GRAVITY_PERIOD != 0 {
        return;
    }
    let below = state.piece.with_moved(0, -1);
    if state.board.can_place(&below) {
        proof {
            lemma_placed_origin(state.board@, below);
        }
        state.piece = below;
    } else {
        let ghost q0 = state.pending@;
        let next = draw_shape(&mut state.pending);
        let ghost t = state@;
        lock_and_spawn(state, next);
        assert(drawn(q0, next, t.pending));
    }
}

/// Applies an intent. A reset starts a new game from any state; the other
/// intents move or turn the piece of a running game when the result fits, and
/// are ignored otherwise.
pub fn event(state: &mut Model, intent: Intent)
    requires
        old(state).wf(),
    ensures
        final(state).wf(),
        intent == Intent::HardReset ==> is_fresh(final(state)@),
        intent != Intent::HardReset ==> final(state)@ == after_intent(old(state)@, intent),
{
    if intent == Intent::HardReset {
        *state = model();
        return;
    }
    if !state.active {
        return;
    }
    let p = state.piece;
    let cand = match intent {
        Intent::MoveLeft => p.with_moved(-1, 0),
        Intent::MoveRight => p.with_moved(1, 0),
        Intent::SoftDrop => p.with_moved(0, -1),
        Intent::RotateCW => {
            if p.rotation == 3 {
                p.with_rotated(-3)
            } else {
                p.with_rotated(1)
            }
        },
        Intent::HardReset => p,
    };
    assert(cand == candidate(p, intent));
    if state.board.can_place(&cand) {
        proof {
            lemma_placed_origin(state.board@, cand);
        }
        state.piece = cand;
    }
}

} // verus!
