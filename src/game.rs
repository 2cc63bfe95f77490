use vstd::prelude::*;

use crate::basics::{file_of, rank_of, square, Color, Effect, GameState, Position};
use crate::interp::{bool_set, represents, table_of, to_hash_map, unsafe_table};
use crate::piece::{is_known_rank, known_rank, spec_new_piece, Piece, PieceView};
use crate::rules::{
    apply_effects, board_of, crucial_safe, first_promotable, has_crucial, has_moves, in_check,
    is_safe, legal_effects, legal_moves, legal_upto, moved_piece, pending_promotion,
    piece_can_move, piece_on, promotable_at, promoted_piece, promotion_allowed, prune_spec,
    safe_after, spec_after_move, spec_after_promotion, spec_capture, spec_execute,
    spec_increment_turn, spec_just_move, square_color, template_valid, unsafe_for, GameView,
};
use crate::template::copy_vec;
use std::collections::HashMap;

verus! {

/// The board, whose turn it is, the turn counter and the state of play.
#[derive(Clone)]
pub struct Game {
    /// The 64 squares, indexed by file plus eight times rank.
    pub board: [Option<Piece>; 64],
    pub turn_owner: Color,
    /// The current turn, counted from 1; it goes up after Black plays.
    pub turn_count: u32,
    pub game_state: GameState,
}

/// The value of an optional piece.
pub open spec fn opt_view(o: Option<Piece>) -> Option<PieceView> {
    match o {
        Some(p) => Some(p@),
        None => None,
    }
}

/// The value of an optional borrowed piece.
pub open spec fn ref_view(o: Option<&Piece>) -> Option<PieceView> {
    match o {
        Some(p) => Some(p@),
        None => None,
    }
}

impl View for Game {
    type V = GameView;

    open spec fn view(&self) -> GameView {
        GameView {
            board: self.board@.map_values(|o: Option<Piece>| opt_view(o)),
            turn_owner: self.turn_owner,
            turn_count: self.turn_count,
            game_state: self.game_state,
        }
    }
}

impl Game {
    /// The piece at `(col, row)`; `(0, 0)` is bottom left and `(7, 7)` top right.
    pub fn get_piece_at(&self, col: u8, row: u8) -> (r: Option<&Piece>)
        ensures
            ref_view(r) == piece_on(self@, col as int, row as int),
    {
        if col > 7 || row > 7 {
            return None;
        }
        self.board[(row * 8 + col) as usize].as_ref()
    }

    /// The piece at `(x, y)`, for coordinates that may lie off the board.
    pub(crate) fn occupant(&self, x: i32, y: i32) -> (r: Option<&Piece>)
        ensures
            ref_view(r) == piece_on(self@, x as int, y as int),
    {
        if x < 0 || y < 0 || x > 7 || y > 7 {
            return None;
        }
        self.board[(x + 8 * y) as usize].as_ref()
    }

    /// Check what the state of the game is.
    pub fn get_game_state(&self) -> (r: GameState)
        ensures
            r == self@.game_state,
    {
        self.game_state
    }

    /// Figure out whose turn it is.
    pub fn get_turn_owner(&self) -> (r: Color)
        ensures
            r == self@.turn_owner,
    {
        self.turn_owner
    }

    /// The current turn number.
    pub fn get_turn_count(&self) -> (r: u32)
        ensures
            r == self@.turn_count,
    {
        self.turn_count
    }
}


/// The standard starting position, row 0 (White's back rank) first.
pub open spec fn standard_template() -> Seq<char> {
    seq![
        'R', 'N', 'B', 'Q', 'K', 'B', 'N', 'R',
        'p', 'p', 'p', 'p', 'p', 'p', 'p', 'p',
        '0', '0', '0', '0', '0', '0', '0', '0',
        '0', '0', '0', '0', '0', '0', '0', '0',
        '0', '0', '0', '0', '0', '0', '0', '0',
        '0', '0', '0', '0', '0', '0', '0', '0',
        'p', 'p', 'p', 'p', 'p', 'p', 'p', 'p',
        'R', 'N', 'B', 'Q', 'K', 'B', 'N', 'R',
    ]
}

/// The colour mask of the standard position: the first two rows are White's.
pub const STANDARD_WHITE_MAP: u64 = 0xFFFF;

/// The game at the standard starting position.
pub open spec fn standard_game() -> GameView {
    GameView {
        board: board_of(standard_template(), STANDARD_WHITE_MAP),
        turn_owner: Color::White,
        turn_count: 1,
        game_state: GameState::Running,
    }
}

/// A board with every square empty.
fn empty_board() -> (b: [Option<Piece>; 64])
    ensures
        forall|i: int| 0 <= i < 64 ==> (#[trigger] b@[i]) is None,
{
    [
        None, None, None, None, None, None, None, None,
        None, None, None, None, None, None, None, None,
        None, None, None, None, None, None, None, None,
        None, None, None, None, None, None, None, None,
        None, None, None, None, None, None, None, None,
        None, None, None, None, None, None, None, None,
        None, None, None, None, None, None, None, None,
        None, None, None, None, None, None, None, None,
    ]
}

/// The square a position names for a move that starts at `(c, r)`.
fn resolve(p: Position, c: i32, r: i32) -> (at: (i32, i32))
    requires
        0 <= c <= 255,
        0 <= r <= 255,
    ensures
        at.0 as int == p.resolve((c as int, r as int)).0,
        at.1 as int == p.resolve((c as int, r as int)).1,
        -128 <= at.0 <= 383,
        -128 <= at.1 <= 383,
{
    match p {
        Position::Global((x, y)) => (x as i32, y as i32),
        Position::Relative((dx, dy)) => (c + dx as i32, r + dy as i32),
    }
}

impl Game {
    /// A copy of the game.
    pub fn copy(&self) -> (r: Game)
        ensures
            r@ == self@,
    {
        let mut board = empty_board();
        let mut i: usize = 0;
        while i < 64
            invariant
                i <= 64,
                forall|j: int| 0 <= j < i ==> opt_view(#[trigger] board@[j]) == opt_view(self.board@[j]),
                forall|j: int| i <= j < 64 ==> (#[trigger] board@[j]) is None,
            decreases 64 - i,
        {
            if let Some(p) = &self.board[i] {
                board[i] = Some(p.copy());
            }
            i += 1;
        }
        let r = Game {
            board,
            turn_owner: self.turn_owner,
            turn_count: self.turn_count,
            game_state: self.game_state,
        };
        assert(r@.board =~= self@.board);
        r
    }

    /// Carries the piece on `from` to `to` without checking whether the move
    /// is legal: the piece records the current turn and one more move, and a
    /// pawn-like piece landing on its far rank puts the game in `Promote`.
    /// Nothing happens when `from` is empty or off the board.
    pub fn just_move(&mut self, from: (u8, u8), to: (u8, u8))
        ensures
            final(self)@ == spec_just_move(old(self)@, (from.0 as int, from.1 as int), (to.0 as int, to.1 as int)),
    {
        self.move_piece(from.0 as i32, from.1 as i32, to.0 as i32, to.1 as i32);
    }

    /// Carries the piece on `(fc, fr)` to `(tc, tr)` without checking
    /// legality; see `spec_just_move`.
    fn move_piece(&mut self, fc: i32, fr: i32, tc: i32, tr: i32)
        ensures
            final(self)@ == spec_just_move(old(self)@, (fc as int, fr as int), (tc as int, tr as int)),
            final(self).turn_count == old(self).turn_count,
    {
        if fc < 0 || fr < 0 || fc > 7 || fr > 7 || tc < 0 || tr < 0 || tc > 7 || tr > 7 {
            return;
        }
        let from = (fc + 8 * fr) as usize;
        let to = (tc + 8 * tr) as usize;
        let ghost g = self@;
        let taken = self.board[from].take();
        match taken {
            None => {
                assert(self.board@ =~= old(self).board@);
            },
            Some(piece) => {
                let times = if piece.times_moved < u32::MAX {
                    piece.times_moved + 1
                } else {
                    piece.times_moved
                };
                let moved = Piece { last_moved: Some(self.turn_count), times_moved: times, ..piece };
                assert(moved@ == moved_piece(piece_on(g, fc as int, fr as int)->0, g.turn_count));
                let far: i32 = match moved.color {
                    Color::White => 7,
                    Color::Black => 0,
                };
                if moved.can_promote && tr == far {
                    self.game_state = GameState::Promote;
                }
                self.board[to] = Some(moved);
                self.board[from] = None;
                assert(self@.board =~= g.board.update(square(tc as int, tr as int), Some(moved@)).update(
                    square(fc as int, fr as int),
                    None,
                ));
            },
        }
    }

    /// Removes whatever stands on `(x, y)`.
    fn capture(&mut self, x: i32, y: i32)
        ensures
            final(self)@ == spec_capture(old(self)@, (x as int, y as int)),
            final(self).turn_count == old(self).turn_count,
    {
        if 0 <= x && x < 8 && 0 <= y && y < 8 {
            self.board[(x + 8 * y) as usize] = None;
            assert(self@.board =~= old(self)@.board.update(square(x as int, y as int), None));
        }
    }

    /// Performs a move and its effects without checking whether anything is legal.
    fn just_execute_move(&mut self, from: (i32, i32), to: (i32, i32), effects: &Vec<Effect>)
        requires
            0 <= from.0 <= 255,
            0 <= from.1 <= 255,
        ensures
            final(self)@ == spec_execute(
                old(self)@,
                (from.0 as int, from.1 as int),
                (to.0 as int, to.1 as int),
                effects@,
            ),
            final(self).turn_count == old(self).turn_count,
    {
        self.move_piece(from.0, from.1, to.0, to.1);
        let ghost start = self@;
        let ghost origin = (from.0 as int, from.1 as int);
        let mut k: usize = 0;
        while k < effects.len()
            invariant
                0 <= from.0 <= 255,
                0 <= from.1 <= 255,
                origin == (from.0 as int, from.1 as int),
                k <= effects@.len(),
                self@ == apply_effects(start, origin, effects@, k as int),
                self.turn_count == old(self).turn_count,
            decreases effects@.len() - k,
        {
            match effects[k] {
                Effect::Capture(p) => {
                    let at = resolve(p, from.0, from.1);
                    self.capture(at.0, at.1);
                },
                Effect::Move(a, b) => {
                    let source = resolve(a, from.0, from.1);
                    let target = resolve(b, from.0, from.1);
                    self.move_piece(source.0, source.1, target.0, target.1);
                },
            }
            k += 1;
        }
    }

    /// Whether every crucial piece of `color` stands on a square safe for it.
    fn crucial_pieces_safe(&self, color: Color) -> (r: bool)
        ensures
            r == crucial_safe(self@, color),
    {
        let z = unsafe_table(self, color);
        let mut i: usize = 0;
        while i < 64
            invariant
                i <= 64,
                z@.len() == 64,
                bool_set(z@) == unsafe_for(self@, color),
                forall|j: int|
                    0 <= j < i && #[trigger] self@.board[j] is Some && self@.board[j]->0.is_crucial
                        && self@.board[j]->0.color == color ==> is_safe(self@, file_of(j), rank_of(j), color),
            decreases 64 - i,
        {
            if let Some(p) = &self.board[i] {
                assert(self@.board[i as int] == Some(p@));
                if p.is_crucial && p.color == color && z[i] {
                    assert(file_of(i as int) + 8 * rank_of(i as int) == i);
                    assert(!is_safe(self@, file_of(i as int), rank_of(i as int), color));
                    return false;
                }
                assert(file_of(i as int) + 8 * rank_of(i as int) == i);
            }
            i += 1;
        }
        true
    }

    /// Whether moving from `from` to square `d` with `effects` leaves every
    /// crucial piece of `color` safe: the move is simulated on a copy.
    fn is_safe_move(&self, from: (i32, i32), d: usize, effects: &Vec<Effect>, color: Color) -> (r: bool)
        requires
            0 <= from.0 <= 255,
            0 <= from.1 <= 255,
            d < 64,
        ensures
            r == safe_after(self@, (from.0 as int, from.1 as int), d as int, effects@, color),
    {
        let mut gc = self.copy();
        gc.just_execute_move(from, ((d % 8) as i32, (d / 8) as i32), effects);
        gc.crucial_pieces_safe(color)
    }
}

impl Piece {
    /// The legal moves of this piece standing at `(c, r)`, as a table.
    pub(crate) fn legal_table(&self, c: i32, r: i32, game: &Game) -> (t: Vec<Option<Vec<Effect>>>)
        requires
            0 <= c <= 255,
            0 <= r <= 255,
        ensures
            t@.len() == 64,
            table_of(t@) == legal_moves(game@, self@, c as int, r as int),
    {
        let mut all = crate::interp::new_table();
        let mut k: usize = 0;
        while k < self.moves.len()
            invariant
                0 <= c <= 255,
                0 <= r <= 255,
                all@.len() == 64,
                k <= self.moves@.len(),
                table_of(all@) == legal_upto(game@, self@, c as int, r as int, k as int),
            decreases self.moves@.len() - k,
        {
            let m = &self.moves[k];
            assert(self@.moves[k as int] == m@);
            let unsafe_sq = unsafe_table(game, m.color);
            let batch = m.prune_table(game, c, r, &unsafe_sq);
            assert(table_of(batch@) == prune_spec(game@, m@, c as int, r as int));
            let ghost prev = table_of(all@);
            let ghost target = legal_upto(game@, self@, c as int, r as int, k + 1);
            let mut d: usize = 0;
            while d < 64
                invariant
                    0 <= c <= 255,
                    0 <= r <= 255,
                    all@.len() == 64,
                    batch@.len() == 64,
                    d <= 64,
                    k < self.moves@.len(),
                    self@.moves[k as int] == m@,
                    table_of(batch@) == prune_spec(game@, m@, c as int, r as int),
                    prev == legal_upto(game@, self@, c as int, r as int, k as int),
                    target == legal_upto(game@, self@, c as int, r as int, k + 1),
                    forall|q: int| 0 <= q < d ==> (#[trigger] table_of(all@)[q]) == target[q],
                    forall|q: int| d <= q < 64 ==> (#[trigger] table_of(all@)[q]) == prev[q],
                decreases 64 - d,
            {
                let ghost before = table_of(all@);
                let ghost bt = table_of(batch@);
                assert(target[d as int] == (if bt[d as int] is Some && safe_after(
                    game@,
                    (c as int, r as int),
                    d as int,
                    bt[d as int]->0,
                    self@.color,
                ) {
                    bt[d as int]
                } else {
                    prev[d as int]
                }));
                if let Some(effs) = &batch[d] {
                    assert(bt[d as int] == Some(effs@));
                    if game.is_safe_move((c, r), d, effs, self.color) {
                        all[d] = Some(copy_vec(effs));
                        assert(table_of(all@) == before.update(d as int, Some(effs@)));
                    }
                }
                d += 1;
            }
            assert(table_of(all@) =~= target);
            k += 1;
        }
        all
    }

    /// Every move of this piece at `(col, row)` that leaves its side's
    /// crucial pieces safe, keyed by destination index (file plus eight times
    /// rank) and mapped to the effects it entails.
    pub fn all_possible_moves(&self, col: u8, row: u8, game: &Game) -> (r: HashMap<u8, Vec<Effect>>)
        ensures
            represents(r@, legal_moves(game@, self@, col as int, row as int)),
    {
        let t = self.legal_table(col as i32, row as i32, game);
        to_hash_map(&t)
    }
}


/// Whether some entry of a table is reached.
fn any_entry(t: &Vec<Option<Vec<Effect>>>) -> (r: bool)
    requires
        t@.len() == 64,
    ensures
        r == exists|d: int| 0 <= d < 64 && (#[trigger] table_of(t@)[d]) is Some,
{
    let mut d: usize = 0;
    while d < 64
        invariant
            t@.len() == 64,
            d <= 64,
            forall|q: int| 0 <= q < d ==> (#[trigger] table_of(t@)[q]) is None,
        decreases 64 - d,
    {
        if t[d].is_some() {
            assert(table_of(t@)[d as int] is Some);
            return true;
        }
        d += 1;
    }
    false
}

impl Game {
    /// All moves the piece at `(col, row)` can make, each destination index
    /// (file plus eight times rank) mapped to the move's effects; `None`
    /// when the square is empty. Recover a destination's file as `d % 8`
    /// and its rank as `d >> 3`. Nothing is cached.
    pub fn get_moves(&self, col: u8, row: u8) -> (r: Option<HashMap<u8, Vec<Effect>>>)
        ensures
            r is Some <==> piece_on(self@, col as int, row as int) is Some,
            r is Some ==> represents(
                r->0@,
                legal_moves(self@, piece_on(self@, col as int, row as int)->0, col as int, row as int),
            ),
    {
        if let Some(p) = self.get_piece_at(col, row) {
            return Some(p.all_possible_moves(col, row, self));
        }
        None
    }

    /// Whether the side to move has any legal move.
    fn has_moves(&self) -> (r: bool)
        ensures
            r == has_moves(self@),
    {
        let mut i: usize = 0;
        while i < 64
            invariant
                i <= 64,
                forall|j: int| 0 <= j < i ==> !#[trigger] piece_can_move(self@, j),
            decreases 64 - i,
        {
            if let Some(p) = &self.board[i] {
                assert(self@.board[i as int] == Some(p@));
                if p.color == self.turn_owner {
                    let t = p.legal_table((i % 8) as i32, (i / 8) as i32, self);
                    if any_entry(&t) {
                        assert(piece_can_move(self@, i as int));
                        return true;
                    }
                }
            }
            assert(!piece_can_move(self@, i as int));
            i += 1;
        }
        false
    }

    /// Whether a crucial piece of the side to move is attacked.
    fn in_check(&self) -> (r: bool)
        ensures
            r == in_check(self@),
    {
        !self.crucial_pieces_safe(self.turn_owner)
    }

    /// Passes the turn to the other side and classifies the state for it.
    fn increment_turn(&mut self)
        requires
            old(self).turn_count < u32::MAX,
        ensures
            final(self)@ == spec_increment_turn(old(self)@),
    {
        match self.turn_owner {
            Color::White => {
                self.turn_owner = Color::Black;
            },
            Color::Black => {
                self.turn_owner = Color::White;
                self.turn_count += 1;
            },
        }
        if self.in_check() {
            self.game_state = GameState::Check;
        } else {
            self.game_state = GameState::Running;
        }
        if !self.has_moves() {
            self.game_state = match self.game_state {
                GameState::Check => GameState::CheckMate,
                _ => GameState::Stalemate,
            };
        }
    }

    /// Moves the piece on `from` to `to` if that is a legal move for the side
    /// to move, with the move's effects; the turn then passes unless a
    /// promotion is pending. Returns whether the move was made; when it was
    /// not, the game is unchanged.
    pub fn make_move(&mut self, from: (u8, u8), to: (u8, u8)) -> (r: bool)
        requires
            old(self).turn_count < u32::MAX,
        ensures
            r == legal_effects(old(self)@, (from.0 as int, from.1 as int), (to.0 as int, to.1 as int)) is Some,
            !r ==> final(self)@ == old(self)@,
            r ==> final(self)@ == spec_after_move(
                old(self)@,
                (from.0 as int, from.1 as int),
                (to.0 as int, to.1 as int),
                legal_effects(old(self)@, (from.0 as int, from.1 as int), (to.0 as int, to.1 as int))->0,
            ),
    {
        match self.game_state {
            GameState::Running | GameState::Check => {},
            _ => return false,
        }
        if to.0 > 7 || to.1 > 7 {
            return false;
        }
        let effects = match self.get_piece_at(from.0, from.1) {
            None => return false,
            Some(piece) => {
                if self.turn_owner != piece.color {
                    return false;
                }
                let moves = piece.legal_table(from.0 as i32, from.1 as i32, self);
                let d = (to.0 + to.1 * 8) as usize;
                assert(d as int == square(to.0 as int, to.1 as int));
                match &moves[d] {
                    None => return false,
                    Some(effs) => copy_vec(effs),
                }
            },
        };
        self.just_execute_move((from.0 as i32, from.1 as i32), (to.0 as i32, to.1 as i32), &effects);
        if self.game_state != GameState::Promote {
            self.increment_turn();
        }
        true
    }

    /// The first piece waiting to be promoted, with its square: White's far
    /// rank is searched first, then Black's. `None` unless a promotion is pending.
    pub fn get_promotion(&self) -> (r: Option<((u8, u8), Piece)>)
        ensures
            self@.game_state != GameState::Promote ==> r is None,
            self@.game_state == GameState::Promote ==> match pending_promotion(self@) {
                None => r is None,
                Some((c, w)) => match r {
                    Some((at, p)) => at == (c as u8, w as u8) && 0 <= c < 8 && Some(p@) == piece_on(self@, c, w),
                    None => false,
                },
            },
    {
        if self.game_state != GameState::Promote {
            return None;
        }
        match self.find_promotable(7, Color::White) {
            Some(col) => {
                assert(promotable_at(self@, col as int, 7, Color::White)) by {
                    lemma_first_promotable(self@, 7, Color::White, 0);
                }
                assert(square(col as int, 7) == col + 56);
                let p = self.board[(col + 56) as usize].as_ref().unwrap().copy();
                return Some(((col, 7), p));
            },
            None => {},
        }
        match self.find_promotable(0, Color::Black) {
            Some(col) => {
                assert(promotable_at(self@, col as int, 0, Color::Black)) by {
                    lemma_first_promotable(self@, 0, Color::Black, 0);
                }
                let p = self.board[col as usize].as_ref().unwrap().copy();
                Some(((col, 0), p))
            },
            None => None,
        }
    }

    /// The first file whose square on `row` holds a promotable piece of `color`.
    fn find_promotable(&self, row: u8, color: Color) -> (r: Option<u8>)
        requires
            row <= 7,
        ensures
            match first_promotable(self@, row as int, color, 0) {
                Some(c) => r == Some(c as u8) && 0 <= c < 8,
                None => r is None,
            },
    {
        let mut col: u8 = 0;
        while col < 8
            invariant
                row <= 7,
                col <= 8,
                first_promotable(self@, row as int, color, 0) == first_promotable(self@, row as int, color, col as int),
            decreases 8 - col,
        {
            match &self.board[(col + row * 8) as usize] {
                Some(p) => {
                    assert(self@.board[square(col as int, row as int)] == Some(p@));
                    if p.can_promote && p.color == color {
                        assert(promotable_at(self@, col as int, row as int, color));
                        return Some(col);
                    }
                },
                None => {},
            }
            col += 1;
        }
        None
    }

    /// Replaces the piece at `pos` with a new piece of `rank` that keeps its
    /// history, if the game waits for a promotion, that piece is promotable
    /// and on its far rank, and `rank` is a different, non-crucial,
    /// non-promotable known rank. Once no promotion is pending, play resumes
    /// and the turn passes. Returns whether the piece was promoted; when it
    /// was not, the game is unchanged.
    pub fn promote(&mut self, pos: (u8, u8), rank: char) -> (r: bool)
        requires
            old(self).turn_count < u32::MAX,
        ensures
            r == promotion_allowed(old(self)@, (pos.0 as int, pos.1 as int), rank),
            !r ==> final(self)@ == old(self)@,
            r ==> final(self)@ == spec_after_promotion(old(self)@, (pos.0 as int, pos.1 as int), rank),
    {
        if self.game_state != GameState::Promote || !known_rank(rank) {
            return false;
        }
        let promoted = match self.get_piece_at(pos.0, pos.1) {
            None => return false,
            Some(p) => {
                if !p.can_promote || p.rank == rank {
                    return false;
                }
                if !(p.color == Color::White && pos.1 == 7) && !(p.color == Color::Black && pos.1 == 0) {
                    return false;
                }
                let template_piece = Piece::new(p.color, rank);
                if template_piece.is_crucial || template_piece.can_promote {
                    return false;
                }
                Piece { last_moved: p.last_moved, times_moved: p.times_moved, ..template_piece }
            },
        };
        let ghost g = self@;
        self.board[(pos.0 + pos.1 * 8) as usize] = Some(promoted);
        assert(self@.board =~= g.board.update(
            square(pos.0 as int, pos.1 as int),
            Some(promoted_piece(piece_on(g, pos.0 as int, pos.1 as int)->0, rank)),
        ));
        if self.get_promotion().is_none() {
            self.game_state = GameState::Running;
            self.increment_turn();
        }
        true
    }

    /// A new game at the standard starting position, White to move on turn 1.
    pub fn new() -> (g: Game)
        ensures
            g@ == standard_game(),
    {
        let template: [char; 64] = [
            'R', 'N', 'B', 'Q', 'K', 'B', 'N', 'R', // White side
            'p', 'p', 'p', 'p', 'p', 'p', 'p', 'p',
            '0', '0', '0', '0', '0', '0', '0', '0',
            '0', '0', '0', '0', '0', '0', '0', '0',
            '0', '0', '0', '0', '0', '0', '0', '0',
            '0', '0', '0', '0', '0', '0', '0', '0',
            'p', 'p', 'p', 'p', 'p', 'p', 'p', 'p',
            'R', 'N', 'B', 'Q', 'K', 'B', 'N', 'R', // Black side
        ];
        assert(template@ =~= standard_template());
        proof {
            assert(template_valid(template@));
            assert((0xFFFFu64 >> 4u64) & 1u64 == 1u64) by (bit_vector);
            assert((0xFFFFu64 >> 60u64) & 1u64 == 0u64) by (bit_vector);
            assert(template@[4] != '0' && spec_new_piece(square_color(STANDARD_WHITE_MAP, 4), template@[4]).is_crucial);
            assert(template@[60] != '0' && spec_new_piece(square_color(STANDARD_WHITE_MAP, 60), template@[60]).is_crucial);
            assert(has_crucial(template@, STANDARD_WHITE_MAP, Color::White));
            assert(has_crucial(template@, STANDARD_WHITE_MAP, Color::Black));
        }
        let board = match Game::make_board(template, STANDARD_WHITE_MAP) {
            Ok(b) => b,
            Err(_) => empty_board(),
        };
        let g = Game { board, turn_owner: Color::White, turn_count: 1, game_state: GameState::Running };
        assert(g@.board =~= standard_game().board);
        g
    }

    /// A game on `board`, with the side to move, the turn counter and the
    /// state given.
    pub fn from_parts(board: [Option<Piece>; 64], turn_owner: Color, turn_count: u32, game_state: GameState) -> (g: Game)
        ensures
            g@ == (GameView {
                board: board@.map_values(|o: Option<Piece>| opt_view(o)),
                turn_owner,
                turn_count,
                game_state,
            }),
    {
        Game { board, turn_owner, turn_count, game_state }
    }

    /// Sets up a board from a template of 64 characters, row 0 first:
    /// `'0'` is an empty square and `'K'`, `'Q'`, `'R'`, `'B'`, `'N'`, `'p'`
    /// the standard pieces; bit `i` of `white_map` makes square `i` White's.
    /// Fails on an unknown character, and unless both sides get a crucial piece.
    pub fn make_board(template: [char; 64], white_map: u64) -> (r: Result<[Option<Piece>; 64], String>)
        ensures
            r is Ok <==> template_valid(template@) && has_crucial(template@, white_map, Color::White)
                && has_crucial(template@, white_map, Color::Black),
            r is Ok ==> r->Ok_0@.map_values(|o: Option<Piece>| opt_view(o)) == board_of(template@, white_map),
    {
        let mut board = empty_board();
        let mut w_crucial = false;
        let mut b_crucial = false;
        let mut i: usize = 0;
        while i < 64
            invariant
                i <= 64,
                forall|j: int| 0 <= j < i ==> #[trigger] template@[j] == '0' || is_known_rank(template@[j]),
                forall|j: int| 0 <= j < i ==> opt_view(#[trigger] board@[j]) == board_of(template@, white_map)[j],
                forall|j: int| i <= j < 64 ==> (#[trigger] board@[j]) is None,
                w_crucial == exists|j: int|
                    0 <= j < i && #[trigger] template@[j] != '0' && spec_new_piece(
                        square_color(white_map, j),
                        template@[j],
                    ).is_crucial && square_color(white_map, j) == Color::White,
                b_crucial == exists|j: int|
                    0 <= j < i && #[trigger] template@[j] != '0' && spec_new_piece(
                        square_color(white_map, j),
                        template@[j],
                    ).is_crucial && square_color(white_map, j) == Color::Black,
            decreases 64 - i,
        {
            let rank = template[i];
            if rank != '0' {
                if !known_rank(rank) {
                    assert(!template_valid(template@));
                    return Err("Unknown rank in the board template".to_owned());
                }
                let color = if (white_map >> (i as u64)) & 1 == 1 {
                    Color::White
                } else {
                    Color::Black
                };
                assert(color == square_color(white_map, i as int));
                let piece = Piece::new(color, rank);
                if piece.is_crucial {
                    match color {
                        Color::White => w_crucial = true,
                        Color::Black => b_crucial = true,
                    }
                }
                board[i] = Some(piece);
            }
            i += 1;
        }
        if !w_crucial || !b_crucial {
            return Err("Both sides need at least one crucial piece".to_owned());
        }
        assert(board@.map_values(|o: Option<Piece>| opt_view(o)) =~= board_of(template@, white_map));
        Ok(board)
    }
}

proof fn lemma_first_promotable(g: GameView, r: int, color: Color, c: int)
    ensures
        first_promotable(g, r, color, c) matches Some(f) ==> c <= f < 8 && promotable_at(g, f, r, color),
    decreases 8 - c,
{
    if 0 <= c < 8 && !promotable_at(g, c, r, color) {
        lemma_first_promotable(g, r, color, c + 1);
    }
}

} // verus!
