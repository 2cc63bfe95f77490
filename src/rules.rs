//! The mathematical model of move generation: what each template reaches
//! from a square, which squares a piece threatens, which are safe, and what a
//! move does to the game.

use vstd::prelude::*;

use crate::basics::{file_of, on_board, rank_of, square, Color, Effect, GameState};
use crate::piece::{is_known_rank, spec_new_piece, PieceView};
use crate::template::{variants, MoveView, PieceStatus};

verus! {

/// The mathematical value of a game.
pub struct GameView {
    /// The 64 squares, indexed by file plus eight times rank.
    pub board: Seq<Option<PieceView>>,
    pub turn_owner: Color,
    pub turn_count: u32,
    pub game_state: GameState,
}

/// What a template reaches on each of the 64 squares: the effects that
/// choosing that square entails, or `None` where it is not reached.
pub type Table = Seq<Option<Seq<Effect>>>;

/// The table in which no square is reached.
pub open spec fn empty_table() -> Table {
    Seq::new(64, |d: int| None)
}

/// The occupant of `(c, r)`; off the board there is none.
pub open spec fn piece_on(g: GameView, c: int, r: int) -> Option<PieceView> {
    if on_board(c, r) {
        g.board[square(c, r)]
    } else {
        None
    }
}

/// An absolute coordinate under a reflection about the board's midline.
pub open spec fn mirror_abs(x: u8, flip: bool) -> int {
    if flip {
        7 - x
    } else {
        x as int
    }
}

/// A relative offset under a reflection.
pub open spec fn mirror_rel(x: i8, flip: bool) -> int {
    if flip {
        -x
    } else {
        x as int
    }
}

/// The square a condition refers to, for a move from `(c, r)` under the
/// reflections `fh`, `fv`; `None` when its absolute coordinates contradict
/// its relative ones.
pub open spec fn status_square(st: PieceStatus, c: int, r: int, fh: bool, fv: bool) -> Option<(int, int)> {
    match st.relative_pos {
        Some((dc, dr)) => {
            let x = c + mirror_rel(dc, fh);
            let y = r + mirror_rel(dr, fv);
            let fits_x = match st.board_pos.0 {
                Some(bc) => x == mirror_abs(bc, fh),
                None => true,
            };
            let fits_y = match st.board_pos.1 {
                Some(br) => y == mirror_abs(br, fv),
                None => true,
            };
            if fits_x && fits_y {
                Some((x, y))
            } else {
                None
            }
        },
        None => {
            let x = match st.board_pos.0 {
                Some(bc) => mirror_abs(bc, fh),
                None => c,
            };
            let y = match st.board_pos.1 {
                Some(br) => mirror_abs(br, fv),
                None => r,
            };
            Some((x, y))
        },
    }
}

/// The turn on which a piece of `color` last moved if it moved `offset`
/// turns before its side's most recent completed turn (`offset <= 0`).
pub open spec fn relative_turn(g: GameView, color: Color, offset: int) -> int {
    g.turn_count + offset - (if g.turn_owner == color || g.turn_owner == Color::White {
        1int
    } else {
        0int
    })
}

/// Whether a piece's last move matches the condition's `last_moved`.
pub open spec fn last_moved_matches(g: GameView, p: PieceView, lm: Option<i32>) -> bool {
    match lm {
        None => true,
        Some(n) => if n > 0 {
            p.last_moved == Some(n as u32)
        } else {
            match p.last_moved {
                None => false,
                Some(t) => t as int == relative_turn(g, p.color, n as int),
            }
        },
    }
}

/// Whether the occupant of a square (or its absence) meets a condition.
pub open spec fn occupant_matches(g: GameView, occ: Option<PieceView>, st: PieceStatus) -> bool {
    match occ {
        None => st.rank is None,
        Some(p) => match st.rank {
            None => false,
            Some(k) => {
                &&& (k == '0' || k == p.rank)
                &&& match st.color {
                    Some(cl) => cl == p.color,
                    None => true,
                }
                &&& last_moved_matches(g, p, st.last_moved)
                &&& match st.has_moved {
                    Some((cmp, n)) => cmp.spec_holds(p.times_moved as int, n as int),
                    None => true,
                }
            },
        },
    }
}

/// Whether a condition holds for a move from `(c, r)` under reflections.
pub open spec fn status_holds(g: GameView, st: PieceStatus, c: int, r: int, fh: bool, fv: bool) -> bool {
    match status_square(st, c, r, fh, fv) {
        None => false,
        Some((x, y)) => occupant_matches(g, piece_on(g, x, y), st),
    }
}

/// Whether all conditions hold for a move from `(c, r)` under reflections.
pub open spec fn requirements_hold(
    g: GameView,
    reqs: Seq<PieceStatus>,
    c: int,
    r: int,
    fh: bool,
    fv: bool,
) -> bool {
    forall|k: int| 0 <= k < reqs.len() ==> #[trigger] status_holds(g, reqs[k], c, r, fh, fv)
}

/// The squares recorded by sliding from `(c, r)` along `(dc, dr)`, from
/// step `i` on: an empty square is recorded once the minimum is reached; the
/// origin's own occupant is passed over; another occupant ends the ray and
/// is recorded only when it is an enemy that may be captured. The ray also
/// ends off the board, past the maximum, and on a square of `stop`.
pub open spec fn ray(
    g: GameView,
    c: int,
    r: int,
    dc: int,
    dr: int,
    i: int,
    min: int,
    max: int,
    cap: bool,
    color: Color,
    stop: Set<int>,
) -> Seq<int>
    decreases max + 1 - i,
{
    if i > max || i < 0 {
        Seq::empty()
    } else {
        let x = c + i * dc;
        let y = r + i * dr;
        if !on_board(x, y) || stop.contains(square(x, y)) {
            Seq::empty()
        } else {
            match piece_on(g, x, y) {
                None => if i >= min {
                    seq![square(x, y)] + ray(g, c, r, dc, dr, i + 1, min, max, cap, color, stop)
                } else {
                    ray(g, c, r, dc, dr, i + 1, min, max, cap, color, stop)
                },
                Some(p) => if i == 0 {
                    ray(g, c, r, dc, dr, i + 1, min, max, cap, color, stop)
                } else if cap && p.color != color && i >= min {
                    seq![square(x, y)]
                } else {
                    Seq::empty()
                },
            }
        }
    }
}

/// The squares one direction of a template reaches under one reflection;
/// none when its conditions fail.
pub open spec fn variant_squares(
    g: GameView,
    m: MoveView,
    c: int,
    r: int,
    d: (i8, i8),
    v: (bool, bool),
    stop: Set<int>,
) -> Seq<int> {
    if requirements_hold(g, m.requirements, c, r, v.0, v.1) {
        ray(
            g,
            c,
            r,
            mirror_rel(d.0, v.0),
            mirror_rel(d.1, v.1),
            0,
            m.minimum_slide as int,
            m.max_steps(),
            m.can_capture,
            m.color,
            stop,
        )
    } else {
        Seq::empty()
    }
}

/// A template's effects under a reflection.
pub open spec fn mirrored_effects(effs: Seq<Effect>, fh: bool, fv: bool) -> Seq<Effect> {
    effs.map_values(|e: Effect| e.spec_mirrored(fh, fv))
}

/// `t` with every square of `sqs` set to `effs`.
pub open spec fn write_squares(t: Table, sqs: Seq<int>, effs: Seq<Effect>) -> Table {
    Seq::new(64, |d: int| if sqs.contains(d) { Some(effs) } else { t[d] })
}

/// `t` after the first `n` reflections of direction `d` wrote their squares.
pub open spec fn after_variants(
    g: GameView,
    m: MoveView,
    c: int,
    r: int,
    d: (i8, i8),
    stop: Set<int>,
    t: Table,
    n: int,
) -> Table
    decreases n,
{
    if n <= 0 {
        t
    } else {
        let v = variants(m.mirror)[n - 1];
        write_squares(
            after_variants(g, m, c, r, d, stop, t, n - 1),
            variant_squares(g, m, c, r, d, v, stop),
            mirrored_effects(m.effect, v.0, v.1),
        )
    }
}

/// The table after the first `n` directions of a template wrote their squares.
pub open spec fn after_directions(g: GameView, m: MoveView, c: int, r: int, stop: Set<int>, n: int) -> Table
    decreases n,
{
    if n <= 0 {
        empty_table()
    } else {
        after_variants(
            g,
            m,
            c,
            r,
            m.directions[n - 1],
            stop,
            after_directions(g, m, c, r, stop, n - 1),
            variants(m.mirror).len() as int,
        )
    }
}

/// What template `m` reaches from `(c, r)` when the squares of `unsafe_sq`
/// are unsafe for it. They matter only to a template that must stay safe
/// throughout: for it, an unsafe origin reaches nothing and an unsafe square
/// ends a ray.
pub open spec fn prune_with(g: GameView, m: MoveView, c: int, r: int, unsafe_sq: Set<int>) -> Table {
    let stop = if m.safe_throughout {
        unsafe_sq
    } else {
        Set::empty()
    };
    after_directions(g, m, c, r, stop, m.directions.len() as int)
}

/// The square that effect `e` of a move from `(c, r)` captures, if any.
pub open spec fn effect_square(e: Effect, c: int, r: int) -> Set<int> {
    match e {
        Effect::Capture(p) => {
            let at = p.resolve((c, r));
            if on_board(at.0, at.1) {
                set![square(at.0, at.1)]
            } else {
                Set::empty()
            }
        },
        Effect::Move(_, _) => Set::empty(),
    }
}

/// The squares that the first `n` effects of a move from `(c, r)` capture.
pub open spec fn effects_zone(effs: Seq<Effect>, c: int, r: int, n: int) -> Set<int>
    decreases n,
{
    if n <= 0 {
        Set::empty()
    } else {
        effects_zone(effs, c, r, n - 1).union(effect_square(effs[n - 1], c, r))
    }
}

/// The squares that one entry of a table threatens: the destination `d`
/// itself when the template may capture there, and what its effects capture.
pub open spec fn entry_zone(o: Option<Seq<Effect>>, d: int, cap: bool, c: int, r: int) -> Set<int> {
    match o {
        None => Set::empty(),
        Some(effs) => (if cap {
            set![d]
        } else {
            Set::empty()
        }).union(effects_zone(effs, c, r, effs.len() as int)),
    }
}

/// The squares that the first `n` entries of a table threaten.
pub open spec fn zone_prefix(t: Table, cap: bool, c: int, r: int, n: int) -> Set<int>
    decreases n,
{
    if n <= 0 {
        Set::empty()
    } else {
        zone_prefix(t, cap, c, r, n - 1).union(entry_zone(t[n - 1], n - 1, cap, c, r))
    }
}

/// The squares a template's table threatens from `(c, r)`: those it reaches,
/// when it may capture there, and those its effects capture.
pub open spec fn table_zone(t: Table, cap: bool, c: int, r: int) -> Set<int> {
    zone_prefix(t, cap, c, r, 64)
}

/// The squares unsafe for a template of colour `color`, given the squares
/// unsafe for White (`uw`) and for Black (`ub`).
pub open spec fn unsafe_of(color: Color, uw: Set<int>, ub: Set<int>) -> Set<int> {
    if color == Color::White {
        uw
    } else {
        ub
    }
}

/// The squares that the first `n` templates of `p` at `(c, r)` threaten.
pub open spec fn zone_upto(
    g: GameView,
    p: PieceView,
    c: int,
    r: int,
    uw: Set<int>,
    ub: Set<int>,
    n: int,
) -> Set<int>
    decreases n,
{
    if n <= 0 {
        Set::empty()
    } else {
        let m = p.moves[n - 1];
        zone_upto(g, p, c, r, uw, ub, n - 1).union(
            table_zone(prune_with(g, m, c, r, unsafe_of(m.color, uw, ub)), m.can_capture, c, r),
        )
    }
}

/// The squares the piece on square `i` threatens, its own side's safety
/// left aside.
pub open spec fn threats(g: GameView, i: int) -> Set<int> {
    match g.board[i] {
        None => Set::empty(),
        Some(p) => zone_upto(
            g,
            p,
            file_of(i),
            rank_of(i),
            Set::empty(),
            Set::empty(),
            p.moves.len() as int,
        ),
    }
}

/// The squares threatened by the pieces not of `color` on the first `n` squares.
pub open spec fn attacked_upto(g: GameView, color: Color, n: int) -> Set<int>
    decreases n,
{
    if n <= 0 {
        Set::empty()
    } else {
        let more = match g.board[n - 1] {
            Some(p) => if p.color != color {
                threats(g, n - 1)
            } else {
                Set::empty()
            },
            None => Set::empty(),
        };
        attacked_upto(g, color, n - 1).union(more)
    }
}

/// The squares that some piece not of `color` threatens.
pub open spec fn attacked(g: GameView, color: Color) -> Set<int> {
    attacked_upto(g, color, 64)
}

/// The squares unsafe for `color`. Only the side to move is ever in
/// danger: for the other side every square is safe, which keeps the
/// simulation of a reply one level deep.
pub open spec fn unsafe_for(g: GameView, color: Color) -> Set<int> {
    if color != g.turn_owner {
        Set::empty()
    } else {
        attacked(g, color)
    }
}

/// Whether `(c, r)` is safe for `color`.
pub open spec fn is_safe(g: GameView, c: int, r: int, color: Color) -> bool {
    !(on_board(c, r) && unsafe_for(g, color).contains(square(c, r)))
}

/// What template `m` reaches from `(c, r)`.
pub open spec fn prune_spec(g: GameView, m: MoveView, c: int, r: int) -> Table {
    prune_with(g, m, c, r, unsafe_for(g, m.color))
}

/// The squares the piece `p` at `(c, r)` threatens.
pub open spec fn danger_zone(g: GameView, p: PieceView, c: int, r: int) -> Set<int> {
    zone_upto(
        g,
        p,
        c,
        r,
        unsafe_for(g, Color::White),
        unsafe_for(g, Color::Black),
        p.moves.len() as int,
    )
}

/// One more move on a counter that stops at its largest value.
pub open spec fn bump(n: u32) -> u32 {
    if n < u32::MAX {
        (n + 1) as u32
    } else {
        n
    }
}

/// A piece after it moved on turn `turn`.
pub open spec fn moved_piece(p: PieceView, turn: u32) -> PieceView {
    PieceView { last_moved: Some(turn), times_moved: bump(p.times_moved), ..p }
}

/// The piece on `from` carried to `to`, without any check of legality. A
/// pawn-like piece that lands on its far rank puts the game in `Promote`.
/// Nothing happens when `from` is empty or either square is off the board.
pub open spec fn spec_just_move(g: GameView, from: (int, int), to: (int, int)) -> GameView {
    if on_board(from.0, from.1) && on_board(to.0, to.1) && piece_on(g, from.0, from.1) is Some {
        let p = moved_piece(piece_on(g, from.0, from.1)->0, g.turn_count);
        let board = g.board.update(square(to.0, to.1), Some(p)).update(square(from.0, from.1), None);
        let state = if p.can_promote && to.1 == p.far_rank() {
            GameState::Promote
        } else {
            g.game_state
        };
        GameView { board, game_state: state, ..g }
    } else {
        g
    }
}

/// The square `at` emptied, when it is on the board.
pub open spec fn spec_capture(g: GameView, at: (int, int)) -> GameView {
    if on_board(at.0, at.1) {
        GameView { board: g.board.update(square(at.0, at.1), None), ..g }
    } else {
        g
    }
}

/// One effect of a move from `from` applied.
pub open spec fn apply_effect(g: GameView, from: (int, int), e: Effect) -> GameView {
    match e {
        Effect::Capture(p) => spec_capture(g, p.resolve(from)),
        Effect::Move(a, b) => spec_just_move(g, a.resolve(from), b.resolve(from)),
    }
}

/// The first `n` effects of a move from `from` applied in order.
pub open spec fn apply_effects(g: GameView, from: (int, int), effs: Seq<Effect>, n: int) -> GameView
    decreases n,
{
    if n <= 0 {
        g
    } else {
        apply_effect(apply_effects(g, from, effs, n - 1), from, effs[n - 1])
    }
}

/// A move from `from` to `to` with its effects, without any check of legality.
pub open spec fn spec_execute(g: GameView, from: (int, int), to: (int, int), effs: Seq<Effect>) -> GameView {
    apply_effects(spec_just_move(g, from, to), from, effs, effs.len() as int)
}

/// Whether every crucial piece of `color` stands on a square safe for it.
pub open spec fn crucial_safe(g: GameView, color: Color) -> bool {
    forall|i: int|
        0 <= i < 64 && #[trigger] g.board[i] is Some && g.board[i]->0.is_crucial && g.board[i]->0.color
            == color ==> is_safe(g, file_of(i), rank_of(i), color)
}

/// Whether the move from `from` to square `d` with `effs` leaves every
/// crucial piece of `color` safe.
pub open spec fn safe_after(g: GameView, from: (int, int), d: int, effs: Seq<Effect>, color: Color) -> bool {
    crucial_safe(spec_execute(g, from, (file_of(d), rank_of(d)), effs), color)
}

/// The moves of the first `n` templates of `p` at `(c, r)` that keep its
/// side's crucial pieces safe; a later template overwrites an earlier one.
pub open spec fn legal_upto(g: GameView, p: PieceView, c: int, r: int, n: int) -> Table
    decreases n,
{
    if n <= 0 {
        empty_table()
    } else {
        let prev = legal_upto(g, p, c, r, n - 1);
        let t = prune_spec(g, p.moves[n - 1], c, r);
        Seq::new(
            64,
            |d: int|
                if t[d] is Some && safe_after(g, (c, r), d, t[d]->0, p.color) {
                    t[d]
                } else {
                    prev[d]
                },
        )
    }
}

/// The legal moves of piece `p` standing at `(c, r)`.
pub open spec fn legal_moves(g: GameView, p: PieceView, c: int, r: int) -> Table {
    legal_upto(g, p, c, r, p.moves.len() as int)
}

/// Whether a crucial piece of the side to move stands on an unsafe square.
pub open spec fn in_check(g: GameView) -> bool {
    !crucial_safe(g, g.turn_owner)
}

/// Whether the piece on square `i` belongs to the side to move and has a legal move.
pub open spec fn piece_can_move(g: GameView, i: int) -> bool {
    match g.board[i] {
        None => false,
        Some(p) => p.color == g.turn_owner && exists|d: int|
            0 <= d < 64 && (#[trigger] legal_moves(g, p, file_of(i), rank_of(i))[d]) is Some,
    }
}

/// Whether the side to move has any legal move.
pub open spec fn has_moves(g: GameView) -> bool {
    exists|i: int| 0 <= i < 64 && #[trigger] piece_can_move(g, i)
}

/// The turn passed to the other side, with check, checkmate and stalemate
/// classified for it.
pub open spec fn spec_increment_turn(g: GameView) -> GameView {
    let owner = g.turn_owner.spec_opposite();
    let count = if owner == Color::White {
        (g.turn_count + 1) as u32
    } else {
        g.turn_count
    };
    let g1 = GameView { turn_owner: owner, turn_count: count, ..g };
    let state = if in_check(g1) {
        GameState::Check
    } else {
        GameState::Running
    };
    let g2 = GameView { game_state: state, ..g1 };
    if has_moves(g2) {
        g2
    } else {
        GameView {
            game_state: if state == GameState::Check {
                GameState::CheckMate
            } else {
                GameState::Stalemate
            },
            ..g2
        }
    }
}


/// The effects of moving from `from` to `to`, when that is a legal move
/// for the side to move in a game that is running or in check.
pub open spec fn legal_effects(g: GameView, from: (int, int), to: (int, int)) -> Option<Seq<Effect>> {
    if (g.game_state == GameState::Running || g.game_state == GameState::Check) && on_board(to.0, to.1) {
        match piece_on(g, from.0, from.1) {
            Some(p) => if p.color == g.turn_owner {
                legal_moves(g, p, from.0, from.1)[square(to.0, to.1)]
            } else {
                None
            },
            None => None,
        }
    } else {
        None
    }
}

/// The game after the legal move from `from` to `to` with `effs`: the turn
/// passes unless a promotion is pending.
pub open spec fn spec_after_move(g: GameView, from: (int, int), to: (int, int), effs: Seq<Effect>) -> GameView {
    let g1 = spec_execute(g, from, to, effs);
    if g1.game_state == GameState::Promote {
        g1
    } else {
        spec_increment_turn(g1)
    }
}

/// Whether `(c, r)` holds a promotable piece of `color`.
pub open spec fn promotable_at(g: GameView, c: int, r: int, color: Color) -> bool {
    match piece_on(g, c, r) {
        Some(p) => p.can_promote && p.color == color,
        None => false,
    }
}

/// The first file from `c` on whose square on rank `r` holds a promotable
/// piece of `color`.
pub open spec fn first_promotable(g: GameView, r: int, color: Color, c: int) -> Option<int>
    decreases 8 - c,
{
    if c >= 8 || c < 0 {
        None
    } else if promotable_at(g, c, r, color) {
        Some(c)
    } else {
        first_promotable(g, r, color, c + 1)
    }
}

/// The square of the promotion that is pending: White's far rank is
/// searched first, then Black's, each from file 0 up.
pub open spec fn pending_promotion(g: GameView) -> Option<(int, int)> {
    match first_promotable(g, 7, Color::White, 0) {
        Some(c) => Some((c, 7)),
        None => match first_promotable(g, 0, Color::Black, 0) {
            Some(c) => Some((c, 0)),
            None => None,
        },
    }
}

/// Whether the piece at `pos` may be promoted to `rank`.
pub open spec fn promotion_allowed(g: GameView, pos: (int, int), rank: char) -> bool {
    &&& g.game_state == GameState::Promote
    &&& is_known_rank(rank)
    &&& match piece_on(g, pos.0, pos.1) {
        Some(p) => {
            &&& p.can_promote
            &&& p.rank != rank
            &&& pos.1 == p.far_rank()
            &&& !spec_new_piece(p.color, rank).is_crucial
            &&& !spec_new_piece(p.color, rank).can_promote
        },
        None => false,
    }
}

/// The piece of `rank` that replaces `p`, keeping its history.
pub open spec fn promoted_piece(p: PieceView, rank: char) -> PieceView {
    PieceView {
        last_moved: p.last_moved,
        times_moved: p.times_moved,
        ..spec_new_piece(p.color, rank)
    }
}

/// The game after the piece at `pos` is promoted to `rank`: once no
/// promotion is pending, play resumes and the turn passes.
pub open spec fn spec_after_promotion(g: GameView, pos: (int, int), rank: char) -> GameView {
    let p = piece_on(g, pos.0, pos.1)->0;
    let g1 = GameView {
        board: g.board.update(square(pos.0, pos.1), Some(promoted_piece(p, rank))),
        ..g
    };
    if pending_promotion(g1) is None {
        spec_increment_turn(GameView { game_state: GameState::Running, ..g1 })
    } else {
        g1
    }
}

/// Whether bit `i` of the colour mask is set: the square is White's.
pub open spec fn is_white_square(mask: u64, i: int) -> bool {
    (mask >> (i as u64)) & 1u64 == 1u64
}

/// The colour the mask gives square `i`.
pub open spec fn square_color(mask: u64, i: int) -> Color {
    if is_white_square(mask, i) {
        Color::White
    } else {
        Color::Black
    }
}

/// Whether every character of a board template is `'0'` or a known rank.
pub open spec fn template_valid(t: Seq<char>) -> bool {
    forall|i: int| 0 <= i < 64 ==> #[trigger] t[i] == '0' || is_known_rank(t[i])
}

/// Whether the template puts a crucial piece of `color` on the board.
pub open spec fn has_crucial(t: Seq<char>, mask: u64, color: Color) -> bool {
    exists|i: int|
        0 <= i < 64 && #[trigger] t[i] != '0' && spec_new_piece(square_color(mask, i), t[i]).is_crucial
            && square_color(mask, i) == color
}

/// The board a template and a colour mask describe.
pub open spec fn board_of(t: Seq<char>, mask: u64) -> Seq<Option<PieceView>> {
    Seq::new(
        64,
        |i: int|
            if t[i] == '0' {
                None
            } else {
                Some(spec_new_piece(square_color(mask, i), t[i]))
            },
    )
}
} // verus!
