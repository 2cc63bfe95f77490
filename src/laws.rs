//! Laws of the engine, proved over the model of `rules`.

use vstd::prelude::*;

use crate::basics::{
    file_of, neg_offset, on_board, rank_of, square, Color, Effect, GameState, Position,
};
use crate::game::{standard_game, standard_template, STANDARD_WHITE_MAP};
use crate::piece::{en_passant_rank, is_known_rank, spec_new_piece, PieceView};
use crate::rules::{
    after_directions, after_variants, apply_effect, apply_effects, attacked, attacked_upto, bump,
    crucial_safe, danger_zone, effect_square, effects_zone, entry_zone, first_promotable,
    has_moves, in_check, is_safe, is_white_square, legal_effects, legal_moves, legal_upto,
    mirror_rel, mirrored_effects, moved_piece, pending_promotion, piece_can_move, piece_on,
    promotable_at, promoted_piece, promotion_allowed, prune_spec, prune_with, ray,
    requirements_hold, safe_after, spec_after_move, spec_after_promotion, spec_capture,
    spec_execute, spec_increment_turn, spec_just_move, square_color, status_holds, status_square,
    table_zone, threats, unsafe_for, unsafe_of, variant_squares, zone_prefix, zone_upto, GameView,
    Table,
};
use crate::template::{variants, Mirror, MoveView, PieceStatus};

verus! {

/// Whether two games agree on everything but the state of play.
pub open spec fn same_position(g: GameView, h: GameView) -> bool {
    g.board == h.board && g.turn_owner == h.turn_owner && g.turn_count == h.turn_count
}

/// Whether no condition looks at when its occupant last moved: only those
/// depend on the side to move and the turn counter.
pub open spec fn no_turn_conditions(reqs: Seq<PieceStatus>) -> bool {
    forall|k: int| 0 <= k < reqs.len() ==> (#[trigger] reqs[k]).last_moved is None
}

proof fn lemma_ray_same(
    g: GameView,
    h: GameView,
    c: int,
    r: int,
    dc: int,
    dr: int,
    i: int,
    min: int,
    max: int,
    cap: bool,
    color: Color,
    stop: Set<int>,
)
    requires
        g.board == h.board,
    ensures
        ray(g, c, r, dc, dr, i, min, max, cap, color, stop) == ray(h, c, r, dc, dr, i, min, max, cap, color, stop),
    decreases max + 1 - i,
{
    if 0 <= i <= max {
        lemma_ray_same(g, h, c, r, dc, dr, i + 1, min, max, cap, color, stop);
    }
}

proof fn lemma_requirements_same(g: GameView, h: GameView, reqs: Seq<PieceStatus>, c: int, r: int, fh: bool, fv: bool)
    requires
        g.board == h.board,
        same_position(g, h) || no_turn_conditions(reqs),
    ensures
        requirements_hold(g, reqs, c, r, fh, fv) == requirements_hold(h, reqs, c, r, fh, fv),
{
    if requirements_hold(g, reqs, c, r, fh, fv) {
        assert forall|k: int| 0 <= k < reqs.len() implies #[trigger] status_holds(h, reqs[k], c, r, fh, fv) by {
            assert(status_holds(g, reqs[k], c, r, fh, fv));
        }
    }
    if requirements_hold(h, reqs, c, r, fh, fv) {
        assert forall|k: int| 0 <= k < reqs.len() implies #[trigger] status_holds(g, reqs[k], c, r, fh, fv) by {
            assert(status_holds(h, reqs[k], c, r, fh, fv));
        }
    }
}

proof fn lemma_after_variants_same(
    g: GameView,
    h: GameView,
    m: MoveView,
    c: int,
    r: int,
    d: (i8, i8),
    stop: Set<int>,
    t: Table,
    n: int,
)
    requires
        g.board == h.board,
        same_position(g, h) || no_turn_conditions(m.requirements),
    ensures
        after_variants(g, m, c, r, d, stop, t, n) == after_variants(h, m, c, r, d, stop, t, n),
    decreases n,
{
    if n > 0 {
        lemma_after_variants_same(g, h, m, c, r, d, stop, t, n - 1);
        let v = variants(m.mirror)[n - 1];
        lemma_requirements_same(g, h, m.requirements, c, r, v.0, v.1);
        lemma_ray_same(
            g,
            h,
            c,
            r,
            mirror_rel(d.0, v.0),
            mirror_rel(d.1, v.1),
            0,
            m.minimum_slide as int,
            m.max_steps(),
            m.can_capture,
            m.color,
            stop,
        );
    }
}

proof fn lemma_after_directions_same(g: GameView, h: GameView, m: MoveView, c: int, r: int, stop: Set<int>, n: int)
    requires
        g.board == h.board,
        same_position(g, h) || no_turn_conditions(m.requirements),
    ensures
        after_directions(g, m, c, r, stop, n) == after_directions(h, m, c, r, stop, n),
    decreases n,
{
    if n > 0 {
        lemma_after_directions_same(g, h, m, c, r, stop, n - 1);
        lemma_after_variants_same(
            g,
            h,
            m,
            c,
            r,
            m.directions[n - 1],
            stop,
            after_directions(g, m, c, r, stop, n - 1),
            variants(m.mirror).len() as int,
        );
    }
}

proof fn lemma_zone_same(g: GameView, h: GameView, p: PieceView, c: int, r: int, uw: Set<int>, ub: Set<int>, n: int)
    requires
        same_position(g, h),
    ensures
        zone_upto(g, p, c, r, uw, ub, n) == zone_upto(h, p, c, r, uw, ub, n),
    decreases n,
{
    if n > 0 {
        lemma_zone_same(g, h, p, c, r, uw, ub, n - 1);
        let m = p.moves[n - 1];
        let us = unsafe_of(m.color, uw, ub);
        let stop = if m.safe_throughout { us } else { Set::empty() };
        lemma_after_directions_same(g, h, m, c, r, stop, m.directions.len() as int);
    }
}

proof fn lemma_attacked_same(g: GameView, h: GameView, color: Color, n: int)
    requires
        same_position(g, h),
    ensures
        attacked_upto(g, color, n) == attacked_upto(h, color, n),
    decreases n,
{
    if n > 0 {
        lemma_attacked_same(g, h, color, n - 1);
        if let Some(p) = g.board[n - 1] {
            lemma_zone_same(g, h, p, file_of(n - 1), rank_of(n - 1), Set::empty(), Set::empty(), p.moves.len() as int);
        }
    }
}

proof fn lemma_unsafe_same(g: GameView, h: GameView, color: Color)
    requires
        same_position(g, h),
    ensures
        unsafe_for(g, color) == unsafe_for(h, color),
{
    lemma_attacked_same(g, h, color, 64);
}

/// The squares a template reaches depend on the board, the side to move
/// and the turn counter alone: `prune` is a pure function of them, of the
/// template and of the origin, whatever the state of play.
pub proof fn lemma_prune_deterministic(g: GameView, h: GameView, m: MoveView, c: int, r: int)
    requires
        same_position(g, h),
    ensures
        prune_spec(g, m, c, r) == prune_spec(h, m, c, r),
{
    lemma_unsafe_same(g, h, m.color);
    let us = unsafe_for(g, m.color);
    let stop = if m.safe_throughout { us } else { Set::empty() };
    lemma_after_directions_same(g, h, m, c, r, stop, m.directions.len() as int);
}

proof fn lemma_execute_same(g: GameView, h: GameView, from: (int, int), effs: Seq<Effect>, n: int, to: (int, int))
    requires
        same_position(g, h),
    ensures
        same_position(apply_effects(spec_just_move(g, from, to), from, effs, n), apply_effects(spec_just_move(h, from, to), from, effs, n)),
        apply_effects(spec_just_move(g, from, to), from, effs, n).turn_owner == g.turn_owner,
        apply_effects(spec_just_move(g, from, to), from, effs, n).turn_count == g.turn_count,
    decreases n,
{
    if n > 0 {
        lemma_execute_same(g, h, from, effs, n - 1, to);
    }
}

proof fn lemma_crucial_safe_same(g: GameView, h: GameView, color: Color)
    requires
        same_position(g, h),
    ensures
        crucial_safe(g, color) == crucial_safe(h, color),
{
    lemma_unsafe_same(g, h, color);
}

proof fn lemma_legal_same(g: GameView, h: GameView, p: PieceView, c: int, r: int, n: int)
    requires
        same_position(g, h),
    ensures
        legal_upto(g, p, c, r, n) == legal_upto(h, p, c, r, n),
    decreases n,
{
    if n > 0 {
        lemma_legal_same(g, h, p, c, r, n - 1);
        lemma_prune_deterministic(g, h, p.moves[n - 1], c, r);
        let t = prune_spec(g, p.moves[n - 1], c, r);
        assert forall|d: int| 0 <= d < 64 && t[d] is Some implies safe_after(g, (c, r), d, t[d]->0, p.color)
            == safe_after(h, (c, r), d, t[d]->0, p.color) by {
            let effs = t[d]->0;
            let to = (file_of(d), rank_of(d));
            lemma_execute_same(g, h, (c, r), effs, effs.len() as int, to);
            lemma_crucial_safe_same(
                spec_execute(g, (c, r), to, effs),
                spec_execute(h, (c, r), to, effs),
                p.color,
            );
        }
        assert(legal_upto(g, p, c, r, n) =~= legal_upto(h, p, c, r, n));
    }
}

proof fn lemma_has_moves_same(g: GameView, h: GameView)
    requires
        same_position(g, h),
    ensures
        has_moves(g) == has_moves(h),
        in_check(g) == in_check(h),
{
    assert forall|i: int| 0 <= i < 64 implies #[trigger] piece_can_move(g, i) == piece_can_move(h, i) by {
        if let Some(p) = g.board[i] {
            lemma_legal_same(g, h, p, file_of(i), rank_of(i), p.moves.len() as int);
        }
    }
    if has_moves(g) {
        let i = choose|i: int| 0 <= i < 64 && #[trigger] piece_can_move(g, i);
        assert(piece_can_move(h, i));
    }
    if has_moves(h) {
        let i = choose|i: int| 0 <= i < 64 && #[trigger] piece_can_move(h, i);
        assert(piece_can_move(g, i));
    }
    lemma_crucial_safe_same(g, h, g.turn_owner);
}

/// A game that `increment_turn` ends is classified as the state says:
/// checkmate means the side to move has no legal move and a crucial piece of
/// its is attacked; stalemate means it has no legal move and none is attacked.
pub proof fn lemma_terminal_states(g: GameView)
    ensures
        spec_increment_turn(g).game_state == GameState::CheckMate ==> !has_moves(spec_increment_turn(g))
            && in_check(spec_increment_turn(g)),
        spec_increment_turn(g).game_state == GameState::Stalemate ==> !has_moves(spec_increment_turn(g))
            && !in_check(spec_increment_turn(g)),
        spec_increment_turn(g).game_state == GameState::Check ==> has_moves(spec_increment_turn(g))
            && in_check(spec_increment_turn(g)),
        spec_increment_turn(g).game_state == GameState::Running ==> has_moves(spec_increment_turn(g))
            && !in_check(spec_increment_turn(g)),
{
    let owner = g.turn_owner.spec_opposite();
    let count = if owner == Color::White {
        (g.turn_count + 1) as u32
    } else {
        g.turn_count
    };
    let g1 = GameView { turn_owner: owner, turn_count: count, ..g };
    let state = if in_check(g1) {
        GameState::Check
    } else {
        GameState::Running
    };
    let g2 = GameView { game_state: state, ..g1 };
    lemma_has_moves_same(g1, g2);
    lemma_has_moves_same(g2, spec_increment_turn(g));
}

/// Every entry of a piece's legal moves, applied to the game, leaves every
/// crucial piece of the piece's colour on a square that is safe for it.
pub proof fn lemma_moves_keep_crucial_safe(g: GameView, p: PieceView, c: int, r: int, d: int)
    requires
        0 <= d < 64,
        legal_moves(g, p, c, r)[d] is Some,
    ensures
        crucial_safe(
            spec_execute(g, (c, r), (file_of(d), rank_of(d)), legal_moves(g, p, c, r)[d]->0),
            p.color,
        ),
{
    lemma_legal_upto_safe(g, p, c, r, d, p.moves.len() as int);
}

proof fn lemma_legal_upto_safe(g: GameView, p: PieceView, c: int, r: int, d: int, n: int)
    requires
        0 <= d < 64,
        legal_upto(g, p, c, r, n)[d] is Some,
    ensures
        safe_after(g, (c, r), d, legal_upto(g, p, c, r, n)[d]->0, p.color),
    decreases n,
{
    if n > 0 {
        let t = prune_spec(g, p.moves[n - 1], c, r);
        if !(t[d] is Some && safe_after(g, (c, r), d, t[d]->0, p.color)) {
            lemma_legal_upto_safe(g, p, c, r, d, n - 1);
        }
    }
}

/// A move changes neither the side to move nor the turn counter before the
/// turn passes; then White's move leaves the counter alone and Black's
/// raises it by exactly one. While a promotion is pending the turn stays.
pub proof fn lemma_turn_progress(g: GameView, from: (int, int), to: (int, int))
    requires
        legal_effects(g, from, to) is Some,
        g.turn_count < u32::MAX,
    ensures
        ({
            let h = spec_after_move(g, from, to, legal_effects(g, from, to)->0);
            &&& h.game_state == GameState::Promote ==> h.turn_owner == g.turn_owner && h.turn_count
                == g.turn_count
            &&& h.game_state != GameState::Promote ==> h.turn_owner == g.turn_owner.spec_opposite()
                && h.turn_count == g.turn_count + (if g.turn_owner == Color::Black {
                1int
            } else {
                0int
            })
            &&& h.turn_count >= g.turn_count
        }),
{
    let effs = legal_effects(g, from, to)->0;
    lemma_execute_same(g, g, from, effs, effs.len() as int, to);
}

/// After a promotion the turn passes exactly as after a move, unless another
/// promotion is still pending.
pub proof fn lemma_promotion_turn(g: GameView, pos: (int, int), rank: char)
    requires
        promotion_allowed(g, pos, rank),
        g.turn_count < u32::MAX,
    ensures
        ({
            let h = spec_after_promotion(g, pos, rank);
            &&& h.game_state == GameState::Promote ==> h.turn_owner == g.turn_owner && h.turn_count
                == g.turn_count
            &&& h.game_state != GameState::Promote ==> h.turn_owner == g.turn_owner.spec_opposite()
                && h.turn_count == g.turn_count + (if g.turn_owner == Color::Black {
                1int
            } else {
                0int
            })
        }),
{
}

/// A moved piece records the turn on which it moved and one more move.
pub proof fn lemma_last_moved_recorded(g: GameView, from: (int, int), to: (int, int))
    requires
        g.board.len() == 64,
        on_board(from.0, from.1),
        on_board(to.0, to.1),
        piece_on(g, from.0, from.1) is Some,
    ensures
        piece_on(spec_just_move(g, from, to), to.0, to.1) is Some ==> from != to,
        from != to ==> piece_on(spec_just_move(g, from, to), to.0, to.1)->0.last_moved == Some(g.turn_count),
        from != to ==> piece_on(spec_just_move(g, from, to), to.0, to.1)->0.times_moved == bump(
            piece_on(g, from.0, from.1)->0.times_moved,
        ),
        spec_just_move(g, from, to).turn_count == g.turn_count,
{
    assert(from != to <==> square(from.0, from.1) != square(to.0, to.1));
}


proof fn lemma_zone_sets(
    g: GameView,
    p: PieceView,
    c: int,
    r: int,
    uw: Set<int>,
    ub: Set<int>,
    uw2: Set<int>,
    ub2: Set<int>,
    n: int,
)
    requires
        n <= p.moves.len(),
        forall|k: int|
            0 <= k < n ==> unsafe_of(#[trigger] p.moves[k].color, uw, ub) == unsafe_of(p.moves[k].color, uw2, ub2),
    ensures
        zone_upto(g, p, c, r, uw, ub, n) == zone_upto(g, p, c, r, uw2, ub2, n),
    decreases n,
{
    if n > 0 {
        lemma_zone_sets(g, p, c, r, uw, ub, uw2, ub2, n - 1);
        assert(unsafe_of(p.moves[n - 1].color, uw, ub) == unsafe_of(p.moves[n - 1].color, uw2, ub2));
    }
}

proof fn lemma_attacked_exists(g: GameView, color: Color, s: int, n: int)
    ensures
        attacked_upto(g, color, n).contains(s) <==> exists|i: int|
            0 <= i < n && #[trigger] g.board[i] is Some && g.board[i]->0.color != color && threats(g, i).contains(s),
    decreases n,
{
    if n > 0 {
        lemma_attacked_exists(g, color, s, n - 1);
        if attacked_upto(g, color, n).contains(s) && !attacked_upto(g, color, n - 1).contains(s) {
            let i = n - 1;
            assert(g.board[i] is Some && g.board[i]->0.color != color && threats(g, i).contains(s));
        }
        if exists|i: int|
            0 <= i < n && #[trigger] g.board[i] is Some && g.board[i]->0.color != color && threats(g, i).contains(s) {
            let i = choose|i: int|
                0 <= i < n && #[trigger] g.board[i] is Some && g.board[i]->0.color != color && threats(g, i).contains(s);
            if i < n - 1 {
                assert(attacked_upto(g, color, n - 1).contains(s));
            }
        }
    }
}

/// For the side to move, a square is safe exactly when the danger zone of
/// no enemy piece contains it, on a board whose pieces all have templates of
/// their own colour. (For the other side every square counts as safe.)
pub proof fn lemma_safe_iff_no_danger(g: GameView, c: int, r: int)
    requires
        on_board(c, r),
        forall|i: int| 0 <= i < 64 && #[trigger] g.board[i] is Some ==> g.board[i]->0.wf(),
    ensures
        is_safe(g, c, r, g.turn_owner) <==> forall|i: int|
            0 <= i < 64 && #[trigger] g.board[i] is Some && g.board[i]->0.color != g.turn_owner
                ==> !danger_zone(g, g.board[i]->0, file_of(i), rank_of(i)).contains(square(c, r)),
{
    let owner = g.turn_owner;
    let s = square(c, r);
    assert forall|i: int| 0 <= i < 64 && #[trigger] g.board[i] is Some && g.board[i]->0.color != owner
        implies danger_zone(g, g.board[i]->0, file_of(i), rank_of(i)) == threats(g, i) by {
        let p = g.board[i]->0;
        let uw = unsafe_for(g, Color::White);
        let ub = unsafe_for(g, Color::Black);
        assert forall|k: int| 0 <= k < p.moves.len() implies unsafe_of(#[trigger] p.moves[k].color, uw, ub)
            == unsafe_of(p.moves[k].color, Set::empty(), Set::empty()) by {
            assert(p.moves[k].color == p.color);
        }
        lemma_zone_sets(g, p, file_of(i), rank_of(i), uw, ub, Set::empty(), Set::empty(), p.moves.len() as int);
    }
    lemma_attacked_exists(g, owner, s, 64);
}

/// Whether the board reads the same with its files reflected.
pub open spec fn symmetric_board(g: GameView) -> bool {
    forall|x: int, y: int|
        on_board(x, y) ==> #[trigger] g.board[square(x, y)] == g.board[square(7 - x, y)]
}

/// Whether a set of squares reads the same with its files reflected.
pub open spec fn symmetric_squares(u: Set<int>) -> bool {
    forall|x: int, y: int| on_board(x, y) ==> (#[trigger] u.contains(square(x, y)) <==> u.contains(square(7 - x, y)))
}

proof fn lemma_piece_on_symmetric(g: GameView, x: int, y: int)
    requires
        symmetric_board(g),
    ensures
        piece_on(g, x, y) == piece_on(g, 7 - x, y),
{
    if on_board(x, y) {
        assert(g.board[square(x, y)] == g.board[square(7 - x, y)]);
    }
}

proof fn lemma_square_inj(x1: int, y1: int, x2: int, y2: int)
    requires
        on_board(x1, y1),
        on_board(x2, y2),
    ensures
        square(x1, y1) == square(x2, y2) <==> (x1 == x2 && y1 == y2),
{
}

proof fn lemma_ray_mirror(
    g: GameView,
    c: int,
    r: int,
    dc: int,
    dr: int,
    i: int,
    min: int,
    max: int,
    cap: bool,
    color: Color,
    stop: Set<int>,
    x: int,
    y: int,
)
    requires
        symmetric_board(g),
        symmetric_squares(stop),
        on_board(x, y),
        i >= 0,
    ensures
        ray(g, c, r, dc, dr, i, min, max, cap, color, stop).contains(square(x, y)) <==> ray(
            g,
            7 - c,
            r,
            -dc,
            dr,
            i,
            min,
            max,
            cap,
            color,
            stop,
        ).contains(square(7 - x, y)),
    decreases max + 1 - i,
{
    if i <= max {
        let xi = c + i * dc;
        let yi = r + i * dr;
        assert((7 - c) + i * (-dc) == 7 - xi) by (nonlinear_arith)
            requires
                xi == c + i * dc,
        ;
        lemma_piece_on_symmetric(g, xi, yi);
        lemma_ray_mirror(g, c, r, dc, dr, i + 1, min, max, cap, color, stop, x, y);
        if on_board(xi, yi) {
            assert(stop.contains(square(xi, yi)) <==> stop.contains(square(7 - xi, yi)));
        }
        if on_board(xi, yi) {
            lemma_square_inj(x, y, xi, yi);
            lemma_square_inj(7 - x, y, 7 - xi, yi);
        }
        let a = ray(g, c, r, dc, dr, i + 1, min, max, cap, color, stop);
        let b = ray(g, 7 - c, r, -dc, dr, i + 1, min, max, cap, color, stop);
        assert(seq![square(xi, yi)].add(a).contains(square(x, y)) <==> (square(x, y) == square(xi, yi) || a.contains(square(x, y)))) by {
            let q = seq![square(xi, yi)].add(a);
            if q.contains(square(x, y)) {
                let w = choose|w: int| 0 <= w < q.len() && q[w] == square(x, y);
                if w > 0 {
                    assert(a[w - 1] == square(x, y));
                }
            }
            if a.contains(square(x, y)) {
                let w = choose|w: int| 0 <= w < a.len() && a[w] == square(x, y);
                assert(q[w + 1] == square(x, y));
            }
            if square(x, y) == square(xi, yi) {
                assert(q[0] == square(x, y));
            }
        }
        assert(seq![square(7 - xi, yi)].add(b).contains(square(7 - x, y)) <==> (square(7 - x, y) == square(7 - xi, yi) || b.contains(square(7 - x, y)))) by {
            let q = seq![square(7 - xi, yi)].add(b);
            if q.contains(square(7 - x, y)) {
                let w = choose|w: int| 0 <= w < q.len() && q[w] == square(7 - x, y);
                if w > 0 {
                    assert(b[w - 1] == square(7 - x, y));
                }
            }
            if b.contains(square(7 - x, y)) {
                let w = choose|w: int| 0 <= w < b.len() && b[w] == square(7 - x, y);
                assert(q[w + 1] == square(7 - x, y));
            }
            if square(7 - x, y) == square(7 - xi, yi) {
                assert(q[0] == square(7 - x, y));
            }
        }
        assert(seq![square(xi, yi)].contains(square(x, y)) <==> square(x, y) == square(xi, yi)) by {
            if square(x, y) == square(xi, yi) {
                assert(seq![square(xi, yi)][0] == square(x, y));
            }
        }
        assert(seq![square(7 - xi, yi)].contains(square(7 - x, y)) <==> square(7 - x, y) == square(7 - xi, yi)) by {
            if square(7 - x, y) == square(7 - xi, yi) {
                assert(seq![square(7 - xi, yi)][0] == square(7 - x, y));
            }
        }
    }
}

proof fn lemma_requirements_mirror(g: GameView, reqs: Seq<PieceStatus>, c: int, r: int, fh: bool, fv: bool)
    requires
        symmetric_board(g),
    ensures
        requirements_hold(g, reqs, c, r, fh, fv) == requirements_hold(g, reqs, 7 - c, r, !fh, fv),
{
    let c2 = 7 - c;
    let nfh = !fh;
    assert forall|k: int| 0 <= k < reqs.len() implies #[trigger] status_holds(g, reqs[k], c, r, fh, fv)
        == status_holds(g, reqs[k], c2, r, nfh, fv) by {
        let st = reqs[k];
        match status_square(st, c, r, fh, fv) {
            Some((x, y)) => {
                assert(status_square(st, c2, r, nfh, fv) == Some((7 - x, y)));
                lemma_piece_on_symmetric(g, x, y);
            },
            None => {
                assert(status_square(st, c2, r, nfh, fv) is None);
            },
        }
    }
    if requirements_hold(g, reqs, c, r, fh, fv) {
        assert forall|k: int| 0 <= k < reqs.len() implies #[trigger] status_holds(g, reqs[k], c2, r, nfh, fv) by {
            assert(status_holds(g, reqs[k], c, r, fh, fv));
        }
    }
    if requirements_hold(g, reqs, c2, r, nfh, fv) {
        assert forall|k: int| 0 <= k < reqs.len() implies #[trigger] status_holds(g, reqs[k], c, r, fh, fv) by {
            assert(status_holds(g, reqs[k], c2, r, nfh, fv));
        }
    }
}

/// Whether direction `j` of `m` under reflection index `vi` reaches square `s` from `(c, r)`.
pub open spec fn variant_reaches(g: GameView, m: MoveView, c: int, r: int, stop: Set<int>, j: int, vi: int, s: int) -> bool {
    variant_squares(g, m, c, r, m.directions[j], variants(m.mirror)[vi], stop).contains(s)
}

proof fn lemma_after_variants_reached(
    g: GameView,
    m: MoveView,
    c: int,
    r: int,
    j: int,
    stop: Set<int>,
    t: Table,
    n: int,
    s: int,
)
    requires
        t.len() == 64,
        0 <= s < 64,
        0 <= n <= variants(m.mirror).len(),
    ensures
        after_variants(g, m, c, r, m.directions[j], stop, t, n).len() == 64,
        after_variants(g, m, c, r, m.directions[j], stop, t, n)[s] is Some <==> (t[s] is Some || exists|vi: int|
            0 <= vi < n && #[trigger] variant_reaches(g, m, c, r, stop, j, vi, s)),
    decreases n,
{
    if n > 0 {
        lemma_after_variants_reached(g, m, c, r, j, stop, t, n - 1, s);
        if variant_reaches(g, m, c, r, stop, j, n - 1, s) {
        }
        if exists|vi: int| 0 <= vi < n && #[trigger] variant_reaches(g, m, c, r, stop, j, vi, s) {
            let vi = choose|vi: int| 0 <= vi < n && #[trigger] variant_reaches(g, m, c, r, stop, j, vi, s);
            if vi < n - 1 {
            }
        }
    }
}

proof fn lemma_after_directions_reached(g: GameView, m: MoveView, c: int, r: int, stop: Set<int>, n: int, s: int)
    requires
        0 <= s < 64,
        0 <= n <= m.directions.len(),
    ensures
        after_directions(g, m, c, r, stop, n).len() == 64,
        after_directions(g, m, c, r, stop, n)[s] is Some <==> exists|j: int, vi: int|
            0 <= j < n && 0 <= vi < variants(m.mirror).len() && #[trigger] variant_reaches(g, m, c, r, stop, j, vi, s),
    decreases n,
{
    if n > 0 {
        lemma_after_directions_reached(g, m, c, r, stop, n - 1, s);
        let nv = variants(m.mirror).len() as int;
        lemma_after_variants_reached(g, m, c, r, n - 1, stop, after_directions(g, m, c, r, stop, n - 1), nv, s);
        if exists|j: int, vi: int|
            0 <= j < n && 0 <= vi < nv && #[trigger] variant_reaches(g, m, c, r, stop, j, vi, s) {
            let (j, vi) = choose|j: int, vi: int|
                0 <= j < n && 0 <= vi < nv && #[trigger] variant_reaches(g, m, c, r, stop, j, vi, s);
            if j < n - 1 {
            }
        }
    }
}

/// The reflection index paired with `vi` by a horizontal flip.
spec fn flipped(mirror: Option<Mirror>, vi: int) -> int {
    if mirror == Some(Mirror::VerAndHor) {
        if vi == 0 { 1int } else if vi == 1 { 0int } else if vi == 2 { 3int } else { 2int }
    } else {
        1 - vi
    }
}

proof fn lemma_variant_mirror(g: GameView, m: MoveView, c: int, r: int, stop: Set<int>, j: int, vi: int, x: int, y: int)
    requires
        symmetric_board(g),
        symmetric_squares(stop),
        on_board(x, y),
        0 <= j < m.directions.len(),
        m.mirror == Some(Mirror::Horizontally) || m.mirror == Some(Mirror::VerAndHor),
        0 <= vi < variants(m.mirror).len(),
    ensures
        0 <= flipped(m.mirror, vi) < variants(m.mirror).len(),
        variant_reaches(g, m, c, r, stop, j, vi, square(x, y)) <==> variant_reaches(
            g,
            m,
            7 - c,
            r,
            stop,
            j,
            flipped(m.mirror, vi),
            square(7 - x, y),
        ),
{
    let v = variants(m.mirror)[vi];
    let w = variants(m.mirror)[flipped(m.mirror, vi)];
    assert(w == (!v.0, v.1));
    let d = m.directions[j];
    lemma_requirements_mirror(g, m.requirements, c, r, v.0, v.1);
    assert(mirror_rel(d.0, w.0) == -mirror_rel(d.0, v.0));
    lemma_ray_mirror(
        g,
        c,
        r,
        mirror_rel(d.0, v.0),
        mirror_rel(d.1, v.1),
        0,
        m.minimum_slide as int,
        m.max_steps(),
        m.can_capture,
        m.color,
        stop,
        x,
        y,
    );
}

/// Mirror closure: on a board that reads the same with its files reflected,
/// a template mirrored horizontally reaches from `(7 - c, r)` exactly the
/// reflections of the squares it reaches from `(c, r)`. A template that must
/// stay safe throughout needs the squares unsafe for it to be symmetric too.
pub proof fn lemma_mirror_closure(g: GameView, m: MoveView, c: int, r: int, x: int, y: int)
    requires
        symmetric_board(g),
        m.mirror == Some(Mirror::Horizontally) || m.mirror == Some(Mirror::VerAndHor),
        m.safe_throughout ==> symmetric_squares(unsafe_for(g, m.color)),
        on_board(x, y),
    ensures
        prune_spec(g, m, c, r)[square(x, y)] is Some <==> prune_spec(g, m, 7 - c, r)[square(7 - x, y)] is Some,
{
    let stop = if m.safe_throughout { unsafe_for(g, m.color) } else { Set::empty() };
    let n = m.directions.len() as int;
    let nv = variants(m.mirror).len() as int;
    lemma_after_directions_reached(g, m, c, r, stop, n, square(x, y));
    lemma_after_directions_reached(g, m, 7 - c, r, stop, n, square(7 - x, y));
    if prune_spec(g, m, c, r)[square(x, y)] is Some {
        let (j, vi) = choose|j: int, vi: int|
            0 <= j < n && 0 <= vi < nv && #[trigger] variant_reaches(g, m, c, r, stop, j, vi, square(x, y));
        lemma_variant_mirror(g, m, c, r, stop, j, vi, x, y);
        assert(variant_reaches(g, m, 7 - c, r, stop, j, flipped(m.mirror, vi), square(7 - x, y)));
    }
    if prune_spec(g, m, 7 - c, r)[square(7 - x, y)] is Some {
        let (j, wi) = choose|j: int, wi: int|
            0 <= j < n && 0 <= wi < nv && #[trigger] variant_reaches(g, m, 7 - c, r, stop, j, wi, square(7 - x, y));
        let vi = flipped(m.mirror, wi);
        assert(flipped(m.mirror, vi) == wi);
        lemma_variant_mirror(g, m, c, r, stop, j, vi, x, y);
        assert(variant_reaches(g, m, c, r, stop, j, vi, square(x, y)));
    }
}

proof fn lemma_ray_lands_free(
    g: GameView,
    c: int,
    r: int,
    dc: int,
    dr: int,
    i: int,
    min: int,
    max: int,
    cap: bool,
    color: Color,
    stop: Set<int>,
    s: int,
)
    requires
        g.board.len() == 64,
        ray(g, c, r, dc, dr, i, min, max, cap, color, stop).contains(s),
    ensures
        0 <= s < 64,
        g.board[s] is None || g.board[s]->0.color != color,
        g.board[s] is Some ==> cap,
    decreases max + 1 - i,
{
    let q = ray(g, c, r, dc, dr, i, min, max, cap, color, stop);
    let next = ray(g, c, r, dc, dr, i + 1, min, max, cap, color, stop);
    let x = c + i * dc;
    let y = r + i * dr;
    let w = choose|w: int| 0 <= w < q.len() && q[w] == s;
    if 0 <= i <= max && on_board(x, y) && !stop.contains(square(x, y)) {
        match piece_on(g, x, y) {
            None => if i >= min {
                if w > 0 {
                    assert(next[w - 1] == s);
                    lemma_ray_lands_free(g, c, r, dc, dr, i + 1, min, max, cap, color, stop, s);
                }
            } else {
                lemma_ray_lands_free(g, c, r, dc, dr, i + 1, min, max, cap, color, stop, s);
            },
            Some(p) => if i == 0 {
                lemma_ray_lands_free(g, c, r, dc, dr, i + 1, min, max, cap, color, stop, s);
            },
        }
    }
}

proof fn lemma_legal_upto_source(g: GameView, p: PieceView, c: int, r: int, d: int, n: int)
    requires
        0 <= d < 64,
        0 <= n <= p.moves.len(),
        legal_upto(g, p, c, r, n)[d] is Some,
    ensures
        exists|k: int|
            0 <= k < n && #[trigger] prune_spec(g, p.moves[k], c, r)[d] == legal_upto(g, p, c, r, n)[d],
    decreases n,
{
    if n > 0 {
        let t = prune_spec(g, p.moves[n - 1], c, r);
        if t[d] is Some && safe_after(g, (c, r), d, t[d]->0, p.color) {
            assert(prune_spec(g, p.moves[n - 1], c, r)[d] == legal_upto(g, p, c, r, n)[d]);
        } else {
            lemma_legal_upto_source(g, p, c, r, d, n - 1);
            let k = choose|k: int|
                0 <= k < n - 1 && #[trigger] prune_spec(g, p.moves[k], c, r)[d] == legal_upto(g, p, c, r, n - 1)[d];
            assert(prune_spec(g, p.moves[k], c, r)[d] == legal_upto(g, p, c, r, n)[d]);
        }
    }
}

proof fn lemma_after_variants_source(
    g: GameView,
    m: MoveView,
    c: int,
    r: int,
    j: int,
    stop: Set<int>,
    t: Table,
    n: int,
    s: int,
)
    requires
        t.len() == 64,
        0 <= s < 64,
        0 <= n <= variants(m.mirror).len(),
        after_variants(g, m, c, r, m.directions[j], stop, t, n)[s] is Some,
    ensures
        after_variants(g, m, c, r, m.directions[j], stop, t, n)[s] == t[s] || exists|vi: int|
            0 <= vi < n && #[trigger] variant_reaches(g, m, c, r, stop, j, vi, s)
                && after_variants(g, m, c, r, m.directions[j], stop, t, n)[s] == Some(
                mirrored_effects(m.effect, variants(m.mirror)[vi].0, variants(m.mirror)[vi].1),
            ),
    decreases n,
{
    if n > 0 {
        lemma_after_variants_reached(g, m, c, r, j, stop, t, n - 1, s);
        if !variant_reaches(g, m, c, r, stop, j, n - 1, s) {
            lemma_after_variants_source(g, m, c, r, j, stop, t, n - 1, s);
        }
    }
}

proof fn lemma_after_directions_source(g: GameView, m: MoveView, c: int, r: int, stop: Set<int>, n: int, s: int)
    requires
        0 <= s < 64,
        0 <= n <= m.directions.len(),
        after_directions(g, m, c, r, stop, n)[s] is Some,
    ensures
        exists|j: int, vi: int|
            0 <= j < n && 0 <= vi < variants(m.mirror).len() && #[trigger] variant_reaches(g, m, c, r, stop, j, vi, s)
                && after_directions(g, m, c, r, stop, n)[s] == Some(
                mirrored_effects(m.effect, variants(m.mirror)[vi].0, variants(m.mirror)[vi].1),
            ),
    decreases n,
{
    if n > 0 {
        let nv = variants(m.mirror).len() as int;
        let prev = after_directions(g, m, c, r, stop, n - 1);
        lemma_after_directions_reached(g, m, c, r, stop, n - 1, s);
        lemma_after_variants_source(g, m, c, r, n - 1, stop, prev, nv, s);
        if after_directions(g, m, c, r, stop, n)[s] == prev[s] {
            lemma_after_directions_source(g, m, c, r, stop, n - 1, s);
            let (j, vi) = choose|j: int, vi: int|
                0 <= j < n - 1 && 0 <= vi < nv && #[trigger] variant_reaches(g, m, c, r, stop, j, vi, s)
                    && prev[s] == Some(
                    mirrored_effects(m.effect, variants(m.mirror)[vi].0, variants(m.mirror)[vi].1),
                );
            assert(variant_reaches(g, m, c, r, stop, j, vi, s));
        } else {
            let vi = choose|vi: int|
                0 <= vi < nv && #[trigger] variant_reaches(g, m, c, r, stop, n - 1, vi, s)
                    && after_directions(g, m, c, r, stop, n)[s] == Some(
                    mirrored_effects(m.effect, variants(m.mirror)[vi].0, variants(m.mirror)[vi].1),
                );
            assert(variant_reaches(g, m, c, r, stop, n - 1, vi, s));
        }
    }
}

proof fn lemma_ray_unstopped(
    g: GameView,
    c: int,
    r: int,
    dc: int,
    dr: int,
    i: int,
    min: int,
    max: int,
    cap: bool,
    color: Color,
    stop: Set<int>,
    s: int,
)
    requires
        ray(g, c, r, dc, dr, i, min, max, cap, color, stop).contains(s),
    ensures
        ray(g, c, r, dc, dr, i, min, max, cap, color, Set::empty()).contains(s),
    decreases max + 1 - i,
{
    let q = ray(g, c, r, dc, dr, i, min, max, cap, color, stop);
    let q0 = ray(g, c, r, dc, dr, i, min, max, cap, color, Set::empty());
    let next = ray(g, c, r, dc, dr, i + 1, min, max, cap, color, stop);
    let next0 = ray(g, c, r, dc, dr, i + 1, min, max, cap, color, Set::empty());
    let x = c + i * dc;
    let y = r + i * dr;
    let w = choose|w: int| 0 <= w < q.len() && q[w] == s;
    if 0 <= i <= max && on_board(x, y) && !stop.contains(square(x, y)) {
        match piece_on(g, x, y) {
            None => if i >= min {
                if w > 0 {
                    assert(next[w - 1] == s);
                    lemma_ray_unstopped(g, c, r, dc, dr, i + 1, min, max, cap, color, stop, s);
                    let w0 = choose|w0: int| 0 <= w0 < next0.len() && next0[w0] == s;
                    assert(q0[w0 + 1] == s);
                } else {
                    assert(q0[0] == s);
                }
            } else {
                lemma_ray_unstopped(g, c, r, dc, dr, i + 1, min, max, cap, color, stop, s);
            },
            Some(p) => if i == 0 {
                lemma_ray_unstopped(g, c, r, dc, dr, i + 1, min, max, cap, color, stop, s);
            } else {
                assert(q0[0] == s);
            },
        }
    }
}

proof fn lemma_file_rank(c: int, r: int)
    requires
        on_board(c, r),
    ensures
        file_of(square(c, r)) == c,
        rank_of(square(c, r)) == r,
{
    assert((c + 8 * r) % 8 == c && (c + 8 * r) / 8 == r) by (nonlinear_arith)
        requires
            0 <= c < 8,
            0 <= r < 8,
    ;
}

proof fn lemma_zone_prefix_has(t: Table, c: int, r: int, d: int, n: int)
    requires
        0 <= d < n,
        t[d] is Some,
    ensures
        zone_prefix(t, true, c, r, n).contains(d),
    decreases n,
{
    if d < n - 1 {
        lemma_zone_prefix_has(t, c, r, d, n - 1);
    }
}

proof fn lemma_zone_upto_has(g: GameView, p: PieceView, c: int, r: int, uw: Set<int>, ub: Set<int>, k: int, n: int, s: int)
    requires
        0 <= k < n,
        ({
            let m = p.moves[k];
            table_zone(prune_with(g, m, c, r, unsafe_of(m.color, uw, ub)), m.can_capture, c, r).contains(s)
        }),
    ensures
        zone_upto(g, p, c, r, uw, ub, n).contains(s),
    decreases n,
{
    if k < n - 1 {
        lemma_zone_upto_has(g, p, c, r, uw, ub, k, n - 1, s);
    }
}

/// A template that reaches an occupied square threatens it.
proof fn lemma_landing_is_threat(g: GameView, c: int, r: int, k: int, d: int)
    requires
        g.board.len() == 64,
        on_board(c, r),
        g.board[square(c, r)] is Some,
        0 <= k < g.board[square(c, r)]->0.moves.len(),
        0 <= d < 64,
        prune_spec(g, g.board[square(c, r)]->0.moves[k], c, r)[d] is Some,
        g.board[d] is Some,
    ensures
        threats(g, square(c, r)).contains(d),
{
    let p = g.board[square(c, r)]->0;
    let m = p.moves[k];
    let stop = if m.safe_throughout { unsafe_for(g, m.color) } else { Set::empty() };
    let n = m.directions.len() as int;
    lemma_after_directions_source(g, m, c, r, stop, n, d);
    let (j, vi) = choose|j: int, vi: int|
        0 <= j < n && 0 <= vi < variants(m.mirror).len() && #[trigger] variant_reaches(g, m, c, r, stop, j, vi, d)
            && after_directions(g, m, c, r, stop, n)[d] == Some(
            mirrored_effects(m.effect, variants(m.mirror)[vi].0, variants(m.mirror)[vi].1),
        );
    let v = variants(m.mirror)[vi];
    let dir = m.directions[j];
    let dc = mirror_rel(dir.0, v.0);
    let dr = mirror_rel(dir.1, v.1);
    assert(requirements_hold(g, m.requirements, c, r, v.0, v.1));
    let min = m.minimum_slide as int;
    let max = m.max_steps();
    lemma_ray_lands_free(g, c, r, dc, dr, 0, min, max, m.can_capture, m.color, stop, d);
    lemma_ray_unstopped(g, c, r, dc, dr, 0, min, max, m.can_capture, m.color, stop, d);
    assert(variant_reaches(g, m, c, r, Set::empty(), j, vi, d));
    lemma_after_directions_reached(g, m, c, r, Set::empty(), n, d);
    let t0 = prune_with(g, m, c, r, Set::empty());
    assert(t0 == after_directions(g, m, c, r, Set::empty(), n));
    lemma_zone_prefix_has(t0, c, r, d, 64);
    assert(unsafe_of(m.color, Set::<int>::empty(), Set::<int>::empty()) == Set::<int>::empty());
    lemma_zone_upto_has(g, p, c, r, Set::empty(), Set::empty(), k, p.moves.len() as int, d);
    lemma_file_rank(c, r);
}

/// Whether a piece is one the default configuration builds, or one promoted
/// from such a piece.
pub open spec fn is_default_piece(p: PieceView) -> bool {
    &&& is_known_rank(p.rank)
    &&& p.moves == spec_new_piece(p.color, p.rank).moves
    &&& p.is_crucial == (p.rank == 'K')
    &&& p.can_promote == (p.rank == 'p')
}

/// Whether every piece on a 64-square board is a default piece.
pub open spec fn default_board(g: GameView) -> bool {
    &&& g.board.len() == 64
    &&& forall|i: int| 0 <= i < 64 && #[trigger] g.board[i] is Some ==> is_default_piece(g.board[i]->0)
}

/// Whether a crucial piece of `color` stands on the board.
pub open spec fn has_crucial_of(g: GameView, color: Color) -> bool {
    exists|i: int|
        0 <= i < 64 && #[trigger] g.board[i] is Some && g.board[i]->0.is_crucial && g.board[i]->0.color == color
}

/// Whether no crucial piece of the side not to move is attacked.
pub open spec fn opponent_unattacked(g: GameView) -> bool {
    forall|i: int|
        0 <= i < 64 && #[trigger] g.board[i] is Some && g.board[i]->0.is_crucial && g.board[i]->0.color
            != g.turn_owner ==> !attacked(g, g.board[i]->0.color).contains(i)
}

proof fn lemma_default_wf(color: Color, rank: char)
    requires
        is_known_rank(rank),
    ensures
        spec_new_piece(color, rank).wf(),
{
    let p = spec_new_piece(color, rank);
    assert forall|k: int| 0 <= k < p.moves.len() implies (#[trigger] p.moves[k]).color == p.color by {
        if rank == 'K' {
            assert(k == 0 || k == 1 || k == 2);
        } else if rank == 'p' {
            assert(k == 0 || k == 1 || k == 2 || k == 3);
        } else {
            assert(k == 0);
        }
    }
}

proof fn lemma_two_step_ray(g: GameView, c: int, r: int, dc: int, color: Color, stop: Set<int>, s: int)
    requires
        piece_on(g, c, r) is Some,
        ray(g, c, r, dc, 0, 0, 2, 2, false, color, stop).contains(s),
    ensures
        on_board(c + dc, r),
        on_board(c + 2 * dc, r),
        piece_on(g, c + dc, r) is None,
        piece_on(g, c + 2 * dc, r) is None,
        s == square(c + 2 * dc, r),
{
    let r0 = ray(g, c, r, dc, 0, 0, 2, 2, false, color, stop);
    let r1 = ray(g, c, r, dc, 0, 1, 2, 2, false, color, stop);
    let r2 = ray(g, c, r, dc, 0, 2, 2, 2, false, color, stop);
    let r3 = ray(g, c, r, dc, 0, 3, 2, 2, false, color, stop);
    assert(r3 == Seq::<int>::empty());
    assert(0 * dc == 0 && 1 * dc == dc && 0 * 0 == 0 && 1 * 0 == 0 && 2 * 0 == 0);
    assert(r0 == r1 || r0 == Seq::<int>::empty());
    let w = choose|w: int| 0 <= w < r0.len() && r0[w] == s;
    assert(r0 == r1);
    assert(r1.len() > 0);
    assert(on_board(c + dc, r) && piece_on(g, c + dc, r) is None);
    assert(r1 == r2);
    assert(r2.len() > 0);
    assert(r2 == seq![square(c + 2 * dc, r)] + r3);
    assert(r2[0] == s);
}

/// A legal move by a default piece keeps a crucial piece of each colour on
/// the board, provided no crucial piece of the side not to move was
/// attacked: the moving piece never lands on its own side, lands on an
/// enemy only where it threatens, en passant removes a pawn, and castling
/// moves a rook onto a square the king has just passed. Every promotable
/// piece afterwards is the moved piece on its destination or stood where it
/// stood before, and only the move itself (not its effects) can make a
/// promotion pending.
#[verifier::rlimit(80)]
pub proof fn lemma_crucial_pieces_survive(g: GameView, from: (int, int), to: (int, int), color: Color)
    requires
        default_board(g),
        opponent_unattacked(g),
        legal_effects(g, from, to) is Some,
        has_crucial_of(g, color),
    ensures
        has_crucial_of(spec_execute(g, from, to, legal_effects(g, from, to)->0), color),
        has_crucial_of(spec_after_move(g, from, to, legal_effects(g, from, to)->0), color),
        forall|i: int|
            0 <= i < 64 && #[trigger] spec_execute(g, from, to, legal_effects(g, from, to)->0).board[i] is Some
                && spec_execute(g, from, to, legal_effects(g, from, to)->0).board[i]->0.can_promote ==> (i
                == square(to.0, to.1) && spec_execute(g, from, to, legal_effects(g, from, to)->0).board[i]
                == Some(moved_piece(piece_on(g, from.0, from.1)->0, g.turn_count))) || spec_execute(
                g,
                from,
                to,
                legal_effects(g, from, to)->0,
            ).board[i] == g.board[i],
        spec_execute(g, from, to, legal_effects(g, from, to)->0).game_state == spec_just_move(g, from, to).game_state,
        spec_execute(g, from, to, legal_effects(g, from, to)->0).board[square(to.0, to.1)] == Some(
            moved_piece(piece_on(g, from.0, from.1)->0, g.turn_count),
        ),
        spec_execute(g, from, to, legal_effects(g, from, to)->0).board[square(from.0, from.1)] is None,
{
    let c = from.0;
    let r = from.1;
    let p = piece_on(g, c, r)->0;
    let d = square(to.0, to.1);
    let effs = legal_effects(g, from, to)->0;
    let fsq = square(c, r);
    assert(on_board(c, r));
    assert(on_board(to.0, to.1));
    assert(g.board[fsq] == Some(p));
    assert(is_default_piece(p));
    lemma_default_wf(p.color, p.rank);
    assert(p.wf());
    let len = p.moves.len() as int;
    lemma_legal_upto_source(g, p, c, r, d, len);
    let k = choose|k: int| 0 <= k < len && #[trigger] prune_spec(g, p.moves[k], c, r)[d] == legal_upto(g, p, c, r, len)[d];
    let m = p.moves[k];
    assert(m.color == p.color);
    let stop = if m.safe_throughout { unsafe_for(g, m.color) } else { Set::empty() };
    let n = m.directions.len() as int;
    lemma_after_directions_source(g, m, c, r, stop, n, d);
    let (j, vi) = choose|j: int, vi: int|
        0 <= j < n && 0 <= vi < variants(m.mirror).len() && #[trigger] variant_reaches(g, m, c, r, stop, j, vi, d)
            && after_directions(g, m, c, r, stop, n)[d] == Some(
            mirrored_effects(m.effect, variants(m.mirror)[vi].0, variants(m.mirror)[vi].1),
        );
    let v = variants(m.mirror)[vi];
    let dir = m.directions[j];
    let dc = mirror_rel(dir.0, v.0);
    let dr = mirror_rel(dir.1, v.1);
    let min = m.minimum_slide as int;
    let max = m.max_steps();
    assert(requirements_hold(g, m.requirements, c, r, v.0, v.1));
    lemma_ray_lands_free(g, c, r, dc, dr, 0, min, max, m.can_capture, m.color, stop, d);
    assert(effs == mirrored_effects(m.effect, v.0, v.1));
    assert(d != fsq);
    let i0 = choose|i: int|
        0 <= i < 64 && #[trigger] g.board[i] is Some && g.board[i]->0.is_crucial && g.board[i]->0.color == color;
    if i0 == d {
        lemma_landing_is_threat(g, c, r, k, d);
        lemma_attacked_exists(g, color, d, 64);
        assert(g.board[fsq] is Some && g.board[fsq]->0.color != color && threats(g, fsq).contains(d));
        assert(attacked(g, color).contains(d));
        assert(false);
    }
    let moved = moved_piece(p, g.turn_count);
    let g1 = spec_just_move(g, from, to);
    assert(g1.board == g.board.update(d, Some(moved)).update(fsq, None));
    let h = spec_execute(g, from, to, effs);
    let witness = if i0 == fsq { d } else { i0 };
    if p.rank == 'p' && k == 3 {
        let st = m.requirements[0];
        assert(status_holds(g, st, c, r, v.0, v.1));
        let ex = c + mirror_rel(1i8, v.0);
        assert(v.1 == false);
        assert(status_square(st, c, r, v.0, v.1) == Some((ex, r)));
        let q = piece_on(g, ex, r)->0;
        assert(piece_on(g, ex, r) is Some && q.rank == 'p');
        let esq = square(ex, r);
        assert(g.board[esq] == Some(q));
        assert(q.is_crucial == false);
        assert(q.color != p.color);
        assert(esq != d && esq != fsq);
        assert(effs.len() == 1);
        assert(effs[0] == Effect::Capture(Position::Relative((if v.0 { neg_offset(1i8) } else { 1i8 }, 0i8))));
        assert(apply_effects(g1, from, effs, 0) == g1);
        assert(h == apply_effect(g1, from, effs[0]));
        assert(neg_offset(1i8) == -1i8);
        assert(Position::Relative((if v.0 { neg_offset(1i8) } else { 1i8 }, 0i8)).resolve(from) == (ex, r));
        assert(h == spec_capture(g1, (ex, r)));
        assert(h.board == g1.board.update(esq, None));
        assert(h.board[d] == Some(moved) && h.board[fsq] is None);
        assert(h.board[witness] is Some && h.board[witness]->0.is_crucial && h.board[witness]->0.color == color);
        assert(h.game_state == g1.game_state);
    } else if p.rank == 'K' && (k == 1 || k == 2) {
        let side: int = if k == 1 { 1 } else { -1 };
        let rook_at: int = if k == 1 { 3 } else { -4 };
        assert(vi == 0 && j == 0);
        assert(dc == side && dr == 0 && min == 2 && max == 2 && !m.can_capture);
        lemma_two_step_ray(g, c, r, side, m.color, stop, d);
        let st = m.requirements[1];
        assert(status_holds(g, st, c, r, v.0, v.1));
        assert(status_square(st, c, r, v.0, v.1) == Some((c + rook_at, r)));
        let q = piece_on(g, c + rook_at, r)->0;
        assert(piece_on(g, c + rook_at, r) is Some && q.rank == 'R');
        let rsq = square(c + rook_at, r);
        let psq = square(c + side, r);
        assert(g.board[rsq] == Some(q));
        assert(q.is_crucial == false);
        assert(rsq != d && rsq != fsq);
        assert(g.board[psq] is None);
        assert(psq != d && psq != fsq && psq != rsq);
        assert(effs.len() == 1);
        assert(effs[0] == Effect::Move(Position::Relative((rook_at as i8, 0i8)), Position::Relative((side as i8, 0i8))));
        assert(g1.board[rsq] == Some(q));
        assert(apply_effects(g1, from, effs, 0) == g1);
        assert(h == apply_effect(g1, from, effs[0]));
        assert(Position::Relative((rook_at as i8, 0i8)).resolve(from) == (c + rook_at, r));
        assert(Position::Relative((side as i8, 0i8)).resolve(from) == (c + side, r));
        assert(h == spec_just_move(g1, (c + rook_at, r), (c + side, r)));
        assert(h.board == g1.board.update(psq, Some(moved_piece(q, g1.turn_count))).update(rsq, None));
        assert(h.board[d] == Some(moved) && h.board[fsq] is None);
        assert(h.board[witness] is Some && h.board[witness]->0.is_crucial && h.board[witness]->0.color == color);
        assert(!q.can_promote);
        assert(h.game_state == g1.game_state);
    } else {
        assert(m.effect.len() == 0);
        assert(effs =~= Seq::<Effect>::empty());
        assert(h == g1);
        assert(h.board[witness] is Some && h.board[witness]->0.is_crucial && h.board[witness]->0.color == color);
    }
    assert(spec_after_move(g, from, to, effs).board == h.board);
}

proof fn lemma_zone_prefix_source(t: Table, cap: bool, c: int, r: int, n: int, s: int)
    requires
        zone_prefix(t, cap, c, r, n).contains(s),
    ensures
        exists|d: int| 0 <= d < n && #[trigger] entry_zone(t[d], d, cap, c, r).contains(s),
    decreases n,
{
    if n > 0 {
        if !entry_zone(t[n - 1], n - 1, cap, c, r).contains(s) {
            lemma_zone_prefix_source(t, cap, c, r, n - 1, s);
            let d = choose|d: int| 0 <= d < n - 1 && #[trigger] entry_zone(t[d], d, cap, c, r).contains(s);
            assert(entry_zone(t[d], d, cap, c, r).contains(s));
        }
    }
}

proof fn lemma_effects_zone_source(effs: Seq<Effect>, c: int, r: int, n: int, s: int)
    requires
        effects_zone(effs, c, r, n).contains(s),
    ensures
        exists|x: int| 0 <= x < n && #[trigger] effect_square(effs[x], c, r).contains(s),
    decreases n,
{
    if n > 0 {
        if !effect_square(effs[n - 1], c, r).contains(s) {
            lemma_effects_zone_source(effs, c, r, n - 1, s);
            let x = choose|x: int| 0 <= x < n - 1 && #[trigger] effect_square(effs[x], c, r).contains(s);
            assert(effect_square(effs[x], c, r).contains(s));
        }
    }
}

/// Of the default templates only en passant looks at when a piece last
/// moved, and what it threatens is a pawn, never a square holding a king.
#[verifier::rlimit(60)]
proof fn lemma_turn_conditions_spare_kings(g: GameView, q: PieceView, qc: int, qr: int, mi: int, u: Set<int>, k: int)
    requires
        g.board.len() == 64,
        is_default_piece(q),
        0 <= mi < q.moves.len(),
        !no_turn_conditions(q.moves[mi].requirements),
        0 <= k < 64,
        g.board[k] is Some,
        g.board[k]->0.rank == 'K',
    ensures
        !table_zone(prune_with(g, q.moves[mi], qc, qr, u), q.moves[mi].can_capture, qc, qr).contains(k),
{
    let m = q.moves[mi];
    if q.rank != 'p' || mi != 3 {
        assert(no_turn_conditions(m.requirements)) by {
            if q.rank == 'K' {
                assert(mi == 0 || mi == 1 || mi == 2);
            } else if q.rank == 'p' {
                assert(mi == 0 || mi == 1 || mi == 2);
            } else {
                assert(mi == 0);
            }
        }
    }
    assert(q.rank == 'p' && mi == 3);
    assert(!m.can_capture && !m.safe_throughout);
    let stop = Set::<int>::empty();
    let n = m.directions.len() as int;
    let t = prune_with(g, m, qc, qr, u);
    assert(t == after_directions(g, m, qc, qr, stop, n));
    if table_zone(t, false, qc, qr).contains(k) {
        lemma_zone_prefix_source(t, false, qc, qr, 64, k);
        let d = choose|d: int| 0 <= d < 64 && #[trigger] entry_zone(t[d], d, false, qc, qr).contains(k);
        assert(t[d] is Some);
        let e = t[d]->0;
        lemma_effects_zone_source(e, qc, qr, e.len() as int, k);
        let x = choose|x: int| 0 <= x < e.len() && #[trigger] effect_square(e[x], qc, qr).contains(k);
        lemma_after_directions_source(g, m, qc, qr, stop, n, d);
        let (j, vi) = choose|j: int, vi: int|
            0 <= j < n && 0 <= vi < variants(m.mirror).len() && #[trigger] variant_reaches(g, m, qc, qr, stop, j, vi, d)
                && after_directions(g, m, qc, qr, stop, n)[d] == Some(
                mirrored_effects(m.effect, variants(m.mirror)[vi].0, variants(m.mirror)[vi].1),
            );
        let v = variants(m.mirror)[vi];
        assert(v.1 == false);
        assert(requirements_hold(g, m.requirements, qc, qr, v.0, v.1));
        let st = m.requirements[0];
        assert(status_holds(g, st, qc, qr, v.0, v.1));
        let ex = qc + mirror_rel(1i8, v.0);
        assert(status_square(st, qc, qr, v.0, v.1) == Some((ex, qr)));
        assert(piece_on(g, ex, qr) is Some && piece_on(g, ex, qr)->0.rank == 'p');
        assert(e.len() == 1 && x == 0);
        assert(neg_offset(1i8) == -1i8);
        assert(e[0] == Effect::Capture(Position::Relative((if v.0 { neg_offset(1i8) } else { 1i8 }, 0i8))));
        assert(effect_square(e[0], qc, qr) == set![square(ex, qr)]);
        assert(k == square(ex, qr));
        assert(false);
    }
}

proof fn lemma_zone_transfer(g: GameView, h: GameView, q: PieceView, qc: int, qr: int, n: int, k: int)
    requires
        g.board == h.board,
        g.board.len() == 64,
        is_default_piece(q),
        0 <= n <= q.moves.len(),
        0 <= k < 64,
        g.board[k] is Some,
        g.board[k]->0.rank == 'K',
    ensures
        zone_upto(g, q, qc, qr, Set::empty(), Set::empty(), n).contains(k) == zone_upto(
            h,
            q,
            qc,
            qr,
            Set::empty(),
            Set::empty(),
            n,
        ).contains(k),
    decreases n,
{
    if n > 0 {
        lemma_zone_transfer(g, h, q, qc, qr, n - 1, k);
        let m = q.moves[n - 1];
        let u = unsafe_of(m.color, Set::<int>::empty(), Set::<int>::empty());
        if no_turn_conditions(m.requirements) {
            let stop = if m.safe_throughout { u } else { Set::empty() };
            lemma_after_directions_same(g, h, m, qc, qr, stop, m.directions.len() as int);
        } else {
            lemma_turn_conditions_spare_kings(g, q, qc, qr, n - 1, u, k);
            lemma_turn_conditions_spare_kings(h, q, qc, qr, n - 1, u, k);
        }
    }
}

/// On one board, whether a square holding a king is attacked does not
/// depend on the side to move or the turn counter (default pieces).
proof fn lemma_attacked_transfer(g: GameView, h: GameView, color: Color, k: int)
    requires
        g.board == h.board,
        default_board(g),
        0 <= k < 64,
        g.board[k] is Some,
        g.board[k]->0.rank == 'K',
    ensures
        attacked(g, color).contains(k) == attacked(h, color).contains(k),
{
    assert forall|i: int| 0 <= i < 64 && #[trigger] g.board[i] is Some implies threats(g, i).contains(k) == threats(
        h,
        i,
    ).contains(k) by {
        let q = g.board[i]->0;
        lemma_zone_transfer(g, h, q, file_of(i), rank_of(i), q.moves.len() as int, k);
    }
    lemma_attacked_exists(g, color, k, 64);
    lemma_attacked_exists(h, color, k, 64);
    if attacked(g, color).contains(k) {
        let i = choose|i: int|
            0 <= i < 64 && #[trigger] g.board[i] is Some && g.board[i]->0.color != color && threats(g, i).contains(k);
        assert(h.board[i] is Some && threats(h, i).contains(k));
    }
    if attacked(h, color).contains(k) {
        let i = choose|i: int|
            0 <= i < 64 && #[trigger] h.board[i] is Some && h.board[i]->0.color != color && threats(h, i).contains(k);
        assert(g.board[i] is Some && threats(g, i).contains(k));
    }
}

/// The side whose crucial pieces must not be attacked: the side to move
/// while it still has to promote, the other side otherwise.
pub open spec fn guarded_side(g: GameView) -> Color {
    if g.game_state == GameState::Promote {
        g.turn_owner
    } else {
        g.turn_owner.spec_opposite()
    }
}

/// Whether no crucial piece of the guarded side is attacked.
pub open spec fn guard_holds(g: GameView) -> bool {
    forall|i: int|
        0 <= i < 64 && #[trigger] g.board[i] is Some && g.board[i]->0.is_crucial && g.board[i]->0.color
            == guarded_side(g) ==> !attacked(g, guarded_side(g)).contains(i)
}

/// Whether a pawn waits on its far rank only while a promotion is pending,
/// and only for the side to move.
pub open spec fn promotions_in_order(g: GameView) -> bool {
    forall|i: int|
        0 <= i < 64 && #[trigger] g.board[i] is Some && g.board[i]->0.can_promote && rank_of(i)
            == g.board[i]->0.far_rank() ==> g.game_state == GameState::Promote && g.board[i]->0.color
            == g.turn_owner
}

/// A game of default pieces with a crucial piece of each colour, in which
/// the side that just moved did not leave a crucial piece attacked and
/// promotions are resolved in turn.
pub open spec fn sound_game(g: GameView) -> bool {
    &&& default_board(g)
    &&& has_crucial_of(g, Color::White)
    &&& has_crucial_of(g, Color::Black)
    &&& guard_holds(g)
    &&& promotions_in_order(g)
}

proof fn lemma_no_pending(g: GameView, r: int, color: Color, c0: int, c: int)
    requires
        first_promotable(g, r, color, c0) is None,
        0 <= c0 <= c < 8,
    ensures
        !promotable_at(g, c, r, color),
    decreases c - c0,
{
    if c0 < c {
        lemma_no_pending(g, r, color, c0 + 1, c);
    }
}

proof fn lemma_square_of_index(i: int)
    requires
        0 <= i < 64,
    ensures
        on_board(file_of(i), rank_of(i)),
        square(file_of(i), rank_of(i)) == i,
{
    assert(0 <= i % 8 < 8 && 0 <= i / 8 < 8 && i % 8 + 8 * (i / 8) == i) by (nonlinear_arith)
        requires
            0 <= i < 64,
    ;
}

proof fn lemma_default_just_move(g: GameView, a: (int, int), b: (int, int))
    requires
        default_board(g),
    ensures
        default_board(spec_just_move(g, a, b)),
{
}

proof fn lemma_default_effects(g: GameView, from: (int, int), effs: Seq<Effect>, n: int)
    requires
        default_board(g),
    ensures
        default_board(apply_effects(g, from, effs, n)),
    decreases n,
{
    if n > 0 {
        lemma_default_effects(g, from, effs, n - 1);
        let h = apply_effects(g, from, effs, n - 1);
        match effs[n - 1] {
            Effect::Capture(p) => {},
            Effect::Move(a, b) => {
                lemma_default_just_move(h, a.resolve(from), b.resolve(from));
            },
        }
    }
}

/// Every legal move keeps a game sound. A sound game has a crucial piece of
/// each colour, so no game reached by legal moves from a sound game loses
/// one.
#[verifier::rlimit(60)]
pub proof fn lemma_move_keeps_sound(g: GameView, from: (int, int), to: (int, int))
    requires
        sound_game(g),
        legal_effects(g, from, to) is Some,
    ensures
        sound_game(spec_after_move(g, from, to, legal_effects(g, from, to)->0)),
{
    let effs = legal_effects(g, from, to)->0;
    let c = from.0;
    let r = from.1;
    let p = piece_on(g, c, r)->0;
    let mover = g.turn_owner;
    assert(p.color == mover);
    assert(opponent_unattacked(g)) by {
        assert forall|i: int|
            0 <= i < 64 && #[trigger] g.board[i] is Some && g.board[i]->0.is_crucial && g.board[i]->0.color
                != g.turn_owner implies !attacked(g, g.board[i]->0.color).contains(i) by {
            assert(g.board[i]->0.color == guarded_side(g));
        }
    }
    lemma_crucial_pieces_survive(g, from, to, Color::White);
    lemma_crucial_pieces_survive(g, from, to, Color::Black);
    let g1 = spec_just_move(g, from, to);
    let sim = spec_execute(g, from, to, effs);
    lemma_default_just_move(g, from, to);
    lemma_default_effects(g1, from, effs, effs.len() as int);
    lemma_execute_same(g, g, from, effs, effs.len() as int, to);
    assert(sim.turn_owner == mover);
    let d = square(to.0, to.1);
    lemma_file_rank(to.0, to.1);
    lemma_moves_keep_crucial_safe(g, p, c, r, d);
    assert(crucial_safe(sim, mover));
    let after = spec_after_move(g, from, to, effs);
    assert forall|i: int|
        0 <= i < 64 && #[trigger] after.board[i] is Some && after.board[i]->0.is_crucial && after.board[i]->0.color
            == guarded_side(after) implies !attacked(after, guarded_side(after)).contains(i) by {
        assert(guarded_side(after) == mover);
        lemma_square_of_index(i);
        assert(sim.board[i] is Some && sim.board[i]->0.is_crucial && sim.board[i]->0.color == mover);
        assert(is_safe(sim, file_of(i), rank_of(i), mover));
        assert(!attacked(sim, mover).contains(i));
        assert(sim.board[i]->0.rank == 'K');
        lemma_attacked_transfer(sim, after, mover, i);
    }
    assert forall|i: int|
        0 <= i < 64 && #[trigger] after.board[i] is Some && after.board[i]->0.can_promote && rank_of(i)
            == after.board[i]->0.far_rank() implies after.game_state == GameState::Promote
            && after.board[i]->0.color == after.turn_owner by {
        assert(after.board[i] == sim.board[i]);
        if sim.board[i] == g.board[i] {
            assert(g.game_state == GameState::Promote);
        } else {
            assert(i == d && sim.board[i] == Some(moved_piece(p, g.turn_count)));
            assert(p.can_promote && to.1 == p.far_rank());
            assert(g1.game_state == GameState::Promote);
            assert(after == sim);
        }
    }
}

/// Whether two 64-square boards hold pieces on the same squares, with the
/// same colours.
spec fn same_colours(g: GameView, h: GameView) -> bool {
    &&& g.board.len() == 64
    &&& h.board.len() == 64
    &&& forall|i: int|
        0 <= i < 64 ==> (#[trigger] g.board[i] is Some == h.board[i] is Some) && (g.board[i] is Some
            ==> g.board[i]->0.color == h.board[i]->0.color)
}

proof fn lemma_ray_colours(
    g: GameView,
    h: GameView,
    c: int,
    r: int,
    dc: int,
    dr: int,
    i: int,
    min: int,
    max: int,
    cap: bool,
    color: Color,
    stop: Set<int>,
)
    requires
        same_colours(g, h),
    ensures
        ray(g, c, r, dc, dr, i, min, max, cap, color, stop) == ray(h, c, r, dc, dr, i, min, max, cap, color, stop),
    decreases max + 1 - i,
{
    if 0 <= i <= max {
        let x = c + i * dc;
        let y = r + i * dr;
        if on_board(x, y) {
            assert(g.board[square(x, y)] is Some == h.board[square(x, y)] is Some);
        }
        lemma_ray_colours(g, h, c, r, dc, dr, i + 1, min, max, cap, color, stop);
    }
}

proof fn lemma_after_variants_eq(
    g: GameView,
    h: GameView,
    m: MoveView,
    c: int,
    r: int,
    d: (i8, i8),
    stop: Set<int>,
    t: Table,
    n: int,
)
    requires
        n <= variants(m.mirror).len(),
        same_colours(g, h),
        forall|vi: int|
            0 <= vi < variants(m.mirror).len() ==> requirements_hold(
                g,
                m.requirements,
                c,
                r,
                (#[trigger] variants(m.mirror)[vi]).0,
                variants(m.mirror)[vi].1,
            ) == requirements_hold(h, m.requirements, c, r, variants(m.mirror)[vi].0, variants(m.mirror)[vi].1),
    ensures
        after_variants(g, m, c, r, d, stop, t, n) == after_variants(h, m, c, r, d, stop, t, n),
    decreases n,
{
    if n > 0 {
        lemma_after_variants_eq(g, h, m, c, r, d, stop, t, n - 1);
        let v = variants(m.mirror)[n - 1];
        if n - 1 < variants(m.mirror).len() {
            assert(requirements_hold(g, m.requirements, c, r, v.0, v.1) == requirements_hold(h, m.requirements, c, r, v.0, v.1));
        }
        lemma_ray_colours(
            g,
            h,
            c,
            r,
            mirror_rel(d.0, v.0),
            mirror_rel(d.1, v.1),
            0,
            m.minimum_slide as int,
            m.max_steps(),
            m.can_capture,
            m.color,
            stop,
        );
    }
}

proof fn lemma_after_directions_eq(g: GameView, h: GameView, m: MoveView, c: int, r: int, stop: Set<int>, n: int)
    requires
        same_colours(g, h),
        forall|vi: int|
            0 <= vi < variants(m.mirror).len() ==> requirements_hold(
                g,
                m.requirements,
                c,
                r,
                (#[trigger] variants(m.mirror)[vi]).0,
                variants(m.mirror)[vi].1,
            ) == requirements_hold(h, m.requirements, c, r, variants(m.mirror)[vi].0, variants(m.mirror)[vi].1),
    ensures
        after_directions(g, m, c, r, stop, n) == after_directions(h, m, c, r, stop, n),
    decreases n,
{
    if n > 0 {
        lemma_after_directions_eq(g, h, m, c, r, stop, n - 1);
        lemma_after_variants_eq(
            g,
            h,
            m,
            c,
            r,
            m.directions[n - 1],
            stop,
            after_directions(g, m, c, r, stop, n - 1),
            variants(m.mirror).len() as int,
        );
    }
}

/// The board after the piece on `at` is replaced by `np`.
spec fn replaced(g: GameView, at: int, np: PieceView) -> GameView {
    GameView { board: g.board.update(at, Some(np)), ..g }
}

/// Whether `np` may replace the piece on `at` without any enemy condition
/// telling them apart: same colour and history, on the far rank of a pawn.
spec fn quiet_replacement(g: GameView, at: int, np: PieceView) -> bool {
    &&& g.board.len() == 64
    &&& 0 <= at < 64
    &&& g.board[at] is Some
    &&& g.board[at]->0.color == np.color
    &&& g.board[at]->0.times_moved == np.times_moved
    &&& g.board[at]->0.last_moved == np.last_moved
    &&& rank_of(at) == (if np.color == Color::White { 7int } else { 0int })
}

#[verifier::rlimit(80)]
proof fn lemma_requirement_quiet(g: GameView, at: int, np: PieceView, q: PieceView, qc: int, qr: int, mi: int, kk: int, fh: bool, fv: bool)
    requires
        quiet_replacement(g, at, np),
        is_default_piece(q),
        q.color != np.color,
        on_board(qc, qr),
        square(qc, qr) != at,
        0 <= mi < q.moves.len(),
        0 <= kk < q.moves[mi].requirements.len(),
        fv == false || q.rank != 'p',
    ensures
        status_holds(g, q.moves[mi].requirements[kk], qc, qr, fh, fv) == status_holds(
            replaced(g, at, np),
            q.moves[mi].requirements[kk],
            qc,
            qr,
            fh,
            fv,
        ),
{
    let h = replaced(g, at, np);
    let st = q.moves[mi].requirements[kk];
    lemma_square_of_index(at);
    match status_square(st, qc, qr, fh, fv) {
        None => {},
        Some((x, y)) => {
            if on_board(x, y) && square(x, y) == at {
                lemma_square_inj(x, y, file_of(at), rank_of(at));
                if q.rank == 'p' {
                    if mi == 1 {
                        assert(x == qc && y == qr);
                    } else if mi == 3 {
                        assert(y == qr && y == en_passant_rank(q.color));
                        assert(false);
                    } else {
                        assert(mi == 2);
                    }
                } else if q.rank == 'K' {
                    assert(mi == 1 || mi == 2);
                } else {
                    assert(false);
                }
            } else {
                assert(piece_on(g, x, y) == piece_on(h, x, y));
            }
        },
    }
}

proof fn lemma_prune_quiet(g: GameView, at: int, np: PieceView, q: PieceView, qc: int, qr: int, mi: int)
    requires
        quiet_replacement(g, at, np),
        is_default_piece(q),
        q.color != np.color,
        on_board(qc, qr),
        square(qc, qr) != at,
        0 <= mi < q.moves.len(),
    ensures
        prune_with(g, q.moves[mi], qc, qr, Set::empty()) == prune_with(replaced(g, at, np), q.moves[mi], qc, qr, Set::empty()),
{
    let h = replaced(g, at, np);
    let m = q.moves[mi];
    assert(same_colours(g, h));
    assert forall|vi: int| 0 <= vi < variants(m.mirror).len() implies requirements_hold(
        g,
        m.requirements,
        qc,
        qr,
        (#[trigger] variants(m.mirror)[vi]).0,
        variants(m.mirror)[vi].1,
    ) == requirements_hold(h, m.requirements, qc, qr, variants(m.mirror)[vi].0, variants(m.mirror)[vi].1) by {
        let fh = variants(m.mirror)[vi].0;
        let fv = variants(m.mirror)[vi].1;
        if q.rank == 'p' {
            assert(m.mirror is None || m.mirror == Some(Mirror::Horizontally));
            assert(fv == false);
        }
        assert forall|kk: int| 0 <= kk < m.requirements.len() implies #[trigger] status_holds(g, m.requirements[kk], qc, qr, fh, fv)
            == status_holds(h, m.requirements[kk], qc, qr, fh, fv) by {
            lemma_requirement_quiet(g, at, np, q, qc, qr, mi, kk, fh, fv);
        }
        if requirements_hold(g, m.requirements, qc, qr, fh, fv) {
            assert forall|kk: int| 0 <= kk < m.requirements.len() implies #[trigger] status_holds(h, m.requirements[kk], qc, qr, fh, fv) by {
                assert(status_holds(g, m.requirements[kk], qc, qr, fh, fv));
            }
        }
        if requirements_hold(h, m.requirements, qc, qr, fh, fv) {
            assert forall|kk: int| 0 <= kk < m.requirements.len() implies #[trigger] status_holds(g, m.requirements[kk], qc, qr, fh, fv) by {
                assert(status_holds(h, m.requirements[kk], qc, qr, fh, fv));
            }
        }
    }
    lemma_after_directions_eq(g, h, m, qc, qr, Set::empty(), m.directions.len() as int);
}

proof fn lemma_zone_quiet(g: GameView, at: int, np: PieceView, q: PieceView, qc: int, qr: int, n: int)
    requires
        quiet_replacement(g, at, np),
        is_default_piece(q),
        q.color != np.color,
        on_board(qc, qr),
        square(qc, qr) != at,
        0 <= n <= q.moves.len(),
    ensures
        zone_upto(g, q, qc, qr, Set::empty(), Set::empty(), n) == zone_upto(
            replaced(g, at, np),
            q,
            qc,
            qr,
            Set::empty(),
            Set::empty(),
            n,
        ),
    decreases n,
{
    if n > 0 {
        lemma_zone_quiet(g, at, np, q, qc, qr, n - 1);
        lemma_prune_quiet(g, at, np, q, qc, qr, n - 1);
        assert(unsafe_of(q.moves[n - 1].color, Set::<int>::empty(), Set::<int>::empty()) == Set::<int>::empty());
    }
}

proof fn lemma_attacked_quiet(g: GameView, at: int, np: PieceView, n: int)
    requires
        quiet_replacement(g, at, np),
        default_board(g),
        0 <= n <= 64,
    ensures
        attacked_upto(g, np.color, n) == attacked_upto(replaced(g, at, np), np.color, n),
    decreases n,
{
    if n > 0 {
        lemma_attacked_quiet(g, at, np, n - 1);
        let j = n - 1;
        if j != at {
            if let Some(q) = g.board[j] {
                if q.color != np.color {
                    lemma_square_of_index(j);
                    lemma_zone_quiet(g, at, np, q, file_of(j), rank_of(j), q.moves.len() as int);
                }
            }
        }
    }
}

/// Every promotion keeps a game sound.
#[verifier::rlimit(60)]
pub proof fn lemma_promotion_keeps_sound(g: GameView, pos: (int, int), rank: char)
    requires
        sound_game(g),
        promotion_allowed(g, pos, rank),
    ensures
        sound_game(spec_after_promotion(g, pos, rank)),
{
    let at = square(pos.0, pos.1);
    let pawn = piece_on(g, pos.0, pos.1)->0;
    let np = promoted_piece(pawn, rank);
    let owner = g.turn_owner;
    assert(on_board(pos.0, pos.1));
    lemma_file_rank(pos.0, pos.1);
    assert(g.board[at] == Some(pawn));
    assert(pawn.rank == 'p');
    assert(pawn.color == owner);
    assert(quiet_replacement(g, at, np));
    let g1 = replaced(g, at, np);
    assert(g1 == (GameView { board: g.board.update(at, Some(promoted_piece(pawn, rank))), ..g }));
    assert(is_default_piece(np));
    assert(default_board(g1));
    assert(has_crucial_of(g1, Color::White)) by {
        let i = choose|i: int|
            0 <= i < 64 && #[trigger] g.board[i] is Some && g.board[i]->0.is_crucial && g.board[i]->0.color == Color::White;
        assert(g1.board[i] == g.board[i]);
    }
    assert(has_crucial_of(g1, Color::Black)) by {
        let i = choose|i: int|
            0 <= i < 64 && #[trigger] g.board[i] is Some && g.board[i]->0.is_crucial && g.board[i]->0.color == Color::Black;
        assert(g1.board[i] == g.board[i]);
    }
    lemma_attacked_quiet(g, at, np, 64);
    assert(attacked(g, owner) == attacked(g1, owner));
    let after = spec_after_promotion(g, pos, rank);
    if pending_promotion(g1) is None {
        let g2 = GameView { game_state: GameState::Running, ..g1 };
        lemma_attacked_same(g1, g2, owner, 64);
        assert(after == spec_increment_turn(g2));
        assert(after.board == g1.board);
        assert(guarded_side(after) == owner);
        assert forall|i: int|
            0 <= i < 64 && #[trigger] after.board[i] is Some && after.board[i]->0.is_crucial && after.board[i]->0.color
                == guarded_side(after) implies !attacked(after, guarded_side(after)).contains(i) by {
            assert(g.board[i] == g1.board[i]);
            assert(!attacked(g, owner).contains(i));
            lemma_attacked_transfer(g2, after, owner, i);
        }
        assert forall|i: int|
            0 <= i < 64 && #[trigger] after.board[i] is Some && after.board[i]->0.can_promote && rank_of(i)
                == after.board[i]->0.far_rank() implies after.game_state == GameState::Promote
                && after.board[i]->0.color == after.turn_owner by {
            let q = after.board[i]->0;
            lemma_square_of_index(i);
            assert(g1.board[i] == Some(q));
            assert(piece_on(g1, file_of(i), rank_of(i)) == Some(q));
            if q.color == Color::White {
                lemma_no_pending(g1, 7, Color::White, 0, file_of(i));
            } else {
                assert(first_promotable(g1, 7, Color::White, 0) is None);
                lemma_no_pending(g1, 0, Color::Black, 0, file_of(i));
            }
        }
    } else {
        assert(after == g1);
        assert(guarded_side(after) == owner);
        assert forall|i: int|
            0 <= i < 64 && #[trigger] after.board[i] is Some && after.board[i]->0.is_crucial && after.board[i]->0.color
                == guarded_side(after) implies !attacked(after, guarded_side(after)).contains(i) by {
            assert(g.board[i] == g1.board[i]);
        }
        assert forall|i: int|
            0 <= i < 64 && #[trigger] after.board[i] is Some && after.board[i]->0.can_promote && rank_of(i)
                == after.board[i]->0.far_rank() implies after.game_state == GameState::Promote
                && after.board[i]->0.color == after.turn_owner by {
            assert(i != at);
            assert(g.board[i] == g1.board[i]);
        }
    }
}

/// Whether `s` is the square `t` steps from `(c, r)` along `(dc, dr)`.
spec fn at_step(s: int, c: int, r: int, dc: int, dr: int, t: int) -> bool {
    on_board(c + t * dc, r + t * dr) && s == square(c + t * dc, r + t * dr)
}

proof fn lemma_ray_shape(
    g: GameView,
    c: int,
    r: int,
    dc: int,
    dr: int,
    i: int,
    min: int,
    max: int,
    cap: bool,
    color: Color,
    stop: Set<int>,
    s: int,
)
    requires
        i >= 0,
        ray(g, c, r, dc, dr, i, min, max, cap, color, stop).contains(s),
    ensures
        exists|t: int|
            i <= t <= max && #[trigger] at_step(s, c, r, dc, dr, t) && (i <= 1 && t > 1 ==> on_board(c + dc, r + dr)
                && piece_on(g, c + dc, r + dr) is None),
    decreases max + 1 - i,
{
    let q = ray(g, c, r, dc, dr, i, min, max, cap, color, stop);
    let next = ray(g, c, r, dc, dr, i + 1, min, max, cap, color, stop);
    let x = c + i * dc;
    let y = r + i * dr;
    let w = choose|w: int| 0 <= w < q.len() && q[w] == s;
    assert(0 <= i <= max && on_board(x, y) && !stop.contains(square(x, y)));
    if w == 0 && q[0] == square(x, y) && (piece_on(g, x, y) is Some ==> i > 0) && (piece_on(g, x, y) is None ==> i >= min) {
        assert(at_step(s, c, r, dc, dr, i));
    } else {
        assert(next.contains(s)) by {
            match piece_on(g, x, y) {
                None => if i >= min {
                    assert(next[w - 1] == s);
                },
                Some(p) => {},
            }
        }
        lemma_ray_shape(g, c, r, dc, dr, i + 1, min, max, cap, color, stop, s);
        let t = choose|t: int|
            i + 1 <= t <= max && #[trigger] at_step(s, c, r, dc, dr, t) && (i + 1 <= 1 && t > 1 ==> on_board(
                c + dc,
                r + dr,
            ) && piece_on(g, c + dc, r + dr) is None);
        if i == 1 {
            assert(piece_on(g, x, y) is None);
            assert(1 * dc == dc && 1 * dr == dr);
        }
        assert(at_step(s, c, r, dc, dr, t));
    }
}

/// Whether template `k` of `p` at `(c, r)` threatens `s`.
spec fn template_threatens(g: GameView, p: PieceView, c: int, r: int, uw: Set<int>, ub: Set<int>, k: int, s: int) -> bool {
    table_zone(
        prune_with(g, p.moves[k], c, r, unsafe_of(p.moves[k].color, uw, ub)),
        p.moves[k].can_capture,
        c,
        r,
    ).contains(s)
}

proof fn lemma_zone_upto_source(g: GameView, p: PieceView, c: int, r: int, uw: Set<int>, ub: Set<int>, n: int, s: int)
    requires
        zone_upto(g, p, c, r, uw, ub, n).contains(s),
    ensures
        exists|k: int| 0 <= k < n && #[trigger] template_threatens(g, p, c, r, uw, ub, k, s),
    decreases n,
{
    if n > 0 {
        if !template_threatens(g, p, c, r, uw, ub, n - 1, s) {
            lemma_zone_upto_source(g, p, c, r, uw, ub, n - 1, s);
            let k = choose|k: int| 0 <= k < n - 1 && #[trigger] template_threatens(g, p, c, r, uw, ub, k, s);
            assert(template_threatens(g, p, c, r, uw, ub, k, s));
        }
    }
}

/// A White piece of the starting ranks, behind a full row of pieces on rank 1,
/// does not threaten square (4, 7).
#[verifier::rlimit(100)]
proof fn lemma_back_ranks_spare(g: GameView, q: PieceView, c: int, r: int, k: int)
    requires
        g.board.len() == 64,
        is_default_piece(q),
        q.color == Color::White,
        on_board(c, r),
        r <= 1,
        (q.rank == 'p') == (r == 1),
        forall|x: int| 0 <= x < 8 ==> #[trigger] g.board[square(x, 1)] is Some,
        0 <= k < q.moves.len(),
    ensures
        !template_threatens(g, q, c, r, Set::empty(), Set::empty(), k, square(4, 7)),
{
    let m = q.moves[k];
    let target = square(4, 7);
    let u = unsafe_of(m.color, Set::<int>::empty(), Set::<int>::empty());
    assert(u == Set::<int>::empty());
    let stop = Set::<int>::empty();
    let n = m.directions.len() as int;
    let t = prune_with(g, m, c, r, u);
    assert(t == after_directions(g, m, c, r, stop, n));
    if template_threatens(g, q, c, r, Set::empty(), Set::empty(), k, target) {
        lemma_zone_prefix_source(t, m.can_capture, c, r, 64, target);
        let d = choose|d: int| 0 <= d < 64 && #[trigger] entry_zone(t[d], d, m.can_capture, c, r).contains(target);
        assert(t[d] is Some);
        let e = t[d]->0;
        lemma_after_directions_source(g, m, c, r, stop, n, d);
        let (j, vi) = choose|j: int, vi: int|
            0 <= j < n && 0 <= vi < variants(m.mirror).len() && #[trigger] variant_reaches(g, m, c, r, stop, j, vi, d)
                && after_directions(g, m, c, r, stop, n)[d] == Some(
                mirrored_effects(m.effect, variants(m.mirror)[vi].0, variants(m.mirror)[vi].1),
            );
        let v = variants(m.mirror)[vi];
        let dir = m.directions[j];
        let dc = mirror_rel(dir.0, v.0);
        let dr = mirror_rel(dir.1, v.1);
        if m.can_capture && d == target {
            assert(requirements_hold(g, m.requirements, c, r, v.0, v.1));
            lemma_ray_shape(g, c, r, dc, dr, 0, m.minimum_slide as int, m.max_steps(), m.can_capture, m.color, stop, d);
            let st = choose|st: int|
                0 <= st <= m.max_steps() && #[trigger] at_step(d, c, r, dc, dr, st) && (0 <= 1 && st > 1 ==> on_board(
                    c + dc,
                    r + dr,
                ) && piece_on(g, c + dc, r + dr) is None);
            lemma_square_inj(c + st * dc, r + st * dr, 4, 7);
            assert(r + st * dr == 7);
            if q.rank == 'p' {
                assert(k == 0 || k == 1 || k == 2 || k == 3);
                assert(dr == 1 && m.max_steps() <= 2);
                assert(r + st * dr <= 3) by (nonlinear_arith)
                    requires
                        r == 1,
                        dr == 1,
                        st <= 2,
                ;
            } else if q.rank == 'N' {
                assert(k == 0 && m.max_steps() == 1);
                assert(-2 <= dr <= 2);
                assert(r + st * dr <= 2) by (nonlinear_arith)
                    requires
                        r == 0,
                        -2 <= dr <= 2,
                        0 <= st <= 1,
                ;
            } else if q.rank == 'K' {
                assert(k == 0 || k == 1 || k == 2);
                if k == 0 {
                    assert(m.max_steps() == 1 && -1 <= dr <= 1);
                    assert(r + st * dr <= 1) by (nonlinear_arith)
                        requires
                            r == 0,
                            -1 <= dr <= 1,
                            0 <= st <= 1,
                    ;
                } else {
                    assert(dr == 0);
                    assert(st * dr == 0) by (nonlinear_arith)
                        requires
                            dr == 0,
                    ;
                }
            } else {
                assert(k == 0 && -1 <= dr <= 1 && r == 0);
                assert(dr == 1 && st == 7) by (nonlinear_arith)
                    requires
                        -1 <= dr <= 1,
                        r + st * dr == 7,
                        r == 0,
                        0 <= st <= 8,
                ;
                assert(on_board(c + dc, r + dr) && piece_on(g, c + dc, r + dr) is None);
                assert(g.board[square(c + dc, 1)] is Some);
            }
        } else {
            assert(effects_zone(e, c, r, e.len() as int).contains(target));
            lemma_effects_zone_source(e, c, r, e.len() as int, target);
            let x = choose|x: int| 0 <= x < e.len() && #[trigger] effect_square(e[x], c, r).contains(target);
            if q.rank == 'p' && k == 3 {
                assert(e.len() == 1 && x == 0);
                assert(neg_offset(1i8) == -1i8);
                assert(e[0] == Effect::Capture(Position::Relative((if v.0 { neg_offset(1i8) } else { 1i8 }, 0i8))));
                let ex = c + mirror_rel(1i8, v.0);
                assert(effect_square(e[0], c, r).contains(target));
                assert(on_board(ex, r) && target == square(ex, r));
                lemma_square_inj(ex, r, 4, 7);
            } else if q.rank == 'K' && (k == 1 || k == 2) {
                assert(e.len() == 1);
                assert(e[0] is Move);
            } else {
                if q.rank == 'p' {
                    assert(k == 0 || k == 1 || k == 2);
                } else if q.rank == 'K' {
                    assert(k == 0);
                } else {
                    assert(k == 0);
                }
                assert(m.effect.len() == 0);
                assert(e.len() == 0);
            }
        }
    }
}

proof fn lemma_new_piece_default(color: Color, rank: char)
    requires
        is_known_rank(rank),
    ensures
        is_default_piece(spec_new_piece(color, rank)),
        spec_new_piece(color, rank).rank == rank,
        spec_new_piece(color, rank).color == color,
{
}

proof fn lemma_standard_layout(i: int)
    requires
        0 <= i < 64,
    ensures
        standard_template()[i] == 'p' <==> (8 <= i < 16 || 48 <= i < 56),
        standard_template()[i] == 'K' <==> (i == 4 || i == 60),
        standard_template()[i] == '0' <==> (16 <= i < 48),
        is_known_rank(standard_template()[i]) || standard_template()[i] == '0',
        is_white_square(STANDARD_WHITE_MAP, i) <==> i < 16,
        8 <= i < 16 ==> rank_of(i) == 1,
        48 <= i < 56 ==> rank_of(i) == 6,
        i < 16 ==> rank_of(i) <= 1,
{
    let t = standard_template();
    assert(t.len() == 64);
    let b = i as u64;
    assert((0xFFFFu64 >> b) & 1u64 == 1u64 <==> b < 16) by (bit_vector)
        requires
            b < 64,
    ;
    assert(8 <= i < 16 ==> i / 8 == 1);
    assert(48 <= i < 56 ==> i / 8 == 6);
    assert(i < 16 ==> i / 8 <= 1);
    if i < 8 {
        assert(i == 0 || i == 1 || i == 2 || i == 3 || i == 4 || i == 5 || i == 6 || i == 7);
    } else if i < 16 {
        assert(t[i] == 'p');
    } else if i < 48 {
        assert(t[i] == '0');
    } else if i < 56 {
        assert(t[i] == 'p');
    } else {
        assert(i == 56 || i == 57 || i == 58 || i == 59 || i == 60 || i == 61 || i == 62 || i == 63);
    }
}

/// The standard starting position is sound: with the laws above, no game
/// reached from it by legal moves and promotions ever lacks a crucial
/// piece of either colour.
#[verifier::rlimit(60)]
pub proof fn lemma_standard_sound()
    ensures
        sound_game(standard_game()),
{
    let g = standard_game();
    let t = standard_template();
    assert(g.board.len() == 64);
    assert forall|i: int| 0 <= i < 64 implies (#[trigger] g.board[i] is Some <==> t[i] != '0') && (g.board[i] is Some
        ==> g.board[i]->0 == spec_new_piece(square_color(STANDARD_WHITE_MAP, i), t[i]) && is_default_piece(
        g.board[i]->0,
    ) && g.board[i]->0.rank == t[i] && (g.board[i]->0.color == Color::White <==> i < 16)) by {
        lemma_standard_layout(i);
        if t[i] != '0' {
            lemma_new_piece_default(square_color(STANDARD_WHITE_MAP, i), t[i]);
        }
    }
    assert(default_board(g));
    lemma_standard_layout(4);
    lemma_standard_layout(60);
    assert(g.board[4] is Some && g.board[4]->0.is_crucial && g.board[4]->0.color == Color::White);
    assert(g.board[60] is Some && g.board[60]->0.is_crucial && g.board[60]->0.color == Color::Black);
    assert(has_crucial_of(g, Color::White));
    assert(has_crucial_of(g, Color::Black));
    assert forall|x: int| 0 <= x < 8 implies #[trigger] g.board[square(x, 1)] is Some by {
        lemma_standard_layout(square(x, 1));
    }
    assert(!attacked(g, Color::Black).contains(60)) by {
        lemma_attacked_exists(g, Color::Black, 60, 64);
        if attacked(g, Color::Black).contains(60) {
            let j = choose|j: int|
                0 <= j < 64 && #[trigger] g.board[j] is Some && g.board[j]->0.color != Color::Black && threats(g, j).contains(60);
            lemma_standard_layout(j);
            let q = g.board[j]->0;
            lemma_square_of_index(j);
            lemma_zone_upto_source(g, q, file_of(j), rank_of(j), Set::empty(), Set::empty(), q.moves.len() as int, 60);
            let k = choose|k: int|
                0 <= k < q.moves.len() && #[trigger] template_threatens(g, q, file_of(j), rank_of(j), Set::empty(), Set::empty(), k, 60);
            assert(square(4, 7) == 60);
            lemma_back_ranks_spare(g, q, file_of(j), rank_of(j), k);
        }
    }
    assert forall|i: int|
        0 <= i < 64 && #[trigger] g.board[i] is Some && g.board[i]->0.is_crucial && g.board[i]->0.color
            == guarded_side(g) implies !attacked(g, guarded_side(g)).contains(i) by {
        lemma_standard_layout(i);
    }
    assert forall|i: int|
        0 <= i < 64 && #[trigger] g.board[i] is Some && g.board[i]->0.can_promote && rank_of(i)
            == g.board[i]->0.far_rank() implies g.game_state == GameState::Promote && g.board[i]->0.color
            == g.turn_owner by {
        lemma_standard_layout(i);
    }
}

/// What a legal move does in a sound game: the piece that moved stands on
/// its destination having recorded the turn it moved on and one more move,
/// its origin is empty, and the turn stays exactly when that piece is a pawn
/// reaching its far rank; otherwise it passes to the other side, and the
/// counter rises by one after Black's move.
pub proof fn lemma_move_outcome(g: GameView, from: (int, int), to: (int, int))
    requires
        sound_game(g),
        legal_effects(g, from, to) is Some,
        g.turn_count < u32::MAX,
    ensures
        ({
            let p = piece_on(g, from.0, from.1)->0;
            let h = spec_after_move(g, from, to, legal_effects(g, from, to)->0);
            &&& piece_on(h, to.0, to.1) == Some(moved_piece(p, g.turn_count))
            &&& piece_on(h, to.0, to.1)->0.last_moved == Some(g.turn_count)
            &&& piece_on(h, to.0, to.1)->0.times_moved == bump(p.times_moved)
            &&& piece_on(h, from.0, from.1) is None
            &&& if p.can_promote && to.1 == p.far_rank() {
                h.game_state == GameState::Promote && h.turn_owner == g.turn_owner && h.turn_count
                    == g.turn_count
            } else {
                h.game_state != GameState::Promote && h.turn_owner == g.turn_owner.spec_opposite()
                    && h.turn_count == g.turn_count + (if g.turn_owner == Color::Black {
                    1int
                } else {
                    0int
                })
            }
        }),
{
    let effs = legal_effects(g, from, to)->0;
    assert(opponent_unattacked(g)) by {
        assert forall|i: int|
            0 <= i < 64 && #[trigger] g.board[i] is Some && g.board[i]->0.is_crucial && g.board[i]->0.color
                != g.turn_owner implies !attacked(g, g.board[i]->0.color).contains(i) by {
            assert(g.board[i]->0.color == guarded_side(g));
        }
    }
    lemma_crucial_pieces_survive(g, from, to, Color::White);
    lemma_turn_progress(g, from, to);
    let sim = spec_execute(g, from, to, effs);
    let h = spec_after_move(g, from, to, effs);
    assert(h.board == sim.board);
    assert(on_board(from.0, from.1) && on_board(to.0, to.1));
}
} // verus!
