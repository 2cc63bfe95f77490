//! The move interpreter: expands a template against the board.

use vstd::prelude::*;

use crate::basics::{square, Color, Effect};
use crate::game::{ref_view, Game};
use crate::piece::Piece;
use crate::rules::{
    after_directions, after_variants, attacked, attacked_upto, danger_zone, effect_square,
    effects_zone, empty_table, is_safe, last_moved_matches, mirror_abs, mirror_rel,
    mirrored_effects, occupant_matches, prune_spec, prune_with, ray, requirements_hold,
    status_holds, table_zone, threats, unsafe_for, write_squares, zone_prefix, zone_upto, Table,
};
use crate::template::{copy_vec, variants, Mirror, Move, PieceStatus};
use std::collections::{HashMap, HashSet};

verus! {

/// The set of indices at which a sequence of flags is set.
pub open spec fn bool_set(v: Seq<bool>) -> Set<int> {
    Set::new(|s: int| 0 <= s < v.len() && v[s])
}

/// Square indices as mathematical integers.
pub open spec fn ints(v: Seq<usize>) -> Seq<int> {
    v.map_values(|x: usize| x as int)
}

fn last_moved_ok(p: &Piece, lm: Option<i32>, game: &Game) -> (r: bool)
    ensures
        r == last_moved_matches(game@, p@, lm),
{
    match lm {
        None => true,
        Some(n) => {
            if n > 0 {
                match p.last_moved {
                    Some(t) => t == n as u32,
                    None => false,
                }
            } else {
                match p.last_moved {
                    None => false,
                    Some(t) => {
                        let sub: i64 = if game.turn_owner == p.color || game.turn_owner == Color::White {
                            1
                        } else {
                            0
                        };
                        let turn: i64 = game.turn_count as i64 + n as i64 - sub;
                        turn == t as i64
                    },
                }
            }
        },
    }
}

/// Whether the occupant of a square (or its absence) meets `status`.
fn check_piece_status(piece: Option<&Piece>, status: &PieceStatus, game: &Game) -> (r: bool)
    ensures
        r == occupant_matches(game@, ref_view(piece), *status),
{
    match piece {
        Some(p) => {
            match status.rank {
                None => false,
                Some(rank) => {
                    if rank != '0' && rank != p.rank {
                        return false;
                    }
                    if let Some(color) = status.color {
                        if color != p.color {
                            return false;
                        }
                    }
                    if !last_moved_ok(p, status.last_moved, game) {
                        return false;
                    }
                    match status.has_moved {
                        Some((cmp, n)) => cmp.holds(p.times_moved, n),
                        None => true,
                    }
                },
            }
        },
        None => status.rank.is_none(),
    }
}

fn mirror_rel_exec(x: i8, flip: bool) -> (r: i32)
    ensures
        r == mirror_rel(x, flip),
{
    if flip {
        -(x as i32)
    } else {
        x as i32
    }
}

fn mirror_abs_exec(x: u8, flip: bool) -> (r: i32)
    ensures
        r == mirror_abs(x, flip),
{
    if flip {
        7 - x as i32
    } else {
        x as i32
    }
}

/// Whether one condition holds for a move from `(c, r)` under reflections.
fn check_status(game: &Game, c: i32, r: i32, st: &PieceStatus, fh: bool, fv: bool) -> (ok: bool)
    requires
        0 <= c <= 255,
        0 <= r <= 255,
    ensures
        ok == status_holds(game@, *st, c as int, r as int, fh, fv),
{
    let (x, y) = match st.relative_pos {
        Some((dc, dr)) => {
            let x = c + mirror_rel_exec(dc, fh);
            let y = r + mirror_rel_exec(dr, fv);
            if let Some(bc) = st.board_pos.0 {
                if x != mirror_abs_exec(bc, fh) {
                    return false;
                }
            }
            if let Some(br) = st.board_pos.1 {
                if y != mirror_abs_exec(br, fv) {
                    return false;
                }
            }
            (x, y)
        },
        None => {
            let x = match st.board_pos.0 {
                Some(bc) => mirror_abs_exec(bc, fh),
                None => c,
            };
            let y = match st.board_pos.1 {
                Some(br) => mirror_abs_exec(br, fv),
                None => r,
            };
            (x, y)
        },
    };
    check_piece_status(game.occupant(x, y), st, game)
}

/// Whether every condition holds for a move from `(c, r)` under reflections.
fn check_conditions(
    game: &Game,
    c: i32,
    r: i32,
    conditions: &Vec<PieceStatus>,
    fh: bool,
    fv: bool,
) -> (ok: bool)
    requires
        0 <= c <= 255,
        0 <= r <= 255,
    ensures
        ok == requirements_hold(game@, conditions@, c as int, r as int, fh, fv),
{
    let mut k: usize = 0;
    while k < conditions.len()
        invariant
            0 <= c <= 255,
            0 <= r <= 255,
            k <= conditions@.len(),
            forall|j: int| 0 <= j < k ==> #[trigger] status_holds(game@, conditions@[j], c as int, r as int, fh, fv),
        decreases conditions@.len() - k,
    {
        if !check_status(game, c, r, &conditions[k], fh, fv) {
            return false;
        }
        k += 1;
    }
    true
}

/// The squares recorded along one ray; see `ray`.
#[verifier::rlimit(60)]
fn prune_dir(
    c: i32,
    r: i32,
    dc: i32,
    dr: i32,
    min_s: u8,
    max_s: u8,
    can_capture: bool,
    color: Color,
    game: &Game,
    stop: &Vec<bool>,
    safe_throughout: bool,
) -> (out: Vec<usize>)
    requires
        0 <= c <= 255,
        0 <= r <= 255,
        -128 <= dc <= 128,
        -128 <= dr <= 128,
        stop@.len() == 64,
    ensures
        ints(out@) == ray(
            game@,
            c as int,
            r as int,
            dc as int,
            dr as int,
            0,
            min_s as int,
            max_s as int,
            can_capture,
            color,
            if safe_throughout { bool_set(stop@) } else { Set::empty() },
        ),
        forall|k: int| 0 <= k < out@.len() ==> out@[k] < 64,
{
    let ghost stop_set = if safe_throughout { bool_set(stop@) } else { Set::<int>::empty() };
    let ghost full = ray(game@, c as int, r as int, dc as int, dr as int, 0, min_s as int, max_s as int, can_capture, color, stop_set);
    let mut out: Vec<usize> = Vec::new();
    let mut i: i32 = 0;
    let max: i32 = max_s as i32;
    while i <= max
        invariant
            0 <= c <= 255,
            0 <= r <= 255,
            -128 <= dc <= 128,
            -128 <= dr <= 128,
            stop@.len() == 64,
            max == max_s as i32,
            0 <= i <= max + 1,
            stop_set == (if safe_throughout { bool_set(stop@) } else { Set::<int>::empty() }),
            full == ray(game@, c as int, r as int, dc as int, dr as int, 0, min_s as int, max_s as int, can_capture, color, stop_set),
            ints(out@) + ray(game@, c as int, r as int, dc as int, dr as int, i as int, min_s as int, max_s as int, can_capture, color, stop_set) == full,
            forall|k: int| 0 <= k < out@.len() ==> out@[k] < 64,
        decreases max + 1 - i,
    {
        let ghost rest = ray(game@, c as int, r as int, dc as int, dr as int, i as int, min_s as int, max_s as int, can_capture, color, stop_set);
        let ghost next = ray(game@, c as int, r as int, dc as int, dr as int, i + 1, min_s as int, max_s as int, can_capture, color, stop_set);
        assert(-32768 <= i * dc <= 32768 && -32768 <= i * dr <= 32768) by (nonlinear_arith)
            requires
                0 <= i <= 256,
                -128 <= dc <= 128,
                -128 <= dr <= 128,
        ;
        let x: i32 = c + i * dc;
        let y: i32 = r + i * dr;
        if x < 0 || y < 0 || x >= 8 || y >= 8 {
            assert(rest == Seq::<int>::empty());
            assert(ints(out@) + rest =~= ints(out@));
            return out;
        }
        let s: usize = (x + 8 * y) as usize;
        if safe_throughout && stop[s] {
            assert(stop_set.contains(square(x as int, y as int)));
            assert(rest == Seq::<int>::empty());
            assert(ints(out@) + rest =~= ints(out@));
            return out;
        }
        assert(!stop_set.contains(square(x as int, y as int)));
        let ghost before = ints(out@);
        match game.occupant(x, y) {
            None => {
                if i >= min_s as i32 {
                    out.push(s);
                    assert(rest == seq![s as int] + next);
                    assert(ints(out@) =~= before + seq![s as int]);
                    assert(ints(out@) + next =~= before + rest);
                } else {
                    assert(rest == next);
                }
            },
            Some(p) => {
                if i > 0 {
                    if can_capture && p.color != color && i >= min_s as i32 {
                        out.push(s);
                        assert(rest == seq![s as int]);
                        assert(ints(out@) =~= before + seq![s as int]);
                    } else {
                        assert(rest == Seq::<int>::empty());
                        assert(ints(out@) + rest =~= ints(out@));
                    }
                    return out;
                }
                assert(rest == next);
            },
        }
        i += 1;
    }
    assert(ray(game@, c as int, r as int, dc as int, dr as int, i as int, min_s as int, max_s as int, can_capture, color, stop_set) == Seq::<int>::empty());
    assert(ints(out@) + Seq::<int>::empty() =~= ints(out@));
    out
}


/// The value of a table of effect lists.
pub open spec fn table_of(t: Seq<Option<Vec<Effect>>>) -> Table {
    t.map_values(|o: Option<Vec<Effect>>| match o {
        Some(v) => Some(v@),
        None => None,
    })
}

/// Whether a map keyed by square index holds exactly the entries of a table.
pub open spec fn represents(h: Map<u8, Vec<Effect>>, t: Table) -> bool {
    forall|d: u8|
        #![trigger h.contains_key(d)]
        (h.contains_key(d) <==> (d < 64 && t[d as int] is Some)) && (h.contains_key(d) ==> h[d]@
            == t[d as int]->0)
}

/// Whether a set of square indices holds exactly the squares of `z`.
pub open spec fn represents_set(h: Set<u8>, z: Set<int>) -> bool {
    forall|s: u8| #![trigger h.contains(s)] h.contains(s) <==> z.contains(s as int)
}

pub(crate) fn new_table() -> (t: Vec<Option<Vec<Effect>>>)
    ensures
        t@.len() == 64,
        table_of(t@) == empty_table(),
{
    let mut t: Vec<Option<Vec<Effect>>> = Vec::new();
    let mut i: usize = 0;
    while i < 64
        invariant
            i <= 64,
            t@.len() == i,
            forall|j: int| 0 <= j < i ==> (#[trigger] t@[j]) is None,
        decreases 64 - i,
    {
        t.push(None);
        i += 1;
    }
    assert(table_of(t@) =~= empty_table());
    t
}

fn flags(value: bool) -> (v: Vec<bool>)
    ensures
        v@.len() == 64,
        forall|s: int| 0 <= s < 64 ==> (#[trigger] v@[s]) == value,
{
    let mut v: Vec<bool> = Vec::new();
    let mut i: usize = 0;
    while i < 64
        invariant
            i <= 64,
            v@.len() == i,
            forall|j: int| 0 <= j < i ==> (#[trigger] v@[j]) == value,
        decreases 64 - i,
    {
        v.push(value);
        i += 1;
    }
    v
}

fn variants_exec(mirror: Option<Mirror>) -> (v: Vec<(bool, bool)>)
    ensures
        v@ == variants(mirror),
{
    let v = match mirror {
        None => vec![(false, false)],
        Some(Mirror::Horizontally) => vec![(false, false), (true, false)],
        Some(Mirror::Vertically) => vec![(false, false), (false, true)],
        Some(Mirror::VerAndHor) => vec![(false, false), (true, false), (false, true), (true, true)],
    };
    assert(v@ =~= variants(mirror));
    v
}

fn mirror_all(effs: &Vec<Effect>, fh: bool, fv: bool) -> (r: Vec<Effect>)
    ensures
        r@ == mirrored_effects(effs@, fh, fv),
{
    let mut r: Vec<Effect> = Vec::new();
    let mut i: usize = 0;
    while i < effs.len()
        invariant
            i <= effs@.len(),
            r@ == mirrored_effects(effs@.subrange(0, i as int), fh, fv),
        decreases effs@.len() - i,
    {
        r.push(effs[i].mirrored(fh, fv));
        i += 1;
        assert(r@ =~= mirrored_effects(effs@.subrange(0, i as int), fh, fv));
    }
    assert(effs@.subrange(0, effs@.len() as int) =~= effs@);
    r
}

/// Sets every square of `sqs` in `t` to `effs`.
fn write_table(t: &mut Vec<Option<Vec<Effect>>>, sqs: &Vec<usize>, effs: &Vec<Effect>)
    requires
        old(t)@.len() == 64,
        forall|k: int| 0 <= k < sqs@.len() ==> sqs@[k] < 64,
    ensures
        final(t)@.len() == 64,
        table_of(final(t)@) == write_squares(table_of(old(t)@), ints(sqs@), effs@),
{
    let ghost start = table_of(t@);
    let mut j: usize = 0;
    assert(table_of(t@) =~= write_squares(start, ints(sqs@).take(0), effs@));
    while j < sqs.len()
        invariant
            t@.len() == 64,
            j <= sqs@.len(),
            forall|k: int| 0 <= k < sqs@.len() ==> sqs@[k] < 64,
            start.len() == 64,
            table_of(t@) == write_squares(start, ints(sqs@).take(j as int), effs@),
        decreases sqs@.len() - j,
    {
        let s = sqs[j];
        let ghost prev = table_of(t@);
        let e = copy_vec(effs);
        t[s] = Some(e);
        let ghost now = ints(sqs@).take(j + 1);
        let ghost was = ints(sqs@).take(j as int);
        assert(now =~= was.push(s as int));
        assert forall|q: int| 0 <= q < 64 implies table_of(t@)[q] == write_squares(start, now, effs@)[q] by {
            if q == s as int {
                assert(now.contains(q)) by {
                    assert(now[j as int] == q);
                }
            } else {
                assert(table_of(t@)[q] == prev[q]);
                assert(now.contains(q) == was.contains(q)) by {
                    if now.contains(q) {
                        let w = choose|w: int| 0 <= w < now.len() && now[w] == q;
                        assert(w < j);
                        assert(was[w] == q);
                    }
                    if was.contains(q) {
                        let w = choose|w: int| 0 <= w < was.len() && was[w] == q;
                        assert(now[w] == q);
                    }
                }
            }
        }
        assert(table_of(t@) =~= write_squares(start, now, effs@));
        j += 1;
    }
    assert(ints(sqs@).take(sqs@.len() as int) =~= ints(sqs@));
}

impl Move {
    /// What this template reaches from `(c, r)` when the flagged squares
    /// are unsafe for it.
    pub(crate) fn prune_table(&self, game: &Game, c: i32, r: i32, unsafe_sq: &Vec<bool>) -> (t: Vec<
        Option<Vec<Effect>>,
    >)
        requires
            0 <= c <= 255,
            0 <= r <= 255,
            unsafe_sq@.len() == 64,
        ensures
            t@.len() == 64,
            table_of(t@) == prune_with(game@, self@, c as int, r as int, bool_set(unsafe_sq@)),
    {
        let ghost stop = if self.safe_throughout {
            bool_set(unsafe_sq@)
        } else {
            Set::<int>::empty()
        };
        let vars = variants_exec(self.mirror);
        let max_s: u8 = match self.maximum_slide {
            Some(n) => n,
            None => 8,
        };
        let mut t = new_table();
        let mut j: usize = 0;
        while j < self.directions.len()
            invariant
                0 <= c <= 255,
                0 <= r <= 255,
                unsafe_sq@.len() == 64,
                vars@ == variants(self.mirror),
                max_s as int == self@.max_steps(),
                stop == (if self.safe_throughout { bool_set(unsafe_sq@) } else { Set::<int>::empty() }),
                j <= self.directions@.len(),
                t@.len() == 64,
                table_of(t@) == after_directions(game@, self@, c as int, r as int, stop, j as int),
            decreases self.directions@.len() - j,
        {
            let d = self.directions[j];
            let ghost before = table_of(t@);
            let mut k: usize = 0;
            while k < vars.len()
                invariant
                    0 <= c <= 255,
                    0 <= r <= 255,
                    unsafe_sq@.len() == 64,
                    vars@ == variants(self.mirror),
                    max_s as int == self@.max_steps(),
                    stop == (if self.safe_throughout { bool_set(unsafe_sq@) } else { Set::<int>::empty() }),
                    k <= vars@.len(),
                    t@.len() == 64,
                    before.len() == 64,
                    d == self@.directions[j as int],
                    table_of(t@) == after_variants(game@, self@, c as int, r as int, d, stop, before, k as int),
                decreases vars@.len() - k,
            {
                let (fh, fv) = vars[k];
                let effs = mirror_all(&self.effect, fh, fv);
                if check_conditions(game, c, r, &self.requirements, fh, fv) {
                    let sqs = prune_dir(
                        c,
                        r,
                        mirror_rel_exec(d.0, fh),
                        mirror_rel_exec(d.1, fv),
                        self.minimum_slide,
                        max_s,
                        self.can_capture,
                        self.color,
                        game,
                        unsafe_sq,
                        self.safe_throughout,
                    );
                    write_table(&mut t, &sqs, &effs);
                } else {
                    assert(write_squares(table_of(t@), Seq::<int>::empty(), effs@) =~= table_of(t@));
                }
                k += 1;
            }
            j += 1;
        }
        t
    }

    /// What this template reaches from `pos`: each destination's index
    /// (file plus eight times rank) mapped to the effects it entails.
    pub fn prune(&self, game: &Game, pos: (u8, u8)) -> (r: HashMap<u8, Vec<Effect>>)
        ensures
            represents(r@, prune_spec(game@, self@, pos.0 as int, pos.1 as int)),
    {
        let unsafe_sq = unsafe_table(game, self.color);
        let t = self.prune_table(game, pos.0 as i32, pos.1 as i32, &unsafe_sq);
        to_hash_map(&t)
    }
}

/// The entries of a table as a map keyed by square index.
pub(crate) fn to_hash_map(t: &Vec<Option<Vec<Effect>>>) -> (h: HashMap<u8, Vec<Effect>>)
    requires
        t@.len() == 64,
    ensures
        represents(h@, table_of(t@)),
{
    broadcast use vstd::std_specs::hash::group_hash_axioms;

    let mut h: HashMap<u8, Vec<Effect>> = HashMap::new();
    let mut d: usize = 0;
    while d < 64
        invariant
            t@.len() == 64,
            d <= 64,
            forall|k: u8|
                #![trigger h@.contains_key(k)]
                (h@.contains_key(k) <==> (k < d && t@[k as int] is Some)) && (h@.contains_key(k)
                    ==> h@[k]@ == table_of(t@)[k as int]->0),
        decreases 64 - d,
    {
        if let Some(v) = &t[d] {
            h.insert(d as u8, copy_vec(v));
        }
        d += 1;
    }
    h
}

/// Marks in `z` the squares that a table threatens from `(c, r)`.
fn add_table_zone(z: &mut Vec<bool>, t: &Vec<Option<Vec<Effect>>>, cap: bool, c: i32, r: i32)
    requires
        old(z)@.len() == 64,
        t@.len() == 64,
        0 <= c <= 255,
        0 <= r <= 255,
    ensures
        final(z)@.len() == 64,
        bool_set(final(z)@) == bool_set(old(z)@).union(table_zone(table_of(t@), cap, c as int, r as int)),
{
    let ghost start = bool_set(z@);
    let ghost tv = table_of(t@);
    let mut d: usize = 0;
    assert(bool_set(z@) =~= start.union(zone_prefix(tv, cap, c as int, r as int, 0)));
    while d < 64
        invariant
            z@.len() == 64,
            t@.len() == 64,
            0 <= c <= 255,
            0 <= r <= 255,
            d <= 64,
            tv == table_of(t@),
            bool_set(z@) == start.union(zone_prefix(tv, cap, c as int, r as int, d as int)),
        decreases 64 - d,
    {
        let ghost before = bool_set(z@);
        if let Some(effs) = &t[d] {
            assert(tv[d as int] == Some(effs@));
            if cap {
                z[d] = true;
            }
            assert(bool_set(z@) =~= before.union(if cap { set![d as int] } else { Set::<int>::empty() }));
            let ghost mid = bool_set(z@);
            let mut k: usize = 0;
            while k < effs.len()
                invariant
                    z@.len() == 64,
                    0 <= c <= 255,
                    0 <= r <= 255,
                    k <= effs@.len(),
                    bool_set(z@) == mid.union(effects_zone(effs@, c as int, r as int, k as int)),
                decreases effs@.len() - k,
            {
                let ghost inner = bool_set(z@);
                match effs[k] {
                    Effect::Capture(p) => {
                        let (x, y): (i32, i32) = match p {
                            crate::basics::Position::Global((gc, gr)) => (gc as i32, gr as i32),
                            crate::basics::Position::Relative((dc, dr)) => (c + dc as i32, r + dr as i32),
                        };
                        if 0 <= x && x < 8 && 0 <= y && y < 8 {
                            z[(x + 8 * y) as usize] = true;
                        }
                    },
                    Effect::Move(_, _) => {},
                }
                assert(bool_set(z@) =~= inner.union(effect_square(effs@[k as int], c as int, r as int)));
                k += 1;
                assert(bool_set(z@) =~= mid.union(effects_zone(effs@, c as int, r as int, k as int)));
            }
        } else {
            assert(tv[d as int] is None);
        }
        d += 1;
        assert(bool_set(z@) =~= start.union(zone_prefix(tv, cap, c as int, r as int, d as int)));
    }
}

/// The squares the first templates of `piece` at `(c, r)` threaten, given
/// the squares unsafe for White (`uw`) and for Black (`ub`).
fn zone_table(piece: &Piece, c: i32, r: i32, game: &Game, uw: &Vec<bool>, ub: &Vec<bool>) -> (z: Vec<bool>)
    requires
        0 <= c <= 255,
        0 <= r <= 255,
        uw@.len() == 64,
        ub@.len() == 64,
    ensures
        z@.len() == 64,
        bool_set(z@) == zone_upto(game@, piece@, c as int, r as int, bool_set(uw@), bool_set(ub@), piece@.moves.len() as int),
{
    let mut z = flags(false);
    assert(bool_set(z@) =~= Set::<int>::empty());
    let mut k: usize = 0;
    while k < piece.moves.len()
        invariant
            0 <= c <= 255,
            0 <= r <= 255,
            uw@.len() == 64,
            ub@.len() == 64,
            z@.len() == 64,
            k <= piece.moves@.len(),
            bool_set(z@) == zone_upto(game@, piece@, c as int, r as int, bool_set(uw@), bool_set(ub@), k as int),
        decreases piece.moves@.len() - k,
    {
        let m = &piece.moves[k];
        assert(piece@.moves[k as int] == m@);
        let t = match m.color {
            Color::White => m.prune_table(game, c, r, uw),
            Color::Black => m.prune_table(game, c, r, ub),
        };
        add_table_zone(&mut z, &t, m.can_capture, c, r);
        k += 1;
    }
    z
}

/// The squares that some piece not of `color` threatens.
fn attacked_table(game: &Game, color: Color) -> (z: Vec<bool>)
    ensures
        z@.len() == 64,
        bool_set(z@) == attacked(game@, color),
{
    let none = flags(false);
    assert(bool_set(none@) =~= Set::<int>::empty());
    let mut z = flags(false);
    assert(bool_set(z@) =~= attacked_upto(game@, color, 0));
    let mut i: usize = 0;
    while i < 64
        invariant
            z@.len() == 64,
            none@.len() == 64,
            bool_set(none@) == Set::<int>::empty(),
            i <= 64,
            bool_set(z@) == attacked_upto(game@, color, i as int),
        decreases 64 - i,
    {
        let ghost before = bool_set(z@);
        if let Some(p) = &game.board[i] {
            assert(game@.board[i as int] == Some(p@));
            if p.color != color {
                let zone = zone_table(p, (i % 8) as i32, (i / 8) as i32, game, &none, &none);
                assert(bool_set(zone@) == threats(game@, i as int));
                let mut s: usize = 0;
                while s < 64
                    invariant
                        z@.len() == 64,
                        zone@.len() == 64,
                        s <= 64,
                        forall|q: int| 0 <= q < 64 ==> (#[trigger] z@[q]) == (before.contains(q) || (q < s && zone@[q])),
                    decreases 64 - s,
                {
                    if zone[s] {
                        z[s] = true;
                    }
                    s += 1;
                }
                assert(bool_set(z@) =~= before.union(bool_set(zone@)));
            } else {
                assert(attacked_upto(game@, color, i + 1) =~= before);
            }
        } else {
            assert(game@.board[i as int] is None);
            assert(attacked_upto(game@, color, i + 1) =~= before);
        }
        i += 1;
    }
    z
}

/// The squares unsafe for `color`.
pub(crate) fn unsafe_table(game: &Game, color: Color) -> (z: Vec<bool>)
    ensures
        z@.len() == 64,
        bool_set(z@) == unsafe_for(game@, color),
{
    if color != game.turn_owner {
        let z = flags(false);
        assert(bool_set(z@) =~= Set::<int>::empty());
        z
    } else {
        attacked_table(game, color)
    }
}

impl Game {
    /// Whether `(col, row)` is safe for `color`: no piece of the other side
    /// threatens it. The colour names whom the square is safe for, not from.
    /// Only the side to move is ever in danger: for the other side every
    /// square is safe, which keeps the simulation of a reply one level deep.
    pub fn is_safe_position(&self, col: u8, row: u8, color: Color) -> (r: bool)
        ensures
            r == is_safe(self@, col as int, row as int, color),
    {
        if color != self.turn_owner || col > 7 || row > 7 {
            return true;
        }
        let z = attacked_table(self, color);
        !z[(col + row * 8) as usize]
    }
}

impl Piece {
    /// The squares this piece, standing at `(col, row)`, threatens: not
    /// where it can move, but what it attacks.
    pub fn get_danger_zone(&self, col: u8, row: u8, game: &Game) -> (r: HashSet<u8>)
        ensures
            represents_set(r@, danger_zone(game@, self@, col as int, row as int)),
    {
        let uw = unsafe_table(game, Color::White);
        let ub = unsafe_table(game, Color::Black);
        let z = zone_table(self, col as i32, row as i32, game, &uw, &ub);
        to_hash_set(&z)
    }
}

/// The flagged squares as a set of indices.
fn to_hash_set(z: &Vec<bool>) -> (h: HashSet<u8>)
    requires
        z@.len() == 64,
    ensures
        represents_set(h@, bool_set(z@)),
{
    broadcast use vstd::std_specs::hash::group_hash_axioms;

    let mut h: HashSet<u8> = HashSet::new();
    let mut d: usize = 0;
    while d < 64
        invariant
            z@.len() == 64,
            d <= 64,
            forall|k: u8| #![trigger h@.contains(k)] h@.contains(k) <==> (k < d && z@[k as int]),
        decreases 64 - d,
    {
        if z[d] {
            h.insert(d as u8);
        }
        d += 1;
    }
    h
}
} // verus!
