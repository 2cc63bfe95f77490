//! A data-driven chess rules engine: pieces carry declarative move
//! templates, an interpreter expands them against the board, and the game
//! driver filters for king safety, applies moves and classifies the state.
//!
//! - `basics`: colours, positions, effects and the state of play.
//! - `template`: move templates and the conditions they carry.
//! - `piece`: pieces and the default chess configuration.
//! - `rules`: the mathematical model of move generation and of the game.
//! - `interp`: the interpreter that expands templates, and threat zones.
//! - `game`: the board and the game driver.
//! - `laws`: properties of the engine, proved over the model.

mod basics;
mod game;
mod interp;
mod laws;
mod piece;
mod rules;
mod template;

pub use basics::{
    clip_coord, file_of, flip_coord, neg_offset, on_board, position, rank_of, spec_add,
    signed_byte, spec_shift_global, square, unsigned_byte, Color, Effect, GameState, Position,
};
pub use template::{copy_vec, variants, Comparator, Mirror, Move, MoveView, PieceStatus};
pub use piece::{
    en_passant_rank, forward, is_known_rank, known_rank, spec_bishop, spec_castle, spec_king,
    spec_knight, spec_new_piece, spec_pawn, spec_queen, spec_rook, spec_slider, Piece, PieceView,
};
pub use rules::{
    after_directions, after_variants, apply_effect, apply_effects, attacked, attacked_upto,
    board_of, bump, crucial_safe, danger_zone, effect_square, effects_zone, empty_table,
    entry_zone, first_promotable, has_crucial, has_moves, in_check, is_safe, is_white_square,
    last_moved_matches, legal_effects, legal_moves, legal_upto, mirror_abs, mirror_rel,
    mirrored_effects, moved_piece, occupant_matches, pending_promotion, piece_can_move, piece_on,
    promotable_at, promoted_piece, promotion_allowed, prune_spec, prune_with, ray, relative_turn,
    requirements_hold, safe_after, spec_after_move, spec_after_promotion, spec_capture,
    spec_execute, spec_increment_turn, spec_just_move, square_color, status_holds, status_square,
    table_zone, template_valid, threats, unsafe_for, unsafe_of, variant_squares, write_squares,
    zone_prefix, zone_upto, GameView, Table,
};
pub use interp::{bool_set, ints, represents, represents_set, table_of};
pub use game::{opt_view, ref_view, standard_game, standard_template, Game, STANDARD_WHITE_MAP};
pub use laws::{
    default_board, guard_holds, guarded_side, has_crucial_of, is_default_piece,
    lemma_crucial_pieces_survive, lemma_move_keeps_sound, lemma_move_outcome, lemma_promotion_keeps_sound, lemma_standard_sound, no_turn_conditions, opponent_unattacked, promotions_in_order,
    sound_game, lemma_last_moved_recorded, lemma_mirror_closure,
    lemma_moves_keep_crucial_safe, lemma_promotion_turn, lemma_prune_deterministic,
    lemma_safe_iff_no_danger, lemma_terminal_states, lemma_turn_progress, same_position,
    symmetric_board, symmetric_squares, variant_reaches,
};
