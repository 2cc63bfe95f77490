use chess_engine::{position, Color, Effect, Game, GameState, Position};

fn board(pieces: &[(u8, u8, char, Color)]) -> Game {
    let mut template = ['0'; 64];
    let mut mask: u64 = 0;
    for &(c, r, rank, color) in pieces {
        let i = (c + r * 8) as usize;
        template[i] = rank;
        if color == Color::White {
            mask |= 1u64 << i;
        }
    }
    let b = Game::make_board(template, mask).unwrap();
    Game::from_parts(b, Color::White, 1, GameState::Running)
}

fn snapshot(g: &Game) -> Vec<Option<(char, Color, Option<u32>, u32)>> {
    let mut v = Vec::new();
    for i in 0..64u8 {
        v.push(g.get_piece_at(i % 8, i / 8).map(|p| (p.rank, p.color, p.last_moved, p.times_moved)));
    }
    v
}

#[test]
fn starting_pawn_single_step() {
    let mut g = Game::new();
    assert!(g.make_move((4, 1), (4, 2)));
    let p = g.get_piece_at(4, 2).unwrap();
    assert_eq!(p.color, Color::White);
    assert_eq!(p.last_moved, Some(1));
    assert_eq!(p.times_moved, 1);
    assert!(g.get_piece_at(4, 1).is_none());
    assert_eq!(g.get_turn_owner(), Color::Black);
    assert_eq!(g.get_turn_count(), 1);
    assert!(g.get_game_state() == GameState::Running);
}

#[test]
fn starting_pawn_double_step_then_blocked_repeat() {
    let mut g = Game::new();
    assert!(g.make_move((4, 1), (4, 3)));
    assert!(!g.make_move((4, 1), (4, 3)));
    let p = g.get_piece_at(4, 3).unwrap();
    assert_eq!(p.times_moved, 1);
    assert_eq!(g.get_turn_owner(), Color::Black);
}

#[test]
fn en_passant_capture() {
    let mut g = board(&[
        (1, 0, 'K', Color::White),
        (6, 7, 'K', Color::Black),
        (3, 3, 'p', Color::White),
        (4, 6, 'p', Color::Black),
    ]);
    assert!(g.make_move((3, 3), (3, 4)));
    assert!(g.make_move((4, 6), (4, 4)));
    let moves = g.get_moves(3, 4).unwrap();
    let effects = moves.get(&(4 + 5 * 8)).unwrap();
    assert_eq!(effects, &vec![Effect::Capture(Position::Relative((1, 0)))]);
    assert!(g.make_move((3, 4), (4, 5)));
    let p = g.get_piece_at(4, 5).unwrap();
    assert_eq!(p.color, Color::White);
    assert_eq!(p.times_moved, 2);
    assert!(g.get_piece_at(4, 4).is_none());
}

#[test]
fn en_passant_to_the_left_captures_the_left_pawn() {
    let mut g = board(&[
        (1, 0, 'K', Color::White),
        (6, 7, 'K', Color::Black),
        (4, 3, 'p', Color::White),
        (3, 6, 'p', Color::Black),
    ]);
    assert!(g.make_move((4, 3), (4, 4)));
    assert!(g.make_move((3, 6), (3, 4)));
    assert!(g.make_move((4, 4), (3, 5)));
    assert!(g.get_piece_at(3, 4).is_none());
    assert_eq!(g.get_piece_at(3, 5).unwrap().color, Color::White);
}

#[test]
fn en_passant_only_right_after_the_double_step() {
    let mut g = board(&[
        (1, 0, 'K', Color::White),
        (6, 7, 'K', Color::Black),
        (3, 3, 'p', Color::White),
        (4, 6, 'p', Color::Black),
    ]);
    assert!(g.make_move((3, 3), (3, 4)));
    assert!(g.make_move((4, 6), (4, 4)));
    assert!(g.make_move((1, 0), (1, 1)));
    assert!(g.make_move((6, 7), (6, 6)));
    assert!(!g.make_move((3, 4), (4, 5)));
    assert!(g.get_piece_at(4, 4).is_some());
}

#[test]
fn promotion_gating() {
    let mut g = board(&[
        (4, 0, 'K', Color::White),
        (4, 7, 'K', Color::Black),
        (2, 6, 'p', Color::White),
        (7, 1, 'p', Color::Black),
    ]);
    assert!(g.make_move((2, 6), (2, 7)));
    assert!(g.get_game_state() == GameState::Promote);
    assert!(!g.make_move((4, 0), (3, 0)));
    let (pos, piece) = g.get_promotion().unwrap();
    assert_eq!(pos, (2, 7));
    assert_eq!(piece.rank, 'p');
    assert_eq!(piece.color, Color::White);
    assert!(!g.promote((2, 7), 'p'));
    assert!(!g.promote((2, 7), 'K'));
    assert!(!g.promote((2, 7), 'x'));
    assert!(g.promote((2, 7), 'Q'));
    let q = g.get_piece_at(2, 7).unwrap();
    assert_eq!(q.rank, 'Q');
    assert_eq!(q.times_moved, 1);
    assert_eq!(q.last_moved, Some(1));
    let state = g.get_game_state();
    assert!(state == GameState::Running || state == GameState::Check);
    assert_eq!(g.get_turn_owner(), Color::Black);
    assert!(g.get_promotion().is_none());
}

#[test]
fn pinned_rook_cannot_leave_the_file() {
    let mut g = board(&[
        (4, 0, 'K', Color::White),
        (0, 7, 'K', Color::Black),
        (4, 1, 'R', Color::White),
        (4, 7, 'R', Color::Black),
    ]);
    let before = snapshot(&g);
    assert!(!g.make_move((4, 1), (5, 1)));
    assert!(!g.make_move((4, 1), (0, 1)));
    assert!(snapshot(&g) == before);
    assert_eq!(g.get_turn_owner(), Color::White);
    assert!(g.make_move((4, 1), (4, 4)));
}

#[test]
fn kingside_castling() {
    let mut g = board(&[
        (4, 0, 'K', Color::White),
        (7, 0, 'R', Color::White),
        (4, 7, 'K', Color::Black),
    ]);
    assert!(g.make_move((4, 0), (6, 0)));
    let k = g.get_piece_at(6, 0).unwrap();
    let r = g.get_piece_at(5, 0).unwrap();
    assert_eq!(k.rank, 'K');
    assert_eq!(r.rank, 'R');
    assert_eq!(k.times_moved, 1);
    assert_eq!(r.times_moved, 1);
    assert!(g.get_piece_at(4, 0).is_none());
    assert!(g.get_piece_at(7, 0).is_none());
}

#[test]
fn queenside_castling() {
    let mut g = board(&[
        (4, 0, 'K', Color::White),
        (0, 0, 'R', Color::White),
        (4, 7, 'K', Color::Black),
    ]);
    assert!(g.make_move((4, 0), (2, 0)));
    assert_eq!(g.get_piece_at(2, 0).unwrap().rank, 'K');
    assert_eq!(g.get_piece_at(3, 0).unwrap().rank, 'R');
    assert!(g.get_piece_at(0, 0).is_none());
}

#[test]
fn black_castles_kingside() {
    let mut g = board(&[
        (4, 0, 'K', Color::White),
        (4, 7, 'K', Color::Black),
        (7, 7, 'R', Color::Black),
    ]);
    assert!(g.make_move((4, 0), (3, 0)));
    assert!(g.make_move((4, 7), (6, 7)));
    assert_eq!(g.get_piece_at(6, 7).unwrap().rank, 'K');
    assert_eq!(g.get_piece_at(5, 7).unwrap().rank, 'R');
}

#[test]
fn no_castling_through_an_attacked_square() {
    let mut g = board(&[
        (4, 0, 'K', Color::White),
        (7, 0, 'R', Color::White),
        (4, 7, 'K', Color::Black),
        (5, 7, 'R', Color::Black),
    ]);
    assert!(!g.make_move((4, 0), (6, 0)));
}

#[test]
fn no_castling_out_of_check() {
    let mut g = board(&[
        (4, 0, 'K', Color::White),
        (7, 0, 'R', Color::White),
        (0, 7, 'K', Color::Black),
        (4, 5, 'R', Color::Black),
    ]);
    assert!(!g.make_move((4, 0), (6, 0)));
}

#[test]
fn no_castling_after_the_king_moved() {
    let mut g = board(&[
        (4, 0, 'K', Color::White),
        (7, 0, 'R', Color::White),
        (0, 7, 'K', Color::Black),
    ]);
    assert!(g.make_move((4, 0), (4, 1)));
    assert!(g.make_move((0, 7), (0, 6)));
    assert!(g.make_move((4, 1), (4, 0)));
    assert!(g.make_move((0, 6), (0, 7)));
    assert!(!g.make_move((4, 0), (6, 0)));
}

#[test]
fn fools_mate_is_checkmate() {
    let mut g = Game::new();
    assert!(g.make_move((5, 1), (5, 2)));
    assert!(g.make_move((4, 6), (4, 4)));
    assert!(g.make_move((6, 1), (6, 3)));
    assert!(g.make_move((3, 7), (7, 3)));
    assert!(g.get_game_state() == GameState::CheckMate);
    assert_eq!(g.get_turn_owner(), Color::White);
    assert!(!g.make_move((4, 1), (4, 2)));
}

#[test]
fn stalemate_is_detected() {
    let mut g = board(&[
        (2, 5, 'K', Color::White),
        (1, 0, 'Q', Color::White),
        (0, 7, 'K', Color::Black),
    ]);
    assert!(g.make_move((1, 0), (1, 5)));
    assert!(g.get_game_state() == GameState::Stalemate);
    assert_eq!(g.get_turn_owner(), Color::Black);
}

#[test]
fn check_is_reported_to_the_side_to_move() {
    let mut g = board(&[
        (4, 0, 'K', Color::White),
        (3, 3, 'R', Color::White),
        (6, 7, 'K', Color::Black),
    ]);
    assert!(g.make_move((3, 3), (6, 3)));
    assert!(g.get_game_state() == GameState::Check);
    assert!(g.make_move((6, 7), (7, 7)));
    assert!(g.get_game_state() == GameState::Running);
}

#[test]
fn turn_count_rises_once_per_pair_of_plies() {
    let mut g = Game::new();
    assert_eq!(g.get_turn_count(), 1);
    assert!(g.make_move((4, 1), (4, 3)));
    assert_eq!(g.get_turn_count(), 1);
    assert!(g.make_move((4, 6), (4, 4)));
    assert_eq!(g.get_turn_count(), 2);
    assert!(g.make_move((6, 0), (5, 2)));
    assert_eq!(g.get_turn_count(), 2);
    assert_eq!(g.get_piece_at(4, 4).unwrap().last_moved, Some(1));
    assert_eq!(g.get_piece_at(5, 2).unwrap().last_moved, Some(2));
}

#[test]
fn refused_moves_leave_the_game_unchanged() {
    let mut g = Game::new();
    let before = snapshot(&g);
    assert!(!g.make_move((4, 6), (4, 5)));
    assert!(!g.make_move((4, 1), (4, 4)));
    assert!(!g.make_move((3, 3), (3, 4)));
    assert!(!g.make_move((4, 1), (8, 1)));
    assert!(!g.make_move((0, 0), (0, 1)));
    assert!(snapshot(&g) == before);
    assert_eq!(g.get_turn_owner(), Color::White);
    assert!(g.get_game_state() == GameState::Running);
}

#[test]
fn make_board_rejects_unknown_ranks_and_missing_kings() {
    let mut t = ['0'; 64];
    t[4] = 'K';
    t[60] = 'K';
    assert!(Game::make_board(t, 0xFFFF).is_ok());
    assert!(Game::make_board(t, 0xFFFF_FFFF_FFFF_FFFF).is_err());
    let mut u = t;
    u[10] = 'x';
    assert!(Game::make_board(u, 0xFFFF).is_err());
    let mut w = t;
    w[60] = '0';
    assert!(Game::make_board(w, 0xFFFF).is_err());
}

#[test]
fn safe_positions_follow_enemy_threats() {
    let g = Game::new();
    assert!(g.is_safe_position(4, 2, Color::White));
    assert!(!g.is_safe_position(5, 5, Color::White));
    assert!(g.is_safe_position(5, 5, Color::Black));
    assert!(g.is_safe_position(4, 5, Color::White));
    assert!(g.is_safe_position(9, 9, Color::White));
}

#[test]
fn danger_zone_of_a_pawn_needs_a_target() {
    let g = board(&[
        (1, 0, 'K', Color::White),
        (6, 7, 'K', Color::Black),
        (4, 6, 'p', Color::Black),
        (3, 5, 'R', Color::White),
    ]);
    let p = g.get_piece_at(4, 6).unwrap();
    let z = p.get_danger_zone(4, 6, &g);
    assert_eq!(z.len(), 1);
    assert!(z.contains(&(3 + 5 * 8)));
    let empty = Game::new();
    let q = empty.get_piece_at(4, 6).unwrap();
    assert_eq!(q.get_danger_zone(4, 6, &empty).len(), 0);
}

#[test]
fn knight_moves_from_the_start() {
    let g = Game::new();
    assert!(g.get_moves(3, 3).is_none());
    let m = g.get_moves(1, 0).unwrap();
    assert_eq!(m.len(), 2);
    assert!(m.contains_key(&(0 + 2 * 8)));
    assert!(m.contains_key(&(2 + 2 * 8)));
    let right = g.get_moves(6, 0).unwrap();
    assert_eq!(right.len(), 2);
    assert!(right.contains_key(&(7 + 2 * 8)));
    assert!(right.contains_key(&(5 + 2 * 8)));
}

#[test]
fn prune_ignores_the_state_of_play() {
    let g = Game::new();
    let mut h = Game::new();
    h.game_state = GameState::Stalemate;
    let p = g.get_piece_at(3, 0).unwrap();
    let a = p.moves[0].prune(&g, (3, 1));
    let b = p.moves[0].prune(&h, (3, 1));
    assert!(a == b);
    assert!(a == p.moves[0].prune(&g, (3, 1)));
}

#[test]
fn position_resolution_and_addition() {
    assert_eq!(position(Position::Relative((1, 0)), (3, 4)), (4, 4));
    assert_eq!(position(Position::Relative((-1, 2)), (0, 4)), (255, 6));
    assert_eq!(position(Position::Global((2, 5)), (7, 7)), (2, 5));
    assert_eq!(Position::Global((3, 3)).add(Position::Global((1, 1))), None);
    assert_eq!(Position::Global((3, 3)).add(Position::Relative((1, -1))), Some(Position::Global((4, 2))));
    assert_eq!(Position::Relative((1, -1)).add(Position::Global((3, 3))), Some(Position::Global((4, 2))));
    assert_eq!(Position::Relative((1, 2)).add(Position::Relative((3, -4))), Some(Position::Relative((4, -2))));
    assert_eq!(Position::Relative((127, 0)).add(Position::Relative((1, 0))), None);
    assert_eq!(Position::Global((0, 0)).add(Position::Relative((-1, 0))), Some(Position::Global((255, 0))));
    assert_eq!(Position::Global((200, 0)).add(Position::Relative((100, 0))), Some(Position::Global((44, 0))));
    assert_eq!(Position::Global((100, 0)).add(Position::Relative((100, 0))), None);
}

#[test]
fn color_names() {
    assert_eq!(Color::White.name(), "White");
    assert_eq!(Color::Black.name(), "Black");
    assert_eq!(Color::White.opposite(), Color::Black);
}

#[test]
fn standard_start_leaves_neither_king_attacked() {
    let g = Game::new();
    assert!(g.is_safe_position(4, 0, Color::White));
    let mut h = Game::new();
    h.turn_owner = Color::Black;
    assert!(h.is_safe_position(4, 7, Color::Black));
}

#[test]
fn a_king_left_in_check_by_the_setup_can_be_taken() {
    let mut g = board(&[
        (0, 0, 'K', Color::White),
        (4, 0, 'R', Color::White),
        (4, 7, 'K', Color::Black),
    ]);
    assert!(g.make_move((4, 0), (4, 7)));
    assert_eq!(g.get_piece_at(4, 7).unwrap().color, Color::White);
    assert!(g.get_game_state() == GameState::Stalemate);
}
