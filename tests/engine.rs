use chess_engine::{Color, Game, GameState};

const TEST_TEMPLATE: [char; 64] = [
    '0', 'K', '0', '0', '0', '0', '0', '0', //
    '0', '0', '0', '0', '0', '0', '0', '0', //
    '0', '0', '0', '0', '0', '0', '0', '0', //
    '0', '0', '0', '0', '0', '0', '0', '0', //
    '0', '0', '0', '0', '0', '0', '0', '0', //
    '0', '0', '0', '0', '0', '0', '0', '0', //
    '0', '0', '0', '0', '0', '0', '0', '0', //
    '0', '0', '0', '0', '0', '0', 'K', '0', //
];
const COLOR_TEMPLATE: u64 = 0x00000000FFFFFFFF;

#[test]
fn danger_zone() {
    let g = Game::new();
    let mut i = 0 as u8;

    for o in &g.board {
        if let Some(p) = o {
            println!("Testing {} at {},{}", p.rank, i % 8, i >> 3);
            p.get_danger_zone(i % 8, i >> 3, &g);
        }
        i += 1;
    }
}

#[test]
fn test_pawn_move_normal() {
    let from = (4 as u8, 1 as u8);
    let to = (4 as u8, 2 as u8);

    let mut g = Game::new();
    let p = g.get_piece_at(from.0, from.1).unwrap();
    let m = p.moves[0].prune(&g, from);

    if m.len() != 1 || !m.contains_key(&(to.0 + to.1 * 8)) {
        panic!();
    }

    println!("Move success: {}", g.make_move(from, to));
    let a = g.get_piece_at(to.0, to.1);

    println!("Debug Piece: {:#?}", a);

    if let Some(p) = a {
        if p.color == Color::White && p.last_moved == Some(1) && p.times_moved == 1 {
            return;
        }
    }
    panic!();
}

#[test]
fn test_pawn_move_double() {
    let from = (4 as u8, 1 as u8);
    let to = (4 as u8, 3 as u8);
    let to2 = (4 as u8, 5 as u8);

    let mut g = Game::new();
    let p = g.get_piece_at(from.0, from.1).unwrap();
    let m = p.moves[1].prune(&g, from);

    if m.len() != 1 || !m.contains_key(&(to.0 + to.1 * 8)) {
        panic!();
    }

    println!("Move success: {}", g.make_move(from, to));
    let a = g.get_piece_at(to.0, to.1);

    println!("Debug Piece: {:#?}", a);

    if let Some(p) = a {
        if p.color != Color::White || p.last_moved != Some(1) || p.times_moved != 1 {
            panic!();
        }
    } else {
        panic!();
    }

    // Also make sure it can not move in such a way twice
    println!("Move success (should be false): {}", g.make_move(from, to));

    let b = g.get_piece_at(to2.0, to2.1);

    if let Some(_p) = b {
        panic!();
    }
}

#[test]
fn test_pawn_move_capture_false() {
    let g = Game::new();
    let p = g.get_piece_at(4, 1).unwrap();
    let m = p.moves[2].prune(&g, (4, 1));

    if m.len() != 0 {
        panic!();
    }
}

#[test]
fn test_pawn_move_capture_true() {
    let mut template = TEST_TEMPLATE;
    let start = (3 as u8, 3 as u8);
    let goal = (4 as u8, 4 as u8);

    template[(start.0 + start.1 * 8) as usize] = 'p';
    template[(goal.0 + goal.1 * 8) as usize] = 'p';

    let b = Game::make_board(template, COLOR_TEMPLATE).ok().unwrap();

    let mut g = Game {
        board: b,
        turn_owner: Color::White,
        turn_count: 1,
        game_state: GameState::Running,
    };

    let p = g.get_piece_at(start.0, start.1).unwrap();
    let m = p.moves[2].prune(&g, start);

    if m.len() != 1 || !m.contains_key(&(goal.0 + goal.1 * 8)) {
        panic!();
    }

    println!("Move success: {}", g.make_move(start, goal));
    let a = g.get_piece_at(goal.0, goal.1);

    println!("Debug Piece: {:#?}", a);

    if let Some(p) = a {
        if p.color == Color::White && p.last_moved == Some(1) && p.times_moved == 1 {
            return;
        }
    }
    panic!();
}

#[test]
fn test_pawn_move_en_passant() {
    let mut template = TEST_TEMPLATE;
    let start = (3 as u8, 3 as u8);
    let subgoal = (3 as u8, 4 as u8);
    let goal = (4 as u8, 5 as u8);
    let start2 = (4 as u8, 6 as u8);
    let goal2 = (4 as u8, 4 as u8);

    template[(start.0 + start.1 * 8) as usize] = 'p';
    template[(start2.0 + start2.1 * 8) as usize] = 'p';

    let b = Game::make_board(template, COLOR_TEMPLATE).ok().unwrap();

    let mut g = Game {
        board: b,
        turn_owner: Color::White,
        turn_count: 1,
        game_state: GameState::Running,
    };

    println!("Move part 1 success: {}", g.make_move(start, subgoal));

    println!("Move part 2 success: {}", g.make_move(start2, goal2));

    println!("Move part 3 success: {}", g.make_move(subgoal, goal));

    let a = g.get_piece_at(goal.0, goal.1);
    let b = g.get_piece_at(goal2.0, goal2.1);

    println!("Debug Piece: {:#?}", a);

    if let Some(p) = a {
        if let Some(_p) = b {
            panic!()
        }
        if p.color == Color::White && p.last_moved == Some(2) && p.times_moved == 2 {
            return;
        }
    }
    panic!();
}

#[test]
fn test_pawn_move_capture_true_flip() {
    let mut template = TEST_TEMPLATE;
    let start = (4 as u8, 3 as u8);
    let goal = (3 as u8, 4 as u8);

    template[(start.0 + start.1 * 8) as usize] = 'p';
    template[(goal.0 + goal.1 * 8) as usize] = 'p';

    let b = Game::make_board(template, COLOR_TEMPLATE).ok().unwrap();

    let mut g = Game {
        board: b,
        turn_owner: Color::White,
        turn_count: 1,
        game_state: GameState::Running,
    };

    let p = g.get_piece_at(start.0, start.1).unwrap();
    let m = p.moves[2].prune(&g, start);

    if m.len() != 1 || !m.contains_key(&(goal.0 + goal.1 * 8)) {
        panic!();
    }

    println!("Move success: {}", g.make_move(start, goal));
    let a = g.get_piece_at(goal.0, goal.1);

    println!("Debug Piece: {:#?}", a);

    if let Some(p) = a {
        if p.color == Color::White && p.last_moved == Some(1) && p.times_moved == 1 {
            return;
        }
    }
    panic!();
}

#[test]
fn test_pawn_black_move_normal() {
    let g = Game::new();
    let p = g.get_piece_at(4, 6).unwrap();
    let m = p.moves[0].prune(&g, (4, 6));

    if m.len() != 1 || !m.contains_key(&(4 + 5 * 8)) {
        panic!();
    }
}

#[test]
fn test_pawn_black_move_double() {
    let g = Game::new();
    let p = g.get_piece_at(4, 6).unwrap();
    let m = p.moves[1].prune(&g, (4, 6));

    if m.len() != 1 || !m.contains_key(&(4 + 4 * 8)) {
        panic!();
    }
}

#[test]
fn test_pawn_black_move_capture_false() {
    let g = Game::new();
    let p = g.get_piece_at(4, 6).unwrap();
    let m = p.moves[2].prune(&g, (4, 6));

    if m.len() != 0 {
        panic!();
    }
}

#[test]
fn test_pawn_black_move_capture_true() {
    let mut template = TEST_TEMPLATE;
    template[3 + 3 * 8] = 'p';
    template[4 + 4 * 8] = 'p';
    let b = Game::make_board(template, COLOR_TEMPLATE).ok().unwrap();
    let g = Game {
        board: b,
        turn_owner: Color::White,
        turn_count: 0,
        game_state: GameState::Running,
    };

    let p = g.get_piece_at(4, 4).unwrap();
    let m = p.moves[2].prune(&g, (4, 4));

    if m.len() != 1 || !m.contains_key(&(3 + 3 * 8)) {
        panic!();
    }
}

#[test]
fn test_pawn_black_move_capture_true_flip() {
    let mut template = TEST_TEMPLATE;
    template[4 + 3 * 8] = 'p';
    template[3 + 4 * 8] = 'p';
    let b = Game::make_board(template, COLOR_TEMPLATE).ok().unwrap();
    let g = Game {
        board: b,
        turn_owner: Color::White,
        turn_count: 0,
        game_state: GameState::Running,
    };

    let p = g.get_piece_at(3, 4).unwrap();
    let m = p.moves[2].prune(&g, (3, 4));

    if m.len() != 1 || !m.contains_key(&(4 + 3 * 8)) {
        panic!();
    }
}

#[test]
fn test_promote() {
    let mut g = Game::new();
    g.just_move((2, 1), (2, 7));
    g.just_move((7, 6), (7, 7));

    println!("This move should fail: ");
    if g.make_move((1, 1), (1, 2)) {
        panic!("The move did not fail.");
    }

    println!("This move should fail: ");
    if g.make_move((1, 6), (1, 5)) {
        panic!("The move did not fail.");
    }

    if let Some((pos, piece)) = g.get_promotion() {
        if piece.rank != 'p' || piece.color != Color::White || pos != (2, 7) {
            panic!("Wrong piece or position.");
        }

        if g.promote(pos, 'p')
            || g.promote(pos, 'K')
            || g.promote((4, 6), 'Q')
            || g.promote((7, 7), 'Q')
        {
            panic!("It should not have promoted!");
        }

        if !g.promote(pos, 'Q') {
            panic!("It should have promoted, but did not.");
        }

        if let Some(p) = g.get_piece_at(pos.0, pos.1) {
            if p.rank != 'Q' {
                panic!("It lied about promoting!");
            }
            println!("Success!");
        } else {
            panic!("It is just gone. What?");
        }
    } else {
        panic!("No piece to promote.");
    }
}

#[test]
fn test_check() {
    let mut t = TEST_TEMPLATE;
    t[3 + 3 * 8] = 'R';
    let b = Game::make_board(t, COLOR_TEMPLATE).unwrap();
    let mut g = Game {
        board: b,
        turn_owner: Color::White,
        turn_count: 1,
        game_state: GameState::Running,
    };

    g.make_move((3, 3), (6, 3));

    if g.make_move((6, 7), (6, 6)) {
        panic!();
    }

    if !g.make_move((6, 7), (7, 7)) {
        panic!();
    }
}
