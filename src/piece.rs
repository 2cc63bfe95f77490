use vstd::prelude::*;

use crate::basics::{Color, Effect, Position};
use crate::template::{Comparator, Mirror, Move, MoveView, PieceStatus};

verus! {

/// A chess piece.
#[derive(Clone, Debug)]
pub struct Piece {
    /// King: K, Queen: Q, Rook: R, Bishop: B, Knight: N, Pawn: p.
    pub rank: char,
    pub color: Color,
    /// Whether losing this piece loses the game.
    pub is_crucial: bool,
    /// Whether the piece must promote on reaching the far rank.
    pub can_promote: bool,
    /// The turn on which the piece last moved, if it ever did.
    pub last_moved: Option<u32>,
    /// How many times the piece has moved.
    pub times_moved: u32,
    /// The ways the piece can move.
    pub moves: Vec<Move>,
}

/// The mathematical value of a piece.
pub struct PieceView {
    pub rank: char,
    pub color: Color,
    pub is_crucial: bool,
    pub can_promote: bool,
    pub last_moved: Option<u32>,
    pub times_moved: u32,
    pub moves: Seq<MoveView>,
}

impl View for Piece {
    type V = PieceView;

    open spec fn view(&self) -> PieceView {
        PieceView {
            rank: self.rank,
            color: self.color,
            is_crucial: self.is_crucial,
            can_promote: self.can_promote,
            last_moved: self.last_moved,
            times_moved: self.times_moved,
            moves: self.moves@.map_values(|m: Move| m@),
        }
    }
}

impl PieceView {
    /// Every template of the piece moves in the piece's own colour.
    pub open spec fn wf(self) -> bool {
        forall|k: int| 0 <= k < self.moves.len() ==> (#[trigger] self.moves[k]).color == self.color
    }

    /// The rank on which the piece promotes: the far one for its side.
    pub open spec fn far_rank(self) -> int {
        if self.color == Color::White {
            7
        } else {
            0
        }
    }
}

/// The ranks that the default configuration knows.
pub open spec fn is_known_rank(rank: char) -> bool {
    rank == 'K' || rank == 'Q' || rank == 'R' || rank == 'B' || rank == 'N' || rank == 'p'
}

/// Whether `rank` is one of the ranks that the default configuration knows.
pub fn known_rank(rank: char) -> (r: bool)
    ensures
        r == is_known_rank(rank),
{
    rank == 'K' || rank == 'Q' || rank == 'R' || rank == 'B' || rank == 'N' || rank == 'p'
}

/// Forward for a side: up the board for White, down for Black.
pub open spec fn forward(color: Color) -> i8 {
    if color == Color::White {
        1
    } else {
        -1i8
    }
}

/// The rank a pawn of `color` stands on when it may capture en passant.
pub open spec fn en_passant_rank(color: Color) -> u8 {
    if color == Color::White {
        4
    } else {
        3
    }
}

/// A one-template piece that slides along `directions` and their reflections.
pub open spec fn spec_slider(
    color: Color,
    rank: char,
    directions: Seq<(i8, i8)>,
    maximum_slide: Option<u8>,
) -> PieceView {
    PieceView {
        rank,
        color,
        is_crucial: false,
        can_promote: false,
        last_moved: None,
        times_moved: 0,
        moves: seq![
            MoveView {
                maximum_slide,
                directions,
                mirror: Some(Mirror::VerAndHor),
                color,
                ..Move::spec_default()
            },
        ],
    }
}

pub open spec fn spec_rook(color: Color) -> PieceView {
    spec_slider(color, 'R', seq![(0i8, 1i8), (1i8, 0i8)], None)
}

pub open spec fn spec_bishop(color: Color) -> PieceView {
    spec_slider(color, 'B', seq![(1i8, 1i8)], None)
}

pub open spec fn spec_queen(color: Color) -> PieceView {
    spec_slider(color, 'Q', seq![(0i8, 1i8), (1i8, 1i8), (1i8, 0i8)], None)
}

pub open spec fn spec_knight(color: Color) -> PieceView {
    spec_slider(color, 'N', seq![(2i8, 1i8), (1i8, 2i8)], Some(1u8))
}

/// The pawn: a step forward, a double step while unmoved, a diagonal capture
/// and en passant, the last two reflected to both sides.
pub open spec fn spec_pawn(color: Color) -> PieceView {
    let f = forward(color);
    let enemy = color.spec_opposite();
    PieceView {
        rank: 'p',
        color,
        is_crucial: false,
        can_promote: true,
        last_moved: None,
        times_moved: 0,
        moves: seq![
            MoveView {
                maximum_slide: Some(1u8),
                directions: seq![(0i8, f)],
                can_capture: false,
                color,
                ..Move::spec_default()
            },
            MoveView {
                maximum_slide: Some(2u8),
                minimum_slide: 2,
                directions: seq![(0i8, f)],
                can_capture: false,
                requirements: seq![
                    PieceStatus {
                        relative_pos: Some((0i8, 0i8)),
                        rank: Some('p'),
                        has_moved: Some((Comparator::Exactly, 0u32)),
                        ..PieceStatus::spec_default()
                    },
                ],
                color,
                ..Move::spec_default()
            },
            MoveView {
                maximum_slide: Some(1u8),
                directions: seq![(1i8, f)],
                mirror: Some(Mirror::Horizontally),
                requirements: seq![
                    PieceStatus {
                        relative_pos: Some((1i8, f)),
                        color: Some(enemy),
                        rank: Some('0'),
                        ..PieceStatus::spec_default()
                    },
                ],
                color,
                ..Move::spec_default()
            },
            MoveView {
                maximum_slide: Some(1u8),
                directions: seq![(1i8, f)],
                mirror: Some(Mirror::Horizontally),
                can_capture: false,
                requirements: seq![
                    PieceStatus {
                        rank: Some('p'),
                        board_pos: (None, Some(en_passant_rank(color))),
                        relative_pos: Some((1i8, 0i8)),
                        has_moved: Some((Comparator::Exactly, 1u32)),
                        color: Some(enemy),
                        last_moved: Some(0i32),
                        ..PieceStatus::spec_default()
                    },
                ],
                color,
                effect: seq![Effect::Capture(Position::Relative((1i8, 0i8)))],
                ..Move::spec_default()
            },
        ],
    }
}

/// One castling template: two steps along `dir` over safe, empty squares,
/// with king and rook unmoved; the rook then lands beside the king.
pub open spec fn spec_castle(
    color: Color,
    dir: i8,
    rook_at: i8,
    path_empty: Seq<PieceStatus>,
    command: Seq<char>,
) -> MoveView {
    MoveView {
        maximum_slide: Some(2u8),
        minimum_slide: 2,
        can_capture: false,
        color,
        directions: seq![(dir, 0i8)],
        safe_throughout: true,
        requirements: seq![
            PieceStatus {
                relative_pos: Some((0i8, 0i8)),
                rank: Some('0'),
                has_moved: Some((Comparator::Exactly, 0u32)),
                ..PieceStatus::spec_default()
            },
            PieceStatus {
                relative_pos: Some((rook_at, 0i8)),
                color: Some(color),
                rank: Some('R'),
                has_moved: Some((Comparator::Exactly, 0u32)),
                ..PieceStatus::spec_default()
            },
        ] + path_empty,
        command: Some(command),
        effect: seq![Effect::Move(Position::Relative((rook_at, 0i8)), Position::Relative((dir, 0i8)))],
        ..Move::spec_default()
    }
}

/// The king: one step in any direction, and castling on both sides.
pub open spec fn spec_king(color: Color) -> PieceView {
    PieceView {
        rank: 'K',
        color,
        is_crucial: true,
        can_promote: false,
        last_moved: None,
        times_moved: 0,
        moves: seq![
            MoveView {
                maximum_slide: Some(1u8),
                directions: seq![(0i8, 1i8), (1i8, 1i8), (1i8, 0i8)],
                mirror: Some(Mirror::VerAndHor),
                color,
                ..Move::spec_default()
            },
            spec_castle(color, 1, 3, Seq::empty(), "O-O"@),
            spec_castle(
                color,
                -1i8,
                -4i8,
                seq![
                    PieceStatus {
                        relative_pos: Some((-3i8, 0i8)),
                        ..PieceStatus::spec_default()
                    },
                ],
                "O-O-O"@,
            ),
        ],
    }
}

/// The piece of `rank` that the default configuration builds.
pub open spec fn spec_new_piece(color: Color, rank: char) -> PieceView {
    if rank == 'K' {
        spec_king(color)
    } else if rank == 'Q' {
        spec_queen(color)
    } else if rank == 'R' {
        spec_rook(color)
    } else if rank == 'B' {
        spec_bishop(color)
    } else if rank == 'N' {
        spec_knight(color)
    } else {
        spec_pawn(color)
    }
}

impl Piece {
    /// A copy of the piece.
    pub fn copy(&self) -> (r: Piece)
        ensures
            r@ == self@,
    {
        let mut moves: Vec<Move> = Vec::new();
        let mut i: usize = 0;
        while i < self.moves.len()
            invariant
                i <= self.moves@.len(),
                moves@.len() == i,
                forall|j: int| 0 <= j < i ==> (#[trigger] moves@[j])@ == self.moves@[j]@,
            decreases self.moves@.len() - i,
        {
            moves.push(self.moves[i].copy());
            i += 1;
        }
        let r = Piece {
            rank: self.rank,
            color: self.color,
            is_crucial: self.is_crucial,
            can_promote: self.can_promote,
            last_moved: self.last_moved,
            times_moved: self.times_moved,
            moves,
        };
        assert(r@.moves =~= self@.moves);
        r
    }

    /// Builds a piece of the default configuration.
    /// King: 'K', Queen: 'Q', Rook: 'R', Bishop: 'B', Knight: 'N', Pawn: 'p'.
    pub fn new(color: Color, rank: char) -> (r: Piece)
        requires
            is_known_rank(rank),
        ensures
            r@ == spec_new_piece(color, rank),
    {
        match rank {
            'K' => Piece::new_king(color),
            'Q' => Piece::new_queen(color),
            'B' => Piece::new_bishop(color),
            'N' => Piece::new_knight(color),
            'R' => Piece::new_rook(color),
            _ => Piece::new_pawn(color),
        }
    }

    fn new_slider(color: Color, rank: char, directions: Vec<(i8, i8)>, maximum_slide: Option<u8>) -> (r: Piece)
        ensures
            r@ == spec_slider(color, rank, directions@, maximum_slide),
    {
        let mut moves: Vec<Move> = Vec::new();
        moves.push(Move {
            maximum_slide,
            minimum_slide: 1,
            directions,
            can_capture: true,
            color,
            mirror: Some(Mirror::VerAndHor),
            requirements: Vec::new(),
            command: None,
            effect: Vec::new(),
            safe_throughout: false,
        });
        let r = Piece {
            color,
            is_crucial: false,
            can_promote: false,
            rank,
            last_moved: None,
            times_moved: 0,
            moves,
        };
        assert(r@.moves =~= spec_slider(color, rank, directions@, maximum_slide).moves);
        r
    }

    fn new_rook(color: Color) -> (r: Piece)
        ensures
            r@ == spec_rook(color),
    {
        let r = Piece::new_slider(color, 'R', vec![(0, 1), (1, 0)], None);
        assert(r@.moves[0].directions =~= seq![(0i8, 1i8), (1i8, 0i8)]);
        r
    }

    fn new_bishop(color: Color) -> (r: Piece)
        ensures
            r@ == spec_bishop(color),
    {
        let r = Piece::new_slider(color, 'B', vec![(1, 1)], None);
        assert(r@.moves[0].directions =~= seq![(1i8, 1i8)]);
        r
    }

    fn new_queen(color: Color) -> (r: Piece)
        ensures
            r@ == spec_queen(color),
    {
        let r = Piece::new_slider(color, 'Q', vec![(0, 1), (1, 1), (1, 0)], None);
        assert(r@.moves[0].directions =~= seq![(0i8, 1i8), (1i8, 1i8), (1i8, 0i8)]);
        r
    }

    fn new_knight(color: Color) -> (r: Piece)
        ensures
            r@ == spec_knight(color),
    {
        let r = Piece::new_slider(color, 'N', vec![(2, 1), (1, 2)], Some(1));
        assert(r@.moves[0].directions =~= seq![(2i8, 1i8), (1i8, 2i8)]);
        r
    }

    /// The pawn of `color`, with its four templates.
    pub fn new_pawn(color: Color) -> (r: Piece)
        ensures
            r@ == spec_pawn(color),
    {
        let enemy = color.opposite();
        let f: i8 = match color {
            Color::White => 1,
            Color::Black => -1,
        };
        let ep_rank: u8 = match color {
            Color::White => 4,
            Color::Black => 3,
        };
        let mut moves: Vec<Move> = Vec::new();
        // Move forwards.
        moves.push(Move {
            maximum_slide: Some(1),
            directions: vec![(0, f)],
            can_capture: false,
            color,
            ..Default::default()
        });
        // Two steps, only while it has not moved.
        moves.push(Move {
            maximum_slide: Some(2),
            minimum_slide: 2,
            directions: vec![(0, f)],
            can_capture: false,
            requirements: vec![
                PieceStatus {
                    relative_pos: Some((0, 0)),
                    rank: Some('p'),
                    has_moved: Some((Comparator::Exactly, 0)),
                    ..Default::default()
                },
            ],
            color,
            ..Default::default()
        });
        // Capture.
        moves.push(Move {
            maximum_slide: Some(1),
            directions: vec![(1, f)],
            mirror: Some(Mirror::Horizontally),
            requirements: vec![
                PieceStatus {
                    relative_pos: Some((1, f)),
                    color: Some(enemy),
                    rank: Some('0'),
                    ..Default::default()
                },
            ],
            color,
            ..Default::default()
        });
        // En passant: it cannot capture in the usual way.
        moves.push(Move {
            maximum_slide: Some(1),
            directions: vec![(1, f)],
            mirror: Some(Mirror::Horizontally),
            can_capture: false,
            requirements: vec![
                PieceStatus {
                    rank: Some('p'),
                    board_pos: (None, Some(ep_rank)),
                    relative_pos: Some((1, 0)),
                    has_moved: Some((Comparator::Exactly, 1)),
                    color: Some(enemy),
                    last_moved: Some(0),
                    ..Default::default()
                },
            ],
            color,
            effect: vec![Effect::Capture(Position::Relative((1, 0)))],
            ..Default::default()
        });
        let r = Piece {
            color,
            can_promote: true,
            rank: 'p',
            last_moved: None,
            times_moved: 0,
            is_crucial: false,
            moves,
        };
        let ghost spec = spec_pawn(color);
        assert forall|k: int| 0 <= k < 4 implies r@.moves[k].directions =~= spec.moves[k].directions
            && r@.moves[k].requirements =~= spec.moves[k].requirements
            && r@.moves[k].effect =~= spec.moves[k].effect by {}
        assert(r@.moves[0] == spec.moves[0]);
        assert(r@.moves[1] == spec.moves[1]);
        assert(r@.moves[2] == spec.moves[2]);
        assert(r@.moves[3] == spec.moves[3]);
        assert(r@.moves =~= spec.moves);
        r
    }

    fn castle(color: Color, dir: i8, rook_at: i8, path_empty: Vec<PieceStatus>, command: String) -> (r: Move)
        ensures
            r@ == spec_castle(color, dir, rook_at, path_empty@, command@),
    {
        let mut requirements = vec![
            PieceStatus {
                relative_pos: Some((0, 0)),
                rank: Some('0'),
                has_moved: Some((Comparator::Exactly, 0)),
                ..Default::default()
            },
            PieceStatus {
                relative_pos: Some((rook_at, 0)),
                color: Some(color),
                rank: Some('R'),
                has_moved: Some((Comparator::Exactly, 0)),
                ..Default::default()
            },
        ];
        let ghost first = requirements@;
        let mut path_empty = path_empty;
        let ghost rest = path_empty@;
        requirements.append(&mut path_empty);
        let r = Move {
            maximum_slide: Some(2),
            minimum_slide: 2,
            can_capture: false,
            color,
            directions: vec![(dir, 0)],
            safe_throughout: true,
            requirements,
            command: Some(command),
            effect: vec![Effect::Move(Position::Relative((rook_at, 0)), Position::Relative((dir, 0)))],
            mirror: None,
        };
        let ghost spec = spec_castle(color, dir, rook_at, rest, command@);
        assert(r@.requirements =~= spec.requirements);
        assert(r@.directions =~= spec.directions);
        assert(r@.effect =~= spec.effect);
        r
    }

    /// The king of `color`: one step anywhere, and castling on both sides.
    fn new_king(color: Color) -> (r: Piece)
        ensures
            r@ == spec_king(color),
    {
        let mut moves: Vec<Move> = Vec::new();
        moves.push(Move {
            maximum_slide: Some(1),
            directions: vec![(0, 1), (1, 1), (1, 0)],
            mirror: Some(Mirror::VerAndHor),
            color,
            ..Default::default()
        });
        proof {
            reveal_strlit("O-O");
            reveal_strlit("O-O-O");
        }
        // Castling, king side.
        moves.push(Piece::castle(color, 1, 3, Vec::new(), "O-O".to_owned()));
        // Castling, queen side: the knight's square must be empty as well.
        let path = vec![
            PieceStatus {
                relative_pos: Some((-3, 0)),
                ..Default::default()
            },
        ];
        moves.push(Piece::castle(color, -1, -4, path, "O-O-O".to_owned()));
        let r = Piece {
            color,
            is_crucial: true,
            can_promote: false,
            rank: 'K',
            last_moved: None,
            times_moved: 0,
            moves,
        };
        let ghost spec = spec_king(color);
        assert(r@.moves[0].directions =~= spec.moves[0].directions);
        assert(r@.moves[0] == spec.moves[0]);
        assert(r@.moves[2].requirements =~= spec.moves[2].requirements);
        assert(r@.moves =~= spec.moves);
        r
    }
}

} // verus!
