use vstd::prelude::*;

verus! {

/// Whether a file and a rank, as mathematical integers, name a square.
pub open spec fn on_board(c: int, r: int) -> bool {
    0 <= c < 8 && 0 <= r < 8
}

/// The index of square `(c, r)`: file plus eight times rank.
pub open spec fn square(c: int, r: int) -> int {
    c + 8 * r
}

/// The file of square index `d`.
pub open spec fn file_of(d: int) -> int {
    d % 8
}

/// The rank of square index `d`.
pub open spec fn rank_of(d: int) -> int {
    d / 8
}

/// A coordinate stored in a byte: exact when it fits, 255 (off the board) otherwise.
pub open spec fn clip_coord(x: int) -> u8 {
    if 0 <= x <= 255 {
        x as u8
    } else {
        255
    }
}

/// Negation of a relative offset; `i8::MIN` has no negation and is kept.
pub open spec fn neg_offset(x: i8) -> i8 {
    if x == i8::MIN {
        x
    } else {
        (-x) as i8
    }
}

/// Reflection of an absolute coordinate about the board's midline;
/// coordinates off the board are kept.
pub open spec fn flip_coord(x: u8) -> u8 {
    if x <= 7 {
        (7 - x) as u8
    } else {
        x
    }
}

/// Used to track piece alignment and whose turn it is.
#[derive(Clone, Copy, Debug, PartialEq, Eq, Structural)]
pub enum Color {
    White,
    Black,
}

impl Color {
    /// The other side.
    pub open spec fn spec_opposite(self) -> Color {
        match self {
            Color::White => Color::Black,
            Color::Black => Color::White,
        }
    }

    /// The other side.
    pub fn opposite(&self) -> (r: Color)
        ensures
            r == self.spec_opposite(),
    {
        match self {
            Color::White => Color::Black,
            Color::Black => Color::White,
        }
    }

    /// The side's name, as a word.
    pub fn name(&self) -> (r: &'static str)
        ensures
            *self == Color::White ==> r@ == "White"@,
            *self == Color::Black ==> r@ == "Black"@,
    {
        proof {
            reveal_strlit("White");
            reveal_strlit("Black");
        }
        match self {
            Color::White => "White",
            Color::Black => "Black",
        }
    }
}

/// A square named either absolutely or relative to the origin of a move.
#[derive(Clone, Copy, Debug, PartialEq, Eq)]
pub enum Position {
    /// Always relative to where the owner of the move stands when it starts the move.
    Relative((i8, i8)),
    Global((u8, u8)),
}

/// Moves such as castling and en passant affect pieces on squares other than
/// the one they land on. These describe such effects.
#[derive(Clone, Copy, Debug, PartialEq, Eq)]
pub enum Effect {
    /// Capture the piece at the position.
    Capture(Position),
    /// Moves the piece from the first position to the second.
    Move(Position, Position),
}

/// Describes the state of the game.
#[derive(Clone, Copy, Debug, PartialEq, Eq, Structural)]
pub enum GameState {
    /// Everything is running fine.
    Running,
    /// A piece must be promoted before play can continue.
    Promote,
    /// The turn owner is currently in check.
    Check,
    /// The turn owner is in check and cannot move: the game is over.
    CheckMate,
    /// The turn owner is not in check but cannot move: the game is a draw.
    Stalemate,
    /// Never entered by the engine's own operations.
    Error,
}

impl Position {
    /// The square this position names, for a move that starts at `origin`.
    pub open spec fn resolve(self, origin: (int, int)) -> (int, int) {
        match self {
            Position::Global((c, r)) => (c as int, r as int),
            Position::Relative((dc, dr)) => (origin.0 + dc, origin.1 + dr),
        }
    }

    /// The position reflected horizontally (`fh`) and/or vertically (`fv`).
    pub open spec fn spec_mirrored(self, fh: bool, fv: bool) -> Position {
        match self {
            Position::Global((c, r)) => Position::Global(
                (if fh { flip_coord(c) } else { c }, if fv { flip_coord(r) } else { r }),
            ),
            Position::Relative((dc, dr)) => Position::Relative(
                (if fh { neg_offset(dc) } else { dc }, if fv { neg_offset(dr) } else { dr }),
            ),
        }
    }

    /// The position reflected horizontally (`fh`) and/or vertically (`fv`).
    pub fn mirrored(self, fh: bool, fv: bool) -> (r: Position)
        ensures
            r == self.spec_mirrored(fh, fv),
    {
        match self {
            Position::Global((c, r)) => Position::Global(
                (if fh { flip_u8(c) } else { c }, if fv { flip_u8(r) } else { r }),
            ),
            Position::Relative((dc, dr)) => Position::Relative(
                (if fh { neg_i8(dc) } else { dc }, if fv { neg_i8(dr) } else { dr }),
            ),
        }
    }

    /// Adds two positions:
    /// - a global position plus a global position has no meaning (`None`);
    /// - a global position plus a relative one is the global position shifted:
    ///   each coordinate is read as a signed byte, the offset added, and the
    ///   sum read back as an unsigned byte (so `0 - 1` is 255 and `200 + 100`
    ///   is 44);
    /// - two relative positions add up to a relative position.
    ///
    /// A sum that leaves the signed byte range is `None`.
    pub fn add(self, other: Position) -> (r: Option<Position>)
        ensures
            r == spec_add(self, other),
    {
        match self {
            Position::Global((x, y)) => match other {
                Position::Global(_f) => None,
                Position::Relative((dx, dy)) => shift_global(x, y, dx, dy),
            },
            Position::Relative((dx, dy)) => match other {
                Position::Global((x, y)) => shift_global(x, y, dx, dy),
                Position::Relative((dx2, dy2)) => {
                    let sx: i16 = dx as i16 + dx2 as i16;
                    let sy: i16 = dy as i16 + dy2 as i16;
                    if -128 <= sx && sx <= 127 && -128 <= sy && sy <= 127 {
                        Some(Position::Relative((sx as i8, sy as i8)))
                    } else {
                        None
                    }
                },
            },
        }
    }
}

/// A coordinate byte read as a signed byte.
pub open spec fn signed_byte(x: u8) -> int {
    if x < 128 {
        x as int
    } else {
        x - 256
    }
}

/// A signed byte value (in `-128..=127`) read as an unsigned byte.
pub open spec fn unsigned_byte(v: int) -> u8 {
    if v < 0 {
        (v + 256) as u8
    } else {
        v as u8
    }
}

/// A global square shifted by an offset in signed-byte arithmetic, when the
/// sums stay in the signed byte range.
pub open spec fn spec_shift_global(x: u8, y: u8, dx: i8, dy: i8) -> Option<Position> {
    let sx = signed_byte(x) + dx;
    let sy = signed_byte(y) + dy;
    if -128 <= sx <= 127 && -128 <= sy <= 127 {
        Some(Position::Global((unsigned_byte(sx), unsigned_byte(sy))))
    } else {
        None
    }
}

/// What `Position::add` returns.
pub open spec fn spec_add(a: Position, b: Position) -> Option<Position> {
    match (a, b) {
        (Position::Global(_), Position::Global(_)) => None,
        (Position::Global((x, y)), Position::Relative((dx, dy))) => spec_shift_global(x, y, dx, dy),
        (Position::Relative((dx, dy)), Position::Global((x, y))) => spec_shift_global(x, y, dx, dy),
        (Position::Relative((dx, dy)), Position::Relative((dx2, dy2))) => {
            let sx = dx + dx2;
            let sy = dy + dy2;
            if -128 <= sx <= 127 && -128 <= sy <= 127 {
                Some(Position::Relative((sx as i8, sy as i8)))
            } else {
                None
            }
        },
    }
}

fn signed(x: u8) -> (r: i16)
    ensures
        r == signed_byte(x),
{
    if x < 128 {
        x as i16
    } else {
        x as i16 - 256
    }
}

fn unsigned(v: i16) -> (r: u8)
    requires
        -128 <= v <= 127,
    ensures
        r == unsigned_byte(v as int),
{
    if v < 0 {
        (v + 256) as u8
    } else {
        v as u8
    }
}

fn shift_global(x: u8, y: u8, dx: i8, dy: i8) -> (r: Option<Position>)
    ensures
        r == spec_shift_global(x, y, dx, dy),
{
    let sx: i16 = signed(x) + dx as i16;
    let sy: i16 = signed(y) + dy as i16;
    if -128 <= sx && sx <= 127 && -128 <= sy && sy <= 127 {
        Some(Position::Global((unsigned(sx), unsigned(sy))))
    } else {
        None
    }
}

fn neg_i8(x: i8) -> (r: i8)
    ensures
        r == neg_offset(x),
{
    if x == i8::MIN {
        x
    } else {
        -x
    }
}

fn flip_u8(x: u8) -> (r: u8)
    ensures
        r == flip_coord(x),
{
    if x <= 7 {
        7 - x
    } else {
        x
    }
}

fn clip_i16(x: i16) -> (r: u8)
    ensures
        r == clip_coord(x as int),
{
    if 0 <= x && x <= 255 {
        x as u8
    } else {
        255
    }
}

/// The square that `pos` names for a move that starts at `rel`, one
/// coordinate byte each; a coordinate that leaves the byte's range is 255.
pub fn position(pos: Position, rel: (u8, u8)) -> (r: (u8, u8))
    ensures
        r == (
            clip_coord(pos.resolve((rel.0 as int, rel.1 as int)).0),
            clip_coord(pos.resolve((rel.0 as int, rel.1 as int)).1),
        ),
{
    match pos {
        Position::Global((col, row)) => (col, row),
        Position::Relative((r_col, r_row)) => (
            clip_i16(r_col as i16 + rel.0 as i16),
            clip_i16(r_row as i16 + rel.1 as i16),
        ),
    }
}

impl Effect {
    /// The effect with its positions reflected.
    pub open spec fn spec_mirrored(self, fh: bool, fv: bool) -> Effect {
        match self {
            Effect::Capture(p) => Effect::Capture(p.spec_mirrored(fh, fv)),
            Effect::Move(a, b) => Effect::Move(a.spec_mirrored(fh, fv), b.spec_mirrored(fh, fv)),
        }
    }

    /// The effect with its positions reflected.
    pub fn mirrored(self, fh: bool, fv: bool) -> (r: Effect)
        ensures
            r == self.spec_mirrored(fh, fv),
    {
        match self {
            Effect::Capture(p) => Effect::Capture(p.mirrored(fh, fv)),
            Effect::Move(a, b) => Effect::Move(a.mirrored(fh, fv), b.mirrored(fh, fv)),
        }
    }
}

} // verus!
