use vstd::prelude::*;

use crate::basics::{Color, Effect};

verus! {

/// How a piece's move counter is compared with a bound.
#[derive(Clone, Copy, Debug, PartialEq, Eq, Structural)]
pub enum Comparator {
    /// `x > y`
    MoreThan,
    /// `x >= y`
    AtLeast,
    /// `x == y`
    Exactly,
    /// `x <= y`
    AtMost,
    /// `x < y`
    LessThan,
}

impl Comparator {
    /// Whether `x` stands in this relation to `y`.
    pub open spec fn spec_holds(self, x: int, y: int) -> bool {
        match self {
            Comparator::MoreThan => x > y,
            Comparator::AtLeast => x >= y,
            Comparator::Exactly => x == y,
            Comparator::AtMost => x <= y,
            Comparator::LessThan => x < y,
        }
    }

    /// Whether `x` stands in this relation to `y`.
    pub fn holds(&self, x: u32, y: u32) -> (r: bool)
        ensures
            r == self.spec_holds(x as int, y as int),
    {
        match self {
            Comparator::MoreThan => x > y,
            Comparator::AtLeast => x >= y,
            Comparator::Exactly => x == y,
            Comparator::AtMost => x <= y,
            Comparator::LessThan => x < y,
        }
    }
}

/// Which reflections of a move template are also in force.
#[derive(Clone, Copy, Debug, PartialEq, Eq, Structural)]
pub enum Mirror {
    Vertically,
    Horizontally,
    VerAndHor,
}

/// The reflections `(horizontal, vertical)` that a mirror mode puts in force,
/// the unreflected template first.
pub open spec fn variants(mirror: Option<Mirror>) -> Seq<(bool, bool)> {
    match mirror {
        None => seq![(false, false)],
        Some(Mirror::Horizontally) => seq![(false, false), (true, false)],
        Some(Mirror::Vertically) => seq![(false, false), (false, true)],
        Some(Mirror::VerAndHor) => seq![(false, false), (true, false), (false, true), (true, true)],
    }
}

/// A condition on one square, used as a precondition of a move template.
/// Every field that is present must hold.
#[derive(Clone, Copy, Debug)]
pub struct PieceStatus {
    /// Absolute file and/or rank of the square. With `relative_pos` they
    /// constrain the square it names; without it they name the square, and a
    /// coordinate given in neither way is the origin's own.
    pub board_pos: (Option<u8>, Option<u8>),
    /// Offset of the square from the origin of the move.
    pub relative_pos: Option<(i8, i8)>,
    /// `None` means the square must be empty. `Some('0')` means any piece.
    /// `Some(c)` means a piece of rank `c`.
    pub rank: Option<char>,
    /// The colour the occupant must have.
    pub color: Option<Color>,
    /// How the occupant's move counter must compare with a bound.
    pub has_moved: Option<(Comparator, u32)>,
    /// When the occupant last moved. 0 is the most recent turn completed by
    /// the occupant's side, -1 the turn before, and so on; 1 is the first turn
    /// of the game, 2 the one after, and so on.
    pub last_moved: Option<i32>,
}

impl PieceStatus {
    /// The condition with every field absent: an empty square at the origin.
    pub open spec fn spec_default() -> PieceStatus {
        PieceStatus {
            board_pos: (None, None),
            relative_pos: None,
            rank: None,
            color: None,
            has_moved: None,
            last_moved: None,
        }
    }
}

impl Default for PieceStatus {
    fn default() -> (r: Self)
        ensures
            r == PieceStatus::spec_default(),
    {
        PieceStatus {
            board_pos: (None, None),
            relative_pos: None,
            rank: None,
            color: None,
            has_moved: None,
            last_moved: None,
        }
    }
}

/// One way a piece can move, as data.
#[derive(Clone, Debug)]
pub struct Move {
    /// How many times the step can be repeated in one direction; `None` is 8.
    pub maximum_slide: Option<u8>,
    /// The fewest steps a destination lies from the origin.
    pub minimum_slide: u8,
    /// The base step vectors.
    pub directions: Vec<(i8, i8)>,
    /// Whether landing on an enemy piece is allowed.
    pub can_capture: bool,
    /// The colour of the piece that this move belongs to.
    pub color: Color,
    /// Which reflections of the directions, requirements and effects also apply.
    pub mirror: Option<Mirror>,
    /// Conditions that must all hold for the template to fire.
    pub requirements: Vec<PieceStatus>,
    /// A symbolic name for a notation layer, such as `O-O`.
    pub command: Option<String>,
    /// What else happens when a destination of this template is chosen.
    pub effect: Vec<Effect>,
    /// Whether every square the piece passes, origin and destination
    /// included, must be safe for it.
    pub safe_throughout: bool,
}

/// The mathematical value of a move template.
pub struct MoveView {
    pub maximum_slide: Option<u8>,
    pub minimum_slide: u8,
    pub directions: Seq<(i8, i8)>,
    pub can_capture: bool,
    pub color: Color,
    pub mirror: Option<Mirror>,
    pub requirements: Seq<PieceStatus>,
    pub command: Option<Seq<char>>,
    pub effect: Seq<Effect>,
    pub safe_throughout: bool,
}

impl MoveView {
    /// The largest step count: the bound given, or 8.
    pub open spec fn max_steps(self) -> int {
        match self.maximum_slide {
            Some(n) => n as int,
            None => 8,
        }
    }
}

impl View for Move {
    type V = MoveView;

    open spec fn view(&self) -> MoveView {
        MoveView {
            maximum_slide: self.maximum_slide,
            minimum_slide: self.minimum_slide,
            directions: self.directions@,
            can_capture: self.can_capture,
            color: self.color,
            mirror: self.mirror,
            requirements: self.requirements@,
            command: match self.command {
                Some(s) => Some(s@),
                None => None,
            },
            effect: self.effect@,
            safe_throughout: self.safe_throughout,
        }
    }
}

impl Move {
    /// The template with every field at its default: captures allowed, one
    /// to eight steps, no directions, no mirror, no conditions, no effects.
    pub open spec fn spec_default() -> MoveView {
        MoveView {
            maximum_slide: None,
            minimum_slide: 1,
            directions: Seq::empty(),
            can_capture: true,
            color: Color::White,
            mirror: None,
            requirements: Seq::empty(),
            command: None,
            effect: Seq::empty(),
            safe_throughout: false,
        }
    }

    /// A copy of the template.
    pub fn copy(&self) -> (r: Move)
        ensures
            r@ == self@,
    {
        let command = match &self.command {
            Some(s) => Some(s.clone()),
            None => None,
        };
        Move {
            maximum_slide: self.maximum_slide,
            minimum_slide: self.minimum_slide,
            directions: copy_vec(&self.directions),
            can_capture: self.can_capture,
            color: self.color,
            mirror: self.mirror,
            requirements: copy_vec(&self.requirements),
            command,
            effect: copy_vec(&self.effect),
            safe_throughout: self.safe_throughout,
        }
    }
}

impl Default for Move {
    fn default() -> (r: Self)
        ensures
            r@ == Move::spec_default(),
    {
        Move {
            maximum_slide: None,
            minimum_slide: 1,
            directions: Vec::new(),
            can_capture: true,
            color: Color::White,
            mirror: None,
            requirements: Vec::new(),
            command: None,
            effect: Vec::new(),
            safe_throughout: false,
        }
    }
}

/// An element-wise copy of a vector of plain values.
pub fn copy_vec<T: Copy>(v: &Vec<T>) -> (r: Vec<T>)
    ensures
        r@ == v@,
{
    let mut r: Vec<T> = Vec::new();
    let mut i: usize = 0;
    while i < v.len()
        invariant
            i <= v@.len(),
            r@ == v@.subrange(0, i as int),
        decreases v@.len() - i,
    {
        r.push(v[i]);
        i += 1;
        assert(r@ == v@.subrange(0, i as int));
    }
    assert(v@.subrange(0, v@.len() as int) == v@);
    r
}

} // verus!
