//! Labels for the cube's faces, sticker colors, rotations, and moves,
//! together with the 5-bit move code used by the stored tables.

use vstd::prelude::*;

verus! {

/// A sticker color. `Void` stands for a sticker-less surface (the core).
#[derive(Clone, Copy, PartialEq, Eq, Structural, Debug)]
pub enum MyColor {
    Green,
    Blue,
    Orange,
    Yellow,
    Red,
    White,
    Void,
}

/// One of the six faces of the cube.
#[derive(Clone, Copy, PartialEq, Eq, Structural, Debug)]
pub enum Face {
    Up,
    Down,
    Front,
    Back,
    Left,
    Right,
}

/// Direction of a quarter turn.
#[derive(Clone, Copy, PartialEq, Eq, Structural, Debug)]
pub enum Rotation {
    Cw,
    Ccw,
}

/// A quarter turn (`Single`) or a half turn (`Dual`).
#[derive(Clone, Copy, PartialEq, Eq, Structural, Debug)]
pub enum RotType {
    Single,
    Dual,
}

/// A face move: the face to turn, the direction, and single/double.
#[derive(Clone, Copy, PartialEq, Eq, Structural, Debug)]
pub struct Move(pub Face, pub Rotation, pub RotType);

/// Index of a face in the canonical order Up, Down, Front, Back, Left, Right.
pub open spec fn face_index(f: Face) -> int {
    match f {
        Face::Up => 0,
        Face::Down => 1,
        Face::Front => 2,
        Face::Back => 3,
        Face::Left => 4,
        Face::Right => 5,
    }
}

/// The face with the given canonical index.
pub open spec fn face_from_index(i: int) -> Face {
    if i == 0 {
        Face::Up
    } else if i == 1 {
        Face::Down
    } else if i == 2 {
        Face::Front
    } else if i == 3 {
        Face::Back
    } else if i == 4 {
        Face::Left
    } else {
        Face::Right
    }
}

/// The face opposite to `f`; opposite faces share an axis.
pub open spec fn opposite_face(f: Face) -> Face {
    match f {
        Face::Up => Face::Down,
        Face::Down => Face::Up,
        Face::Front => Face::Back,
        Face::Back => Face::Front,
        Face::Left => Face::Right,
        Face::Right => Face::Left,
    }
}

/// The color a face shows on a solved cube.
pub open spec fn canon_color(f: Face) -> MyColor {
    match f {
        Face::Up => MyColor::Blue,
        Face::Down => MyColor::Green,
        Face::Front => MyColor::White,
        Face::Back => MyColor::Yellow,
        Face::Left => MyColor::Orange,
        Face::Right => MyColor::Red,
    }
}

/// Index of a rotation: clockwise 0, counter-clockwise 1.
pub open spec fn rot_index(r: Rotation) -> int {
    match r {
        Rotation::Cw => 0,
        Rotation::Ccw => 1,
    }
}

/// Index of a rotation type: single 0, dual 1.
pub open spec fn typ_index(t: RotType) -> int {
    match t {
        RotType::Single => 0,
        RotType::Dual => 1,
    }
}

/// The same move with the direction of rotation swapped; applying a move and
/// then its inverse restores any cube.
pub open spec fn inverse_move(m: Move) -> Move {
    Move(m.0, if m.1 is Cw { Rotation::Ccw } else { Rotation::Cw }, m.2)
}

/// The 5-bit code of a move: face index in the high 3 bits, then the
/// rotation bit, then the single/dual bit.
pub open spec fn move_code(m: Move) -> u8 {
    (face_index(m.0) * 4 + rot_index(m.1) * 2 + typ_index(m.2)) as u8
}

/// The move a 5-bit code stands for (codes with a face field of 6 or 7 do
/// not name a move and are mapped to `Right` turns by the fallback arm).
pub open spec fn decode_move(code: u8) -> Move {
    Move(
        face_from_index(code as int / 4),
        if code as int / 2 % 2 == 0 {
            Rotation::Cw
        } else {
            Rotation::Ccw
        },
        if code as int % 2 == 0 {
            RotType::Single
        } else {
            RotType::Dual
        },
    )
}

/// Executable face index.
pub fn face_idx(f: Face) -> (i: usize)
    ensures
        i == face_index(f),
{
    match f {
        Face::Up => 0,
        Face::Down => 1,
        Face::Front => 2,
        Face::Back => 3,
        Face::Left => 4,
        Face::Right => 5,
    }
}

/// Executable face lookup by canonical index.
pub fn face_of_idx(i: usize) -> (f: Face)
    requires
        i < 6,
    ensures
        f == face_from_index(i as int),
{
    if i == 0 {
        Face::Up
    } else if i == 1 {
        Face::Down
    } else if i == 2 {
        Face::Front
    } else if i == 3 {
        Face::Back
    } else if i == 4 {
        Face::Left
    } else {
        Face::Right
    }
}

/// Executable opposite face.
pub fn opposite_of(f: Face) -> (g: Face)
    ensures
        g == opposite_face(f),
{
    match f {
        Face::Up => Face::Down,
        Face::Down => Face::Up,
        Face::Front => Face::Back,
        Face::Back => Face::Front,
        Face::Left => Face::Right,
        Face::Right => Face::Left,
    }
}

/// Executable canonical color of a face.
pub fn color_of_face(f: Face) -> (c: MyColor)
    ensures
        c == canon_color(f),
{
    match f {
        Face::Up => MyColor::Blue,
        Face::Down => MyColor::Green,
        Face::Front => MyColor::White,
        Face::Back => MyColor::Yellow,
        Face::Left => MyColor::Orange,
        Face::Right => MyColor::Red,
    }
}

/// Executable move inverse.
pub fn invert_move(m: Move) -> (r: Move)
    ensures
        r == inverse_move(m),
{
    let Move(face, rot, typ) = m;
    Move(face, if matches!(rot, Rotation::Cw) { Rotation::Ccw } else { Rotation::Cw }, typ)
}

/// Executable 5-bit encoding of a move.
pub fn encode_move(m: Move) -> (code: u8)
    ensures
        code == move_code(m),
        code < 24,
{
    let f = face_idx(m.0);
    let r: usize = if matches!(m.1, Rotation::Cw) { 0 } else { 1 };
    let t: usize = if matches!(m.2, RotType::Single) { 0 } else { 1 };
    (f * 4 + r * 2 + t) as u8
}

/// Every move comes back unchanged from an encode/decode round trip.
pub proof fn lemma_move_code_round_trip(m: Move)
    ensures
        decode_move(move_code(m)) == m,
{
}

impl Move {
    /// The conventional name of the move: the face letter, then `2` for a
    /// half turn or `'` for a counter-clockwise quarter turn.
    pub fn to_text(&self) -> (s: String)
        ensures
            s@ == face_letter(self.0) + suffix_text(self.1, self.2),
    {
        let mut s = face_letter_str(self.0).to_owned();
        if matches!(self.2, RotType::Dual) {
            s.append("2");
        } else if matches!(self.1, Rotation::Ccw) {
            s.append("'");
        }
        proof {
            reveal_strlit("2");
            reveal_strlit("'");
            reveal_strlit("");
            assert(s@ =~= face_letter(self.0) + suffix_text(self.1, self.2));
        }
        s
    }
}

/// The one-letter name of a face, as a sequence of characters.
pub open spec fn face_letter(f: Face) -> Seq<char> {
    match f {
        Face::Up => "U"@,
        Face::Down => "D"@,
        Face::Front => "F"@,
        Face::Back => "B"@,
        Face::Left => "L"@,
        Face::Right => "R"@,
    }
}

/// The suffix of a move name: `2` for dual, `'` for counter-clockwise.
pub open spec fn suffix_text(r: Rotation, t: RotType) -> Seq<char> {
    if t is Dual {
        "2"@
    } else if r is Ccw {
        "'"@
    } else {
        ""@
    }
}

/// The conventional name of one move.
pub open spec fn move_text(m: Move) -> Seq<char> {
    face_letter(m.0) + suffix_text(m.1, m.2)
}

/// The display of a move list: each move's name followed by one space.
pub open spec fn moves_text(movs: Seq<Move>) -> Seq<char>
    decreases movs.len(),
{
    if movs.len() == 0 {
        Seq::empty()
    } else {
        moves_text(movs.drop_last()) + move_text(movs.last()) + " "@
    }
}

/// Executable face letter.
pub fn face_letter_str(f: Face) -> (s: &'static str)
    ensures
        s@ == face_letter(f),
{
    match f {
        Face::Up => "U",
        Face::Down => "D",
        Face::Front => "F",
        Face::Back => "B",
        Face::Left => "L",
        Face::Right => "R",
    }
}

} // verus!
