//! The earlier table extractor. It shares the solver's search machinery but
//! projects phase 3 onto a narrower 16-bit key: the eight edge bits of the
//! Left and Right faces interleaved with eight corner-tetrad bits, without
//! the corner pairing of the wider key.

use vstd::prelude::*;

use crate::cube::{face_map_at, face_map_pos, spec_rotate, wf, Cube, CubeView};
use crate::keys::{edge_bit_3, key3_edge_bit};
use crate::utils::{inverse_move, invert_move, Face, Move, Rotation, RotType};

verus! {

/// Whether a grid position belongs to the reference corner tetrad.
pub open spec fn in_tetrad(p: int) -> bool {
    p == 0 || p == 8 || p == 20 || p == 24
}

/// The tetrad bit of a corner position: whether the corner there has left
/// its home tetrad.
pub open spec fn key3_corner_bit(c: CubeView, pos: int) -> int {
    if in_tetrad(pos) != in_tetrad(c.ids[pos] as int) {
        1int
    } else {
        0int
    }
}

/// The 16-bit phase-3 key: walking the Left then the Right face in face
/// order, corners give their tetrad bit and edges their axis-color bit.
pub open spec fn spec_key_3_16(c: CubeView) -> int {
    let b0 = key3_corner_bit(c, face_map_at(Face::Left, 0));
    let b1 = key3_edge_bit(c, face_map_at(Face::Left, 1));
    let b2 = key3_corner_bit(c, face_map_at(Face::Left, 2));
    let b3 = key3_edge_bit(c, face_map_at(Face::Left, 3));
    let b4 = key3_edge_bit(c, face_map_at(Face::Left, 5));
    let b5 = key3_corner_bit(c, face_map_at(Face::Left, 6));
    let b6 = key3_edge_bit(c, face_map_at(Face::Left, 7));
    let b7 = key3_corner_bit(c, face_map_at(Face::Left, 8));
    let b8 = key3_corner_bit(c, face_map_at(Face::Right, 0));
    let b9 = key3_edge_bit(c, face_map_at(Face::Right, 1));
    let b10 = key3_corner_bit(c, face_map_at(Face::Right, 2));
    let b11 = key3_edge_bit(c, face_map_at(Face::Right, 3));
    let b12 = key3_edge_bit(c, face_map_at(Face::Right, 5));
    let b13 = key3_corner_bit(c, face_map_at(Face::Right, 6));
    let b14 = key3_edge_bit(c, face_map_at(Face::Right, 7));
    let b15 = key3_corner_bit(c, face_map_at(Face::Right, 8));
    let k1 = b0 * 2 + b1;
    let k2 = k1 * 2 + b2;
    let k3 = k2 * 2 + b3;
    let k4 = k3 * 2 + b4;
    let k5 = k4 * 2 + b5;
    let k6 = k5 * 2 + b6;
    let k7 = k6 * 2 + b7;
    let k8 = k7 * 2 + b8;
    let k9 = k8 * 2 + b9;
    let k10 = k9 * 2 + b10;
    let k11 = k10 * 2 + b11;
    let k12 = k11 * 2 + b12;
    let k13 = k12 * 2 + b13;
    let k14 = k13 * 2 + b14;
    k14 * 2 + b15
}

/// One tetrad bit.
fn corner_bit_16(cube: &Cube, pos: usize) -> (r: u64)
    requires
        wf(cube@),
        pos < 27,
    ensures
        r as int == key3_corner_bit(cube@, pos as int),
        r <= 1,
{
    let id = cube.ids[pos];
    let home = pos == 0 || pos == 8 || pos == 20 || pos == 24;
    let now = id == 0 || id == 8 || id == 20 || id == 24;
    if home != now {
        1
    } else {
        0
    }
}

/// The early extractor: a cube and the stack of moves of the current search
/// path.
pub struct Extractor {
    pub cube: Cube,
    pub mov_stack: Vec<Move>,
}

impl Extractor {
    /// An extractor over the given cube, with an empty search path.
    pub fn new(cube: Cube) -> (e: Extractor)
        ensures
            e.cube == cube,
            e.mov_stack@ == Seq::<Move>::empty(),
    {
        Extractor { cube, mov_stack: Vec::new() }
    }

    /// Apply one move and push it on the search path.
    pub fn do_mov(&mut self, mv: Move)
        requires
            wf(old(self).cube@),
        ensures
            final(self).cube@ == spec_rotate(old(self).cube@, mv),
            wf(final(self).cube@),
            final(self).mov_stack@ == old(self).mov_stack@.push(mv),
    {
        self.mov_stack.push(mv);
        self.cube.rotate(mv, false);
    }

    /// Pop the last move of the search path and apply its inverse.
    pub fn undo_mov(&mut self)
        requires
            wf(old(self).cube@),
            old(self).mov_stack@.len() >= 1,
        ensures
            final(self).cube@ == spec_rotate(
                old(self).cube@,
                inverse_move(old(self).mov_stack@.last()),
            ),
            wf(final(self).cube@),
            final(self).mov_stack@ == old(self).mov_stack@.drop_last(),
    {
        let mv = match self.mov_stack.pop() {
            Some(mv) => mv,
            None => {
                proof {
                    assert(false);
                }
                Move(Face::Up, Rotation::Cw, RotType::Single)
            },
        };
        self.cube.rotate(invert_move(mv), false);
    }

    /// The 16-bit phase-3 key of a cube.
    pub fn key_gen_3(cub: &Cube) -> (r: u64)
        requires
            wf(cub@),
        ensures
            r as int == spec_key_3_16(cub@),
            r < 0x10000,
    {
        let mut k: u64 = 0;
        k = k * 2 + corner_bit_16(cub, face_map_pos(Face::Left, 0));
        k = k * 2 + edge_bit_3(cub, face_map_pos(Face::Left, 1));
        k = k * 2 + corner_bit_16(cub, face_map_pos(Face::Left, 2));
        k = k * 2 + edge_bit_3(cub, face_map_pos(Face::Left, 3));
        k = k * 2 + edge_bit_3(cub, face_map_pos(Face::Left, 5));
        k = k * 2 + corner_bit_16(cub, face_map_pos(Face::Left, 6));
        k = k * 2 + edge_bit_3(cub, face_map_pos(Face::Left, 7));
        k = k * 2 + corner_bit_16(cub, face_map_pos(Face::Left, 8));
        k = k * 2 + corner_bit_16(cub, face_map_pos(Face::Right, 0));
        k = k * 2 + edge_bit_3(cub, face_map_pos(Face::Right, 1));
        k = k * 2 + corner_bit_16(cub, face_map_pos(Face::Right, 2));
        k = k * 2 + edge_bit_3(cub, face_map_pos(Face::Right, 3));
        k = k * 2 + edge_bit_3(cub, face_map_pos(Face::Right, 5));
        k = k * 2 + corner_bit_16(cub, face_map_pos(Face::Right, 6));
        k = k * 2 + edge_bit_3(cub, face_map_pos(Face::Right, 7));
        k = k * 2 + corner_bit_16(cub, face_map_pos(Face::Right, 8));
        k
    }
}

} // verus!
