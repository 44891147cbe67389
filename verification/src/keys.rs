//! The four phase key functions: pure projections of a cube state onto the
//! integer invariant of each Thistlethwaite phase. The visitation orders and
//! bit formulas are part of the table format: a stored table is only readable
//! by a solver that computes the very same keys.

use vstd::prelude::*;

use crate::cube::{
    face_map_at, face_map_pos, kind_code, on_face, pos_extremity, solved_sub, sub_cols_match, wf,
    Cube, CubeView, SubCube,
};
use crate::utils::{canon_color, face_index, opposite_face, Face, MyColor};

verus! {

/// The sticker color a cubie shows on face `f`, assuming `f` is among its
/// oriented face labels (on a well-formed cube it always is).
pub open spec fn sticker_of(sc: SubCube, f: Face) -> MyColor {
    match sc {
        SubCube::Core => MyColor::Void,
        SubCube::Center(_, cl) => cl,
        SubCube::Edge(d, cl) => if d[0] == f {
            cl[0]
        } else {
            cl[1]
        },
        SubCube::Corner(d, cl) => if d[0] == f {
            cl[0]
        } else if d[1] == f {
            cl[1]
        } else {
            cl[2]
        },
    }
}

/// Phase 1 searches the edge among the colors of the chain around the
/// Up/Down axis: first chain face whose canonical color appears among the
/// edge's two colors, checking color slot 0 before slot 1.
pub open spec fn key1_find(cols: [MyColor; 2]) -> (int, int) {
    if cols[0] == canon_color(Face::Back) {
        (0, 0)
    } else if cols[1] == canon_color(Face::Back) {
        (0, 1)
    } else if cols[0] == canon_color(Face::Right) {
        (1, 0)
    } else if cols[1] == canon_color(Face::Right) {
        (1, 1)
    } else if cols[0] == canon_color(Face::Front) {
        (2, 0)
    } else if cols[1] == canon_color(Face::Front) {
        (2, 1)
    } else if cols[0] == canon_color(Face::Left) {
        (3, 0)
    } else {
        (3, 1)
    }
}

/// The chain of faces phase 1 walks, in visitation order.
pub open spec fn key1_face(face_i: int) -> Face {
    if face_i == 0 {
        Face::Back
    } else if face_i == 1 {
        Face::Right
    } else if face_i == 2 {
        Face::Front
    } else {
        Face::Left
    }
}

/// The orientation bit of the edge at position `pos`, visited as the
/// `face_i`-th chain face.
pub open spec fn key1_bit(c: CubeView, face_i: int, pos: int) -> int {
    match c.subs[c.ids[pos] as int] {
        SubCube::Edge(dir, cols) => {
            let (face_j, col_i) = key1_find(cols);
            ((face_i + 4 - face_j) % 2 + (if dir[col_i] == key1_face(face_i) {
                0int
            } else {
                1int
            })) % 2
        },
        _ => 0,
    }
}

/// The phase-1 key: one orientation bit for each of the twelve edges, walked
/// along the Up/Down chain, three edges per face.
pub open spec fn spec_key_1(c: CubeView) -> int {
    let b0 = key1_bit(c, 0, face_map_at(Face::Back, 1));
    let b1 = key1_bit(c, 0, face_map_at(Face::Back, 5));
    let b2 = key1_bit(c, 0, face_map_at(Face::Back, 7));
    let b3 = key1_bit(c, 1, face_map_at(Face::Right, 1));
    let b4 = key1_bit(c, 1, face_map_at(Face::Right, 5));
    let b5 = key1_bit(c, 1, face_map_at(Face::Right, 7));
    let b6 = key1_bit(c, 2, face_map_at(Face::Front, 1));
    let b7 = key1_bit(c, 2, face_map_at(Face::Front, 3));
    let b8 = key1_bit(c, 2, face_map_at(Face::Front, 7));
    let b9 = key1_bit(c, 3, face_map_at(Face::Left, 1));
    let b10 = key1_bit(c, 3, face_map_at(Face::Left, 3));
    let b11 = key1_bit(c, 3, face_map_at(Face::Left, 7));
    let k1 = b0 * 2 + b1;
    let k2 = k1 * 2 + b2;
    let k3 = k2 * 2 + b3;
    let k4 = k3 * 2 + b4;
    let k5 = k4 * 2 + b5;
    let k6 = k5 * 2 + b6;
    let k7 = k6 * 2 + b7;
    let k8 = k7 * 2 + b8;
    let k9 = k8 * 2 + b9;
    let k10 = k9 * 2 + b10;
    k10 * 2 + b11
}

/// One step of the phase-2 walk at position `pos`: corners contribute the
/// index of their first oriented face (three bits), edges one bit saying
/// whether the cubie's home position lies on the Left or Right face.
pub open spec fn key2_step(c: CubeView, pos: int, acc: int) -> int {
    match c.subs[c.ids[pos] as int] {
        SubCube::Corner(dirs, _) => acc * 8 + face_index(dirs[0]),
        SubCube::Edge(_, _) => acc * 2 + (if on_face(c.ids[pos] as int, Face::Left) || on_face(
            c.ids[pos] as int,
            Face::Right,
        ) {
            1int
        } else {
            0int
        }),
        _ => acc,
    }
}

/// The phase-2 key accumulated over the first `n` positions.
pub open spec fn key2_prefix(c: CubeView, n: int) -> int
    decreases n,
{
    if n <= 0 {
        0
    } else {
        key2_step(c, n - 1, key2_prefix(c, n - 1))
    }
}

/// The phase-2 key: 36 bits over all 27 positions in order.
pub open spec fn spec_key_2(c: CubeView) -> int {
    key2_prefix(c, 27)
}

/// How many key-2 bits the first `n` positions contribute.
pub open spec fn key2_width(n: int) -> int
    decreases n,
{
    if n <= 0 {
        0
    } else {
        key2_width(n - 1) + (if pos_extremity(n - 1) == 3 {
            3int
        } else if pos_extremity(n - 1) == 2 {
            1int
        } else {
            0int
        })
    }
}

/// One step of the phase-4 walk at cubie identity `id`: edges and corners
/// contribute two bits comparing their first two stickers with the canonical
/// colors of the faces they point at.
pub open spec fn key4_step(c: CubeView, id: int, acc: int) -> int {
    match c.subs[id] {
        SubCube::Corner(dirs, cols) => acc * 4 + (if canon_color(dirs[0]) != cols[0] {
            2int
        } else {
            0int
        }) + (if canon_color(dirs[1]) != cols[1] {
            1int
        } else {
            0int
        }),
        SubCube::Edge(dirs, cols) => acc * 4 + (if canon_color(dirs[0]) != cols[0] {
            2int
        } else {
            0int
        }) + (if canon_color(dirs[1]) != cols[1] {
            1int
        } else {
            0int
        }),
        _ => acc,
    }
}

/// The phase-4 key accumulated over the first `n` cubie identities.
pub open spec fn key4_prefix(c: CubeView, n: int) -> int
    decreases n,
{
    if n <= 0 {
        0
    } else {
        key4_step(c, n - 1, key4_prefix(c, n - 1))
    }
}

/// The phase-4 key: 40 bits over all 27 cubie descriptors in identity order.
pub open spec fn spec_key_4(c: CubeView) -> int {
    key4_prefix(c, 27)
}

/// How many key-4 bits the first `n` identities contribute.
pub open spec fn key4_width(n: int) -> int
    decreases n,
{
    if n <= 0 {
        0
    } else {
        key4_width(n - 1) + (if pos_extremity(n - 1) == 3 || pos_extremity(n - 1) == 2 {
            2int
        } else {
            0int
        })
    }
}

/// The phase-3 bit of the edge at position `pos`: whether the edge's second
/// sticker belongs to neither color of the axis its second label points at.
pub open spec fn key3_edge_bit(c: CubeView, pos: int) -> int {
    match c.subs[c.ids[pos] as int] {
        SubCube::Edge(d, cl) => if cl[1] != canon_color(d[1]) && cl[1] != canon_color(
            opposite_face(d[1]),
        ) {
            1int
        } else {
            0int
        },
        _ => 0,
    }
}

/// The phase-3 pairing bit of two corner positions facing each other across
/// an axis: whether their stickers on the paired faces agree.
pub open spec fn key3_pair_bit(c: CubeView, f1: Face, f2: Face, i: int) -> int {
    let p1 = face_map_at(f1, i);
    let p2 = face_map_at(f2, i);
    if sticker_of(c.subs[c.ids[p1] as int], f1) == sticker_of(c.subs[c.ids[p2] as int], f2) {
        1int
    } else {
        0int
    }
}

/// The phase-3 key: eight edge bits over the Left then Right faces, then
/// twelve corner pairing bits over the face pairs (Up,Down), (Front,Back),
/// (Left,Right).
pub open spec fn spec_key_3(c: CubeView) -> int {
    let e0 = key3_edge_bit(c, face_map_at(Face::Left, 1));
    let e1 = key3_edge_bit(c, face_map_at(Face::Left, 3));
    let e2 = key3_edge_bit(c, face_map_at(Face::Left, 5));
    let e3 = key3_edge_bit(c, face_map_at(Face::Left, 7));
    let e4 = key3_edge_bit(c, face_map_at(Face::Right, 1));
    let e5 = key3_edge_bit(c, face_map_at(Face::Right, 3));
    let e6 = key3_edge_bit(c, face_map_at(Face::Right, 5));
    let e7 = key3_edge_bit(c, face_map_at(Face::Right, 7));
    let p0 = key3_pair_bit(c, Face::Up, Face::Down, 0);
    let p1 = key3_pair_bit(c, Face::Up, Face::Down, 2);
    let p2 = key3_pair_bit(c, Face::Up, Face::Down, 6);
    let p3 = key3_pair_bit(c, Face::Up, Face::Down, 8);
    let p4 = key3_pair_bit(c, Face::Front, Face::Back, 0);
    let p5 = key3_pair_bit(c, Face::Front, Face::Back, 2);
    let p6 = key3_pair_bit(c, Face::Front, Face::Back, 6);
    let p7 = key3_pair_bit(c, Face::Front, Face::Back, 8);
    let p8 = key3_pair_bit(c, Face::Left, Face::Right, 0);
    let p9 = key3_pair_bit(c, Face::Left, Face::Right, 2);
    let p10 = key3_pair_bit(c, Face::Left, Face::Right, 6);
    let p11 = key3_pair_bit(c, Face::Left, Face::Right, 8);
    let k1 = e0 * 2 + e1;
    let k2 = k1 * 2 + e2;
    let k3 = k2 * 2 + e3;
    let k4 = k3 * 2 + e4;
    let k5 = k4 * 2 + e5;
    let k6 = k5 * 2 + e6;
    let k7 = k6 * 2 + e7;
    let k8 = k7 * 2 + p0;
    let k9 = k8 * 2 + p1;
    let k10 = k9 * 2 + p2;
    let k11 = k10 * 2 + p3;
    let k12 = k11 * 2 + p4;
    let k13 = k12 * 2 + p5;
    let k14 = k13 * 2 + p6;
    let k15 = k14 * 2 + p7;
    let k16 = k15 * 2 + p8;
    let k17 = k16 * 2 + p9;
    let k18 = k17 * 2 + p10;
    k18 * 2 + p11
}

/// The `key2_width` bit count never decreases along the walk.
proof fn lemma_key2_width_mono(m: int, n: int)
    requires
        0 <= m <= n,
    ensures
        key2_width(m) <= key2_width(n),
    decreases n,
{
    if m < n {
        lemma_key2_width_mono(m, n - 1);
    }
}

/// The phase-2 walk uses 36 bits in all.
proof fn lemma_key2_width_total()
    ensures
        key2_width(27) == 36,
        forall|n: int| 0 <= n <= 27 ==> #[trigger] key2_width(n) <= 36,
{
    assert(key2_width(27) == 36) by {
        reveal_with_fuel(key2_width, 28);
    }
    assert forall|n: int| 0 <= n <= 27 implies #[trigger] key2_width(n) <= 36 by {
        lemma_key2_width_mono(n, 27);
    }
}

/// The `key4_width` bit count never decreases along the walk.
proof fn lemma_key4_width_mono(m: int, n: int)
    requires
        0 <= m <= n,
    ensures
        key4_width(m) <= key4_width(n),
    decreases n,
{
    if m < n {
        lemma_key4_width_mono(m, n - 1);
    }
}

/// The phase-4 walk uses 40 bits in all.
proof fn lemma_key4_width_total()
    ensures
        key4_width(27) == 40,
        forall|n: int| 0 <= n <= 27 ==> #[trigger] key4_width(n) <= 40,
{
    assert(key4_width(27) == 40) by {
        reveal_with_fuel(key4_width, 28);
    }
    assert forall|n: int| 0 <= n <= 27 implies #[trigger] key4_width(n) <= 40 by {
        lemma_key4_width_mono(n, 27);
    }
}

/// Executable sticker lookup, total on every descriptor.
fn sticker_lookup(sc: SubCube, f: Face) -> (r: MyColor)
    ensures
        r == sticker_of(sc, f),
{
    match sc {
        SubCube::Core => MyColor::Void,
        SubCube::Center(_, cl) => cl,
        SubCube::Edge(d, cl) => if d[0] == f {
            cl[0]
        } else {
            cl[1]
        },
        SubCube::Corner(d, cl) => if d[0] == f {
            cl[0]
        } else if d[1] == f {
            cl[1]
        } else {
            cl[2]
        },
    }
}

/// One phase-1 edge bit.
fn edge_bit_1(cube: &Cube, face_i: u64, face: Face, pos: usize) -> (r: u64)
    requires
        wf(cube@),
        face_i < 4,
        face == key1_face(face_i as int),
        pos < 27,
    ensures
        r as int == key1_bit(cube@, face_i as int, pos as int),
        r <= 1,
{
    let id = cube.ids[pos];
    let sc = cube.subs[id];
    match sc {
        SubCube::Edge(dir, cols) => {
            let fj: u64;
            let ci: usize;
            if cols[0] == MyColor::Yellow {
                fj = 0;
                ci = 0;
            } else if cols[1] == MyColor::Yellow {
                fj = 0;
                ci = 1;
            } else if cols[0] == MyColor::Red {
                fj = 1;
                ci = 0;
            } else if cols[1] == MyColor::Red {
                fj = 1;
                ci = 1;
            } else if cols[0] == MyColor::White {
                fj = 2;
                ci = 0;
            } else if cols[1] == MyColor::White {
                fj = 2;
                ci = 1;
            } else if cols[0] == MyColor::Orange {
                fj = 3;
                ci = 0;
            } else {
                fj = 3;
                ci = 1;
            }
            proof {
                assert((fj as int, ci as int) == key1_find(cols));
            }
            ((face_i + 4 - fj) % 2 + (if dir[ci] == face {
                0
            } else {
                1
            })) % 2
        },
        _ => 0,
    }
}

/// The phase-1 key of a cube: twelve edge orientation bits.
pub fn key_gen_1(cube: &Cube) -> (r: u64)
    requires
        wf(cube@),
    ensures
        r as int == spec_key_1(cube@),
        r < 0x1000,
{
    let mut k: u64 = 0;
    k = k * 2 + edge_bit_1(cube, 0, Face::Back, face_map_pos(Face::Back, 1));
    k = k * 2 + edge_bit_1(cube, 0, Face::Back, face_map_pos(Face::Back, 5));
    k = k * 2 + edge_bit_1(cube, 0, Face::Back, face_map_pos(Face::Back, 7));
    k = k * 2 + edge_bit_1(cube, 1, Face::Right, face_map_pos(Face::Right, 1));
    k = k * 2 + edge_bit_1(cube, 1, Face::Right, face_map_pos(Face::Right, 5));
    k = k * 2 + edge_bit_1(cube, 1, Face::Right, face_map_pos(Face::Right, 7));
    k = k * 2 + edge_bit_1(cube, 2, Face::Front, face_map_pos(Face::Front, 1));
    k = k * 2 + edge_bit_1(cube, 2, Face::Front, face_map_pos(Face::Front, 3));
    k = k * 2 + edge_bit_1(cube, 2, Face::Front, face_map_pos(Face::Front, 7));
    k = k * 2 + edge_bit_1(cube, 3, Face::Left, face_map_pos(Face::Left, 1));
    k = k * 2 + edge_bit_1(cube, 3, Face::Left, face_map_pos(Face::Left, 3));
    k = k * 2 + edge_bit_1(cube, 3, Face::Left, face_map_pos(Face::Left, 7));
    k
}

/// The phase-2 key of a cube: corner orientations and the Left/Right slice
/// membership of each edge, 36 bits.
pub fn key_gen_2(cube: &Cube) -> (r: u64)
    requires
        wf(cube@),
    ensures
        r as int == spec_key_2(cube@),
        r < 0x10_0000_0000,
{
    proof {
        lemma_key2_width_total();
        vstd::arithmetic::power2::lemma2_to64();
        vstd::arithmetic::power2::lemma2_to64_rest();
    }
    let mut result: u64 = 0;
    let mut p: usize = 0;
    while p < 27
        invariant
            wf(cube@),
            p <= 27,
            result as int == key2_prefix(cube@, p as int),
            result < vstd::arithmetic::power2::pow2(key2_width(p as int) as nat),
        decreases 27 - p,
    {
        proof {
            lemma_key2_width_total();
            vstd::arithmetic::power2::lemma2_to64();
            vstd::arithmetic::power2::lemma2_to64_rest();
            lemma_key2_width_mono(0, p as int);
            lemma_key2_width_mono(p as int, p + 1);
            assert(key2_width(p as int) >= 0 && key2_width(p + 1) >= 0);
            vstd::arithmetic::power2::lemma_pow2_adds(key2_width(p as int) as nat, 3);
            vstd::arithmetic::power2::lemma_pow2_adds(key2_width(p as int) as nat, 1);
            assert(pos_extremity(p as int) == kind_code(cube@.subs[cube@.ids[p as int] as int]));
            vstd::arithmetic::power2::lemma_pow2_strictly_increases(key2_width(p as int) as nat, 37);
            vstd::arithmetic::power2::lemma_pow2_strictly_increases(key2_width(p + 1) as nat, 37);
        }
        let id = cube.ids[p];
        let sc = cube.subs[id];
        match sc {
            SubCube::Corner(dirs, _) => {
                let fi = crate::utils::face_idx(dirs[0]);
                result = result * 8 + fi as u64;
            },
            SubCube::Edge(_, _) => {
                let bit: u64 = if id % 3 == 0 || id % 3 == 2 {
                    1
                } else {
                    0
                };
                result = result * 2 + bit;
            },
            _ => {},
        }
        p = p + 1;
    }
    proof {
        lemma_key2_width_total();
        vstd::arithmetic::power2::lemma2_to64();
        vstd::arithmetic::power2::lemma2_to64_rest();
    }
    result
}

/// One phase-3 edge bit.
pub(crate) fn edge_bit_3(cube: &Cube, pos: usize) -> (r: u64)
    requires
        wf(cube@),
        pos < 27,
    ensures
        r as int == key3_edge_bit(cube@, pos as int),
        r <= 1,
{
    let id = cube.ids[pos];
    let sc = cube.subs[id];
    match sc {
        SubCube::Edge(d, cl) => {
            let own = crate::utils::color_of_face(d[1]);
            let opp = crate::utils::color_of_face(crate::utils::opposite_of(d[1]));
            if cl[1] != own && cl[1] != opp {
                1
            } else {
                0
            }
        },
        _ => 0,
    }
}

/// One phase-3 corner pairing bit.
fn pair_bit_3(cube: &Cube, f1: Face, f2: Face, i: usize) -> (r: u64)
    requires
        wf(cube@),
        i < 9,
    ensures
        r as int == key3_pair_bit(cube@, f1, f2, i as int),
        r <= 1,
{
    let p1 = face_map_pos(f1, i);
    let p2 = face_map_pos(f2, i);
    let s1 = sticker_lookup(cube.subs[cube.ids[p1]], f1);
    let s2 = sticker_lookup(cube.subs[cube.ids[p2]], f2);
    if s1 == s2 {
        1
    } else {
        0
    }
}

/// The phase-3 key of a cube: eight edge bits then twelve corner pairing
/// bits, 20 significant bits stored in a 28-bit field.
pub fn key_gen_3(cube: &Cube) -> (r: u64)
    requires
        wf(cube@),
    ensures
        r as int == spec_key_3(cube@),
        r < 0x10000000,
{
    let mut k: u64 = 0;
    k = k * 2 + edge_bit_3(cube, face_map_pos(Face::Left, 1));
    k = k * 2 + edge_bit_3(cube, face_map_pos(Face::Left, 3));
    k = k * 2 + edge_bit_3(cube, face_map_pos(Face::Left, 5));
    k = k * 2 + edge_bit_3(cube, face_map_pos(Face::Left, 7));
    k = k * 2 + edge_bit_3(cube, face_map_pos(Face::Right, 1));
    k = k * 2 + edge_bit_3(cube, face_map_pos(Face::Right, 3));
    k = k * 2 + edge_bit_3(cube, face_map_pos(Face::Right, 5));
    k = k * 2 + edge_bit_3(cube, face_map_pos(Face::Right, 7));
    k = k * 2 + pair_bit_3(cube, Face::Up, Face::Down, 0);
    k = k * 2 + pair_bit_3(cube, Face::Up, Face::Down, 2);
    k = k * 2 + pair_bit_3(cube, Face::Up, Face::Down, 6);
    k = k * 2 + pair_bit_3(cube, Face::Up, Face::Down, 8);
    k = k * 2 + pair_bit_3(cube, Face::Front, Face::Back, 0);
    k = k * 2 + pair_bit_3(cube, Face::Front, Face::Back, 2);
    k = k * 2 + pair_bit_3(cube, Face::Front, Face::Back, 6);
    k = k * 2 + pair_bit_3(cube, Face::Front, Face::Back, 8);
    k = k * 2 + pair_bit_3(cube, Face::Left, Face::Right, 0);
    k = k * 2 + pair_bit_3(cube, Face::Left, Face::Right, 2);
    k = k * 2 + pair_bit_3(cube, Face::Left, Face::Right, 6);
    k = k * 2 + pair_bit_3(cube, Face::Left, Face::Right, 8);
    k
}

/// The phase-4 key of a cube: two color-agreement bits per edge and corner,
/// walked by cubie identity, 40 bits.
pub fn key_gen_4(cube: &Cube) -> (r: u64)
    requires
        wf(cube@),
    ensures
        r as int == spec_key_4(cube@),
        r < 0x100_0000_0000,
{
    proof {
        lemma_key4_width_total();
        vstd::arithmetic::power2::lemma2_to64();
        vstd::arithmetic::power2::lemma2_to64_rest();
    }
    let mut result: u64 = 0;
    let mut n: usize = 0;
    while n < 27
        invariant
            wf(cube@),
            n <= 27,
            result as int == key4_prefix(cube@, n as int),
            result < vstd::arithmetic::power2::pow2(key4_width(n as int) as nat),
        decreases 27 - n,
    {
        proof {
            lemma_key4_width_total();
            vstd::arithmetic::power2::lemma2_to64();
            vstd::arithmetic::power2::lemma2_to64_rest();
            lemma_key4_width_mono(0, n as int);
            lemma_key4_width_mono(n as int, n + 1);
            assert(key4_width(n as int) >= 0 && key4_width(n + 1) >= 0);
            vstd::arithmetic::power2::lemma_pow2_adds(key4_width(n as int) as nat, 2);
            vstd::arithmetic::power2::lemma_pow2_strictly_increases(key4_width(n as int) as nat, 41);
            vstd::arithmetic::power2::lemma_pow2_strictly_increases(key4_width(n + 1) as nat, 41);
            assert(sub_cols_match(cube@.subs[n as int], solved_sub(n as int)));
            assert(kind_code(solved_sub(n as int)) == pos_extremity(n as int));
        }
        let sc = cube.subs[n];
        match sc {
            SubCube::Corner(dirs, cols) => {
                let hi: u64 = if crate::utils::color_of_face(dirs[0]) != cols[0] {
                    2
                } else {
                    0
                };
                let lo: u64 = if crate::utils::color_of_face(dirs[1]) != cols[1] {
                    1
                } else {
                    0
                };
                result = result * 4 + hi + lo;
            },
            SubCube::Edge(dirs, cols) => {
                let hi: u64 = if crate::utils::color_of_face(dirs[0]) != cols[0] {
                    2
                } else {
                    0
                };
                let lo: u64 = if crate::utils::color_of_face(dirs[1]) != cols[1] {
                    1
                } else {
                    0
                };
                result = result * 4 + hi + lo;
            },
            _ => {},
        }
        n = n + 1;
    }
    proof {
        lemma_key4_width_total();
        vstd::arithmetic::power2::lemma2_to64();
        vstd::arithmetic::power2::lemma2_to64_rest();
    }
    result
}

} // verus!
