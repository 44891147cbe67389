//! The cube model: 27 cubies on a 3x3x3 grid, a permutation telling which
//! cubie occupies each grid position, and the move operator that turns one
//! face.
//!
//! Grid positions are numbered 0..27 in row-major order: `p % 3` runs from
//! the Left column to the Right column, `(p % 9) / 3` from the Back row to
//! the Front row, and `p / 9` from the Up layer to the Down layer.

use vstd::pervasive::VecAdditionalExecFns;
use vstd::prelude::*;
use vstd::string::StringSliceAdditionalSpecFns;

use crate::utils::{inverse_move, Face, Move, MyColor, Rotation, RotType};

verus! {

/// One physical cubie. The face arrays track the cubie's orientation (which
/// face each sticker points at right now); the color arrays never change
/// after construction and identify the cubie.
#[derive(Clone, Copy, PartialEq, Eq, Debug)]
pub enum SubCube {
    Core,
    Center(Face, MyColor),
    Edge([Face; 2], [MyColor; 2]),
    Corner([Face; 3], [MyColor; 3]),
}

/// The cube: `ids[pos]` is the identity of the cubie at grid position `pos`,
/// `subs[id]` is the descriptor of cubie `id`, and `movs` records the moves
/// applied with `mem` set.
#[derive(PartialEq, Debug)]
pub struct Cube {
    pub ids: Vec<usize>,
    pub subs: Vec<SubCube>,
    pub movs: Vec<Move>,
}

/// The mathematical state of a cube: the permutation and the descriptors.
/// The move history is not part of the state.
#[verifier::ext_equal]
pub struct CubeView {
    pub ids: Seq<usize>,
    pub subs: Seq<SubCube>,
}

impl View for Cube {
    type V = CubeView;

    open spec fn view(&self) -> CubeView {
        CubeView { ids: self.ids@, subs: self.subs@ }
    }
}

/// Left-to-right coordinate of a grid position.
pub open spec fn pos_x(p: int) -> int {
    p % 3
}

/// Back-to-front coordinate of a grid position.
pub open spec fn pos_y(p: int) -> int {
    p % 9 / 3
}

/// Up-to-down coordinate of a grid position.
pub open spec fn pos_z(p: int) -> int {
    p / 9
}

/// How many coordinates of the position sit on the boundary of the grid:
/// 3 for a corner, 2 for an edge, 1 for a center, 0 for the core.
pub open spec fn pos_extremity(p: int) -> int {
    (if pos_x(p) != 1 { 1int } else { 0 }) + (if pos_y(p) != 1 { 1int } else { 0 }) + (if pos_z(p)
        != 1 { 1int } else { 0 })
}

/// Whether grid position `p` lies on face `f`.
pub open spec fn on_face(p: int, f: Face) -> bool {
    match f {
        Face::Up => pos_z(p) == 0,
        Face::Down => pos_z(p) == 2,
        Face::Front => pos_y(p) == 2,
        Face::Back => pos_y(p) == 0,
        Face::Left => pos_x(p) == 0,
        Face::Right => pos_x(p) == 2,
    }
}

/// The `j`-th grid position of face `f` in row-major face order, matching
/// the face map of the table format.
pub open spec fn face_map_at(f: Face, j: int) -> int {
    match f {
        Face::Up => j,
        Face::Down => 18 + j,
        Face::Front => 6 + 9 * (j / 3) + j % 3,
        Face::Back => 9 * (j / 3) + j % 3,
        Face::Left => 3 * j,
        Face::Right => 3 * j + 2,
    }
}

/// Face-order slots of the four corners of a face, in ring order.
pub open spec fn corner_slot(i: int) -> int {
    if i == 0 {
        0
    } else if i == 1 {
        2
    } else if i == 2 {
        8
    } else {
        6
    }
}

/// Face-order slots of the four edges of a face, in ring order.
pub open spec fn edge_slot(i: int) -> int {
    if i == 0 {
        1
    } else if i == 1 {
        5
    } else if i == 2 {
        7
    } else {
        3
    }
}

/// The axis a face belongs to: 0 for Front/Back, 1 for Left/Right,
/// 2 for Up/Down, matching the face-chain table.
pub open spec fn face_axis(f: Face) -> int {
    match f {
        Face::Front | Face::Back => 0,
        Face::Left | Face::Right => 1,
        Face::Up | Face::Down => 2,
    }
}

/// The cyclic chain of the four faces around an axis.
pub open spec fn chain_at(axis: int, i: int) -> Face {
    if axis == 0 {
        // around the Front/Back axis
        if i == 0 {
            Face::Up
        } else if i == 1 {
            Face::Right
        } else if i == 2 {
            Face::Down
        } else {
            Face::Left
        }
    } else if axis == 1 {
        // around the Left/Right axis
        if i == 0 {
            Face::Up
        } else if i == 1 {
            Face::Front
        } else if i == 2 {
            Face::Down
        } else {
            Face::Back
        }
    } else {
        // around the Up/Down axis
        if i == 0 {
            Face::Back
        } else if i == 1 {
            Face::Right
        } else if i == 2 {
            Face::Front
        } else {
            Face::Left
        }
    }
}

/// Index of a face in the chain of an axis, or -1 when the face lies on the
/// axis itself.
pub open spec fn chain_pos(axis: int, f: Face) -> int {
    if axis == 0 {
        match f {
            Face::Up => 0,
            Face::Right => 1,
            Face::Down => 2,
            Face::Left => 3,
            _ => -1,
        }
    } else if axis == 1 {
        match f {
            Face::Up => 0,
            Face::Front => 1,
            Face::Down => 2,
            Face::Back => 3,
            _ => -1,
        }
    } else {
        match f {
            Face::Back => 0,
            Face::Right => 1,
            Face::Front => 2,
            Face::Left => 3,
            _ => -1,
        }
    }
}

/// Whether a quarter turn of `face` in direction `rot` cycles the face ring
/// from its end toward its start.
pub open spec fn is_rev(face: Face, rot: Rotation) -> bool {
    match (face, rot) {
        (Face::Front, Rotation::Cw) => true,
        (Face::Back, Rotation::Ccw) => true,
        (Face::Up, Rotation::Cw) => true,
        (Face::Down, Rotation::Ccw) => true,
        (Face::Left, Rotation::Cw) => true,
        (Face::Right, Rotation::Ccw) => true,
        _ => false,
    }
}

/// The ring step of a move: each ring position receives the cubie that sat
/// `step` places further along the ring.
pub open spec fn move_step(m: Move) -> int {
    if m.2 is Dual {
        2
    } else if is_rev(m.0, m.1) {
        3
    } else {
        1
    }
}

/// Where position `p` draws its cubie from when face `f` turns with ring
/// step `s`: ring positions shift along their ring, all others stay.
pub open spec fn src_pos(f: Face, s: int, p: int) -> int {
    if p == face_map_at(f, corner_slot(0)) {
        face_map_at(f, corner_slot((0 + s) % 4))
    } else if p == face_map_at(f, corner_slot(1)) {
        face_map_at(f, corner_slot((1 + s) % 4))
    } else if p == face_map_at(f, corner_slot(2)) {
        face_map_at(f, corner_slot((2 + s) % 4))
    } else if p == face_map_at(f, corner_slot(3)) {
        face_map_at(f, corner_slot((3 + s) % 4))
    } else if p == face_map_at(f, edge_slot(0)) {
        face_map_at(f, edge_slot((0 + s) % 4))
    } else if p == face_map_at(f, edge_slot(1)) {
        face_map_at(f, edge_slot((1 + s) % 4))
    } else if p == face_map_at(f, edge_slot(2)) {
        face_map_at(f, edge_slot((2 + s) % 4))
    } else if p == face_map_at(f, edge_slot(3)) {
        face_map_at(f, edge_slot((3 + s) % 4))
    } else {
        p
    }
}

/// The permutation after turning face `f` with ring step `s`.
pub open spec fn rotate_ids(ids: Seq<usize>, f: Face, s: int) -> Seq<usize> {
    Seq::new(27, |p: int| ids[src_pos(f, s, p)])
}

/// Where one face label of a cubie on the turned face ends up: labels on the
/// axis stay, labels in the chain move `s` places against the ring.
pub open spec fn rot_face(d: Face, face: Face, s: int) -> Face {
    let axis = face_axis(face);
    let i = chain_pos(axis, d);
    if i < 0 {
        d
    } else {
        chain_at(axis, (i + 4 - s) % 4)
    }
}

/// One cubie after reorientation by a turn of `face` with ring step `s`.
pub open spec fn rot_sub(sc: SubCube, face: Face, s: int) -> SubCube {
    match sc {
        SubCube::Edge(d, c) => SubCube::Edge(
            [rot_face(d[0], face, s), rot_face(d[1], face, s)],
            c,
        ),
        SubCube::Corner(d, c) => SubCube::Corner(
            [rot_face(d[0], face, s), rot_face(d[1], face, s), rot_face(d[2], face, s)],
            c,
        ),
        _ => sc,
    }
}

/// Whether cubie `id` sits on face `f` under permutation `ids`.
pub open spec fn moved_by(ids: Seq<usize>, f: Face, id: usize) -> bool {
    exists|j: int| 0 <= j < 9 && ids[face_map_at(f, j)] == id
}

/// The descriptors after a turn: every cubie on the turned face (under the
/// new permutation, which holds the same nine cubies) is reoriented.
pub open spec fn rotate_subs(ids: Seq<usize>, subs: Seq<SubCube>, f: Face, s: int) -> Seq<SubCube> {
    Seq::new(
        27,
        |id: int| if moved_by(ids, f, id as usize) {
            rot_sub(subs[id], f, s)
        } else {
            subs[id]
        },
    )
}

/// The cube state after turning face `f` with ring step `s`.
pub open spec fn turn(c: CubeView, f: Face, s: int) -> CubeView {
    let ids2 = rotate_ids(c.ids, f, s);
    CubeView { ids: ids2, subs: rotate_subs(ids2, c.subs, f, s) }
}

/// The cube state after applying one move.
pub open spec fn spec_rotate(c: CubeView, m: Move) -> CubeView {
    turn(c, m.0, move_step(m))
}

/// The cube state after applying a list of moves in order.
pub open spec fn apply_moves(c: CubeView, movs: Seq<Move>) -> CubeView
    decreases movs.len(),
{
    if movs.len() == 0 {
        c
    } else {
        spec_rotate(apply_moves(c, movs.drop_last()), movs.last())
    }
}

/// A move list applies one move at a time, front first.
pub proof fn lemma_apply_moves_cons(c: CubeView, m: Move, w: Seq<Move>)
    ensures
        apply_moves(c, seq![m] + w) == apply_moves(spec_rotate(c, m), w),
    decreases w.len(),
{
    if w.len() == 0 {
        assert(seq![m] + w =~= seq![m]);
        assert(seq![m].drop_last() =~= Seq::<Move>::empty());
        assert(apply_moves(c, seq![m]) == spec_rotate(apply_moves(c, seq![m].drop_last()), m));
    } else {
        assert((seq![m] + w).drop_last() =~= seq![m] + w.drop_last());
        assert((seq![m] + w).last() == w.last());
        lemma_apply_moves_cons(c, m, w.drop_last());
    }
}

/// The variant code of a descriptor, aligned with `pos_extremity`.
pub open spec fn kind_code(sc: SubCube) -> int {
    match sc {
        SubCube::Core => 0,
        SubCube::Center(_, _) => 1,
        SubCube::Edge(_, _) => 2,
        SubCube::Corner(_, _) => 3,
    }
}

/// Whether face `f` appears among the oriented face labels of a descriptor.
pub open spec fn dir_present(sc: SubCube, f: Face) -> bool {
    match sc {
        SubCube::Core => false,
        SubCube::Center(d, _) => d == f,
        SubCube::Edge(d, _) => d[0] == f || d[1] == f,
        SubCube::Corner(d, _) => d[0] == f || d[1] == f || d[2] == f,
    }
}

/// Whether two descriptors are the same cubie: same variant and the same
/// immutable colors, whatever their orientations.
pub open spec fn sub_cols_match(a: SubCube, b: SubCube) -> bool {
    match (a, b) {
        (SubCube::Core, SubCube::Core) => true,
        (SubCube::Center(_, c1), SubCube::Center(_, c2)) => c1 == c2,
        (SubCube::Edge(_, c1), SubCube::Edge(_, c2)) => c1 == c2,
        (SubCube::Corner(_, c1), SubCube::Corner(_, c2)) => c1 == c2,
        _ => false,
    }
}

/// The descriptor of cubie `id` on a solved cube.
pub open spec fn solved_sub(id: int) -> SubCube {
    if id == 0 {
        SubCube::Corner(
            [Face::Left, Face::Back, Face::Up],
            [MyColor::Orange, MyColor::Yellow, MyColor::Blue],
        )
    } else if id == 1 {
        SubCube::Edge([Face::Back, Face::Up], [MyColor::Yellow, MyColor::Blue])
    } else if id == 2 {
        SubCube::Corner(
            [Face::Right, Face::Back, Face::Up],
            [MyColor::Red, MyColor::Yellow, MyColor::Blue],
        )
    } else if id == 3 {
        SubCube::Edge([Face::Left, Face::Up], [MyColor::Orange, MyColor::Blue])
    } else if id == 4 {
        SubCube::Center(Face::Up, MyColor::Blue)
    } else if id == 5 {
        SubCube::Edge([Face::Right, Face::Up], [MyColor::Red, MyColor::Blue])
    } else if id == 6 {
        SubCube::Corner(
            [Face::Left, Face::Front, Face::Up],
            [MyColor::Orange, MyColor::White, MyColor::Blue],
        )
    } else if id == 7 {
        SubCube::Edge([Face::Front, Face::Up], [MyColor::White, MyColor::Blue])
    } else if id == 8 {
        SubCube::Corner(
            [Face::Right, Face::Front, Face::Up],
            [MyColor::Red, MyColor::White, MyColor::Blue],
        )
    } else if id == 9 {
        SubCube::Edge([Face::Left, Face::Back], [MyColor::Orange, MyColor::Yellow])
    } else if id == 10 {
        SubCube::Center(Face::Back, MyColor::Yellow)
    } else if id == 11 {
        SubCube::Edge([Face::Right, Face::Back], [MyColor::Red, MyColor::Yellow])
    } else if id == 12 {
        SubCube::Center(Face::Left, MyColor::Orange)
    } else if id == 13 {
        SubCube::Core
    } else if id == 14 {
        SubCube::Center(Face::Right, MyColor::Red)
    } else if id == 15 {
        SubCube::Edge([Face::Left, Face::Front], [MyColor::Orange, MyColor::White])
    } else if id == 16 {
        SubCube::Center(Face::Front, MyColor::White)
    } else if id == 17 {
        SubCube::Edge([Face::Right, Face::Front], [MyColor::Red, MyColor::White])
    } else if id == 18 {
        SubCube::Corner(
            [Face::Left, Face::Back, Face::Down],
            [MyColor::Orange, MyColor::Yellow, MyColor::Green],
        )
    } else if id == 19 {
        SubCube::Edge([Face::Back, Face::Down], [MyColor::Yellow, MyColor::Green])
    } else if id == 20 {
        SubCube::Corner(
            [Face::Right, Face::Back, Face::Down],
            [MyColor::Red, MyColor::Yellow, MyColor::Green],
        )
    } else if id == 21 {
        SubCube::Edge([Face::Left, Face::Down], [MyColor::Orange, MyColor::Green])
    } else if id == 22 {
        SubCube::Center(Face::Down, MyColor::Green)
    } else if id == 23 {
        SubCube::Edge([Face::Right, Face::Down], [MyColor::Red, MyColor::Green])
    } else if id == 24 {
        SubCube::Corner(
            [Face::Left, Face::Front, Face::Down],
            [MyColor::Orange, MyColor::White, MyColor::Green],
        )
    } else if id == 25 {
        SubCube::Edge([Face::Front, Face::Down], [MyColor::White, MyColor::Green])
    } else {
        SubCube::Corner(
            [Face::Right, Face::Front, Face::Down],
            [MyColor::Red, MyColor::White, MyColor::Green],
        )
    }
}

/// The state of a solved cube: identity permutation, canonical descriptors.
pub open spec fn solved_cube() -> CubeView {
    CubeView {
        ids: Seq::new(27, |p: int| p as usize),
        subs: Seq::new(27, |id: int| solved_sub(id)),
    }
}

/// Well-formedness of a cube state: 27 entries on each side, `ids` is a
/// permutation, every descriptor keeps its solved colors, the variant of the
/// cubie at each position matches the kind of the position, and the face
/// labels of the cubie at each position are exactly the faces the position
/// lies on.
pub open spec fn wf(c: CubeView) -> bool {
    &&& c.ids.len() == 27
    &&& c.subs.len() == 27
    &&& forall|p: int| 0 <= p < 27 ==> 0 <= #[trigger] c.ids[p] < 27
    &&& forall|p: int, q: int|
        0 <= p < 27 && 0 <= q < 27 && p != q ==> #[trigger] c.ids[p] != #[trigger] c.ids[q]
    &&& forall|id: int| 0 <= id < 27 ==> sub_cols_match(#[trigger] c.subs[id], solved_sub(id))
    &&& forall|p: int| 0 <= p < 27 ==> kind_code(#[trigger] c.subs[c.ids[p] as int]) == pos_extremity(p)
    &&& forall|p: int, f: Face|
        0 <= p < 27 ==> (#[trigger] dir_present(c.subs[c.ids[p] as int], f) <==> on_face(p, f))
}

/// Whether cubie `id` sits on one of the first `n` face-map positions of
/// face `f` under permutation `ids`.
pub open spec fn moved_prefix(ids: Seq<usize>, f: Face, id: usize, n: int) -> bool {
    exists|j: int| 0 <= j < n && ids[face_map_at(f, j)] == id
}

/// On a well-formed cube, a cubie on face `f` shows only `f` itself and
/// faces of `f`'s chain.
proof fn lemma_dirs_on_face(c: CubeView, face: Face, q: int)
    requires
        wf(c),
        0 <= q < 27,
        on_face(q, face),
    ensures
        sub_dirs_ok(c.subs[c.ids[q] as int], face),
{
    assert forall|g: Face| dir_present(c.subs[c.ids[q] as int], g) implies g == face || chain_pos(
        face_axis(face),
        g,
    ) >= 0 by {
        assert(on_face(q, g));
        if g != face && chain_pos(face_axis(face), g) < 0 {
            assert(false) by {
                assert(on_face(q, g) && on_face(q, face));
                match face {
                    Face::Up => {},
                    Face::Down => {},
                    Face::Front => {},
                    Face::Back => {},
                    Face::Left => {},
                    Face::Right => {},
                }
            }
        }
    }
}

/// Executable face map: the `j`-th grid position of face `f`.
pub fn face_map_pos(f: Face, j: usize) -> (p: usize)
    requires
        j < 9,
    ensures
        p == face_map_at(f, j as int),
        p < 27,
{
    match f {
        Face::Up => j,
        Face::Down => 18 + j,
        Face::Front => 6 + 9 * (j / 3) + j % 3,
        Face::Back => 9 * (j / 3) + j % 3,
        Face::Left => 3 * j,
        Face::Right => 3 * j + 2,
    }
}

/// Executable axis of a face.
fn axis_of(f: Face) -> (a: usize)
    ensures
        a == face_axis(f),
{
    match f {
        Face::Front | Face::Back => 0,
        Face::Left | Face::Right => 1,
        Face::Up | Face::Down => 2,
    }
}

/// Executable chain lookup.
fn chain_elem(axis: usize, i: usize) -> (g: Face)
    requires
        axis < 3,
        i < 4,
    ensures
        g == chain_at(axis as int, i as int),
{
    if axis == 0 {
        if i == 0 {
            Face::Up
        } else if i == 1 {
            Face::Right
        } else if i == 2 {
            Face::Down
        } else {
            Face::Left
        }
    } else if axis == 1 {
        if i == 0 {
            Face::Up
        } else if i == 1 {
            Face::Front
        } else if i == 2 {
            Face::Down
        } else {
            Face::Back
        }
    } else {
        if i == 0 {
            Face::Back
        } else if i == 1 {
            Face::Right
        } else if i == 2 {
            Face::Front
        } else {
            Face::Left
        }
    }
}

/// Reorient one face label of a cubie on the turned face.
fn rotate_dir(d: Face, face: Face, s: usize) -> (r: Face)
    requires
        s < 4,
        d == face || chain_pos(face_axis(face), d) >= 0,
    ensures
        r == rot_face(d, face, s as int),
{
    if d == face {
        proof {
            assert(chain_pos(face_axis(face), face) < 0) by {
                match face {
                    Face::Up => {},
                    Face::Down => {},
                    Face::Front => {},
                    Face::Back => {},
                    Face::Left => {},
                    Face::Right => {},
                }
            }
        }
        d
    } else {
        let axis = axis_of(face);
        let c0 = chain_elem(axis, 0);
        let c1 = chain_elem(axis, 1);
        let c2 = chain_elem(axis, 2);
        let i: usize = if d == c0 {
            0
        } else if d == c1 {
            1
        } else if d == c2 {
            2
        } else {
            3
        };
        proof {
            lemma_chain_props(axis as int);
            assert(i as int == chain_pos(face_axis(face), d));
        }
        chain_elem(axis, (i + 4 - s) % 4)
    }
}

impl Clone for Cube {
    /// A deep copy: the copy has the same state and the same move history.
    fn clone(&self) -> (c: Cube)
        ensures
            c@ == self@,
            c.movs@ == self.movs@,
    {
        let c = Cube { ids: self.ids.clone(), subs: self.subs.clone(), movs: self.movs.clone() };
        proof {
            assert(c.ids@ =~= self.ids@);
            assert(c.subs@ =~= self.subs@);
            assert(c.movs@ =~= self.movs@);
            assert(c@ =~= self@);
        }
        c
    }
}

impl Cube {
    /// A solved cube.
    pub fn new() -> (c: Cube)
        ensures
            c@ == solved_cube(),
            wf(c@),
            c.movs@ == Seq::<Move>::empty(),
    {
        let mut ids: Vec<usize> = Vec::new();
        let mut i: usize = 0;
        while i < 27
            invariant
                i <= 27,
                ids@.len() == i,
                forall|p: int| 0 <= p < i ==> #[trigger] ids@[p] == p,
            decreases 27 - i,
        {
            ids.push(i);
            i = i + 1;
        }
        let mut subs: Vec<SubCube> = Vec::new();
        subs.push(
            SubCube::Corner(
                [Face::Left, Face::Back, Face::Up],
                [MyColor::Orange, MyColor::Yellow, MyColor::Blue],
            ),
        );
        subs.push(SubCube::Edge([Face::Back, Face::Up], [MyColor::Yellow, MyColor::Blue]));
        subs.push(
            SubCube::Corner(
                [Face::Right, Face::Back, Face::Up],
                [MyColor::Red, MyColor::Yellow, MyColor::Blue],
            ),
        );
        subs.push(SubCube::Edge([Face::Left, Face::Up], [MyColor::Orange, MyColor::Blue]));
        subs.push(SubCube::Center(Face::Up, MyColor::Blue));
        subs.push(SubCube::Edge([Face::Right, Face::Up], [MyColor::Red, MyColor::Blue]));
        subs.push(
            SubCube::Corner(
                [Face::Left, Face::Front, Face::Up],
                [MyColor::Orange, MyColor::White, MyColor::Blue],
            ),
        );
        subs.push(SubCube::Edge([Face::Front, Face::Up], [MyColor::White, MyColor::Blue]));
        subs.push(
            SubCube::Corner(
                [Face::Right, Face::Front, Face::Up],
                [MyColor::Red, MyColor::White, MyColor::Blue],
            ),
        );
        subs.push(SubCube::Edge([Face::Left, Face::Back], [MyColor::Orange, MyColor::Yellow]));
        subs.push(SubCube::Center(Face::Back, MyColor::Yellow));
        subs.push(SubCube::Edge([Face::Right, Face::Back], [MyColor::Red, MyColor::Yellow]));
        subs.push(SubCube::Center(Face::Left, MyColor::Orange));
        subs.push(SubCube::Core);
        subs.push(SubCube::Center(Face::Right, MyColor::Red));
        subs.push(SubCube::Edge([Face::Left, Face::Front], [MyColor::Orange, MyColor::White]));
        subs.push(SubCube::Center(Face::Front, MyColor::White));
        subs.push(SubCube::Edge([Face::Right, Face::Front], [MyColor::Red, MyColor::White]));
        subs.push(
            SubCube::Corner(
                [Face::Left, Face::Back, Face::Down],
                [MyColor::Orange, MyColor::Yellow, MyColor::Green],
            ),
        );
        subs.push(SubCube::Edge([Face::Back, Face::Down], [MyColor::Yellow, MyColor::Green]));
        subs.push(
            SubCube::Corner(
                [Face::Right, Face::Back, Face::Down],
                [MyColor::Red, MyColor::Yellow, MyColor::Green],
            ),
        );
        subs.push(SubCube::Edge([Face::Left, Face::Down], [MyColor::Orange, MyColor::Green]));
        subs.push(SubCube::Center(Face::Down, MyColor::Green));
        subs.push(SubCube::Edge([Face::Right, Face::Down], [MyColor::Red, MyColor::Green]));
        subs.push(
            SubCube::Corner(
                [Face::Left, Face::Front, Face::Down],
                [MyColor::Orange, MyColor::White, MyColor::Green],
            ),
        );
        subs.push(SubCube::Edge([Face::Front, Face::Down], [MyColor::White, MyColor::Green]));
        subs.push(
            SubCube::Corner(
                [Face::Right, Face::Front, Face::Down],
                [MyColor::Red, MyColor::White, MyColor::Green],
            ),
        );
        let c = Cube { ids, subs, movs: Vec::new() };
        proof {
            assert(c@.ids =~= solved_cube().ids);
            assert forall|id: int| 0 <= id < 27 implies c@.subs[id] == solved_sub(id) by {}
            assert(c@.subs =~= solved_cube().subs);
            assert(c@ =~= solved_cube());
            lemma_solved_wf();
        }
        c
    }

    /// Reorient the face labels of cubie `id` for a turn of `face` with ring
    /// step `s`.
    fn rotate_sub(&mut self, id: usize, face: Face, s: usize)
        requires
            old(self).subs@.len() == 27,
            id < 27,
            s < 4,
            sub_dirs_ok(old(self).subs@[id as int], face),
        ensures
            final(self).subs@ == old(self).subs@.update(
                id as int,
                rot_sub(old(self).subs@[id as int], face, s as int),
            ),
            final(self).ids == old(self).ids,
            final(self).movs == old(self).movs,
    {
        let sc = self.subs[id];
        match sc {
            SubCube::Edge(d, c) => {
                assert(dir_present(sc, d[0]) && dir_present(sc, d[1]));
                let r0 = rotate_dir(d[0], face, s);
                let r1 = rotate_dir(d[1], face, s);
                self.subs.set(id, SubCube::Edge([r0, r1], c));
                proof {
                    assert([r0, r1] =~= [
                        rot_face(d[0], face, s as int),
                        rot_face(d[1], face, s as int),
                    ]);
                }
            },
            SubCube::Corner(d, c) => {
                assert(dir_present(sc, d[0]) && dir_present(sc, d[1]) && dir_present(sc, d[2]));
                let r0 = rotate_dir(d[0], face, s);
                let r1 = rotate_dir(d[1], face, s);
                let r2 = rotate_dir(d[2], face, s);
                self.subs.set(id, SubCube::Corner([r0, r1, r2], c));
                proof {
                    assert([r0, r1, r2] =~= [
                        rot_face(d[0], face, s as int),
                        rot_face(d[1], face, s as int),
                        rot_face(d[2], face, s as int),
                    ]);
                }
            },
            _ => {
                proof {
                    assert(rot_sub(sc, face, s as int) == sc);
                    assert(self.subs@ =~= self.subs@.update(id as int, sc));
                }
            },
        }
    }

    /// Permute the turned face's two rings of positions by ring step `s`.
    #[verifier::rlimit(100)]
    #[verifier::spinoff_prover]
    fn rotate_ring(&mut self, face: Face, s: usize)
        requires
            old(self).ids@.len() == 27,
            1 <= s < 4,
        ensures
            final(self).ids@ == rotate_ids(old(self).ids@, face, s as int),
            final(self).subs == old(self).subs,
            final(self).movs == old(self).movs,
    {
        proof {
            lemma_face_map_props(face);
            lemma_src_pos_props(face, s as int);
        }
        let ghost ids0 = self.ids@;
        let f0 = face_map_pos(face, 0);
        let f1 = face_map_pos(face, 1);
        let f2 = face_map_pos(face, 2);
        let f3 = face_map_pos(face, 3);
        let f5 = face_map_pos(face, 5);
        let f6 = face_map_pos(face, 6);
        let f7 = face_map_pos(face, 7);
        let f8 = face_map_pos(face, 8);
        let a0 = self.ids[f0];
        let a1 = self.ids[f2];
        let a2 = self.ids[f8];
        let a3 = self.ids[f6];
        let b0 = self.ids[f1];
        let b1 = self.ids[f5];
        let b2 = self.ids[f7];
        let b3 = self.ids[f3];
        if s == 1 {
            self.ids.set(f0, a1);
            self.ids.set(f2, a2);
            self.ids.set(f8, a3);
            self.ids.set(f6, a0);
            self.ids.set(f1, b1);
            self.ids.set(f5, b2);
            self.ids.set(f7, b3);
            self.ids.set(f3, b0);
        } else if s == 2 {
            self.ids.set(f0, a2);
            self.ids.set(f2, a3);
            self.ids.set(f8, a0);
            self.ids.set(f6, a1);
            self.ids.set(f1, b2);
            self.ids.set(f5, b3);
            self.ids.set(f7, b0);
            self.ids.set(f3, b1);
        } else {
            self.ids.set(f0, a3);
            self.ids.set(f2, a0);
            self.ids.set(f8, a1);
            self.ids.set(f6, a2);
            self.ids.set(f1, b3);
            self.ids.set(f5, b0);
            self.ids.set(f7, b1);
            self.ids.set(f3, b2);
        }
        proof {
            assert forall|p: int| 0 <= p < 27 implies self.ids@[p] == ids0[src_pos(
                face,
                s as int,
                p,
            )] by {}
            assert(self.ids@ =~= rotate_ids(ids0, face, s as int));
        }
    }

    /// Apply one move to the cube: permute the turned face's two rings and
    /// reorient the nine cubies on that face. With `mem` the move is appended
    /// to the history.
    #[verifier::rlimit(100)]
    #[verifier::spinoff_prover]
    pub fn rotate(&mut self, mov: Move, mem: bool)
        requires
            wf(old(self)@),
        ensures
            final(self)@ == spec_rotate(old(self)@, mov),
            wf(final(self)@),
            final(self).movs@ == if mem {
                old(self).movs@.push(mov)
            } else {
                old(self).movs@
            },
    {
        let Move(face, rot, typ) = mov;
        let rev: bool = match (face, rot) {
            (Face::Front, Rotation::Cw) => true,
            (Face::Back, Rotation::Ccw) => true,
            (Face::Up, Rotation::Cw) => true,
            (Face::Down, Rotation::Ccw) => true,
            (Face::Left, Rotation::Cw) => true,
            (Face::Right, Rotation::Ccw) => true,
            _ => false,
        };
        let s: usize = if matches!(typ, RotType::Dual) {
            2
        } else if rev {
            3
        } else {
            1
        };
        proof {
            assert(s as int == move_step(mov));
            lemma_face_map_props(face);
            lemma_src_pos_props(face, s as int);
        }
        let ghost c0 = self@;
        self.rotate_ring(face, s);
        let ghost ids2 = self.ids@;
        let mut j: usize = 0;
        while j < 9
            invariant
                j <= 9,
                wf(c0),
                0 <= s < 4,
                s as int == move_step(mov),
                face == mov.0,
                self.ids@ == ids2,
                ids2 == rotate_ids(c0.ids, face, s as int),
                self.subs@.len() == 27,
                self.movs == old(self).movs,
                c0 == old(self)@,
                forall|id: int|
                    0 <= id < 27 ==> #[trigger] self.subs@[id] == if moved_prefix(
                        ids2,
                        face,
                        id as usize,
                        j as int,
                    ) {
                        rot_sub(c0.subs[id], face, s as int)
                    } else {
                        c0.subs[id]
                    },
            decreases 9 - j,
        {
            proof {
                lemma_face_map_props(face);
                lemma_src_pos_props(face, s as int);
            }
            let p = face_map_pos(face, j);
            let id = self.ids[p];
            let ghost q = src_pos(face, s as int, p as int);
            proof {
                assert(0 <= q < 27);
                assert(id == c0.ids[q]);
                assert(id < 27);
                // this cubie has not been reoriented yet in this pass
                assert(!moved_prefix(ids2, face, id, j as int)) by {
                    if moved_prefix(ids2, face, id, j as int) {
                        let jj = choose|jj: int| 0 <= jj < j && ids2[face_map_at(face, jj)] == id;
                        assert(ids2[face_map_at(face, jj)] == ids2[p as int]);
                        assert(face_map_at(face, jj) != p as int);
                        assert(src_pos(face, s as int, face_map_at(face, jj)) != q);
                        assert(c0.ids[src_pos(face, s as int, face_map_at(face, jj))] != c0.ids[q]);
                    }
                }
                assert(self.subs@[id as int] == c0.subs[id as int]);
                // its labels lie on the turned face's chain or on the face
                assert(on_face(q, face));
                lemma_dirs_on_face(c0, face, q);
            }
            let ghost subs_before = self.subs@;
            self.rotate_sub(id, face, s);
            j = j + 1;
            proof {
                assert forall|idx: int| 0 <= idx < 27 implies #[trigger] self.subs@[idx]
                    == if moved_prefix(ids2, face, idx as usize, j as int) {
                    rot_sub(c0.subs[idx], face, s as int)
                } else {
                    c0.subs[idx]
                } by {
                    if idx == id {
                        assert(ids2[face_map_at(face, j - 1)] == id);
                        assert(moved_prefix(ids2, face, idx as usize, j as int));
                    } else {
                        assert(self.subs@[idx] == subs_before[idx]);
                        assert(moved_prefix(ids2, face, idx as usize, j as int) == moved_prefix(
                            ids2,
                            face,
                            idx as usize,
                            j - 1,
                        )) by {
                            if moved_prefix(ids2, face, idx as usize, j as int) {
                                let jj = choose|jj: int|
                                    0 <= jj < j && ids2[face_map_at(face, jj)] == idx as usize;
                                if jj == j - 1 {
                                    assert(ids2[face_map_at(face, j - 1)] == id);
                                    assert(false);
                                }
                                assert(moved_prefix(ids2, face, idx as usize, j - 1));
                            }
                        }
                    }
                }
            }
        }
        proof {
            assert forall|id: int| 0 <= id < 27 implies #[trigger] self.subs@[id] == rotate_subs(
                ids2,
                c0.subs,
                face,
                s as int,
            )[id] by {
                assert(moved_prefix(ids2, face, id as usize, 9) == moved_by(
                    ids2,
                    face,
                    id as usize,
                ));
            }
            assert(self.subs@ =~= rotate_subs(ids2, c0.subs, face, s as int));
            assert(self@ =~= spec_rotate(old(self)@, mov));
            lemma_rotate_preserves_wf(old(self)@, mov);
        }
        if mem {
            self.movs.push(mov);
        }
    }

    /// Parse one move token: a face letter, optionally followed by `2` for a
    /// half turn or `'` for a counter-clockwise quarter turn. Any other token
    /// is rejected, and the error names it.
    pub fn mov_parser(mov: &str) -> (r: Result<Move, String>)
        ensures
            match r {
                Ok(m) => spec_parse_move(mov.spec_bytes()) == Some(m),
                Err(e) => spec_parse_move(mov.spec_bytes()) is None && e@ == "Face \""@ + mov@
                    + "\" is not recognized"@,
            },
    {
        let b = mov.as_bytes();
        let parsed: Option<Move> = if b.len() == 1 {
            match Self::face_of_byte(b[0]) {
                Some(f) => Some(Move(f, Rotation::Cw, RotType::Single)),
                None => None,
            }
        } else if b.len() == 2 {
            match Self::face_of_byte(b[0]) {
                Some(f) => {
                    if b[1] == 50 {
                        Some(Move(f, Rotation::Cw, RotType::Dual))
                    } else if b[1] == 39 {
                        Some(Move(f, Rotation::Ccw, RotType::Single))
                    } else {
                        None
                    }
                },
                None => None,
            }
        } else {
            None
        };
        match parsed {
            Some(m) => Ok(m),
            None => {
                let mut e = "Face \"".to_owned();
                e.append(mov);
                e.append("\" is not recognized");
                proof {
                    assert(e@ =~= "Face \""@ + mov@ + "\" is not recognized"@);
                }
                Err(e)
            },
        }
    }

    /// The face a token's first byte names, if any.
    fn face_of_byte(b: u8) -> (r: Option<Face>)
        ensures
            r == spec_face_of_byte(b),
    {
        if b == 85 {
            Some(Face::Up)
        } else if b == 68 {
            Some(Face::Down)
        } else if b == 70 {
            Some(Face::Front)
        } else if b == 66 {
            Some(Face::Back)
        } else if b == 76 {
            Some(Face::Left)
        } else if b == 82 {
            Some(Face::Right)
        } else {
            None
        }
    }
}

/// The face named by an ASCII byte: `U`, `D`, `F`, `B`, `L` or `R`.
pub open spec fn spec_face_of_byte(b: u8) -> Option<Face> {
    if b == 85 {
        Some(Face::Up)
    } else if b == 68 {
        Some(Face::Down)
    } else if b == 70 {
        Some(Face::Front)
    } else if b == 66 {
        Some(Face::Back)
    } else if b == 76 {
        Some(Face::Left)
    } else if b == 82 {
        Some(Face::Right)
    } else {
        None
    }
}

/// The move a token's bytes name: a face letter alone is a clockwise quarter
/// turn, with `2` a half turn, with `'` a counter-clockwise quarter turn.
pub open spec fn spec_parse_move(s: Seq<u8>) -> Option<Move> {
    if s.len() == 1 {
        match spec_face_of_byte(s[0]) {
            Some(f) => Some(Move(f, Rotation::Cw, RotType::Single)),
            None => None,
        }
    } else if s.len() == 2 {
        match spec_face_of_byte(s[0]) {
            Some(f) => if s[1] == 50 {
                Some(Move(f, Rotation::Cw, RotType::Dual))
            } else if s[1] == 39 {
                Some(Move(f, Rotation::Ccw, RotType::Single))
            } else {
                None
            },
            None => None,
        }
    } else {
        None
    }
}

/// The face-order slot of a face position `p` on face `f`, inverse to
/// `face_map_at`.
pub open spec fn face_slot(f: Face, p: int) -> int {
    match f {
        Face::Up => p,
        Face::Down => p - 18,
        Face::Front => 3 * (p / 9) + p % 3,
        Face::Back => 3 * (p / 9) + p % 3,
        Face::Left => p / 3,
        Face::Right => p / 3,
    }
}

/// Whether every face label of a descriptor is the turned face itself or a
/// face of the turned face's chain, so that reorientation is total.
pub open spec fn sub_dirs_ok(sc: SubCube, face: Face) -> bool {
    forall|g: Face| dir_present(sc, g) ==> g == face || chain_pos(face_axis(face), g) >= 0
}

/// Basic facts about the face map: its nine positions are inside the grid,
/// pairwise distinct, exactly the positions on the face, and of the kind the
/// ring slots say.
pub proof fn lemma_face_map_props(f: Face)
    ensures
        forall|j: int| 0 <= j < 9 ==> 0 <= #[trigger] face_map_at(f, j) < 27,
        forall|j: int, k: int|
            0 <= j < 9 && 0 <= k < 9 && j != k ==> face_map_at(f, j) != face_map_at(f, k),
        forall|j: int| 0 <= j < 9 ==> on_face(#[trigger] face_map_at(f, j), f),
        forall|p: int|
            0 <= p < 27 && on_face(p, f) ==> {
                &&& 0 <= #[trigger] face_slot(f, p) < 9
                &&& face_map_at(f, face_slot(f, p)) == p
            },
        forall|i: int|
            0 <= i < 4 ==> pos_extremity(#[trigger] face_map_at(f, corner_slot(i))) == 3,
        forall|i: int| 0 <= i < 4 ==> pos_extremity(#[trigger] face_map_at(f, edge_slot(i))) == 2,
        pos_extremity(face_map_at(f, 4)) == 1,
{
    match f {
        Face::Up => {},
        Face::Down => {},
        Face::Front => {},
        Face::Back => {},
        Face::Left => {},
        Face::Right => {},
    }
}

/// Basic facts about the position source map of a turn: it stays inside the
/// grid, fixes everything off the face, shifts the two rings by `s`, keeps
/// the kind of each position, is injective, and maps the face to itself.
#[verifier::rlimit(100)]
#[verifier::spinoff_prover]
pub proof fn lemma_src_pos_props(f: Face, s: int)
    requires
        0 <= s < 4,
    ensures
        forall|p: int| 0 <= p < 27 ==> 0 <= #[trigger] src_pos(f, s, p) < 27,
        forall|p: int| 0 <= p < 27 && !on_face(p, f) ==> #[trigger] src_pos(f, s, p) == p,
        forall|i: int|
            0 <= i < 4 ==> #[trigger] src_pos(f, s, face_map_at(f, corner_slot(i)))
                == face_map_at(f, corner_slot((i + s) % 4)),
        forall|i: int|
            0 <= i < 4 ==> #[trigger] src_pos(f, s, face_map_at(f, edge_slot(i))) == face_map_at(
                f,
                edge_slot((i + s) % 4),
            ),
        src_pos(f, s, face_map_at(f, 4)) == face_map_at(f, 4),
        forall|p: int|
            0 <= p < 27 ==> pos_extremity(#[trigger] src_pos(f, s, p)) == pos_extremity(p),
        forall|p: int, q: int|
            0 <= p < 27 && 0 <= q < 27 && p != q ==> src_pos(f, s, p) != src_pos(f, s, q),
        forall|p: int|
            0 <= p < 27 ==> (on_face(#[trigger] src_pos(f, s, p), f) <==> on_face(p, f)),
{
    lemma_face_map_props(f);
}

/// Facts about the face chains: the chain of an axis lists four distinct
/// faces, and `chain_pos` is its inverse.
pub proof fn lemma_chain_props(axis: int)
    requires
        0 <= axis < 3,
    ensures
        forall|i: int| 0 <= i < 4 ==> chain_pos(axis, #[trigger] chain_at(axis, i)) == i,
        forall|g: Face| chain_pos(axis, g) >= 0 ==> {
            &&& chain_pos(axis, g) < 4
            &&& chain_at(axis, #[trigger] chain_pos(axis, g)) == g
        },
{
}

/// A step of zero leaves every face label in place.
#[verifier::spinoff_prover]
pub proof fn lemma_rot_face_zero(face: Face)
    ensures
        forall|a: Face| #[trigger] rot_face(a, face, 0) == a,
{
    let axis = face_axis(face);
    lemma_chain_props(axis);
    assert forall|a: Face| #[trigger] rot_face(a, face, 0) == a by {
        let i = chain_pos(axis, a);
        if i >= 0 {
            assert((i + 4 - 0) % 4 == i);
            assert(chain_at(axis, chain_pos(axis, a)) == a);
        }
    }
}

/// Two reorientations compose into one with the steps added modulo four.
#[verifier::rlimit(100)]
#[verifier::spinoff_prover]
pub proof fn lemma_rot_face_compose(face: Face, s: int, t: int)
    requires
        0 <= s < 4,
        0 <= t < 4,
    ensures
        forall|a: Face|
            #[trigger] rot_face(rot_face(a, face, s), face, t) == rot_face(a, face, (s + t) % 4),
{
    let axis = face_axis(face);
    lemma_chain_props(axis);
    assert forall|a: Face| #[trigger] rot_face(rot_face(a, face, s), face, t) == rot_face(
        a,
        face,
        (s + t) % 4,
    ) by {
        let i = chain_pos(axis, a);
        if i >= 0 {
            let k = (i + 4 - s) % 4;
            assert(0 <= k < 4);
            assert(chain_pos(axis, chain_at(axis, k)) == k);
            assert((k + 4 - t) % 4 == (i + 4 - (s + t) % 4) % 4);
            assert(rot_face(rot_face(a, face, s), face, t) == chain_at(axis, (k + 4 - t) % 4));
            assert(rot_face(a, face, (s + t) % 4) == chain_at(axis, (i + 4 - (s + t) % 4) % 4));
        }
    }
}

/// Reorienting by a fixed step never sends two face labels to one.
#[verifier::spinoff_prover]
pub proof fn lemma_rot_face_injective(face: Face, s: int)
    requires
        0 <= s < 4,
    ensures
        forall|a: Face, b: Face|
            #[trigger] rot_face(a, face, s) == #[trigger] rot_face(b, face, s) ==> a == b,
{
    let u = (4 - s) % 4;
    lemma_rot_face_compose(face, s, u);
    lemma_rot_face_zero(face);
    assert forall|a: Face, b: Face|
        #[trigger] rot_face(a, face, s) == #[trigger] rot_face(b, face, s) implies a == b by {
        assert((s + u) % 4 == 0);
        assert(rot_face(rot_face(a, face, s), face, u) == rot_face(a, face, 0));
        assert(rot_face(rot_face(b, face, s), face, u) == rot_face(b, face, 0));
    }
}

/// Reorientation commutes with membership among a cubie's face labels.
/// Centers are not reoriented, so the claim asks that a center's label
/// already be the turned face (true of the one center on that face).
#[verifier::rlimit(100)]
#[verifier::spinoff_prover]
pub proof fn lemma_dir_present_rot(sc: SubCube, face: Face, s: int)
    requires
        0 <= s < 4,
        sc matches SubCube::Center(g, _) ==> g == face,
    ensures
        forall|d: Face|
            dir_present(#[trigger] rot_sub(sc, face, s), rot_face(d, face, s)) == dir_present(
                sc,
                d,
            ),
{
    lemma_rot_face_injective(face, s);
    assert forall|d: Face| dir_present(#[trigger] rot_sub(sc, face, s), rot_face(d, face, s))
        == dir_present(sc, d) by {
        match sc {
            SubCube::Edge(dd, _) => {
                assert(rot_face(dd[0], face, s) == rot_face(d, face, s) ==> dd[0] == d);
                assert(rot_face(dd[1], face, s) == rot_face(d, face, s) ==> dd[1] == d);
            },
            SubCube::Corner(dd, _) => {
                assert(rot_face(dd[0], face, s) == rot_face(d, face, s) ==> dd[0] == d);
                assert(rot_face(dd[1], face, s) == rot_face(d, face, s) ==> dd[1] == d);
                assert(rot_face(dd[2], face, s) == rot_face(d, face, s) ==> dd[2] == d);
            },
            SubCube::Center(g, _) => {
                assert(chain_pos(face_axis(face), face) < 0) by {
                    match face {
                        Face::Up => {},
                        Face::Down => {},
                        Face::Front => {},
                        Face::Back => {},
                        Face::Left => {},
                        Face::Right => {},
                    }
                }
                assert(rot_face(face, face, s) == face);
                assert(rot_face(g, face, s) == rot_face(d, face, s) ==> g == d);
            },
            SubCube::Core => {},
        }
    }
}

/// The geometric heart of the move operator: a position and its ring source
/// see the same faces, up to reorientation along the chain.
#[verifier::rlimit(100)]
#[verifier::spinoff_prover]
pub proof fn lemma_turn_geometry(f: Face, s: int, j: int, d: Face)
    requires
        0 <= s < 4,
        0 <= j < 9,
    ensures
        on_face(src_pos(f, s, face_map_at(f, j)), d) <==> on_face(
            face_map_at(f, j),
            rot_face(d, f, s),
        ),
{
    match f {
        Face::Up => {
            if s == 1 {
            } else if s == 2 {
            } else if s == 3 {
            }
        },
        Face::Down => {
            if s == 1 {
            } else if s == 2 {
            } else if s == 3 {
            }
        },
        Face::Front => {
            if s == 1 {
            } else if s == 2 {
            } else if s == 3 {
            }
        },
        Face::Back => {
            if s == 1 {
            } else if s == 2 {
            } else if s == 3 {
            }
        },
        Face::Left => {
            if s == 1 {
            } else if s == 2 {
            } else if s == 3 {
            }
        },
        Face::Right => {
            if s == 1 {
            } else if s == 2 {
            } else if s == 3 {
            }
        },
    }
}

/// Applying any move to a well-formed cube yields a well-formed cube.
#[verifier::rlimit(100)]
#[verifier::spinoff_prover]
pub proof fn lemma_rotate_preserves_wf(c: CubeView, m: Move)
    requires
        wf(c),
    ensures
        wf(spec_rotate(c, m)),
{
    let f = m.0;
    let s = move_step(m);
    lemma_face_map_props(f);
    lemma_src_pos_props(f, s);
    let c2 = spec_rotate(c, m);
    assert(c2.ids.len() == 27 && c2.subs.len() == 27);
    assert forall|p: int| 0 <= p < 27 implies 0 <= #[trigger] c2.ids[p] < 27 by {
        assert(0 <= src_pos(f, s, p) < 27);
    }
    assert forall|p: int, q: int|
        0 <= p < 27 && 0 <= q < 27 && p != q implies #[trigger] c2.ids[p] != #[trigger] c2.ids[q] by {
        assert(src_pos(f, s, p) != src_pos(f, s, q));
        assert(0 <= src_pos(f, s, p) < 27 && 0 <= src_pos(f, s, q) < 27);
    }
    assert forall|id: int| 0 <= id < 27 implies sub_cols_match(#[trigger] c2.subs[id], solved_sub(id)) by {
        if moved_by(c2.ids, f, id as usize) {
            assert(c2.subs[id] == rot_sub(c.subs[id], f, s));
            match c.subs[id] {
                SubCube::Core => {},
                SubCube::Center(_, _) => {},
                SubCube::Edge(_, _) => {},
                SubCube::Corner(_, _) => {},
            }
        } else {
            assert(c2.subs[id] == c.subs[id]);
        }
    }
    assert forall|id: int| 0 <= id < 27 implies kind_code(#[trigger] c2.subs[id]) == kind_code(
        c.subs[id],
    ) by {
        if moved_by(c2.ids, f, id as usize) {
            match c.subs[id] {
                SubCube::Core => {},
                SubCube::Center(_, _) => {},
                SubCube::Edge(_, _) => {},
                SubCube::Corner(_, _) => {},
            }
        }
    }
    assert forall|p: int| 0 <= p < 27 implies kind_code(#[trigger] c2.subs[c2.ids[p] as int])
        == pos_extremity(p) by {
        let q = src_pos(f, s, p);
        assert(0 <= q < 27);
        assert(c2.ids[p] == c.ids[q]);
        assert(kind_code(c.subs[c.ids[q] as int]) == pos_extremity(q));
        assert(pos_extremity(q) == pos_extremity(p));
    }
    assert forall|p: int, g: Face|
        0 <= p < 27 implies (#[trigger] dir_present(c2.subs[c2.ids[p] as int], g) <==> on_face(
        p,
        g,
    )) by {
        lemma_rotate_dirs_at(c, m, p, g);
    }
}

/// After a move, the cubie at position `p` shows exactly the faces of `p`.
#[verifier::rlimit(100)]
#[verifier::spinoff_prover]
proof fn lemma_rotate_dirs_at(c: CubeView, m: Move, p: int, g: Face)
    requires
        wf(c),
        0 <= p < 27,
    ensures
        dir_present(spec_rotate(c, m).subs[spec_rotate(c, m).ids[p] as int], g) <==> on_face(p, g),
{
    let f = m.0;
    let s = move_step(m);
    lemma_face_map_props(f);
    lemma_src_pos_props(f, s);
    let c2 = spec_rotate(c, m);
    {
        let q = src_pos(f, s, p);
        assert(0 <= q < 27);
        let id = c.ids[q];
        assert(c2.ids[p] == id);
        if on_face(p, f) {
            let j0 = face_slot(f, p);
            assert(face_map_at(f, j0) == p && 0 <= j0 < 9);
            assert(c2.ids[face_map_at(f, j0)] == id);
            assert(moved_by(c2.ids, f, id));
            assert(c2.subs[id as int] == rot_sub(c.subs[id as int], f, s));
            assert(on_face(q, f));
            // a center on the turned face can only be the face's own center
            match c.subs[id as int] {
                SubCube::Center(h, _) => {
                    assert(kind_code(c.subs[c.ids[q] as int]) == pos_extremity(q));
                    assert(pos_extremity(q) == 1);
                    assert(dir_present(c.subs[c.ids[q] as int], h));
                    assert(on_face(q, h));
                    if h != f {
                        assert(false) by {
                            assert(on_face(q, h) && on_face(q, f) && pos_extremity(q) == 1);
                            match h {
                                Face::Up => {},
                                Face::Down => {},
                                Face::Front => {},
                                Face::Back => {},
                                Face::Left => {},
                                Face::Right => {},
                            }
                        }
                    }
                },
                _ => {},
            }
            lemma_dir_present_rot(c.subs[id as int], f, s);
            let u = (4 - s) % 4;
            lemma_rot_face_compose(f, u, s);
            lemma_rot_face_zero(f);
            let d = rot_face(g, f, u);
            assert(rot_face(rot_face(g, f, u), f, s) == rot_face(g, f, (u + s) % 4));
            assert((u + s) % 4 == 0);
            assert(rot_face(d, f, s) == g);
            assert(dir_present(c2.subs[id as int], g) == dir_present(c.subs[id as int], d));
            assert(dir_present(c.subs[c.ids[q] as int], d) <==> on_face(q, d));
            lemma_turn_geometry(f, s, j0, d);
            assert(src_pos(f, s, face_map_at(f, j0)) == q);
            assert(on_face(q, d) <==> on_face(p, g));
        } else {
            assert(q == p);
            if moved_by(c2.ids, f, id) {
                let jw = choose|jw: int| 0 <= jw < 9 && c2.ids[face_map_at(f, jw)] == id;
                let qq = src_pos(f, s, face_map_at(f, jw));
                assert(0 <= face_map_at(f, jw) < 27);
                assert(on_face(face_map_at(f, jw), f));
                assert(on_face(qq, f));
                assert(0 <= qq < 27);
                assert(c.ids[qq] == id);
                assert(qq == p);
                assert(false);
            }
            assert(c2.subs[id as int] == c.subs[id as int]);
            assert(dir_present(c.subs[c.ids[p] as int], g) <==> on_face(p, g));
        }
    }
}

/// The face slot that slot `j` draws its cubie from under ring step `s`.
pub open spec fn next_slot(j: int, s: int) -> int {
    if j == 0 {
        corner_slot((0 + s) % 4)
    } else if j == 2 {
        corner_slot((1 + s) % 4)
    } else if j == 8 {
        corner_slot((2 + s) % 4)
    } else if j == 6 {
        corner_slot((3 + s) % 4)
    } else if j == 1 {
        edge_slot((0 + s) % 4)
    } else if j == 5 {
        edge_slot((1 + s) % 4)
    } else if j == 7 {
        edge_slot((2 + s) % 4)
    } else if j == 3 {
        edge_slot((3 + s) % 4)
    } else {
        4
    }
}

/// The source map expressed slot by slot.
#[verifier::spinoff_prover]
proof fn lemma_src_pos_at_slot(f: Face, s: int, j: int)
    requires
        0 <= s < 4,
        0 <= j < 9,
    ensures
        0 <= next_slot(j, s) < 9,
        src_pos(f, s, face_map_at(f, j)) == face_map_at(f, next_slot(j, s)),
{
    lemma_src_pos_props(f, s);
}

/// Slot chasing composes by adding the ring steps modulo four.
#[verifier::spinoff_prover]
proof fn lemma_next_slot_compose(j: int, s: int, t: int)
    requires
        0 <= j < 9,
        0 <= s < 4,
        0 <= t < 4,
    ensures
        next_slot(next_slot(j, t), s) == next_slot(j, (s + t) % 4),
{
}

/// The position source maps of two turns of one face compose by adding the
/// ring steps modulo four.
#[verifier::spinoff_prover]
proof fn lemma_src_pos_compose(f: Face, s: int, t: int, p: int)
    requires
        0 <= s < 4,
        0 <= t < 4,
        0 <= p < 27,
    ensures
        src_pos(f, s, src_pos(f, t, p)) == src_pos(f, (s + t) % 4, p),
{
    lemma_face_map_props(f);
    if on_face(p, f) {
        let j0 = face_slot(f, p);
        assert(face_map_at(f, j0) == p && 0 <= j0 < 9);
        lemma_src_pos_at_slot(f, t, j0);
        lemma_src_pos_at_slot(f, s, next_slot(j0, t));
        lemma_next_slot_compose(j0, s, t);
        lemma_src_pos_at_slot(f, (s + t) % 4, j0);
    } else {
        lemma_src_pos_props(f, s);
        lemma_src_pos_props(f, t);
        lemma_src_pos_props(f, (s + t) % 4);
        assert(src_pos(f, t, p) == p);
        assert(src_pos(f, s, p) == p);
        assert(src_pos(f, (s + t) % 4, p) == p);
    }
}

/// Turning a face does not change which cubies sit on that face.
#[verifier::rlimit(100)]
#[verifier::spinoff_prover]
proof fn lemma_moved_by_rotate(ids: Seq<usize>, f: Face, s: int, id: usize)
    requires
        ids.len() == 27,
        0 <= s < 4,
    ensures
        moved_by(rotate_ids(ids, f, s), f, id) == moved_by(ids, f, id),
{
    lemma_face_map_props(f);
    lemma_src_pos_props(f, s);
    let ids2 = rotate_ids(ids, f, s);
    if moved_by(ids2, f, id) {
        let j = choose|j: int| 0 <= j < 9 && ids2[face_map_at(f, j)] == id;
        let q = src_pos(f, s, face_map_at(f, j));
        assert(on_face(face_map_at(f, j), f));
        assert(on_face(q, f));
        assert(0 <= q < 27);
        let jq = face_slot(f, q);
        assert(face_map_at(f, jq) == q && 0 <= jq < 9);
        assert(ids[face_map_at(f, jq)] == id);
        assert(moved_by(ids, f, id));
    }
    if moved_by(ids, f, id) {
        let j = choose|j: int| 0 <= j < 9 && ids[face_map_at(f, j)] == id;
        let jj: int = if j == 0 {
            corner_slot((0 + 4 - s) % 4)
        } else if j == 2 {
            corner_slot((1 + 4 - s) % 4)
        } else if j == 8 {
            corner_slot((2 + 4 - s) % 4)
        } else if j == 6 {
            corner_slot((3 + 4 - s) % 4)
        } else if j == 1 {
            edge_slot((0 + 4 - s) % 4)
        } else if j == 5 {
            edge_slot((1 + 4 - s) % 4)
        } else if j == 7 {
            edge_slot((2 + 4 - s) % 4)
        } else if j == 3 {
            edge_slot((3 + 4 - s) % 4)
        } else {
            4
        };
        assert(0 <= jj < 9);
        assert(src_pos(f, s, face_map_at(f, jj)) == face_map_at(f, j));
        assert(ids2[face_map_at(f, jj)] == id);
        assert(moved_by(ids2, f, id));
    }
}

/// A turn with ring step zero changes nothing.
#[verifier::rlimit(100)]
#[verifier::spinoff_prover]
pub proof fn lemma_turn_zero(c: CubeView, f: Face)
    requires
        c.ids.len() == 27,
        c.subs.len() == 27,
    ensures
        turn(c, f, 0) == c,
{
    lemma_face_map_props(f);
    lemma_src_pos_props(f, 0);
    lemma_rot_face_zero(f);
    let c2 = turn(c, f, 0);
    assert forall|p: int| 0 <= p < 27 implies #[trigger] c2.ids[p] == c.ids[p] by {
        if on_face(p, f) {
            let j0 = face_slot(f, p);
            assert(face_map_at(f, j0) == p && 0 <= j0 < 9);
            lemma_src_pos_at_slot(f, 0, j0);
            assert(next_slot(j0, 0) == j0);
        }
    }
    assert(c2.ids =~= c.ids);
    assert forall|id: int| 0 <= id < 27 implies #[trigger] c2.subs[id] == c.subs[id] by {
        if moved_by(c2.ids, f, id as usize) {
            match c.subs[id] {
                SubCube::Edge(d, cc) => {
                    assert(rot_face(d[0], f, 0) == d[0]);
                    assert(rot_face(d[1], f, 0) == d[1]);
                    assert([rot_face(d[0], f, 0), rot_face(d[1], f, 0)] =~= d);
                },
                SubCube::Corner(d, cc) => {
                    assert(rot_face(d[0], f, 0) == d[0]);
                    assert(rot_face(d[1], f, 0) == d[1]);
                    assert(rot_face(d[2], f, 0) == d[2]);
                    assert([rot_face(d[0], f, 0), rot_face(d[1], f, 0), rot_face(d[2], f, 0)]
                        =~= d);
                },
                _ => {},
            }
        }
    }
    assert(c2.subs =~= c.subs);
    assert(c2 =~= c);
}

/// Two turns of one face compose into a single turn whose ring step is the
/// sum of the two steps modulo four.
#[verifier::rlimit(100)]
#[verifier::spinoff_prover]
pub proof fn lemma_turn_compose(c: CubeView, f: Face, s: int, t: int)
    requires
        c.ids.len() == 27,
        c.subs.len() == 27,
        0 <= s < 4,
        0 <= t < 4,
    ensures
        turn(turn(c, f, s), f, t) == turn(c, f, (s + t) % 4),
{
    lemma_src_pos_props(f, s);
    lemma_src_pos_props(f, t);
    lemma_src_pos_props(f, (s + t) % 4);
    let c1 = turn(c, f, s);
    let c2 = turn(c1, f, t);
    let c3 = turn(c, f, (s + t) % 4);
    assert forall|p: int| 0 <= p < 27 implies #[trigger] c2.ids[p] == c3.ids[p] by {
        lemma_src_pos_compose(f, s, t, p);
        assert(0 <= src_pos(f, t, p) < 27);
        assert(c2.ids[p] == c1.ids[src_pos(f, t, p)]);
        assert(c1.ids[src_pos(f, t, p)] == c.ids[src_pos(f, s, src_pos(f, t, p))]);
    }
    assert(c2.ids =~= c3.ids);
    assert forall|id: int| 0 <= id < 27 implies #[trigger] c2.subs[id] == c3.subs[id] by {
        lemma_moved_by_rotate(c.ids, f, s, id as usize);
        lemma_moved_by_rotate(c1.ids, f, t, id as usize);
        lemma_moved_by_rotate(c.ids, f, (s + t) % 4, id as usize);
        assert(moved_by(c1.ids, f, id as usize) == moved_by(c.ids, f, id as usize));
        assert(moved_by(c2.ids, f, id as usize) == moved_by(c.ids, f, id as usize));
        assert(moved_by(c3.ids, f, id as usize) == moved_by(c.ids, f, id as usize));
        if moved_by(c.ids, f, id as usize) {
            assert(c2.subs[id] == rot_sub(rot_sub(c.subs[id], f, s), f, t));
            assert(c3.subs[id] == rot_sub(c.subs[id], f, (s + t) % 4));
            lemma_rot_face_compose(f, s, t);
            match c.subs[id] {
                SubCube::Edge(_, _) => {},
                SubCube::Corner(_, _) => {},
                _ => {},
            }
        }
    }
    assert(c2.subs =~= c3.subs);
    assert(c2 =~= c3);
}

/// Applying a move and then its inverse restores the cube exactly.
#[verifier::rlimit(100)]
#[verifier::spinoff_prover]
pub proof fn lemma_move_then_inverse(c: CubeView, m: Move)
    requires
        c.ids.len() == 27,
        c.subs.len() == 27,
    ensures
        spec_rotate(spec_rotate(c, m), inverse_move(m)) == c,
{
    let s = move_step(m);
    let t = move_step(inverse_move(m));
    assert((s + t) % 4 == 0);
    lemma_turn_compose(c, m.0, s, t);
    lemma_turn_zero(c, m.0);
}

/// Applying a half turn twice restores the cube, whatever direction either
/// half turn records.
#[verifier::rlimit(100)]
#[verifier::spinoff_prover]
pub proof fn lemma_dual_twice(c: CubeView, f: Face, r1: Rotation, r2: Rotation)
    requires
        c.ids.len() == 27,
        c.subs.len() == 27,
    ensures
        spec_rotate(spec_rotate(c, Move(f, r1, RotType::Dual)), Move(f, r2, RotType::Dual)) == c,
{
    let m1 = Move(f, r1, RotType::Dual);
    let m2 = Move(f, r2, RotType::Dual);
    assert(move_step(m1) == 2 && move_step(m2) == 2);
    assert(spec_rotate(c, m1) == turn(c, f, 2));
    assert(spec_rotate(spec_rotate(c, m1), m2) == turn(turn(c, f, 2), f, 2));
    lemma_turn_compose(c, f, 2, 2);
    assert((2 + 2) % 4 == 0);
    lemma_turn_zero(c, f);
}

/// Applying the same quarter turn four times restores the cube.
#[verifier::rlimit(100)]
#[verifier::spinoff_prover]
pub proof fn lemma_quarter_four(c: CubeView, f: Face, r: Rotation)
    requires
        c.ids.len() == 27,
        c.subs.len() == 27,
    ensures
        ({
            let m = Move(f, r, RotType::Single);
            spec_rotate(spec_rotate(spec_rotate(spec_rotate(c, m), m), m), m) == c
        }),
{
    let m = Move(f, r, RotType::Single);
    let s = move_step(m);
    lemma_turn_compose(c, f, s, s);
    lemma_turn_compose(c, f, (s + s) % 4, s);
    lemma_turn_compose(c, f, ((s + s) % 4 + s) % 4, s);
    assert((((s + s) % 4 + s) % 4 + s) % 4 == 0);
    lemma_turn_zero(c, f);
}

/// The solved cube is well formed.
pub proof fn lemma_solved_wf()
    ensures
        wf(solved_cube()),
{
    let c = solved_cube();
    assert forall|p: int| 0 <= p < 27 implies kind_code(#[trigger] c.subs[c.ids[p] as int])
        == pos_extremity(p) by {
        assert(c.ids[p] == p);
    }
    assert forall|p: int, f: Face| 0 <= p < 27 implies (#[trigger] dir_present(
        c.subs[c.ids[p] as int],
        f,
    ) <==> on_face(p, f)) by {
        assert(c.ids[p] == p);
        match f {
            Face::Up => {},
            Face::Down => {},
            Face::Front => {},
            Face::Back => {},
            Face::Left => {},
            Face::Right => {},
        }
    }
}

} // verus!
