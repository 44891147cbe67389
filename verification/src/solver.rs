//! The table builder and the solver driver: a bounded-depth search with undo
//! that records, per phase key, the reverse-inverted move sequence reaching
//! it, and the four-phase lookup loop that solves a cube with the tables.

use vstd::prelude::*;

use crate::compressor::{bytes_bits, zero_pad};
use crate::cube::{apply_moves, solved_cube, spec_rotate, wf, Cube, CubeView};
use crate::keys::{key_gen_1, key_gen_2, key_gen_3, key_gen_4};
use crate::keys::{spec_key_1, spec_key_2, spec_key_3, spec_key_4};
use crate::table::{apply_codes, decoded_moves, entry_ok, pack_table, Table, TableInfos};
use crate::utils::{
    encode_move, inverse_move, invert_move, move_code, moves_text, Face, Move, Rotation, RotType,
};

verus! {

/// The canonical 18-move list. Its prefixes of 6, 10, 14 and 18 moves are
/// the move subsets of phases 4, 3, 2 and 1.
pub open spec fn spec_mov_set(i: int) -> Move {
    if i == 0 {
        Move(Face::Left, Rotation::Ccw, RotType::Dual)
    } else if i == 1 {
        Move(Face::Right, Rotation::Ccw, RotType::Dual)
    } else if i == 2 {
        Move(Face::Front, Rotation::Ccw, RotType::Dual)
    } else if i == 3 {
        Move(Face::Back, Rotation::Ccw, RotType::Dual)
    } else if i == 4 {
        Move(Face::Up, Rotation::Ccw, RotType::Dual)
    } else if i == 5 {
        Move(Face::Down, Rotation::Ccw, RotType::Dual)
    } else if i == 6 {
        Move(Face::Left, Rotation::Ccw, RotType::Single)
    } else if i == 7 {
        Move(Face::Right, Rotation::Ccw, RotType::Single)
    } else if i == 8 {
        Move(Face::Left, Rotation::Cw, RotType::Single)
    } else if i == 9 {
        Move(Face::Right, Rotation::Cw, RotType::Single)
    } else if i == 10 {
        Move(Face::Front, Rotation::Ccw, RotType::Single)
    } else if i == 11 {
        Move(Face::Back, Rotation::Ccw, RotType::Single)
    } else if i == 12 {
        Move(Face::Front, Rotation::Cw, RotType::Single)
    } else if i == 13 {
        Move(Face::Back, Rotation::Cw, RotType::Single)
    } else if i == 14 {
        Move(Face::Up, Rotation::Ccw, RotType::Single)
    } else if i == 15 {
        Move(Face::Down, Rotation::Ccw, RotType::Single)
    } else if i == 16 {
        Move(Face::Up, Rotation::Cw, RotType::Single)
    } else {
        Move(Face::Down, Rotation::Cw, RotType::Single)
    }
}

/// Executable canonical move list.
pub fn mov_set_at(i: usize) -> (m: Move)
    requires
        i < 18,
    ensures
        m == spec_mov_set(i as int),
{
    if i == 0 {
        Move(Face::Left, Rotation::Ccw, RotType::Dual)
    } else if i == 1 {
        Move(Face::Right, Rotation::Ccw, RotType::Dual)
    } else if i == 2 {
        Move(Face::Front, Rotation::Ccw, RotType::Dual)
    } else if i == 3 {
        Move(Face::Back, Rotation::Ccw, RotType::Dual)
    } else if i == 4 {
        Move(Face::Up, Rotation::Ccw, RotType::Dual)
    } else if i == 5 {
        Move(Face::Down, Rotation::Ccw, RotType::Dual)
    } else if i == 6 {
        Move(Face::Left, Rotation::Ccw, RotType::Single)
    } else if i == 7 {
        Move(Face::Right, Rotation::Ccw, RotType::Single)
    } else if i == 8 {
        Move(Face::Left, Rotation::Cw, RotType::Single)
    } else if i == 9 {
        Move(Face::Right, Rotation::Cw, RotType::Single)
    } else if i == 10 {
        Move(Face::Front, Rotation::Ccw, RotType::Single)
    } else if i == 11 {
        Move(Face::Back, Rotation::Ccw, RotType::Single)
    } else if i == 12 {
        Move(Face::Front, Rotation::Cw, RotType::Single)
    } else if i == 13 {
        Move(Face::Back, Rotation::Cw, RotType::Single)
    } else if i == 14 {
        Move(Face::Up, Rotation::Ccw, RotType::Single)
    } else if i == 15 {
        Move(Face::Down, Rotation::Ccw, RotType::Single)
    } else if i == 16 {
        Move(Face::Up, Rotation::Cw, RotType::Single)
    } else {
        Move(Face::Down, Rotation::Cw, RotType::Single)
    }
}

/// Whether a move is one of the first `set_sz` moves of the canonical list.
pub open spec fn from_mov_set(m: Move, set_sz: int) -> bool {
    exists|j: int| 0 <= j < set_sz && spec_mov_set(j) == m
}

/// A word the bounded search enumerates: every move from the allowed prefix
/// of the canonical list, and no two consecutive moves on one face.
pub open spec fn allowed_word(w: Seq<Move>, set_sz: int) -> bool {
    &&& forall|i: int| 0 <= i < w.len() ==> from_mov_set(#[trigger] w[i], set_sz)
    &&& forall|i: int| 0 < i < w.len() ==> (#[trigger] w[i]).0 != w[i - 1].0
}

/// A word the recursive step explores below a stacked path: an allowed word
/// whose first move leaves the face of the last stacked move.
pub open spec fn search_word(w: Seq<Move>, set_sz: int, last: Face) -> bool {
    allowed_word(w, set_sz) && (w.len() == 0 || w[0].0 != last)
}

/// The table records the state that `w` reaches from `c`: it holds that
/// state's phase key, with an entry no longer than `base + w.len()` moves.
pub open spec fn covers(
    m: Map<u64, Vec<u8>>,
    phase: int,
    c: CubeView,
    w: Seq<Move>,
    base: int,
) -> bool {
    let k = phase_key(phase, apply_moves(c, w)) as u64;
    &&& m.contains_key(k)
    &&& m[k]@.len() <= base + w.len()
}

/// Prefixing the branch move onto a word of the deeper search gives an
/// allowed word that reaches the same state.
#[verifier::rlimit(100)]
#[verifier::spinoff_prover]
proof fn lemma_lift_word(c0: CubeView, mv: Move, w1: Seq<Move>, set_sz: int, iw: int)
    requires
        0 <= iw < set_sz,
        spec_mov_set(iw) == mv,
        search_word(w1, set_sz, mv.0),
    ensures
        allowed_word(seq![mv] + w1, set_sz),
        (seq![mv] + w1).len() == w1.len() + 1,
        (seq![mv] + w1)[0] == mv,
        apply_moves(c0, seq![mv] + w1) == apply_moves(spec_rotate(c0, mv), w1),
{
    let w = seq![mv] + w1;
    assert(w[0] == mv);
    assert forall|i: int| 0 <= i < w.len() implies from_mov_set(#[trigger] w[i], set_sz) by {
        if i == 0 {
            assert(spec_mov_set(iw) == w[0]);
        } else {
            assert(w[i] == w1[i - 1]);
        }
    }
    assert forall|i: int| 0 < i < w.len() implies (#[trigger] w[i]).0 != w[i - 1].0 by {
        if i == 1 {
            assert(w[1] == w1[0] && w[0] == mv);
        } else {
            assert(w[i] == w1[i - 1] && w[i - 1] == w1[i - 2]);
        }
    }
    crate::cube::lemma_apply_moves_cons(c0, mv, w1);
}

/// Dropping the first move of a nonempty allowed word leaves a word of the
/// search below that move.
#[verifier::rlimit(100)]
#[verifier::spinoff_prover]
proof fn lemma_drop_word(w: Seq<Move>, set_sz: int)
    requires
        allowed_word(w, set_sz),
        w.len() >= 1,
    ensures
        search_word(w.skip(1), set_sz, w[0].0),
        w =~= seq![w[0]] + w.skip(1),
{
    let w1 = w.skip(1);
    assert forall|i: int| 0 <= i < w1.len() implies from_mov_set(#[trigger] w1[i], set_sz) by {
        assert(w1[i] == w[i + 1]);
    }
    assert forall|i: int| 0 < i < w1.len() implies (#[trigger] w1[i]).0 != w1[i - 1].0 by {
        assert(w1[i] == w[i + 1] && w1[i - 1] == w[i]);
    }
    if w1.len() > 0 {
        assert(w1[0] == w[1]);
    }
}

/// A table that records every sufficiently short allowed word whose first
/// move it has seen, when it has seen all of them, records every such word.
#[verifier::spinoff_prover]
proof fn lemma_cover_all_first_moves(
    m: Map<u64, Vec<u8>>,
    id: int,
    c: CubeView,
    set_sz: int,
    rank: int,
)
    requires
        set_sz >= 1,
        forall|w: Seq<Move>|
            allowed_word(w, set_sz) && w.len() <= rank && (w.len() == 0 || exists|j: int|
                0 <= j < set_sz && spec_mov_set(j) == w[0]) ==> #[trigger] covers(m, id, c, w, 0),
    ensures
        forall|w: Seq<Move>|
            allowed_word(w, set_sz) && w.len() <= rank ==> #[trigger] covers(m, id, c, w, 0),
{
    assert forall|w: Seq<Move>|
        allowed_word(w, set_sz) && w.len() <= rank implies #[trigger] covers(m, id, c, w, 0) by {
        if w.len() >= 1 {
            assert(from_mov_set(w[0], set_sz));
        }
    }
}

/// The key function of a phase.
#[verifier::opaque]
pub open spec fn phase_key(step: int, c: CubeView) -> int {
    if step == 1 {
        spec_key_1(c)
    } else if step == 2 {
        spec_key_2(c)
    } else if step == 3 {
        spec_key_3(c)
    } else {
        spec_key_4(c)
    }
}

/// The stored form of a search path: each move inverted, the sequence
/// reversed, every move encoded in five bits. Replaying the stored form
/// undoes the path.
pub open spec fn rev_codes(movs: Seq<Move>) -> Seq<u8> {
    Seq::new(movs.len(), |i: int| move_code(inverse_move(movs[movs.len() - 1 - i])))
}

/// Why a solve stops: a phase key that the phase's table does not hold,
/// meaning an unreachable cube state or a corrupt table.
#[derive(Clone, Copy, PartialEq, Eq, Structural, Debug)]
pub enum SolveError {
    MissingKey { phase: usize, key: u64 },
}

/// What the four-phase drive over given tables yields: the solved state, or
/// the phase, key and cube state at the first missing key.
pub open spec fn solve_spec(
    c0: CubeView,
    m1: Map<u64, Vec<u8>>,
    m2: Map<u64, Vec<u8>>,
    m3: Map<u64, Vec<u8>>,
    m4: Map<u64, Vec<u8>>,
) -> Result<CubeView, (int, u64, CubeView)> {
    let k1 = phase_key(1, c0) as u64;
    if !m1.contains_key(k1) {
        Err((1, k1, c0))
    } else {
        let c1 = apply_codes(c0, m1[k1]@);
        let k2 = phase_key(2, c1) as u64;
        if !m2.contains_key(k2) {
            Err((2, k2, c1))
        } else {
            let c2 = apply_codes(c1, m2[k2]@);
            let k3 = phase_key(3, c2) as u64;
            if !m3.contains_key(k3) {
                Err((3, k3, c2))
            } else {
                let c3 = apply_codes(c2, m3[k3]@);
                let k4 = phase_key(4, c3) as u64;
                if !m4.contains_key(k4) {
                    Err((4, k4, c3))
                } else {
                    Ok(apply_codes(c3, m4[k4]@))
                }
            }
        }
    }
}

/// The key width of a phase table, in bits.
pub open spec fn phase_key_sz(id: int) -> nat {
    if id == 1 {
        12
    } else if id == 2 {
        36
    } else if id == 3 {
        28
    } else {
        40
    }
}

/// How many of the canonical moves a phase's search may use.
pub open spec fn phase_set_sz(id: int) -> int {
    if id == 1 {
        18
    } else if id == 2 {
        14
    } else if id == 3 {
        10
    } else {
        6
    }
}

/// The search depth of a phase's build.
pub open spec fn phase_rank(id: int) -> int {
    if id == 1 {
        7
    } else if id == 2 {
        10
    } else if id == 3 {
        13
    } else {
        15
    }
}

/// How many start cosets a phase's build searches from.
pub open spec fn seed_count(id: int) -> int {
    if id == 3 {
        8
    } else {
        1
    }
}

/// The cube a phase's build searches from: the solved cube, or for phase 3
/// the solved cube placed in one of the eight seed cosets.
pub open spec fn build_start(id: int, s: int) -> CubeView {
    if id == 3 {
        apply_moves(solved_cube(), g3_seed(s))
    } else {
        solved_cube()
    }
}

/// A complete phase build: every state within the phase's depth of each of
/// its start cubes is recorded, under an entry no longer than one path there.
pub open spec fn builder_complete(m: Map<u64, Vec<u8>>, id: int) -> bool {
    forall|s: int, w: Seq<Move>|
        0 <= s < seed_count(id) && allowed_word(w, phase_set_sz(id)) && w.len() <= phase_rank(id)
            ==> #[trigger] covers(m, id, build_start(id, s), w, 0)
}

/// A sound phase build: every entry is the stored form of one enumerated
/// path from one of the phase's start cubes to a state with that key.
pub open spec fn builder_sound(m: Map<u64, Vec<u8>>, id: int) -> bool {
    forall|k: u64|
        m.contains_key(k) ==> exists|s: int, w: Seq<Move>|
            0 <= s < seed_count(id) && allowed_word(w, phase_set_sz(id)) && w.len() <= phase_rank(
                id,
            ) && phase_key(id, apply_moves(build_start(id, s), w)) as u64 == k && m[k]@
                == rev_codes(w)
}

/// Saved bytes of one phase table: the bit-stream serialization, entry by
/// entry, of a complete and sound build of that phase. The key list names
/// each key of the map exactly once, so the bytes hold the whole table.
pub open spec fn built_table_bytes(bytes: Vec<u8>, id: int) -> bool {
    exists|keys: Seq<u64>, m: Map<u64, Vec<u8>>|
        {
            &&& bytes_bits(bytes@.reverse()) == zero_pad(
                #[trigger] pack_table(keys, m, phase_key_sz(id)),
            )
            &&& keys.no_duplicates()
            &&& forall|k: u64| m.contains_key(k) <==> keys.contains(k)
            &&& builder_complete(m, id)
            &&& builder_sound(m, id)
        }
}

/// The solver: a cube and the stack of moves of the current search path.
pub struct Solver {
    pub mov_stack: Vec<Move>,
    pub cube: Cube,
}

impl Solver {
    /// A solver over the given cube, with an empty search path.
    pub fn new(cube: Cube) -> (s: Solver)
        ensures
            s.cube == cube,
            s.mov_stack@ == Seq::<Move>::empty(),
    {
        Solver { mov_stack: Vec::new(), cube }
    }

    /// The phase-1 key of the solver's cube.
    pub fn key_gen_1(&self) -> (r: u64)
        requires
            wf(self.cube@),
        ensures
            r as int == spec_key_1(self.cube@),
    {
        key_gen_1(&self.cube)
    }

    /// The phase-2 key of the solver's cube.
    pub fn key_gen_2(&self) -> (r: u64)
        requires
            wf(self.cube@),
        ensures
            r as int == spec_key_2(self.cube@),
    {
        key_gen_2(&self.cube)
    }

    /// The phase-3 key of the solver's cube.
    pub fn key_gen_3(&self) -> (r: u64)
        requires
            wf(self.cube@),
        ensures
            r as int == spec_key_3(self.cube@),
    {
        key_gen_3(&self.cube)
    }

    /// The phase-4 key of the solver's cube.
    pub fn key_gen_4(&self) -> (r: u64)
        requires
            wf(self.cube@),
        ensures
            r as int == spec_key_4(self.cube@),
    {
        key_gen_4(&self.cube)
    }

    /// The key of the cube under the given phase's key function.
    pub fn key_gen_phase(&self, step: usize) -> (r: u64)
        requires
            wf(self.cube@),
            1 <= step <= 4,
        ensures
            r as int == phase_key(step as int, self.cube@),
    {
        proof {
            reveal(phase_key);
        }
        if step == 1 {
            self.key_gen_1()
        } else if step == 2 {
            self.key_gen_2()
        } else if step == 3 {
            self.key_gen_3()
        } else {
            self.key_gen_4()
        }
    }

    /// Apply one move and push it on the search path.
    pub fn do_mov(&mut self, mv: Move)
        requires
            wf(old(self).cube@),
        ensures
            final(self).cube@ == spec_rotate(old(self).cube@, mv),
            wf(final(self).cube@),
            final(self).cube.movs@ == old(self).cube.movs@,
            final(self).mov_stack@ == old(self).mov_stack@.push(mv),
    {
        self.mov_stack.push(mv);
        self.cube.rotate(mv, false);
    }

    /// Pop the last move of the search path and apply its inverse.
    pub fn undo_mov(&mut self)
        requires
            wf(old(self).cube@),
            old(self).mov_stack@.len() >= 1,
        ensures
            final(self).cube@ == spec_rotate(
                old(self).cube@,
                inverse_move(old(self).mov_stack@.last()),
            ),
            wf(final(self).cube@),
            final(self).cube.movs@ == old(self).cube.movs@,
            final(self).mov_stack@ == old(self).mov_stack@.drop_last(),
    {
        let mv = match self.mov_stack.pop() {
            Some(mv) => mv,
            None => {
                proof {
                    assert(false);
                }
                Move(Face::Up, Rotation::Cw, RotType::Single)
            },
        };
        self.cube.rotate(invert_move(mv), false);
    }

    /// Encode the current search path for storage: inverted, reversed,
    /// five bits per move.
    pub fn movs_2_rev_u8(movs: &Vec<Move>) -> (out: Vec<u8>)
        ensures
            out@ == rev_codes(movs@),
            entry_ok(out@) || movs@.len() > 15,
            forall|i: int| 0 <= i < out@.len() ==> #[trigger] out@[i] < 32,
    {
        let n = movs.len();
        let mut out: Vec<u8> = Vec::new();
        let mut i: usize = 0;
        while i < n
            invariant
                n == movs@.len(),
                i <= n,
                out@.len() == i,
                forall|j: int|
                    0 <= j < i ==> #[trigger] out@[j] == move_code(
                        inverse_move(movs@[n - 1 - j]),
                    ) && out@[j] < 32,
            decreases n - i,
        {
            let code = encode_move(invert_move(movs[n - 1 - i]));
            out.push(code);
            i = i + 1;
        }
        proof {
            assert(out@ =~= rev_codes(movs@));
        }
        out
    }

    /// Explore every move sequence of up to `rank` further moves, skipping
    /// moves on the same face as the previous one, and record for each key
    /// reached the stored form of the path; the cube and the path come back
    /// exactly as they were.
    #[verifier::rlimit(100)]
    #[verifier::spinoff_prover]
    pub fn rec_search(&mut self, sol: &mut Table, phase: usize, set_sz: usize, rank: usize)
        requires
            wf(old(self).cube@),
            old(sol).wf(),
            1 <= phase <= 4,
            set_sz <= 18,
            old(self).mov_stack@.len() >= 1,
            old(self).mov_stack@.len() + rank <= 15,
        ensures
            final(self).cube@ == old(self).cube@,
            wf(final(self).cube@),
            final(self).cube.movs@ == old(self).cube.movs@,
            final(self).mov_stack@ == old(self).mov_stack@,
            final(sol).wf(),
            forall|k: u64|
                old(sol).map_view().contains_key(k) ==> final(sol).map_view().contains_key(k)
                    && final(sol).map_view()[k]@.len() <= old(sol).map_view()[k]@.len(),
            // completeness: every word the pruned search enumerates below the
            // current node is recorded, with an entry no longer than its path
            forall|w: Seq<Move>|
                search_word(w, set_sz as int, old(self).mov_stack@.last().0) && w.len() <= rank
                    ==> #[trigger] covers(
                    final(sol).map_view(),
                    phase as int,
                    old(self).cube@,
                    w,
                    old(self).mov_stack@.len() as int,
                ),
            // soundness: every entry is inherited or the stored form of an
            // enumerated path to a state with that key
            forall|k: u64|
                final(sol).map_view().contains_key(k) ==> (old(sol).map_view().contains_key(k)
                    && final(sol).map_view()[k]@ == old(sol).map_view()[k]@) || exists|w: Seq<Move>|
                    search_word(w, set_sz as int, old(self).mov_stack@.last().0) && w.len() <= rank
                        && phase_key(phase as int, apply_moves(old(self).cube@, w)) as u64 == k
                        && final(sol).map_view()[k]@ == rev_codes(old(self).mov_stack@ + w),
        decreases rank,
    {
        let ghost c0 = self.cube@;
        let ghost stack0 = self.mov_stack@;
        let ghost base = self.mov_stack@.len() as int;
        let key = self.key_gen_phase(phase);
        let codes = Self::movs_2_rev_u8(&self.mov_stack);
        sol.ins_min(key, codes);
        proof {
            assert(apply_moves(c0, Seq::<Move>::empty()) == c0);
            assert(rev_codes(stack0).len() == stack0.len());
            assert(covers(sol.map_view(), phase as int, c0, Seq::<Move>::empty(), base));
            assert(stack0 + Seq::<Move>::empty() =~= stack0);
            assert forall|k: u64| sol.map_view().contains_key(k) implies (old(
                sol,
            ).map_view().contains_key(k) && sol.map_view()[k]@ == old(sol).map_view()[k]@) || exists|
                w: Seq<Move>,
            |
                search_word(w, set_sz as int, stack0.last().0) && w.len() <= rank && phase_key(
                    phase as int,
                    apply_moves(c0, w),
                ) as u64 == k && sol.map_view()[k]@ == rev_codes(stack0 + w) by {
                if !(old(sol).map_view().contains_key(k) && sol.map_view()[k]@ == old(
                    sol,
                ).map_view()[k]@) {
                    let we = Seq::<Move>::empty();
                    assert(search_word(we, set_sz as int, stack0.last().0) && we.len() <= rank
                        && phase_key(phase as int, apply_moves(c0, we)) as u64 == k
                        && sol.map_view()[k]@ == rev_codes(stack0 + we));
                }
            }
        }
        if rank > 0 {
            let last_face = match self.mov_stack.last() {
                Some(m) => m.0,
                None => {
                    proof {
                        assert(false);
                    }
                    Face::Up
                },
            };
            let mut i: usize = 0;
            while i < set_sz
                invariant
                    wf(self.cube@),
                    sol.wf(),
                    1 <= phase <= 4,
                    set_sz <= 18,
                    i <= set_sz,
                    rank >= 1,
                    self.cube@ == old(self).cube@,
                    self.cube.movs@ == old(self).cube.movs@,
                    self.mov_stack@ == old(self).mov_stack@,
                    old(self).mov_stack@.len() >= 1,
                    old(self).mov_stack@.len() + rank <= 15,
                    last_face == old(self).mov_stack@.last().0,
                    c0 == old(self).cube@,
                    stack0 == old(self).mov_stack@,
                    base == stack0.len() as int,
                    forall|k: u64|
                        old(sol).map_view().contains_key(k) ==> sol.map_view().contains_key(k)
                            && sol.map_view()[k]@.len() <= old(sol).map_view()[k]@.len(),
                    forall|w: Seq<Move>|
                        search_word(w, set_sz as int, last_face) && w.len() <= rank && (w.len() == 0
                            || exists|j: int| 0 <= j < i && spec_mov_set(j) == w[0])
                            ==> #[trigger] covers(sol.map_view(), phase as int, c0, w, base),
                    forall|k: u64|
                        sol.map_view().contains_key(k) ==> (old(sol).map_view().contains_key(k)
                            && sol.map_view()[k]@ == old(sol).map_view()[k]@) || exists|
                            w: Seq<Move>,
                        |
                            search_word(w, set_sz as int, last_face) && w.len() <= rank
                                && phase_key(phase as int, apply_moves(c0, w)) as u64 == k
                                && sol.map_view()[k]@ == rev_codes(stack0 + w),
                decreases set_sz - i,
            {
                let mv = mov_set_at(i);
                if last_face != mv.0 {
                    let ghost c_before = self.cube@;
                    let ghost stack_before = self.mov_stack@;
                    let ghost sol_before = sol.map_view();
                    self.do_mov(mv);
                    self.rec_search(sol, phase, set_sz, rank - 1);
                    self.undo_mov();
                    proof {
                        assert(self.mov_stack@ =~= stack_before);
                        crate::cube::lemma_move_then_inverse(c_before, mv);
                        assert(self.cube@ == c_before);
                        let c1 = spec_rotate(c0, mv);
                        // coverage is kept and extended to words starting with this move
                        assert forall|w: Seq<Move>|
                            search_word(w, set_sz as int, last_face) && w.len() <= rank && (w.len()
                                == 0 || exists|j: int| 0 <= j < i + 1 && spec_mov_set(j) == w[0])
                             implies #[trigger] covers(
                            sol.map_view(),
                            phase as int,
                            c0,
                            w,
                            base,
                        ) by {
                            if w.len() == 0 || exists|j: int| 0 <= j < i && spec_mov_set(j)
                                == w[0] {
                                assert(covers(sol_before, phase as int, c0, w, base));
                                let kw = phase_key(phase as int, apply_moves(c0, w)) as u64;
                                assert(sol_before.contains_key(kw));
                                assert(sol.map_view().contains_key(kw) && sol.map_view()[kw]@.len()
                                    <= sol_before[kw]@.len());
                            } else {
                                assert(w.len() >= 1 && w[0] == spec_mov_set(i as int));
                                assert(w[0] == mv);
                                lemma_drop_word(w, set_sz as int);
                                let w1 = w.skip(1);
                                assert(covers(sol.map_view(), phase as int, c1, w1, base + 1));
                                crate::cube::lemma_apply_moves_cons(c0, mv, w1);
                                assert(w =~= seq![mv] + w1);
                                assert(apply_moves(c0, w) == apply_moves(c1, w1));
                            }
                        }
                        // every entry still names an enumerated path
                        assert forall|k: u64| sol.map_view().contains_key(k) implies (old(
                            sol,
                        ).map_view().contains_key(k) && sol.map_view()[k]@ == old(
                            sol,
                        ).map_view()[k]@) || exists|w: Seq<Move>|
                            search_word(w, set_sz as int, last_face) && w.len() <= rank
                                && phase_key(phase as int, apply_moves(c0, w)) as u64 == k
                                && sol.map_view()[k]@ == rev_codes(stack0 + w) by {
                            if sol_before.contains_key(k) && sol.map_view()[k]@ == sol_before[k]@ {
                            } else {
                                let w1 = choose|w1: Seq<Move>|
                                    search_word(w1, set_sz as int, mv.0) && w1.len() <= rank - 1
                                        && phase_key(phase as int, apply_moves(c1, w1)) as u64 == k
                                        && sol.map_view()[k]@ == rev_codes(
                                        stack_before.push(mv) + w1,
                                    );
                                lemma_lift_word(c0, mv, w1, set_sz as int, i as int);
                                let w = seq![mv] + w1;
                                assert(w[0].0 != last_face);
                                assert(stack_before.push(mv) + w1 =~= stack0 + w);
                                assert(search_word(w, set_sz as int, last_face) && w.len() <= rank
                                    && phase_key(phase as int, apply_moves(c0, w)) as u64 == k
                                    && sol.map_view()[k]@ == rev_codes(stack0 + w));
                            }
                        }
                    }
                } else {
                    proof {
                        assert forall|w: Seq<Move>|
                            search_word(w, set_sz as int, last_face) && w.len() <= rank && (w.len()
                                == 0 || exists|j: int| 0 <= j < i + 1 && spec_mov_set(j) == w[0])
                             implies #[trigger] covers(
                            sol.map_view(),
                            phase as int,
                            c0,
                            w,
                            base,
                        ) by {
                            if w.len() >= 1 {
                                if w[0] == spec_mov_set(i as int) {
                                    assert(w[0].0 == last_face);
                                    assert(false);
                                } else {
                                    let j = choose|j: int|
                                        0 <= j < i + 1 && spec_mov_set(j) == w[0];
                                    assert(0 <= j < i && spec_mov_set(j) == w[0]);
                                }
                            }
                        }
                    }
                }
                i = i + 1;
            }
            proof {
                assert forall|w: Seq<Move>|
                    search_word(w, set_sz as int, stack0.last().0) && w.len() <= rank
                     implies #[trigger] covers(sol.map_view(), phase as int, c0, w, base) by {
                    if w.len() >= 1 {
                        assert(from_mov_set(w[0], set_sz as int));
                    }
                }
            }
        } else {
            proof {
                assert forall|w: Seq<Move>|
                    search_word(w, set_sz as int, stack0.last().0) && w.len() <= rank
                     implies #[trigger] covers(sol.map_view(), phase as int, c0, w, base) by {
                    assert(w.len() == 0);
                    assert(w =~= Seq::<Move>::empty());
                }
            }
        }
    }

    /// One search worker: record the start cube's key with an empty path,
    /// apply the worker's first move, then search the remaining depth. The
    /// result records the start cube and every word of at most `rank` allowed
    /// moves that begins with this worker's move, and holds nothing else.
    #[verifier::rlimit(100)]
    #[verifier::spinoff_prover]
    pub fn worker_search(cub: Cube, mv: Move, phase: usize, set_sz: usize, rank: usize) -> (t:
        Table)
        requires
            wf(cub@),
            1 <= phase <= 4,
            set_sz <= 18,
            1 <= rank <= 15,
            from_mov_set(mv, set_sz as int),
        ensures
            t.wf(),
            forall|w: Seq<Move>|
                allowed_word(w, set_sz as int) && w.len() <= rank && (w.len() == 0 || w[0] == mv)
                    ==> #[trigger] covers(t.map_view(), phase as int, cub@, w, 0),
            forall|k: u64|
                t.map_view().contains_key(k) ==> exists|w: Seq<Move>|
                    allowed_word(w, set_sz as int) && w.len() <= rank && (w.len() == 0 || w[0]
                        == mv) && phase_key(phase as int, apply_moves(cub@, w)) as u64 == k
                        && t.map_view()[k]@ == rev_codes(w),
    {
        let mut solver = Solver::new(cub);
        let ghost c0 = solver.cube@;
        let mut table = Table::new();
        let key = solver.key_gen_phase(phase);
        table.ins_min(key, Vec::new());
        let ghost t_pre = table.map_view();
        solver.do_mov(mv);
        let ghost stack1 = solver.mov_stack@;
        solver.rec_search(&mut table, phase, set_sz, rank - 1);
        proof {
            let c1 = spec_rotate(c0, mv);
            assert(stack1 =~= seq![mv]);
            assert(t_pre.contains_key(key) && t_pre[key]@.len() == 0);
            assert(apply_moves(c0, Seq::<Move>::empty()) == c0);
            assert forall|w: Seq<Move>|
                allowed_word(w, set_sz as int) && w.len() <= rank && (w.len() == 0 || w[0] == mv)
                 implies #[trigger] covers(table.map_view(), phase as int, c0, w, 0) by {
                if w.len() == 0 {
                    assert(w =~= Seq::<Move>::empty());
                    assert(table.map_view().contains_key(key) && table.map_view()[key]@.len()
                        <= t_pre[key]@.len());
                } else {
                    lemma_drop_word(w, set_sz as int);
                    let w1 = w.skip(1);
                    assert(covers(table.map_view(), phase as int, c1, w1, 1));
                    crate::cube::lemma_apply_moves_cons(c0, mv, w1);
                    assert(w =~= seq![mv] + w1);
                    assert(apply_moves(c0, w) == apply_moves(c1, w1));
                }
            }
            assert forall|k: u64| table.map_view().contains_key(k) implies exists|w: Seq<Move>|
                allowed_word(w, set_sz as int) && w.len() <= rank && (w.len() == 0 || w[0] == mv)
                    && phase_key(phase as int, apply_moves(c0, w)) as u64 == k
                    && table.map_view()[k]@ == rev_codes(w) by {
                if t_pre.contains_key(k) && table.map_view()[k]@ == t_pre[k]@ {
                    assert(k == key);
                    let we = Seq::<Move>::empty();
                    assert(rev_codes(we) =~= Seq::<u8>::empty());
                    assert(table.map_view()[k]@ =~= rev_codes(we));
                    assert(allowed_word(we, set_sz as int) && we.len() <= rank && phase_key(
                        phase as int,
                        apply_moves(c0, we),
                    ) as u64 == k && table.map_view()[k]@ == rev_codes(we));
                } else {
                    let w1 = choose|w1: Seq<Move>|
                        search_word(w1, set_sz as int, mv.0) && w1.len() <= rank - 1 && phase_key(
                            phase as int,
                            apply_moves(c1, w1),
                        ) as u64 == k && table.map_view()[k]@ == rev_codes(stack1 + w1);
                    let iw = choose|iw: int| 0 <= iw < set_sz && spec_mov_set(iw) == mv;
                    lemma_lift_word(c0, mv, w1, set_sz as int, iw);
                    let w = seq![mv] + w1;
                    assert(stack1 + w1 =~= w);
                    assert(allowed_word(w, set_sz as int) && w.len() <= rank && (w.len() == 0
                        || w[0] == mv) && phase_key(phase as int, apply_moves(c0, w)) as u64 == k
                        && table.map_view()[k]@ == rev_codes(w));
                }
            }
        }
        table
    }

    /// Run one worker per allowed first move of the phase and merge the
    /// workers' tables, keeping the shortest sequence per key. The result
    /// records every state within `inf.rank` pruned allowed moves of `cub`
    /// under an entry no longer than one path there, and every entry is the
    /// stored form of such a path.
    #[verifier::rlimit(100)]
    #[verifier::spinoff_prover]
    pub fn mt_search(inf: &TableInfos, cub: Cube) -> (t: Table)
        requires
            wf(cub@),
            1 <= inf.id <= 4,
            1 <= inf.set_sz <= 18,
            1 <= inf.rank <= 15,
        ensures
            t.wf(),
            forall|w: Seq<Move>|
                allowed_word(w, inf.set_sz as int) && w.len() <= inf.rank
                    ==> #[trigger] covers(t.map_view(), inf.id as int, cub@, w, 0),
            forall|k: u64|
                t.map_view().contains_key(k) ==> exists|w: Seq<Move>|
                    allowed_word(w, inf.set_sz as int) && w.len() <= inf.rank && phase_key(
                        inf.id as int,
                        apply_moves(cub@, w),
                    ) as u64 == k && t.map_view()[k]@ == rev_codes(w),
    {
        let mut result = Table::new();
        let mut i: usize = 0;
        while i < inf.set_sz
            invariant
                wf(cub@),
                1 <= inf.id <= 4,
                1 <= inf.set_sz <= 18,
                1 <= inf.rank <= 15,
                i <= inf.set_sz,
                result.wf(),
                forall|w: Seq<Move>|
                    allowed_word(w, inf.set_sz as int) && w.len() <= inf.rank && (if w.len() == 0 {
                        i > 0
                    } else {
                        exists|j: int| 0 <= j < i && spec_mov_set(j) == w[0]
                    }) ==> #[trigger] covers(result.map_view(), inf.id as int, cub@, w, 0),
                forall|k: u64|
                    result.map_view().contains_key(k) ==> exists|w: Seq<Move>|
                        allowed_word(w, inf.set_sz as int) && w.len() <= inf.rank && phase_key(
                            inf.id as int,
                            apply_moves(cub@, w),
                        ) as u64 == k && result.map_view()[k]@ == rev_codes(w),
            decreases inf.set_sz - i,
        {
            let mv = mov_set_at(i);
            proof {
                assert(from_mov_set(mv, inf.set_sz as int));
            }
            let ghost res_before = result.map_view();
            let worker = Self::worker_search(cub.clone(), mv, inf.id, inf.set_sz, inf.rank);
            worker.merge_into(&mut result);
            proof {
                assert forall|w: Seq<Move>|
                    allowed_word(w, inf.set_sz as int) && w.len() <= inf.rank && (if w.len() == 0 {
                        i + 1 > 0
                    } else {
                        exists|j: int| 0 <= j < i + 1 && spec_mov_set(j) == w[0]
                    }) implies #[trigger] covers(result.map_view(), inf.id as int, cub@, w, 0) by {
                    let kw = phase_key(inf.id as int, apply_moves(cub@, w)) as u64;
                    if w.len() == 0 {
                        assert(covers(worker.map_view(), inf.id as int, cub@, w, 0));
                        assert(result.map_view().contains_key(kw) && result.map_view()[kw]@.len()
                            <= worker.map_view()[kw]@.len());
                    } else if exists|j: int| 0 <= j < i && spec_mov_set(j) == w[0] {
                        assert(covers(res_before, inf.id as int, cub@, w, 0));
                        assert(result.map_view().contains_key(kw) && result.map_view()[kw]@.len()
                            <= res_before[kw]@.len());
                    } else {
                        assert(w[0] == spec_mov_set(i as int));
                        assert(covers(worker.map_view(), inf.id as int, cub@, w, 0));
                        assert(result.map_view().contains_key(kw) && result.map_view()[kw]@.len()
                            <= worker.map_view()[kw]@.len());
                    }
                }
                assert forall|k: u64| result.map_view().contains_key(k) implies exists|
                    w: Seq<Move>,
                |
                    allowed_word(w, inf.set_sz as int) && w.len() <= inf.rank && phase_key(
                        inf.id as int,
                        apply_moves(cub@, w),
                    ) as u64 == k && result.map_view()[k]@ == rev_codes(w) by {
                    assert((res_before.contains_key(k) && result.map_view()[k]@
                        == res_before[k]@) || (worker.map_view().contains_key(k)
                        && result.map_view()[k]@ == worker.map_view()[k]@));
                    if res_before.contains_key(k) && result.map_view()[k]@ == res_before[k]@ {
                        let w = choose|w: Seq<Move>|
                            allowed_word(w, inf.set_sz as int) && w.len() <= inf.rank && phase_key(
                                inf.id as int,
                                apply_moves(cub@, w),
                            ) as u64 == k && res_before[k]@ == rev_codes(w);
                        assert(allowed_word(w, inf.set_sz as int) && w.len() <= inf.rank
                            && phase_key(inf.id as int, apply_moves(cub@, w)) as u64 == k
                            && result.map_view()[k]@ == rev_codes(w));
                    } else {
                        assert(worker.map_view().contains_key(k) && result.map_view()[k]@
                            == worker.map_view()[k]@);
                        let w = choose|w: Seq<Move>|
                            allowed_word(w, inf.set_sz as int) && w.len() <= inf.rank && (w.len()
                                == 0 || w[0] == mv) && phase_key(
                                inf.id as int,
                                apply_moves(cub@, w),
                            ) as u64 == k && worker.map_view()[k]@ == rev_codes(w);
                        assert(allowed_word(w, inf.set_sz as int) && w.len() <= inf.rank
                            && phase_key(inf.id as int, apply_moves(cub@, w)) as u64 == k
                            && result.map_view()[k]@ == rev_codes(w));
                    }
                }
            }
            i = i + 1;
        }
        proof {
            lemma_cover_all_first_moves(
                result.map_view(),
                inf.id as int,
                cub@,
                inf.set_sz as int,
                inf.rank as int,
            );
        }
        result
    }

    /// The parameters of one phase table.
    pub fn tab_inf(id: usize) -> (inf: TableInfos)
        requires
            1 <= id <= 4,
        ensures
            inf.id == id,
            id == 1 ==> inf.key_sz == 12 && inf.set_sz == 18 && inf.rank == 7 && inf.cap == 2048,
            id == 2 ==> inf.key_sz == 36 && inf.set_sz == 14 && inf.rank == 10 && inf.cap
                == 1082565,
            id == 3 ==> inf.key_sz == 28 && inf.set_sz == 10 && inf.rank == 13 && inf.cap == 29400,
            id == 4 ==> inf.key_sz == 40 && inf.set_sz == 6 && inf.rank == 15 && inf.cap == 663552,
    {
        if id == 1 {
            TableInfos { id: 1, key_sz: 12, set_sz: 18, rank: 7, cap: 2048 }
        } else if id == 2 {
            TableInfos { id: 2, key_sz: 36, set_sz: 14, rank: 10, cap: 1082565 }
        } else if id == 3 {
            TableInfos { id: 3, key_sz: 28, set_sz: 10, rank: 13, cap: 29400 }
        } else {
            TableInfos { id: 4, key_sz: 40, set_sz: 6, rank: 15, cap: 663552 }
        }
    }

    /// The eight seed move lists that place a cube in each of the eight
    /// phase-3 cosets the builder must cover.
    pub fn g3_seeds() -> (seeds: Vec<Vec<Move>>)
        ensures
            seeds@.len() == 8,
            forall|i: int| 0 <= i < 8 ==> #[trigger] seeds@[i]@ == g3_seed(i),
    {
        let u2 = Move(Face::Up, Rotation::Cw, RotType::Dual);
        let d2 = Move(Face::Down, Rotation::Cw, RotType::Dual);
        let f2 = Move(Face::Front, Rotation::Cw, RotType::Dual);
        let b2 = Move(Face::Back, Rotation::Cw, RotType::Dual);
        let l2 = Move(Face::Left, Rotation::Cw, RotType::Dual);
        let r2 = Move(Face::Right, Rotation::Cw, RotType::Dual);
        let mut seeds: Vec<Vec<Move>> = Vec::new();
        let s0: Vec<Move> = Vec::new();
        seeds.push(s0);
        let mut s1: Vec<Move> = Vec::new();
        s1.push(u2);
        s1.push(l2);
        seeds.push(s1);
        let mut s2: Vec<Move> = Vec::new();
        s2.push(d2);
        s2.push(f2);
        seeds.push(s2);
        let mut s3: Vec<Move> = Vec::new();
        s3.push(f2);
        s3.push(u2);
        seeds.push(s3);
        let mut s4: Vec<Move> = Vec::new();
        s4.push(u2);
        s4.push(l2);
        s4.push(f2);
        seeds.push(s4);
        let mut s5: Vec<Move> = Vec::new();
        s5.push(r2);
        s5.push(d2);
        s5.push(r2);
        seeds.push(s5);
        let mut s6: Vec<Move> = Vec::new();
        s6.push(r2);
        s6.push(b2);
        s6.push(u2);
        seeds.push(s6);
        let mut s7: Vec<Move> = Vec::new();
        s7.push(u2);
        s7.push(f2);
        s7.push(r2);
        s7.push(d2);
        seeds.push(s7);
        proof {
            assert forall|i: int| 0 <= i < 8 implies #[trigger] seeds@[i]@ == g3_seed(i) by {
                assert(seeds@[0]@ =~= g3_seed(0));
                assert(seeds@[1]@ =~= g3_seed(1));
                assert(seeds@[2]@ =~= g3_seed(2));
                assert(seeds@[3]@ =~= g3_seed(3));
                assert(seeds@[4]@ =~= g3_seed(4));
                assert(seeds@[5]@ =~= g3_seed(5));
                assert(seeds@[6]@ =~= g3_seed(6));
                assert(seeds@[7]@ =~= g3_seed(7));
            }
        }
        seeds
    }

    /// Build the named tables and return, for each requested phase in order,
    /// its serialized bytes. Phase 3 is built from its eight coset seeds.
    #[verifier::rlimit(100)]
    #[verifier::spinoff_prover]
    pub fn table_search(table_ids: Vec<usize>) -> (out: Vec<Vec<u8>>)
        requires
            forall|i: int| 0 <= i < table_ids@.len() ==> 1 <= #[trigger] table_ids@[i] <= 4,
        ensures
            out@.len() == table_ids@.len(),
            forall|i: int|
                0 <= i < table_ids@.len() ==> built_table_bytes(
                    #[trigger] out@[i],
                    table_ids@[i] as int,
                ),
    {
        let mut out: Vec<Vec<u8>> = Vec::new();
        let mut i: usize = 0;
        while i < table_ids.len()
            invariant
                forall|j: int| 0 <= j < table_ids@.len() ==> 1 <= #[trigger] table_ids@[j] <= 4,
                i <= table_ids@.len(),
                out@.len() == i,
                forall|j: int|
                    0 <= j < i ==> built_table_bytes(#[trigger] out@[j], table_ids@[j] as int),
            decreases table_ids@.len() - i,
        {
            let id = table_ids[i];
            let inf = Self::tab_inf(id);
            proof {
                assert(inf.set_sz as int == phase_set_sz(id as int));
                assert(inf.rank as int == phase_rank(id as int));
                assert(inf.key_sz as nat == phase_key_sz(id as int));
            }
            let map: Table = if id == 3 {
                let seeds = Self::g3_seeds();
                let mut result = Table::new();
                let mut s: usize = 0;
                while s < seeds.len()
                    invariant
                        seeds@.len() == 8,
                        forall|x: int| 0 <= x < 8 ==> #[trigger] seeds@[x]@ == g3_seed(x),
                        s <= seeds@.len(),
                        result.wf(),
                        inf.id == 3 && inf.set_sz == 10 && inf.rank == 13,
                        forall|x: int, w: Seq<Move>|
                            0 <= x < s && allowed_word(w, 10) && w.len() <= 13
                                ==> #[trigger] covers(
                                result.map_view(),
                                3,
                                build_start(3, x),
                                w,
                                0,
                            ),
                        forall|k: u64|
                            result.map_view().contains_key(k) ==> exists|x: int, w: Seq<Move>|
                                0 <= x < 8 && allowed_word(w, 10) && w.len() <= 13 && phase_key(
                                    3,
                                    apply_moves(build_start(3, x), w),
                                ) as u64 == k && result.map_view()[k]@ == rev_codes(w),
                    decreases seeds@.len() - s,
                {
                    let seed = &seeds[s];
                    let mut cub = Cube::new();
                    let mut m: usize = 0;
                    proof {
                        assert(apply_moves(solved_cube(), g3_seed(s as int).take(0))
                            == solved_cube()) by {
                            assert(g3_seed(s as int).take(0) =~= Seq::<Move>::empty());
                        }
                    }
                    while m < seed.len()
                        invariant
                            wf(cub@),
                            m <= seed@.len(),
                            seed@ == g3_seed(s as int),
                            cub@ == apply_moves(solved_cube(), g3_seed(s as int).take(m as int)),
                        decreases seed@.len() - m,
                    {
                        cub.rotate(seed[m], false);
                        proof {
                            let t = g3_seed(s as int).take(m + 1);
                            assert(t.drop_last() =~= g3_seed(s as int).take(m as int));
                            assert(t.last() == g3_seed(s as int)[m as int]);
                        }
                        m = m + 1;
                    }
                    proof {
                        assert(g3_seed(s as int).take(seed@.len() as int) =~= g3_seed(s as int));
                        assert(cub@ == build_start(3, s as int));
                    }
                    let ghost res_before = result.map_view();
                    let part = Self::mt_search(&inf, cub);
                    part.merge_into(&mut result);
                    proof {
                        assert forall|x: int, w: Seq<Move>|
                            0 <= x < s + 1 && allowed_word(w, 10) && w.len() <= 13
                             implies #[trigger] covers(
                            result.map_view(),
                            3,
                            build_start(3, x),
                            w,
                            0,
                        ) by {
                            let kw = phase_key(3, apply_moves(build_start(3, x), w)) as u64;
                            if x < s {
                                assert(covers(res_before, 3, build_start(3, x), w, 0));
                                assert(result.map_view().contains_key(kw)
                                    && result.map_view()[kw]@.len() <= res_before[kw]@.len());
                            } else {
                                assert(covers(part.map_view(), 3, build_start(3, x), w, 0));
                                assert(result.map_view().contains_key(kw)
                                    && result.map_view()[kw]@.len() <= part.map_view()[kw]@.len());
                            }
                        }
                        assert forall|k: u64| result.map_view().contains_key(k) implies exists|
                            x: int,
                            w: Seq<Move>,
                        |
                            0 <= x < 8 && allowed_word(w, 10) && w.len() <= 13 && phase_key(
                                3,
                                apply_moves(build_start(3, x), w),
                            ) as u64 == k && result.map_view()[k]@ == rev_codes(w) by {
                            assert((res_before.contains_key(k) && result.map_view()[k]@
                                == res_before[k]@) || (part.map_view().contains_key(k)
                                && result.map_view()[k]@ == part.map_view()[k]@));
                            if res_before.contains_key(k) && result.map_view()[k]@
                                == res_before[k]@ {
                                let (x, w) = choose|x: int, w: Seq<Move>|
                                    0 <= x < 8 && allowed_word(w, 10) && w.len() <= 13
                                        && phase_key(3, apply_moves(build_start(3, x), w)) as u64
                                        == k && res_before[k]@ == rev_codes(w);
                                assert(0 <= x < 8 && allowed_word(w, 10) && w.len() <= 13
                                    && phase_key(3, apply_moves(build_start(3, x), w)) as u64 == k
                                    && result.map_view()[k]@ == rev_codes(w));
                            } else {
                                let w = choose|w: Seq<Move>|
                                    allowed_word(w, 10) && w.len() <= 13 && phase_key(
                                        3,
                                        apply_moves(cub@, w),
                                    ) as u64 == k && part.map_view()[k]@ == rev_codes(w);
                                assert(0 <= s < 8 && allowed_word(w, 10) && w.len() <= 13
                                    && phase_key(3, apply_moves(build_start(3, s as int), w)) as u64
                                    == k && result.map_view()[k]@ == rev_codes(w));
                            }
                        }
                    }
                    s = s + 1;
                }
                proof {
                    assert(builder_complete(result.map_view(), 3));
                    assert(builder_sound(result.map_view(), 3));
                }
                result
            } else {
                let start = Cube::new();
                let built = Self::mt_search(&inf, start);
                proof {
                    assert(seed_count(id as int) == 1);
                    assert(build_start(id as int, 0) == solved_cube());
                    assert forall|x: int, w: Seq<Move>|
                        0 <= x < seed_count(id as int) && allowed_word(w, phase_set_sz(id as int))
                            && w.len() <= phase_rank(id as int) implies #[trigger] covers(
                        built.map_view(),
                        id as int,
                        build_start(id as int, x),
                        w,
                        0,
                    ) by {
                        assert(covers(built.map_view(), inf.id as int, solved_cube(), w, 0));
                    }
                    assert forall|k: u64| built.map_view().contains_key(k) implies exists|
                        x: int,
                        w: Seq<Move>,
                    |
                        0 <= x < seed_count(id as int) && allowed_word(w, phase_set_sz(id as int))
                            && w.len() <= phase_rank(id as int) && phase_key(
                            id as int,
                            apply_moves(build_start(id as int, x), w),
                        ) as u64 == k && built.map_view()[k]@ == rev_codes(w) by {
                        let w = choose|w: Seq<Move>|
                            allowed_word(w, inf.set_sz as int) && w.len() <= inf.rank && phase_key(
                                inf.id as int,
                                apply_moves(solved_cube(), w),
                            ) as u64 == k && built.map_view()[k]@ == rev_codes(w);
                        assert(0 <= 0 < seed_count(id as int) && allowed_word(
                            w,
                            phase_set_sz(id as int),
                        ) && w.len() <= phase_rank(id as int) && phase_key(
                            id as int,
                            apply_moves(build_start(id as int, 0), w),
                        ) as u64 == k && built.map_view()[k]@ == rev_codes(w));
                    }
                    assert(builder_complete(built.map_view(), id as int));
                    assert(builder_sound(built.map_view(), id as int));
                }
                built
            };
            let bytes = map.save(inf.key_sz);
            proof {
                assert(built_table_bytes(bytes, id as int)) by {
                    assert(bytes_bits(bytes@.reverse()) == zero_pad(
                        pack_table(map.keys_view(), map.map_view(), phase_key_sz(id as int)),
                    ));
                    map.lemma_wf_keys();
                    assert(map.keys_view().no_duplicates());
                    assert(forall|k: u64|
                        map.map_view().contains_key(k) <==> map.keys_view().contains(k));
                    assert(builder_complete(map.map_view(), id as int));
                    assert(builder_sound(map.map_view(), id as int));
                }
            }
            out.push(bytes);
            i = i + 1;
        }
        out
    }

    /// Run one phase: look the cube's key up in the phase's table, replay the
    /// stored sequence, and return the names of the moves applied; a missing
    /// key reports the phase and the key and leaves the cube unchanged.
    pub fn solve_step(&mut self, step: usize, table: &Table) -> (r: Result<String, SolveError>)
        requires
            wf(old(self).cube@),
            table.wf(),
            1 <= step <= 4,
        ensures
            final(self).mov_stack == old(self).mov_stack,
            ({
                let k = phase_key(step as int, old(self).cube@) as u64;
                if table.map_view().contains_key(k) {
                    let entry = table.map_view()[k]@;
                    &&& r matches Ok(text) && text@ == moves_text(decoded_moves(entry))
                    &&& final(self).cube@ == apply_codes(old(self).cube@, entry)
                    &&& wf(final(self).cube@)
                    &&& final(self).cube.movs@ == old(self).cube.movs@ + decoded_moves(entry)
                } else {
                    &&& r == Result::<String, SolveError>::Err(
                        SolveError::MissingKey { phase: step, key: k },
                    )
                    &&& final(self).cube == old(self).cube
                }
            }),
    {
        let key = self.key_gen_phase(step);
        proof {
            assert(key as int == phase_key(step as int, self.cube@));
        }
        match table.exec(key, &mut self.cube) {
            Some(text) => Ok(text),
            None => Err(SolveError::MissingKey { phase: step, key }),
        }
    }

    /// Solve the cube: run phases one to four in order, each looking its key
    /// up in its table and replaying the stored sequence. On success the
    /// returned string is display text only: the four phases' move names
    /// concatenated, each phase's exact text being fixed by `solve_step`.
    /// The first missing key stops the solve there.
    pub fn solve(&mut self, t1: &Table, t2: &Table, t3: &Table, t4: &Table) -> (r: Result<
        String,
        SolveError,
    >)
        requires
            wf(old(self).cube@),
            t1.wf(),
            t2.wf(),
            t3.wf(),
            t4.wf(),
        ensures
            match solve_spec(
                old(self).cube@,
                t1.map_view(),
                t2.map_view(),
                t3.map_view(),
                t4.map_view(),
            ) {
                Ok(cf) => r is Ok && final(self).cube@ == cf && wf(final(self).cube@),
                Err((p, k, cstop)) => r == Result::<String, SolveError>::Err(
                    SolveError::MissingKey { phase: p as usize, key: k },
                ) && final(self).cube@ == cstop,
            },
    {
        let mut text = String::new();
        match self.solve_step(1, t1) {
            Ok(s) => {
                text.append(s.as_str());
            },
            Err(e) => {
                return Err(e);
            },
        }
        match self.solve_step(2, t2) {
            Ok(s) => {
                text.append(s.as_str());
            },
            Err(e) => {
                return Err(e);
            },
        }
        match self.solve_step(3, t3) {
            Ok(s) => {
                text.append(s.as_str());
            },
            Err(e) => {
                return Err(e);
            },
        }
        match self.solve_step(4, t4) {
            Ok(s) => {
                text.append(s.as_str());
            },
            Err(e) => {
                return Err(e);
            },
        }
        Ok(text)
    }
}

/// Key purity: a phase key depends only on the permutation and descriptors
/// of the cube, never on its move history; two cubes in the same state have
/// the same keys, however they were reached.
pub proof fn lemma_key_purity(a: Cube, b: Cube, step: int)
    requires
        a.ids@ == b.ids@,
        a.subs@ == b.subs@,
        1 <= step <= 4,
    ensures
        phase_key(step, a@) == phase_key(step, b@),
{
    assert(a@ =~= b@);
}

/// The seed move list of one phase-3 coset.
pub open spec fn g3_seed(i: int) -> Seq<Move> {
    let u2 = Move(Face::Up, Rotation::Cw, RotType::Dual);
    let d2 = Move(Face::Down, Rotation::Cw, RotType::Dual);
    let f2 = Move(Face::Front, Rotation::Cw, RotType::Dual);
    let b2 = Move(Face::Back, Rotation::Cw, RotType::Dual);
    let l2 = Move(Face::Left, Rotation::Cw, RotType::Dual);
    let r2 = Move(Face::Right, Rotation::Cw, RotType::Dual);
    if i == 0 {
        seq![]
    } else if i == 1 {
        seq![u2, l2]
    } else if i == 2 {
        seq![d2, f2]
    } else if i == 3 {
        seq![f2, u2]
    } else if i == 4 {
        seq![u2, l2, f2]
    } else if i == 5 {
        seq![r2, d2, r2]
    } else if i == 6 {
        seq![r2, b2, u2]
    } else {
        seq![u2, f2, r2, d2]
    }
}

} // verus!
