use rubik::cube::Cube;
use rubik::extractor::Extractor;
use rubik::solver::Solver;
use rubik::utils::{Face, Move, RotType, Rotation};

#[test]
fn solved_cube_phase_identity_keys() {
    let s = Solver::new(Cube::new());
    assert_eq!(s.key_gen_1(), 0);
    // the phase-2 key of a solved cube packs each corner's first face label
    // and each edge's home-slice bit
    assert_eq!(s.key_gen_2(), 0x8bc5f8bc5);
    assert_eq!(s.key_gen_3(), 0);
    assert_eq!(s.key_gen_4(), 0);
    assert_eq!(Extractor::key_gen_3(&Cube::new()), 0);
}

#[test]
fn quarter_turn_flips_exactly_four_edges() {
    // the phase-1 walk follows the chain around the Up/Down axis, so a U
    // quarter turn flips the orientation bit of exactly the four turned
    // edges, while an F quarter turn flips none
    let mut u = Cube::new();
    u.rotate(Move(Face::Up, Rotation::Cw, RotType::Single), false);
    let key = Solver::new(u).key_gen_1();
    assert_eq!(key.count_ones(), 4);
    assert_eq!(key, 0b100100100100);
    let mut f = Cube::new();
    f.rotate(Move(Face::Front, Rotation::Cw, RotType::Single), false);
    assert_eq!(Solver::new(f).key_gen_1(), 0);
}

#[test]
fn keys_depend_only_on_the_state_not_the_history() {
    // two quarter turns of one face reach the same state as one half turn,
    // by different move lists; every phase key agrees
    let mut a = Cube::new();
    a.rotate(Move(Face::Right, Rotation::Cw, RotType::Single), true);
    a.rotate(Move(Face::Right, Rotation::Cw, RotType::Single), true);
    let mut b = Cube::new();
    b.rotate(Move(Face::Right, Rotation::Cw, RotType::Dual), true);
    assert_eq!(a.ids, b.ids);
    assert_eq!(a.subs, b.subs);
    assert_ne!(a.movs, b.movs);
    let sa = Solver::new(a);
    let sb = Solver::new(b);
    assert_eq!(sa.key_gen_1(), sb.key_gen_1());
    assert_eq!(sa.key_gen_2(), sb.key_gen_2());
    assert_eq!(sa.key_gen_3(), sb.key_gen_3());
    assert_eq!(sa.key_gen_4(), sb.key_gen_4());
}

#[test]
fn half_turns_keep_the_phase_one_key() {
    // the phase-1 key (edge orientation) is untouched by half turns
    let mut c = Cube::new();
    for f in [Face::Up, Face::Right, Face::Front, Face::Down] {
        c.rotate(Move(f, Rotation::Cw, RotType::Dual), false);
    }
    let s = Solver::new(c);
    assert_eq!(s.key_gen_1(), 0);
}

#[test]
fn narrow_phase_three_key_sees_tetrad_swaps() {
    // a quarter turn of the Left face moves corners across the tetrads
    let mut c = Cube::new();
    c.rotate(Move(Face::Left, Rotation::Cw, RotType::Single), false);
    assert_ne!(Extractor::key_gen_3(&c), 0);
    // a half turn keeps every Left-face corner in its home tetrad
    let mut d = Cube::new();
    d.rotate(Move(Face::Left, Rotation::Cw, RotType::Dual), false);
    assert_eq!(Extractor::key_gen_3(&d), 0);
}
