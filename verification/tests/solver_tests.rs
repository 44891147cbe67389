use rubik::cube::Cube;
use rubik::solver::{SolveError, Solver};
use rubik::table::{Table, TableInfos};
use rubik::utils::{Face, Move, RotType, Rotation};

/// A shallow phase table, deep enough to cover short scrambles while staying
/// fast to build.
fn shallow_table(phase: usize, rank: usize) -> Table {
    let inf = match phase {
        1 => TableInfos { id: 1, key_sz: 12, set_sz: 18, rank, cap: 2048 },
        2 => TableInfos { id: 2, key_sz: 36, set_sz: 14, rank, cap: 4096 },
        3 => TableInfos { id: 3, key_sz: 28, set_sz: 10, rank, cap: 4096 },
        _ => TableInfos { id: 4, key_sz: 40, set_sz: 6, rank, cap: 4096 },
    };
    Solver::mt_search(&inf, Cube::new())
}

#[test]
fn phase_one_table_solves_covered_scrambles() {
    // after applying the stored sequence for a cube's phase-1 key, the
    // phase-1 key is zero: the solved-orientation coset
    let table = shallow_table(1, 4);
    // the solved cube's key maps to the empty sequence
    assert_eq!(table.get_codes(0).unwrap(), &Vec::<u8>::new());
    let mut c = Cube::new();
    c.rotate(Move(Face::Right, Rotation::Cw, RotType::Single), false);
    c.rotate(Move(Face::Up, Rotation::Cw, RotType::Dual), false);
    c.rotate(Move(Face::Front, Rotation::Ccw, RotType::Single), false);
    let key = Solver::new(c.clone()).key_gen_1();
    let codes = table.get_codes(key).expect("a depth-3 scramble is covered at rank 4");
    assert!(codes.len() <= 4);
    table.exec(key, &mut c).unwrap();
    assert_eq!(Solver::new(c).key_gen_1(), 0);
}

#[test]
fn phase_four_table_solves_covered_scrambles() {
    // phase 4 drives a double-turn scramble back to the identity: every
    // sticker agrees with its face again (key 4 is zero)
    let table = shallow_table(4, 4);
    let mut c = Cube::new();
    c.rotate(Move(Face::Right, Rotation::Cw, RotType::Dual), false);
    c.rotate(Move(Face::Up, Rotation::Cw, RotType::Dual), false);
    let key = Solver::new(c.clone()).key_gen_4();
    assert!(table.get_codes(key).is_some());
    table.exec(key, &mut c).unwrap();
    assert_eq!(Solver::new(c).key_gen_4(), 0);
}

#[test]
fn solve_of_a_solved_cube_succeeds_and_keeps_it_solved() {
    let t1 = shallow_table(1, 2);
    let t2 = shallow_table(2, 2);
    let t3 = {
        // phase 3 searches from its eight seed cosets; the empty seed covers
        // the solved cube
        let inf = TableInfos { id: 3, key_sz: 28, set_sz: 10, rank: 2, cap: 512 };
        let seeds = Solver::g3_seeds();
        let mut result = Table::new();
        for seed in &seeds {
            let mut cub = Cube::new();
            for mv in seed {
                cub.rotate(*mv, false);
            }
            let part = Solver::mt_search(&inf, cub);
            part.merge_into(&mut result);
        }
        result
    };
    let t4 = shallow_table(4, 2);
    let mut solver = Solver::new(Cube::new());
    let text = solver.solve(&t1, &t2, &t3, &t4).expect("a solved cube never misses a key");
    assert_eq!(text, "");
    let solved = Cube::new();
    assert_eq!(solver.cube.ids, solved.ids);
    assert_eq!(solver.cube.subs, solved.subs);
}

#[test]
fn solve_reports_the_phase_of_a_missing_key() {
    // empty tables cannot even solve a solved cube: phase 1 misses first
    let empty1 = Table::new();
    let empty2 = Table::new();
    let empty3 = Table::new();
    let empty4 = Table::new();
    let mut solver = Solver::new(Cube::new());
    let err = solver.solve(&empty1, &empty2, &empty3, &empty4).unwrap_err();
    assert_eq!(err, SolveError::MissingKey { phase: 1, key: 0 });
}

#[test]
fn rec_search_restores_the_cube() {
    let mut solver = Solver::new(Cube::new());
    let mut table = Table::new();
    let first = Move(Face::Up, Rotation::Cw, RotType::Single);
    solver.do_mov(first);
    let ids_before = solver.cube.ids.clone();
    let subs_before = solver.cube.subs.clone();
    solver.rec_search(&mut table, 1, 18, 2);
    assert_eq!(solver.cube.ids, ids_before);
    assert_eq!(solver.cube.subs, subs_before);
    assert_eq!(solver.mov_stack, vec![first]);
    // the entry recorded for this node undoes the path: a single U'
    let key = solver.key_gen_1();
    let codes = table.get_codes(key).expect("the node's own key is recorded");
    // the U turn does not flip edge orientations, so its key collides with
    // the empty path recorded by deeper nodes of the search
    assert!(codes.len() <= 1);
}

#[test]
fn built_tables_survive_a_save_and_load() {
    // a freshly built phase-1 table, saved and loaded, holds the same keys
    // with sequences no longer than the search depth
    let table = shallow_table(1, 4);
    let bytes = table.save(12);
    let loaded = Table::load(&bytes, 12).expect("a saved table loads back");
    assert_eq!(loaded.len(), table.len());
    for key in 0..4096u64 {
        match (table.get_codes(key), loaded.get_codes(key)) {
            (Some(a), Some(b)) => {
                assert_eq!(a, b);
                assert!(a.len() <= 4);
            },
            (None, None) => {},
            _ => panic!("saved and loaded tables hold different keys"),
        }
    }
}

#[test]
fn movs_2_rev_u8_reverses_and_inverts() {
    let movs = vec![
        Move(Face::Up, Rotation::Cw, RotType::Single),
        Move(Face::Right, Rotation::Ccw, RotType::Dual),
    ];
    let codes = Solver::movs_2_rev_u8(&movs);
    assert_eq!(codes.len(), 2);
    assert_eq!(Table::u8_2_mov(codes[0]), Move(Face::Right, Rotation::Cw, RotType::Dual));
    assert_eq!(Table::u8_2_mov(codes[1]), Move(Face::Up, Rotation::Ccw, RotType::Single));
}
