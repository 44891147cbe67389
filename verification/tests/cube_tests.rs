use rubik::cube::Cube;
use rubik::table::Table;
use rubik::utils::{encode_move, Face, Move, MyColor, RotType, Rotation};

fn scrambled() -> Cube {
    let mut c = Cube::new();
    c.rotate(Move(Face::Right, Rotation::Cw, RotType::Single), false);
    c.rotate(Move(Face::Up, Rotation::Cw, RotType::Dual), false);
    c.rotate(Move(Face::Down, Rotation::Ccw, RotType::Single), false);
    c.rotate(Move(Face::Back, Rotation::Cw, RotType::Single), false);
    c
}

#[test]
fn solved_cube_is_identity() {
    let c = Cube::new();
    for (pos, id) in c.ids.iter().enumerate() {
        assert_eq!(pos, *id);
    }
    assert_eq!(c.ids.len(), 27);
    assert_eq!(c.subs.len(), 27);
    assert!(c.movs.is_empty());
    assert_eq!(c.subs[13], rubik::cube::SubCube::Core);
    assert_eq!(c.subs[4], rubik::cube::SubCube::Center(Face::Up, MyColor::Blue));
}

#[test]
fn move_then_inverse_restores() {
    // a move followed by its inverse restores any cube, byte for byte
    for face in [Face::Up, Face::Down, Face::Front, Face::Back, Face::Left, Face::Right] {
        for (rot, inv) in [(Rotation::Cw, Rotation::Ccw), (Rotation::Ccw, Rotation::Cw)] {
            for typ in [RotType::Single, RotType::Dual] {
                let mut c = scrambled();
                let before_ids = c.ids.clone();
                let before_subs = c.subs.clone();
                c.rotate(Move(face, rot, typ), false);
                c.rotate(Move(face, inv, typ), false);
                assert_eq!(c.ids, before_ids);
                assert_eq!(c.subs, before_subs);
            }
        }
    }
}

#[test]
fn dual_twice_restores() {
    for face in [Face::Up, Face::Down, Face::Front, Face::Back, Face::Left, Face::Right] {
        let mut c = scrambled();
        let before_ids = c.ids.clone();
        let before_subs = c.subs.clone();
        c.rotate(Move(face, Rotation::Cw, RotType::Dual), false);
        c.rotate(Move(face, Rotation::Ccw, RotType::Dual), false);
        assert_eq!(c.ids, before_ids);
        assert_eq!(c.subs, before_subs);
    }
}

#[test]
fn quarter_turn_has_order_four() {
    for face in [Face::Up, Face::Down, Face::Front, Face::Back, Face::Left, Face::Right] {
        let mut c = scrambled();
        let before_ids = c.ids.clone();
        let before_subs = c.subs.clone();
        for _ in 0..4 {
            c.rotate(Move(face, Rotation::Ccw, RotType::Single), false);
        }
        assert_eq!(c.ids, before_ids);
        assert_eq!(c.subs, before_subs);
    }
}

#[test]
fn sexy_move_has_order_six() {
    // "R U R' U'" applied six times returns a solved cube to solved
    let solved = Cube::new();
    let mut c = Cube::new();
    for _ in 0..6 {
        c.rotate(Move(Face::Right, Rotation::Cw, RotType::Single), false);
        c.rotate(Move(Face::Up, Rotation::Cw, RotType::Single), false);
        c.rotate(Move(Face::Right, Rotation::Ccw, RotType::Single), false);
        c.rotate(Move(Face::Up, Rotation::Ccw, RotType::Single), false);
    }
    assert_eq!(c.ids, solved.ids);
    assert_eq!(c.subs, solved.subs);
}

#[test]
fn single_quarter_turn_changes_the_cube() {
    let solved = Cube::new();
    let mut c = Cube::new();
    c.rotate(Move(Face::Front, Rotation::Cw, RotType::Single), false);
    assert_ne!(c.ids, solved.ids);
}

#[test]
fn rotate_records_history_only_when_asked() {
    let mut c = Cube::new();
    let m = Move(Face::Left, Rotation::Cw, RotType::Single);
    c.rotate(m, false);
    assert!(c.movs.is_empty());
    c.rotate(m, true);
    assert_eq!(c.movs, vec![m]);
}

#[test]
fn mov_parser_accepts_all_tokens() {
    assert_eq!(Cube::mov_parser("U"), Ok(Move(Face::Up, Rotation::Cw, RotType::Single)));
    assert_eq!(Cube::mov_parser("U2"), Ok(Move(Face::Up, Rotation::Cw, RotType::Dual)));
    assert_eq!(Cube::mov_parser("U'"), Ok(Move(Face::Up, Rotation::Ccw, RotType::Single)));
    assert_eq!(Cube::mov_parser("D"), Ok(Move(Face::Down, Rotation::Cw, RotType::Single)));
    assert_eq!(Cube::mov_parser("F2"), Ok(Move(Face::Front, Rotation::Cw, RotType::Dual)));
    assert_eq!(Cube::mov_parser("B'"), Ok(Move(Face::Back, Rotation::Ccw, RotType::Single)));
    assert_eq!(Cube::mov_parser("L"), Ok(Move(Face::Left, Rotation::Cw, RotType::Single)));
    assert_eq!(Cube::mov_parser("R2"), Ok(Move(Face::Right, Rotation::Cw, RotType::Dual)));
    assert_eq!(Cube::mov_parser("R'"), Ok(Move(Face::Right, Rotation::Ccw, RotType::Single)));
}

#[test]
fn mov_parser_rejects_unknown_tokens() {
    assert_eq!(
        Cube::mov_parser("X"),
        Err(String::from("Face \"X\" is not recognized"))
    );
    assert!(Cube::mov_parser("").is_err());
    assert!(Cube::mov_parser("U3").is_err());
    assert!(Cube::mov_parser("RU").is_err());
}

#[test]
fn move_text_names() {
    assert_eq!(Move(Face::Up, Rotation::Cw, RotType::Single).to_text(), "U");
    assert_eq!(Move(Face::Up, Rotation::Ccw, RotType::Single).to_text(), "U'");
    assert_eq!(Move(Face::Back, Rotation::Cw, RotType::Dual).to_text(), "B2");
    assert_eq!(Move(Face::Back, Rotation::Ccw, RotType::Dual).to_text(), "B2");
}

#[test]
fn move_codes_round_trip() {
    // every move comes back from its 5-bit code
    for face in [Face::Up, Face::Down, Face::Front, Face::Back, Face::Left, Face::Right] {
        for rot in [Rotation::Cw, Rotation::Ccw] {
            for typ in [RotType::Single, RotType::Dual] {
                let m = Move(face, rot, typ);
                let code = encode_move(m);
                assert!(code < 24);
                assert_eq!(Table::u8_2_mov(code), m);
            }
        }
    }
}
