use rubik::cube::Cube;
use rubik::table::Table;
use rubik::utils::{encode_move, Face, Move, RotType, Rotation};

#[test]
fn ins_min_keeps_the_shortest_sequence() {
    // per key, the table ends up with the shortest sequence ever offered
    let mut t = Table::new();
    t.ins_min(7, vec![1, 2, 3]);
    assert_eq!(t.get_codes(7).unwrap(), &vec![1, 2, 3]);
    // longer: rejected
    t.ins_min(7, vec![4, 5, 6, 7]);
    assert_eq!(t.get_codes(7).unwrap(), &vec![1, 2, 3]);
    // same length: the incumbent stays
    t.ins_min(7, vec![9, 9, 9]);
    assert_eq!(t.get_codes(7).unwrap(), &vec![1, 2, 3]);
    // shorter: replaced
    t.ins_min(7, vec![8]);
    assert_eq!(t.get_codes(7).unwrap(), &vec![8]);
    // other keys are independent
    t.ins_min(9, vec![]);
    assert_eq!(t.get_codes(9).unwrap(), &Vec::<u8>::new());
    assert_eq!(t.get_codes(8), None);
    assert_eq!(t.len(), 2);
}

#[test]
fn save_and_load_round_trip() {
    // a table with entries (0, []) and (5, [U, R2]) survives a save/load
    // round trip at a key width of 12 bits
    let u = encode_move(Move(Face::Up, Rotation::Cw, RotType::Single));
    let r2 = encode_move(Move(Face::Right, Rotation::Cw, RotType::Dual));
    let mut t = Table::new();
    t.ins_min(0, vec![]);
    t.ins_min(5, vec![u, r2]);
    let bytes = t.save(12);
    let loaded = Table::load(&bytes, 12).expect("well-formed bytes must load");
    assert_eq!(loaded.len(), 2);
    assert_eq!(loaded.get_codes(0).unwrap(), &Vec::<u8>::new());
    assert_eq!(loaded.get_codes(5).unwrap(), &vec![u, r2]);
    assert_eq!(loaded.get_codes(1), None);
}

#[test]
fn load_of_truncated_bytes_fails() {
    // a stream that ends inside an entry yields nothing
    let mut t = Table::new();
    t.ins_min(3, vec![1, 2, 3, 4, 5, 6, 7]);
    let bytes = t.save(12);
    // drop the first byte (the last-flushed one): the entry is now cut short
    let truncated: Vec<u8> = bytes[1..].to_vec();
    assert!(Table::load(&truncated, 12).is_none());
}

#[test]
fn empty_table_round_trip() {
    let t = Table::new();
    let bytes = t.save(12);
    assert_eq!(bytes.len(), 0);
    let loaded = Table::load(&bytes, 12).unwrap();
    assert_eq!(loaded.len(), 0);
}

#[test]
fn exec_replays_the_stored_sequence() {
    let u = encode_move(Move(Face::Up, Rotation::Cw, RotType::Single));
    let r2 = encode_move(Move(Face::Right, Rotation::Cw, RotType::Dual));
    let mut t = Table::new();
    t.ins_min(42, vec![u, r2]);
    let mut c = Cube::new();
    let text = t.exec(42, &mut c).expect("key is present");
    assert_eq!(text, "U R2 ");
    let mut expected = Cube::new();
    expected.rotate(Move(Face::Up, Rotation::Cw, RotType::Single), false);
    expected.rotate(Move(Face::Right, Rotation::Cw, RotType::Dual), false);
    assert_eq!(c.ids, expected.ids);
    assert_eq!(c.subs, expected.subs);
}

#[test]
fn exec_of_a_missing_key_changes_nothing() {
    let t = Table::new();
    let mut c = Cube::new();
    assert!(t.exec(1, &mut c).is_none());
    let solved = Cube::new();
    assert_eq!(c.ids, solved.ids);
    assert_eq!(c.subs, solved.subs);
}

#[test]
fn merge_keeps_shortest_per_key() {
    let mut a = Table::new();
    a.ins_min(1, vec![1, 2]);
    a.ins_min(2, vec![3]);
    let mut b = Table::new();
    b.ins_min(1, vec![4]);
    b.ins_min(3, vec![5, 6]);
    a.merge_into(&mut b);
    assert_eq!(b.get_codes(1).unwrap(), &vec![4]);
    assert_eq!(b.get_codes(2).unwrap(), &vec![3]);
    assert_eq!(b.get_codes(3).unwrap(), &vec![5, 6]);
}
