use rubik::compressor::{Compressor, Decompressor};

#[test]
fn stream_round_trip() {
    // pushing (value, width) items, saving, reloading and popping the same
    // widths in order yields the original values
    let items: [(u64, usize); 7] =
        [(5, 4), (1023, 12), (0, 3), (1, 1), (0xDEAD_BEEF, 36), (15, 4), (u64::MAX, 64)];
    let mut comp = Compressor::new();
    for (v, k) in items {
        comp.push(v, k);
    }
    let bytes = comp.save();
    let mut dec = Decompressor::new(&bytes);
    for (v, k) in items {
        assert_eq!(dec.pop(k), Some(v));
    }
}

#[test]
fn push_keeps_only_the_low_bits() {
    let mut comp = Compressor::new();
    comp.push(0x1FF, 4);
    let bytes = comp.save();
    let mut dec = Decompressor::new(&bytes);
    assert_eq!(dec.pop(4), Some(0xF));
}

#[test]
fn pop_is_silent_on_exhaustion() {
    let mut comp = Compressor::new();
    comp.push(0b101, 3);
    let bytes = comp.save();
    assert_eq!(bytes.len(), 1);
    let mut dec = Decompressor::new(&bytes);
    assert_eq!(dec.pop(3), Some(0b101));
    // five padding bits remain, not enough for another 12-bit item
    assert_eq!(dec.pop(12), None);
    // padding bits are zero
    assert_eq!(dec.pop(5), Some(0));
    assert_eq!(dec.pop(1), None);
}

#[test]
fn empty_stream_pops_nothing() {
    let mut comp = Compressor::new();
    let bytes = comp.save();
    assert_eq!(bytes.len(), 0);
    let mut dec = Decompressor::new(&bytes);
    assert_eq!(dec.pop(1), None);
}

#[test]
fn saved_bytes_come_out_in_reverse_order() {
    // 16 bits make two bytes; the last-flushed byte stands first in the file
    let mut comp = Compressor::new();
    comp.push(0xAB, 8);
    comp.push(0xCD, 8);
    let bytes = comp.save();
    assert_eq!(bytes, vec![0xCD, 0xAB]);
}

#[test]
fn flush_keeps_the_stream() {
    let mut comp = Compressor::new();
    comp.push(0xABCD, 16);
    comp.flush(false);
    comp.push(0x3, 2);
    let bytes = comp.save();
    let mut dec = Decompressor::new(&bytes);
    assert_eq!(dec.pop(16), Some(0xABCD));
    assert_eq!(dec.pop(2), Some(0x3));
}
