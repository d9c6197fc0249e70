use lib::heap::Heap;
use lib::obj::{Addr, Word};

#[test]
fn nothing_is_allocated_at_offset_zero() {
    let mut s = Heap::new();
    assert!(s.alloc_bytes(8).raw() > 0);
}

#[test]
fn a_byte_written_reads_back_at_its_own_offset() {
    let mut s = Heap::new();
    let at = s.alloc_bytes(32);
    s.set_byte(at.plus(3), 200);
    s.set_byte(at.plus(4), 7);
    assert_eq!(s.byte(at.plus(3)), 200);
    assert_eq!(s.byte(at.plus(4)), 7);
}

#[test]
fn a_widening_write_reads_back_at_every_width() {
    let mut s = Heap::new();
    let at = s.alloc_bytes(16);
    for width in 1..=8u32 {
        let v = 0x0102_0304_0506_0708u64 >> (8 * (8 - width));
        s.write_le(at, v, width);
        assert_eq!(s.read_le(at, width), v, "width {}", width);
    }
}

#[test]
fn a_widening_read_takes_the_low_byte_first() {
    let mut s = Heap::new();
    let at = s.alloc_bytes(8);
    s.set_byte(at, 1);
    s.set_byte(at.plus(1), 0);
    assert_eq!(s.read_le(at, 4), 1, "not 16777216");
}

#[test]
fn blocks_copy_and_fill() {
    let mut s = Heap::new();
    let a = s.alloc_bytes(8);
    let b = s.alloc_bytes(8);
    s.fill_bytes(a, 65, 8);
    s.copy_bytes(b, a, 8);
    for i in 0..8 {
        assert_eq!(s.byte(b.plus(i)), 65);
    }
}

#[test]
fn stored_bytes_are_nul_terminated() {
    let mut s = Heap::new();
    let at = s.store_bytes(b"abc");
    assert_eq!(s.bytes_at(at), b"abc");
    s.set_byte(at.plus(1), 0);
    assert_eq!(s.bytes_at(at), b"a");
}

#[test]
fn an_out_of_range_access_is_zero_not_a_panic() {
    let mut s = Heap::new();
    let far = Addr::new(1 << 30);
    assert_eq!(s.word(far), Word(0));
    assert_eq!(s.byte(far), 0);
    s.set_word(far, Word(5));
    assert_eq!(s.word(far), Word(0), "the write is dropped");
}

