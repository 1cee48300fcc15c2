use vortex_core::bit_buffer::BitBuffer;
use vortex_core::bit_buffer_mut::BitBufferMut;

#[test]
fn test_bool() {
    // A buffer of 1024 bytes where the 8th bit of every byte is set.
    let buffer: Vec<u8> = vec![1 << 7; 1024];
    let bools = BitBuffer::new(buffer, 1024 * 8);

    // sanity checks
    assert_eq!(bools.len(), 1024 * 8);
    assert!(!bools.is_empty());
    assert_eq!(bools.true_count(), 1024);
    assert_eq!(bools.false_count(), 1024 * 7);

    // Check all of the values
    for word in 0..1024 {
        for bit in 0..8 {
            if bit == 7 {
                assert!(bools.value(word * 8 + bit));
            } else {
                assert!(!bools.value(word * 8 + bit));
            }
        }
    }

    // Slice the buffer to create a new subset view.
    let sliced = bools.slice(64, 8);

    // sanity checks
    assert_eq!(sliced.len(), 8);
    assert!(!sliced.is_empty());
    assert_eq!(sliced.true_count(), 1);
    assert_eq!(sliced.false_count(), 7);

    // Check all of the values like before
    for bit in 0..8 {
        if bit == 7 {
            assert!(sliced.value(bit));
        } else {
            assert!(!sliced.value(bit));
        }
    }
}

#[test]
fn test_bits_mut() {
    let mut bools = BitBufferMut::new_unset(10);
    bools.set_to(0, true);
    bools.set_to(9, true);

    let bools = bools.freeze();
    assert!(bools.value(0));
    for i in 1..=8 {
        assert!(!bools.value(i));
    }
    assert!(bools.value(9));
}

#[test]
fn test_append_n() {
    let mut bools = BitBufferMut::new(10);
    assert_eq!(bools.len(), 0);
    assert!(bools.is_empty());

    bools.append(true);
    bools.append_n(false, 8);
    bools.append_n(true, 1);

    let bools = bools.freeze();

    assert_eq!(bools.true_count(), 2);
    assert!(bools.value(0));
    assert!(bools.value(9));
}

#[test]
fn doc_example_set_to_last_bit() {
    let mut bools = BitBufferMut::new_unset(10);
    bools.set_to(9, true);
    for i in 0..9 {
        assert!(!bools.value(i));
    }
    assert!(bools.value(9));
    let bools = bools.freeze();
    assert_eq!(bools.len(), 10);
    assert_eq!(bools.true_count(), 1);
}

#[test]
fn true_count_ignores_bits_outside_the_view() {
    // All ten bits set: the padding bits of the second byte are set too, yet not counted.
    let set = BitBuffer::new_set(10);
    assert_eq!(set.true_count(), 10);
    assert_eq!(set.false_count(), 0);
    let unset = BitBuffer::new_unset(13);
    assert_eq!(unset.true_count(), 0);
    assert_eq!(unset.false_count(), 13);
    assert!(BitBuffer::new_unset(0).is_empty());
}

#[test]
fn true_count_of_unaligned_slices() {
    // bits: 0b1011_0110, 0b1111_0000, 0b0000_0001
    let bools = BitBuffer::new(vec![0b1011_0110, 0b1111_0000, 0b0000_0001], 24);
    assert_eq!(bools.true_count(), 10);
    // bits 3..13: 0,1,1,0,1 | 0,0,0,0,1
    let s = bools.slice(3, 10);
    assert_eq!(s.offset(), 3);
    assert_eq!(s.true_count(), 4);
    assert_eq!(s.false_count(), 6);
    // a slice within one byte: bits 1..3 = 1,1
    let t = bools.slice(1, 2);
    assert_eq!(t.true_count(), 2);
    // a slice of a slice: bits 4..8 of the whole buffer
    let u = s.slice(1, 4);
    assert_eq!(u.offset(), 4);
    assert_eq!(u.true_count(), 3);
    for i in 0..4 {
        assert_eq!(u.value(i), bools.value(4 + i));
    }
}

#[test]
fn new_with_offset_views_from_offset() {
    let bools = BitBuffer::new_with_offset(vec![0b0000_0100, 0b1000_0000], 5, 2);
    assert_eq!(bools.len(), 5);
    assert_eq!(bools.offset(), 2);
    assert!(bools.value(0));
    assert!(!bools.value(1));
    assert_eq!(bools.true_count(), 1);
}

#[test]
fn into_inner_keeps_bytes_holding_the_view() {
    let bools = BitBuffer::new(vec![0x01, 0x02, 0x04, 0x08], 32);
    let s = bools.slice(10, 9);
    // bits 10..19 lie in bytes 1 and 2
    assert_eq!(s.into_inner(), vec![0x02, 0x04]);
    let whole = BitBuffer::new(vec![0xAA, 0x55], 12);
    assert_eq!(whole.into_inner(), vec![0xAA, 0x55]);
}

#[test]
fn set_and_unset_change_one_bit() {
    let mut bools = BitBufferMut::new_set(12);
    bools.unset(3);
    bools.set_to(11, false);
    bools.set(3);
    bools.unset(0);
    let expected = [false, true, true, true, true, true, true, true, true, true, true, false];
    for (i, e) in expected.iter().enumerate() {
        assert_eq!(bools.value(i), *e);
    }
    assert_eq!(bools.freeze().true_count(), 10);
}

#[test]
fn append_crosses_byte_boundaries() {
    let mut bools = BitBufferMut::new(20);
    bools.append_n(true, 3);
    bools.append_false();
    bools.append_true();
    bools.append_n(true, 6);
    bools.append_n(false, 5);
    bools.append(true);
    bools.append_n(true, 0);
    assert_eq!(bools.len(), 17);
    let expected = [
        true, true, true, false, true, true, true, true, true, true, true, false, false, false,
        false, false, true,
    ];
    for (i, e) in expected.iter().enumerate() {
        assert_eq!(bools.value(i), *e);
    }
    let frozen = bools.freeze();
    assert_eq!(frozen.true_count(), 11);
    assert_eq!(frozen.false_count(), 6);
    assert_eq!(frozen.into_inner(), vec![0b1111_0111, 0b0000_0111, 0b0000_0001]);
}

#[test]
fn append_n_equals_repeated_append() {
    for value in [true, false] {
        for start in 0..9usize {
            for n in 0..20usize {
                let mut a = BitBufferMut::new(start + n);
                let mut b = BitBufferMut::new(start + n);
                for i in 0..start {
                    a.append(i % 3 == 0);
                    b.append(i % 3 == 0);
                }
                a.append_n(value, n);
                for _ in 0..n {
                    b.append(value);
                }
                assert_eq!(a.len(), b.len());
                for i in 0..a.len() {
                    assert_eq!(a.value(i), b.value(i));
                }
                assert_eq!(a.freeze().into_inner(), b.freeze().into_inner());
            }
        }
    }
}

#[test]
fn true_count_splits_over_slices() {
    let bools = BitBuffer::new(vec![0x5A, 0xC3, 0x0F, 0xF1], 29);
    let total = bools.true_count();
    for k in 0..=29 {
        let left = bools.slice(0, k);
        let right = bools.slice(k, 29 - k);
        assert_eq!(left.true_count() + right.true_count(), total);
        assert_eq!(right.true_count() + right.false_count(), 29 - k);
    }
}
