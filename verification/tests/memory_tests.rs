use brainfuck_interpreter::execution::memory::{
    BoundPolicy, Memory, MemoryError, OverflowPolicy,
};

#[test]
fn strict_seek_past_either_end_fails_and_changes_nothing() {
    let mut m = Memory::new(5, 255, OverflowPolicy::Strict, BoundPolicy::Strict);
    m.add(7).unwrap();
    assert_eq!(m.seek(-1), Err(MemoryError::OutOfBound));
    assert_eq!(m.pointer(), 0);
    assert_eq!(m.get(), 7);
    assert_eq!(m.seek(5), Err(MemoryError::OutOfBound));
    assert_eq!(m.pointer(), 0);
    assert_eq!(m.get(), 7);
    assert_eq!(m.seek(4), Ok(()));
    assert_eq!(m.pointer(), 4);
}

#[test]
fn wrapping_seek_wraps_modulo_tape_length() {
    let mut m = Memory::new(5, 255, OverflowPolicy::Strict, BoundPolicy::Wrap);
    assert_eq!(m.seek(-1), Ok(()));
    assert_eq!(m.pointer(), 4);
    assert_eq!(m.seek(7), Ok(()));
    assert_eq!(m.pointer(), 1);
    assert_eq!(m.seek(-11), Ok(()));
    assert_eq!(m.pointer(), 0);
}

#[test]
fn strict_overflow_fails_and_changes_nothing() {
    let mut m = Memory::new(3, 255, OverflowPolicy::Strict, BoundPolicy::Strict);
    assert_eq!(m.add(256), Err(MemoryError::Overflow));
    assert_eq!(m.get(), 0);
    assert_eq!(m.add(-1), Err(MemoryError::Overflow));
    assert_eq!(m.get(), 0);
    assert_eq!(m.set(-1), Err(MemoryError::Overflow));
    assert_eq!(m.set(256), Err(MemoryError::Overflow));
    assert_eq!(m.add(255), Ok(()));
    assert_eq!(m.get(), 255);
    assert_eq!(m.add(1), Err(MemoryError::Overflow));
    assert_eq!(m.get(), 255);
}

#[test]
fn wrapping_overflow_wraps_modulo_range_size() {
    let mut m = Memory::new(3, 255, OverflowPolicy::Wrap, BoundPolicy::Strict);
    assert_eq!(m.add(256), Ok(()));
    assert_eq!(m.get(), 0);
    assert_eq!(m.add(-1), Ok(()));
    assert_eq!(m.get(), 255);
    assert_eq!(m.set(-2), Ok(()));
    assert_eq!(m.get(), 254);
    assert_eq!(m.set(515), Ok(()));
    assert_eq!(m.get(), 3);
}

#[test]
fn narrow_cell_range_is_respected() {
    let mut m = Memory::new(2, 1, OverflowPolicy::Wrap, BoundPolicy::Strict);
    assert_eq!(m.add(3), Ok(()));
    assert_eq!(m.get(), 1);
    assert_eq!(m.add(1), Ok(()));
    assert_eq!(m.get(), 0);
}

#[test]
fn fresh_tape_is_zeroed_with_pointer_at_origin() {
    let m = Memory::new(4, 255, OverflowPolicy::Strict, BoundPolicy::Strict);
    assert_eq!(m.len(), 4);
    assert_eq!(m.pointer(), 0);
    for i in 0..4 {
        assert_eq!(m.cell_at(i), 0);
    }
}
