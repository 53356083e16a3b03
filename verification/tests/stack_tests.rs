use chip8::errors::Chip8Error;
use chip8::stack::{Stack, STACK_CAPACITY};

#[test]
fn push_pop_is_lifo() {
    let mut s: Stack<u16> = Stack::new();
    assert_eq!(s.len(), 0);
    s.push(0x200).unwrap();
    s.push(0x300).unwrap();
    assert_eq!(s.len(), 2);
    assert_eq!(*s.get(0), 0x200);
    assert_eq!(*s.get(1), 0x300);
    assert_eq!(s.pop(), Some(0x300));
    assert_eq!(s.pop(), Some(0x200));
    assert_eq!(s.len(), 0);
}

#[test]
fn pop_empty_signals_underflow() {
    let mut s: Stack<u16> = Stack::new();
    assert_eq!(s.pop(), None);
}

#[test]
fn push_past_capacity_signals_overflow() {
    let mut s: Stack<u16> = Stack::new();
    for i in 0..STACK_CAPACITY {
        assert_eq!(s.push(i as u16), Ok(()));
    }
    assert_eq!(s.push(99), Err(Chip8Error::StackOverflow));
    assert_eq!(s.len(), STACK_CAPACITY);
    // the top is still the last accepted push
    assert_eq!(s.pop(), Some((STACK_CAPACITY - 1) as u16));
}
