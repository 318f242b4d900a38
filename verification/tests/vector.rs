use std::rc::Rc;

use bytecode_vm::chunk::OpCode;
use bytecode_vm::stack::Stack;
use bytecode_vm::vector::{grown_capacity_of, Vector};

fn codes() -> Vector<OpCode> {
    let mut vec = Vector::new();
    vec.push(OpCode::Constant);
    vec.push(OpCode::Constant);
    vec.push(OpCode::Constant);
    vec.push(OpCode::Return);
    vec
}

#[test]
fn consuming_iterator() {
    let codes = codes();

    let mut seen = Vec::new();
    let mut iter = codes.into_iter();
    let mut idx = 0;
    while let Some(code) = iter.next() {
        println!("{:04} {:?}", idx, code);
        seen.push(code);
        idx += 1;
    }
    assert_eq!(
        seen,
        vec![OpCode::Constant, OpCode::Constant, OpCode::Constant, OpCode::Return]
    );
    assert_eq!(iter.next(), None);
}

#[test]
fn by_ref_iterator() {
    let codes = codes();

    for (idx, code) in codes.iter().enumerate() {
        println!("{:04} {:?}", idx, code);
    }

    assert_eq!(codes[3], OpCode::Return);
}

#[test]
fn by_ref_mutable_iterator() {
    let mut codes = codes();

    for idx in 0..codes.len() {
        if idx % 2 == 0 {
            codes.set(idx, OpCode::Return);
        } else {
            codes.set(idx, OpCode::Constant);
        }
    }

    assert_eq!(codes[0], OpCode::Return);
    assert_eq!(codes[1], OpCode::Constant);
    assert_eq!(codes[2], OpCode::Return);
    assert_eq!(codes[3], OpCode::Constant);
}

#[test]
fn capacity_starts_at_eight_and_doubles() {
    let mut vec: Vector<u32> = Vector::new();
    assert_eq!(vec.cap(), 0);
    assert!(vec.is_empty());
    let mut expected = Vec::new();
    for i in 0..100u32 {
        vec.push(i);
        expected.push(i);
        let cap = vec.cap();
        let want = if i < 8 {
            8
        } else if i < 16 {
            16
        } else if i < 32 {
            32
        } else if i < 64 {
            64
        } else {
            128
        };
        assert_eq!(cap, want);
        assert_eq!(vec.len(), i as usize + 1);
    }
    assert_eq!(vec.as_slice(), expected.as_slice());
    assert_eq!(*vec.get(57), 57);
}

#[test]
fn growth_policy_saturates() {
    assert_eq!(grown_capacity_of(0), 8);
    assert_eq!(grown_capacity_of(8), 16);
    assert_eq!(grown_capacity_of(usize::MAX / 2), usize::MAX - 1);
    assert_eq!(grown_capacity_of(usize::MAX / 2 + 1), usize::MAX);
    assert_eq!(grown_capacity_of(usize::MAX), usize::MAX);
}

#[test]
fn partially_read_iterator_keeps_the_rest() {
    let mut iter = codes().into_iter();
    assert_eq!(iter.len(), 4);
    assert_eq!(iter.next(), Some(OpCode::Constant));
    assert_eq!(iter.len(), 3);
}

#[test]
fn dropping_a_partially_read_iterator_releases_the_rest() {
    let tracker = Rc::new(());
    let mut vec = Vector::new();
    for _ in 0..100 {
        vec.push(Rc::clone(&tracker));
    }
    assert_eq!(Rc::strong_count(&tracker), 101);
    let mut iter = vec.into_iter();
    for _ in 0..40 {
        let item = iter.next();
        assert!(item.is_some());
    }
    assert_eq!(Rc::strong_count(&tracker), 61);
    drop(iter);
    assert_eq!(Rc::strong_count(&tracker), 1);
}

#[test]
fn dropping_a_buffer_or_a_stack_releases_its_elements() {
    let tracker = Rc::new(());
    let mut vec = Vector::new();
    let mut stack = Stack::new();
    for _ in 0..20 {
        vec.push(Rc::clone(&tracker));
        stack.push(Rc::clone(&tracker)).unwrap();
    }
    assert_eq!(Rc::strong_count(&tracker), 41);
    drop(vec);
    assert_eq!(Rc::strong_count(&tracker), 21);
    assert!(stack.pop().is_some());
    assert_eq!(Rc::strong_count(&tracker), 20);
    stack.empty();
    assert_eq!(Rc::strong_count(&tracker), 1);
    stack.push(Rc::clone(&tracker)).unwrap();
    drop(stack);
    assert_eq!(Rc::strong_count(&tracker), 1);
}
