use bytecode_vm::stack::{Stack, StackOverflow, STACK_MAX};

#[test]
fn tests_it_works() {
    let mut stack = Stack::new();
    stack.push(1).unwrap();
    stack.push(2).unwrap();
    stack.push(3).unwrap();

    assert_eq!(stack.size(), 3);

    let three = stack.pop().unwrap();
    let two = stack.pop().unwrap();

    stack.push(4).unwrap();
    stack.push(5).unwrap();

    assert_eq!(three, 3);
    assert_eq!(two, 2);

    assert_eq!(stack.pop().unwrap(), 5);
    assert_eq!(stack.pop().unwrap(), 4);

    stack.empty();
    assert!(stack.is_empty());

    for i in 0..=255 {
        stack.push(i).unwrap();
    }

    let mut i = 255;
    while let Some(val) = stack.pop() {
        assert_eq!(val, i);
        i -= 1;
    }
    assert!(stack.is_empty());
}

#[test]
fn it_supports_fmt_debug() {
    let mut stack = Stack::new();
    stack.push("foo").unwrap();
    stack.push("bar").unwrap();
    stack.push("baz").unwrap();

    let debug = stack.render();
    assert_eq!(&debug, r#"["foo", "bar", "baz"]"#);

    stack.pop().unwrap();

    let debug = stack.render();
    assert_eq!(&debug, r#"["foo", "bar"]"#);

    stack.push("Lorem Ipsum").unwrap();

    let debug = stack.render();
    assert_eq!(&debug, r#"["foo", "bar", "Lorem Ipsum"]"#);

    stack.empty();

    let debug = stack.render();
    assert_eq!(&debug, "[]");
}

#[test]
fn push_beyond_the_bound_overflows() {
    let mut stack = Stack::new();
    for i in 0..256u32 {
        assert_eq!(stack.push(i), Ok(()));
    }
    assert_eq!(stack.size(), 256);
    assert_eq!(stack.size(), STACK_MAX);
    assert_eq!(Stack::<u32>::MAX, 256);
    assert_eq!(stack.push(256), Err(StackOverflow));
    assert_eq!(stack.size(), 256);
    assert_eq!(stack.peek(), Some(&255));
    assert_eq!(stack.pop(), Some(255));
    assert_eq!(stack.push(7), Ok(()));
    assert_eq!(stack.pop(), Some(7));
}

#[test]
fn pop_of_an_empty_stack_gives_none() {
    let mut stack: Stack<u64> = Stack::new();
    assert_eq!(stack.pop(), None);
    assert_eq!(stack.peek(), None);
    assert_eq!(stack.size(), 0);
    assert!(stack.is_empty());
    assert_eq!(stack.push(9), Ok(()));
    assert_eq!(stack.pop(), Some(9));
    assert_eq!(stack.pop(), None);
}

#[test]
fn mutate_changes_the_top_in_place() {
    let mut stack = Stack::new();
    assert!(!stack.mutate(|x: i64| -x));
    assert!(stack.is_empty());
    stack.push(3).unwrap();
    stack.push(4).unwrap();
    assert!(stack.mutate(|x: i64| -x));
    assert_eq!(stack.snapshot(), vec![3, -4]);
    let right = stack.pop().unwrap();
    assert!(stack.mutate(|left: i64| left - right));
    assert_eq!(stack.snapshot(), vec![7]);
    assert_eq!(stack.size(), 1);
}
