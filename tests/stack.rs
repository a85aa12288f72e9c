use mycon::{Point, StackStack};

#[test]
fn stack_pop_empty() {
    let mut stack = StackStack::new();

    assert_eq!(0, stack.pop());
}

#[test]
fn stack_push_pop() {
    let mut stack = StackStack::new();

    let value = 3;

    stack.push(value);

    assert_eq!(value, stack.pop());
}

#[test]
fn stack_push_pop_multiple() {
    let mut stack = StackStack::new();

    let values = [1, 2, -3, 5, 0];

    for &v in values.iter() {
        stack.push(v);
    }

    for &v in values.iter().rev() {
        assert_eq!(v, stack.pop());
    }
}

#[test]
fn stack_clear() {
    let mut stack = StackStack::new();

    stack.push(1);
    stack.push(2);
    stack.push(3);
    stack.clear();

    assert_eq!(0, stack.pop());
}

#[test]
fn stack_string() {
    let mut stack = StackStack::new();

    stack.push(1);

    assert_eq!(11, stack.push_string("Befunge-98"));
    assert_eq!(Some(String::from("Befunge-98")), stack.pop_string());
    assert_eq!(1, stack.pop());
    assert_eq!(0, stack.pop());
}

#[test]
fn stack_string_round_trip_unicode() {
    let mut stack = StackStack::new();

    assert_eq!(5, stack.push_string("ä€😀x"));
    assert_eq!('ä' as i32, stack.nth(1));
    assert_eq!(Some(String::from("ä€😀x")), stack.pop_string());
    assert_eq!(0, stack.pop());
}

#[test]
fn stack_pop_string_invalid() {
    let mut stack = StackStack::new();

    stack.push(0);
    stack.push(0xD800);
    stack.push('a' as i32);

    assert_eq!(None, stack.pop_string());
    assert_eq!(0, stack.pop());
}

#[test]
fn stack_nth() {
    let mut stack = StackStack::new();

    stack.push(7);
    stack.push(8);
    stack.push(9);

    assert_eq!(9, stack.nth(1));
    assert_eq!(7, stack.nth(3));
    assert_eq!(0, stack.nth(4));
    assert_eq!(0, stack.nth(0));
}

#[test]
fn stack_create_and_delete() {
    let mut stack = StackStack::new();

    stack.push(1);
    stack.push(2);
    stack.push(3);
    stack.create_stack(2, Point { x: 10, y: 20 });

    assert!(!stack.single());
    assert_eq!(vec![3, 2], stack.stack_sizes());
    assert_eq!(3, stack.nth(1));
    assert_eq!(2, stack.nth(2));

    let storage = stack.delete_stack(1);

    assert_eq!(Point { x: 10, y: 20 }, storage);
    assert!(stack.single());
    assert_eq!(vec![2], stack.stack_sizes());
    assert_eq!(3, stack.pop());
    assert_eq!(1, stack.pop());
}

#[test]
fn stack_create_pads_with_zeros() {
    let mut stack = StackStack::new();

    stack.push(5);
    stack.create_stack(3, Point { x: 0, y: 0 });

    assert_eq!(vec![2, 3], stack.stack_sizes());
    assert_eq!(5, stack.pop());
    assert_eq!(0, stack.pop());
    assert_eq!(0, stack.pop());
}

#[test]
fn stack_create_negative() {
    let mut stack = StackStack::new();

    stack.push(5);
    stack.create_stack(-2, Point { x: 4, y: 6 });

    assert_eq!(vec![5, 0], stack.stack_sizes());
    let storage = stack.delete_stack(-1);
    assert_eq!(Point { x: 4, y: 6 }, storage);
    assert_eq!(vec![2], stack.stack_sizes());
}

#[test]
fn stack_transfer_reverses() {
    let mut stack = StackStack::new();

    stack.push(1);
    stack.push(2);
    stack.create_stack(0, Point { x: 0, y: 0 });
    stack.transfer_elements(3);

    assert_eq!(vec![1, 3], stack.stack_sizes());
    assert_eq!(2, stack.nth(1));
    assert_eq!(0, stack.nth(2));

    stack.transfer_elements(-1);
    assert_eq!(vec![2, 2], stack.stack_sizes());
}

#[test]
fn stack_delete_cells() {
    let mut stack = StackStack::new();

    stack.push(1);
    stack.push(2);
    stack.push(3);
    stack.delete_cells(2);

    assert_eq!(1, stack.pop());
    assert_eq!(0, stack.pop());
}
