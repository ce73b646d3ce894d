use fundamental::Stack;

#[test]
fn stack_new() {
    let stack = Stack::<usize, 5>::new();
    assert_eq!(stack.capacity(), 5);
    assert_eq!(stack.len(), 0);
    assert_eq!(stack.is_empty(), true);
    assert_eq!(stack.is_full(), false);
}

#[test]
fn push() {
    let mut stack = Stack::<usize, 2>::new();
    assert_eq!(stack.push(1), Ok(()));
    assert_eq!(stack.len(), 1);
    assert_eq!(stack.is_empty(), false);
    assert_eq!(stack.is_full(), false);

    assert_eq!(stack.push(2), Ok(()));
    assert_eq!(stack.len(), 2);
    assert_eq!(stack.is_empty(), false);
    assert_eq!(stack.is_full(), true);

    assert_eq!(stack.push(3), Err(3));
    assert_eq!(stack.len(), 2);
    assert_eq!(stack.is_empty(), false);
    assert_eq!(stack.is_full(), true);
}

#[test]
fn pop() {
    let mut stack = Stack::<usize, 2>::new();
    assert_eq!(stack.push(1), Ok(()));
    assert_eq!(stack.push(2), Ok(()));

    assert_eq!(stack.pop(), Some(2));
    assert_eq!(stack.len(), 1);
    assert_eq!(stack.is_empty(), false);
    assert_eq!(stack.is_full(), false);
}

#[test]
fn stack_get_bounds() {
    let mut stack = Stack::<i32, 2>::new();
    assert_eq!(stack.get(0), None);
    assert_eq!(stack.push(10), Ok(()));
    assert_eq!(stack.get(0), Some(&10));
    assert_eq!(stack.get(1), None);
    assert_eq!(stack.push(20), Ok(()));
    assert_eq!(stack.get(0), Some(&10));
    assert_eq!(stack.get(1), Some(&20));
    assert_eq!(stack.get(2), None);
    assert_eq!(stack.get(usize::MAX), None);
}

#[test]
fn stack_top_index() {
    let mut stack = Stack::<i32, 3>::new();
    assert_eq!(stack.push(1), Ok(()));
    assert_eq!(stack.top(), 0);
    assert_eq!(stack.push(2), Ok(()));
    assert_eq!(stack.top(), 1);
    assert_eq!(stack.pop(), Some(2));
    assert_eq!(stack.top(), 0);
}

#[test]
fn stack_as_slice_push_order() {
    let mut stack = Stack::<i32, 3>::new();
    assert_eq!(stack.as_slice(), &[None, None, None]);
    assert_eq!(stack.push(1), Ok(()));
    assert_eq!(stack.as_slice(), &[Some(1), None, None]);
    assert_eq!(stack.push(2), Ok(()));
    assert_eq!(stack.as_slice(), &[Some(1), Some(2), None]);
    assert_eq!(stack.pop(), Some(2));
    assert_eq!(stack.as_slice(), &[Some(1), None, None]);
}

#[test]
fn stack_failed_push_preserves_state() {
    let mut stack = Stack::<i32, 2>::new();
    assert_eq!(stack.push(1), Ok(()));
    assert_eq!(stack.push(2), Ok(()));
    let storage_before: Vec<Option<i32>> = stack.as_slice().to_vec();
    let length_before = stack.len();
    assert_eq!(stack.push(3), Err(3));
    assert_eq!(stack.as_slice(), storage_before.as_slice());
    assert_eq!(stack.len(), length_before);
}

#[test]
fn stack_empty_pop_preserves_state() {
    let mut stack = Stack::<i32, 2>::new();
    assert_eq!(stack.pop(), None);
    assert_eq!(stack.len(), 0);
    assert_eq!(stack.as_slice(), &[None, None]);
}

#[test]
fn stack_zero_capacity() {
    let mut stack = Stack::<i32, 0>::new();
    assert_eq!(stack.capacity(), 0);
    assert_eq!(stack.len(), 0);
    assert_eq!(stack.is_empty(), true);
    assert_eq!(stack.is_full(), true);
    assert_eq!(stack.push(1), Err(1));
    assert_eq!(stack.pop(), None);
    assert_eq!(stack.get(0), None);
}

#[test]
fn stack_default_is_empty() {
    let stack = Stack::<i32, 4>::default();
    assert_eq!(stack.capacity(), 4);
    assert_eq!(stack.len(), 0);
    assert_eq!(stack.is_empty(), true);
}

#[test]
fn stack_capacity_invariant_along_operations() {
    let mut stack = Stack::<i32, 2>::new();
    assert!(stack.len() <= stack.capacity());
    for value in 0..5 {
        let _ = stack.push(value);
        assert!(stack.len() <= stack.capacity());
    }
    for _ in 0..5 {
        let _ = stack.pop();
        assert!(stack.len() <= stack.capacity());
    }
}
