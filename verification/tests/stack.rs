use std::rc::Rc;

use lifo::LifoPush;

fn drain(stack: &mut LifoPush<i64>) -> Vec<i64> {
    let mut out = Vec::new();
    stack.pop_all(|v| out.push(v));
    out
}

#[test]
fn default_stack_is_empty() {
    let stack: LifoPush<i64> = LifoPush::default();
    assert!(stack.list_empty());
}

#[test]
fn push_makes_the_stack_non_empty() {
    let mut stack: LifoPush<i64> = LifoPush::default();
    stack.push(1);
    assert!(!stack.list_empty());
    stack.push(2);
    assert!(!stack.list_empty());
}

#[test]
fn pop_all_hands_over_most_recent_first() {
    let mut stack: LifoPush<i64> = LifoPush::default();
    for v in [1, 2, 3, 4, 5] {
        stack.push(v);
    }
    assert_eq!(drain(&mut stack), vec![5, 4, 3, 2, 1]);
}

#[test]
fn pop_all_of_one_value() {
    let mut stack: LifoPush<i64> = LifoPush::default();
    stack.push(45);
    assert_eq!(drain(&mut stack), vec![45]);
}

#[test]
fn pop_all_leaves_the_stack_empty() {
    let mut stack: LifoPush<i64> = LifoPush::default();
    stack.push(7);
    stack.push(8);
    assert_eq!(drain(&mut stack), vec![8, 7]);
    assert!(stack.list_empty());
}

#[test]
fn pop_all_on_empty_stack_never_calls_the_consumer() {
    let mut stack: LifoPush<i64> = LifoPush::default();
    let mut calls = 0;
    stack.pop_all(|_v| calls += 1);
    assert_eq!(calls, 0);
    assert!(stack.list_empty());
}

#[test]
fn pop_all_twice_hands_over_nothing_the_second_time() {
    let mut stack: LifoPush<i64> = LifoPush::default();
    stack.push(1);
    stack.push(2);
    assert_eq!(drain(&mut stack), vec![2, 1]);
    assert_eq!(drain(&mut stack), Vec::<i64>::new());
    assert_eq!(drain(&mut stack), Vec::<i64>::new());
    assert!(stack.list_empty());
}

#[test]
fn stack_is_usable_again_after_pop_all() {
    let mut stack: LifoPush<i64> = LifoPush::default();
    stack.push(1);
    assert_eq!(drain(&mut stack), vec![1]);
    stack.push(2);
    stack.push(3);
    assert!(!stack.list_empty());
    assert_eq!(drain(&mut stack), vec![3, 2]);
}

#[test]
fn consumer_is_called_once_per_value() {
    let mut stack: LifoPush<i64> = LifoPush::default();
    for v in 0..100 {
        stack.push(v);
    }
    let mut calls = 0;
    let mut sum = 0;
    stack.pop_all(|v| {
        calls += 1;
        sum += v;
    });
    assert_eq!(calls, 100);
    assert_eq!(sum, 4950);
}

#[test]
fn equal_values_are_each_handed_over() {
    let mut stack: LifoPush<i64> = LifoPush::default();
    for v in [9, 9, 3, 9] {
        stack.push(v);
    }
    assert_eq!(drain(&mut stack), vec![9, 3, 9, 9]);
}

#[test]
fn interleaved_steps_lose_and_repeat_nothing() {
    let mut stack: LifoPush<i64> = LifoPush::default();
    let mut batches: Vec<Vec<i64>> = Vec::new();
    let mut pushed: Vec<i64> = Vec::new();
    let mut next = 0;
    for round in 0..20 {
        for _ in 0..(round % 4) {
            stack.push(next);
            pushed.push(next);
            next += 1;
        }
        if round % 3 != 1 {
            batches.push(drain(&mut stack));
        }
    }
    let remaining = drain(&mut stack);
    let mut seen: Vec<i64> = batches.iter().flatten().copied().collect();
    seen.extend(remaining.iter().copied());
    seen.sort();
    assert_eq!(seen, pushed);
    for batch in batches.iter() {
        for pair in batch.windows(2) {
            assert!(pair[0] > pair[1]);
        }
    }
}

#[test]
fn owned_values_come_back_intact() {
    let mut stack: LifoPush<String> = LifoPush::default();
    stack.push(String::from("first"));
    stack.push(String::from("second"));
    stack.push(String::from("third"));
    let mut out: Vec<String> = Vec::new();
    stack.pop_all(|s| out.push(s));
    assert_eq!(out, vec!["third".to_string(), "second".to_string(), "first".to_string()]);
}

#[test]
fn long_chain_is_walked_without_nesting() {
    let mut stack: LifoPush<i64> = LifoPush::default();
    let n: i64 = 1_000_000;
    for v in 0..n {
        stack.push(v);
    }
    let mut expected = n - 1;
    let mut in_order = true;
    stack.pop_all(|v| {
        in_order = in_order && v == expected;
        expected -= 1;
    });
    assert!(in_order);
    assert_eq!(expected, -1);
    assert!(stack.list_empty());
}

#[test]
fn dropping_a_long_stack_frees_it_cell_by_cell() {
    let mut stack: LifoPush<i64> = LifoPush::default();
    for v in 0..1_000_000 {
        stack.push(v);
    }
    drop(stack);
}

#[test]
fn dropping_a_stack_drops_its_values() {
    let token = Rc::new(());
    let mut stack: LifoPush<Rc<()>> = LifoPush::default();
    for _ in 0..10 {
        stack.push(Rc::clone(&token));
    }
    assert_eq!(Rc::strong_count(&token), 11);
    drop(stack);
    assert_eq!(Rc::strong_count(&token), 1);
}

#[test]
fn each_cell_is_freed_once_its_value_is_handed_over() {
    let token = Rc::new(());
    let mut stack: LifoPush<Rc<()>> = LifoPush::default();
    for _ in 0..3 {
        stack.push(Rc::clone(&token));
    }
    let mut counts: Vec<usize> = Vec::new();
    stack.pop_all(|held| {
        drop(held);
        counts.push(Rc::strong_count(&token));
    });
    assert_eq!(counts, vec![3, 2, 1]);
}
