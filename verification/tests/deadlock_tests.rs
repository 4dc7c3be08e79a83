use os_sync::sync::deadlock::{is_safe_state, request_is_safe, ResourceUsage};

fn textbook() -> (Vec<Vec<i128>>, Vec<Vec<i128>>) {
    let allocated = vec![
        vec![0, 1, 0],
        vec![2, 0, 0],
        vec![3, 0, 2],
        vec![2, 1, 1],
        vec![0, 0, 2],
    ];
    let need = vec![
        vec![7, 4, 3],
        vec![1, 2, 2],
        vec![6, 0, 0],
        vec![0, 1, 1],
        vec![4, 3, 1],
    ];
    (allocated, need)
}

#[test]
fn banker_textbook_state_is_safe() {
    let (allocated, need) = textbook();
    assert!(is_safe_state(&vec![3, 3, 2], &allocated, &need));
}

#[test]
fn banker_state_without_free_units_is_unsafe() {
    let (allocated, need) = textbook();
    assert!(!is_safe_state(&vec![1, 0, 0], &allocated, &need));
}

#[test]
fn banker_more_free_units_stay_safe() {
    let (allocated, need) = textbook();
    assert!(is_safe_state(&vec![10, 10, 10], &allocated, &need));
}

#[test]
fn banker_demands_met_from_free_units_is_safe() {
    let allocated = vec![vec![5], vec![5]];
    let need = vec![vec![2], vec![1]];
    assert!(is_safe_state(&vec![2], &allocated, &need));
}

#[test]
fn banker_no_threads_is_safe() {
    let empty: Vec<Vec<i128>> = Vec::new();
    assert!(is_safe_state(&vec![0], &empty, &empty));
}

#[test]
fn banker_cycle_is_unsafe() {
    // Two threads, two single-unit resources, each holding one and waiting
    // for the other.
    let allocated = vec![vec![1, 0], vec![0, 1]];
    let need = vec![vec![0, 1], vec![1, 0]];
    assert!(!is_safe_state(&vec![0, 0], &allocated, &need));
}

#[test]
fn request_on_free_resource_is_safe() {
    let us = vec![ResourceUsage { available: 1, allocated: vec![], need: vec![] }];
    assert!(request_is_safe(&us, 2, 0, 0));
}

#[test]
fn request_that_closes_a_cycle_is_unsafe() {
    let us = vec![
        ResourceUsage { available: 0, allocated: vec![0], need: vec![1] },
        ResourceUsage { available: 0, allocated: vec![1], need: vec![] },
    ];
    assert!(!request_is_safe(&us, 2, 0, 1));
    // The same request by a thread that holds nothing only waits: the others
    // can still finish and give the resource back.
    assert!(request_is_safe(&us, 3, 2, 1));
}

#[test]
fn request_on_empty_semaphore_is_unsafe() {
    let us = vec![ResourceUsage { available: 0, allocated: vec![], need: vec![] }];
    assert!(!request_is_safe(&us, 1, 0, 0));
}

#[test]
fn request_counts_units_held_twice() {
    // Thread 1 holds two units; once it finishes, thread 0 gets what it asks.
    let us = vec![ResourceUsage { available: 0, allocated: vec![1, 1], need: vec![0] }];
    assert!(request_is_safe(&us, 2, 0, 0));
}
