use saidl::fetch::FetchError;
use saidl::schedule::{
    continue_after, enumerate_targets, failed_fragments, fragment_file_name, manifest, mux_ready, FragmentSlots,
};

#[test]
fn completion_order_does_not_change_output_order() {
    let targets = vec!["u0", "u1", "u2", "u3"];
    let mut slots: FragmentSlots<String> = FragmentSlots::new(targets.len());
    // later targets complete first
    for index in (0..targets.len()).rev() {
        assert!(slots.is_complete() == false);
        slots.store(index, format!("body of {}", targets[index]));
    }
    let ordered = slots.into_ordered().unwrap();
    assert_eq!(ordered, vec!["body of u0", "body of u1", "body of u2", "body of u3"]);
}

#[test]
fn sequential_and_shuffled_completion_agree() {
    let mut a: FragmentSlots<u32> = FragmentSlots::new(5);
    let mut b: FragmentSlots<u32> = FragmentSlots::new(5);
    for i in 0..5 {
        a.store(i, i as u32 * 10);
    }
    for i in [3usize, 0, 4, 1, 2] {
        b.store(i, i as u32 * 10);
    }
    assert_eq!(a.into_ordered(), b.into_ordered());
}

#[test]
fn missing_result_gives_none() {
    let mut slots: FragmentSlots<u8> = FragmentSlots::new(3);
    slots.store(0, 1);
    slots.store(2, 3);
    assert_eq!(slots.len(), 3);
    assert!(slots.into_ordered().is_none());
}

#[test]
fn empty_slots_are_complete() {
    let slots: FragmentSlots<u8> = FragmentSlots::new(0);
    assert!(slots.is_complete());
    assert_eq!(slots.into_ordered(), Some(vec![]));
}

#[test]
fn fragment_names_and_manifest_follow_index() {
    assert_eq!(fragment_file_name(0), "0.html");
    assert_eq!(fragment_file_name(12), "12.html");
    assert_eq!(manifest(3), "file ./0.html\nfile ./1.html\nfile ./2.html\n");
    assert_eq!(manifest(0), "");
}

#[test]
fn concurrent_tasks_finishing_in_reverse_keep_index_order() {
    let runtime = tokio::runtime::Runtime::new().unwrap();
    let n: usize = 6;
    let (tx, rx) = std::sync::mpsc::channel::<(usize, String)>();
    runtime.block_on(async {
        let tasks: Vec<_> = (0..n)
            .map(|index| {
                let tx = tx.clone();
                tokio::spawn(async move {
                    // later-indexed targets resolve faster
                    let wait = (n - index) as u64 * 15;
                    tokio::time::sleep(std::time::Duration::from_millis(wait)).await;
                    tx.send((index, format!("fragment {}", index))).unwrap();
                })
            })
            .collect();
        for task in tasks {
            task.await.unwrap();
        }
    });
    drop(tx);
    let arrivals: Vec<(usize, String)> = rx.iter().collect();
    assert_eq!(arrivals.len(), n);
    assert_eq!(arrivals[0].0, n - 1);
    let mut slots: FragmentSlots<String> = FragmentSlots::new(n);
    for (index, body) in arrivals {
        slots.store(index, body);
    }
    let expected: Vec<String> = (0..n).map(|i| format!("fragment {}", i)).collect();
    assert_eq!(slots.into_ordered().unwrap(), expected);
}

#[test]
fn targets_are_numbered_in_list_order() {
    let urls: Vec<String> = vec!["b".to_string(), "a".to_string(), "c".to_string()];
    let targets = enumerate_targets(&urls);
    let got: Vec<(usize, &str)> = targets.iter().map(|t| (t.index, t.url.as_str())).collect();
    assert_eq!(got, vec![(0, "b"), (1, "a"), (2, "c")]);
    assert!(enumerate_targets(&Vec::new()).is_empty());
}

#[test]
fn sequential_run_stops_at_failure_parallel_does_not() {
    assert!(continue_after(false, false));
    assert!(!continue_after(false, true));
    assert!(continue_after(true, true));
    assert!(continue_after(true, false));
}

#[test]
fn failures_are_listed_in_index_order_and_block_muxing() {
    let err = |u: &str| Err(FetchError::TransportError { reason: "reset".to_string(), url: u.to_string() });
    let results: Vec<Result<(), FetchError>> = vec![Ok(()), err("u1"), Ok(()), err("u3")];
    assert_eq!(failed_fragments(&results), vec![1, 3]);
    assert!(!mux_ready(&Some(results)));
    assert!(mux_ready(&Some(vec![Ok(()), Ok(())])));
    assert!(mux_ready(&Some(vec![])));
    assert!(!mux_ready(&None));
}
