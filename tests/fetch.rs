use saidl::fetch::{check_status, FetchError, RetryAction, RetryPolicy, RETRY_BACKOFF_SECS};

/// Runs the decisions of one fetch over scripted attempt outcomes and counts the attempts.
fn attempts(policy: &RetryPolicy, outcomes: &[bool]) -> (u32, Option<u64>) {
    let mut made: u32 = 0;
    loop {
        let ok = outcomes[made as usize];
        made += 1;
        match policy.after_attempt(made, ok) {
            RetryAction::Retry { wait_secs } => assert_eq!(wait_secs, RETRY_BACKOFF_SECS),
            RetryAction::Finish { delay_secs } => return (made, delay_secs),
        }
    }
}

#[test]
fn status_classes() {
    let url = "https://a.example/seg-1.ts";
    assert!(check_status(200, url).is_ok());
    assert!(check_status(204, url).is_ok());
    assert!(check_status(301, url).is_ok());
    assert!(check_status(399, url).is_ok());
    let not_found = FetchError::HttpStatus { code: 404, url: url.to_string() };
    assert_eq!(check_status(404, url), Err(not_found));
    assert_eq!(check_status(500, "u"), Err(FetchError::HttpStatus { code: 500, url: "u".to_string() }));
    assert_eq!(check_status(101, "u"), Err(FetchError::HttpStatus { code: 101, url: "u".to_string() }));
}

#[test]
fn retry_budget_bounds_attempts() {
    let policy = RetryPolicy::new(Some(3), None);
    assert_eq!(attempts(&policy, &[false; 10]), (4, None));
}

#[test]
fn success_stops_further_attempts() {
    let policy = RetryPolicy::new(Some(5), Some(2));
    assert_eq!(attempts(&policy, &[false, false, true, false, false, false]), (3, Some(2)));
}

#[test]
fn no_budget_means_one_attempt() {
    let policy = RetryPolicy::new(None, None);
    assert_eq!(attempts(&policy, &[false, true]), (1, None));
    let zero = RetryPolicy::new(Some(0), Some(1));
    assert_eq!(attempts(&zero, &[false, true]), (1, Some(1)));
}

#[test]
fn success_on_last_allowed_attempt() {
    let policy = RetryPolicy::new(Some(2), None);
    assert_eq!(attempts(&policy, &[false, false, true]), (3, None));
}
