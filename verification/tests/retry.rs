use rolly::retry::{Attempt, Retry, Verdict, MAX_ATTEMPTS};
use rolly::Duration;

#[test]
fn success_on_the_first_attempt() {
    let mut retry = Retry::new();
    assert_eq!(retry.ended(Attempt::Answered(200)), Verdict::Done);
    assert_eq!(retry.failures(), 0);
}

#[test]
fn retries_on_500_then_succeeds() {
    let mut retry = Retry::new();
    assert_eq!(
        retry.ended(Attempt::Answered(500)),
        Verdict::Retry(Duration::from_millis(100))
    );
    assert_eq!(retry.ended(Attempt::Answered(204)), Verdict::Done);
    assert_eq!(retry.failures(), 1);
}

#[test]
fn gives_up_after_all_retries() {
    let mut retry = Retry::new();
    assert_eq!(
        retry.ended(Attempt::Failed),
        Verdict::Retry(Duration::from_millis(100))
    );
    assert_eq!(
        retry.ended(Attempt::Answered(503)),
        Verdict::Retry(Duration::from_millis(400))
    );
    assert_eq!(
        retry.ended(Attempt::Failed),
        Verdict::GiveUp(Duration::from_millis(1600))
    );
    assert_eq!(retry.failures(), MAX_ATTEMPTS);
}

#[test]
fn only_the_200s_are_success() {
    for status in [100, 199, 300, 302, 404, 500] {
        let mut retry = Retry::new();
        assert!(matches!(retry.ended(Attempt::Answered(status)), Verdict::Retry(_)));
    }
    for status in [200, 201, 299] {
        let mut retry = Retry::new();
        assert_eq!(retry.ended(Attempt::Answered(status)), Verdict::Done);
    }
}

#[test]
fn post_is_tried_until_it_is_accepted() {
    for first in 0..MAX_ATTEMPTS {
        let mut retry = Retry::new();
        let mut attempts = 0;
        loop {
            let attempt = if attempts == first {
                Attempt::Answered(200)
            } else {
                Attempt::Answered(500)
            };
            attempts += 1;
            match retry.ended(attempt) {
                Verdict::Done => break,
                Verdict::Retry(_) => {}
                Verdict::GiveUp(_) => panic!("given up after {} attempts", attempts),
            }
        }
        assert_eq!(attempts, first + 1);
        assert_eq!(retry.failures(), first);
    }
}
