use test_assets_ureq::retry::{Retry, Verdict, LONGEST, SECOND};
use test_assets_ureq::TaError;

fn pauses(max_delay: u128) -> Vec<u128> {
    let mut retry = Retry::new(max_delay);
    let mut pauses = Vec::new();
    loop {
        match retry.after_failure(TaError::DownloadFailed) {
            Verdict::Wait(pause) => pauses.push(pause),
            Verdict::GiveUp(err) => {
                assert!(matches!(err, TaError::DownloadFailed));
                return pauses;
            },
        }
    }
}

#[test]
fn the_pauses_double_from_one_second() {
    assert_eq!(pauses(60 * SECOND), vec![SECOND, 2 * SECOND, 4 * SECOND]);
}

#[test]
fn the_later_pauses_are_cut_down() {
    assert_eq!(pauses(3 * SECOND), vec![SECOND, 2 * SECOND, 3 * SECOND]);
    assert_eq!(pauses(2 * SECOND), vec![SECOND, 2 * SECOND, 2 * SECOND]);
    assert_eq!(pauses(SECOND), vec![SECOND, SECOND, SECOND]);
    assert_eq!(pauses(1_500_000_001), vec![SECOND, 1_500_000_001, 1_500_000_001]);
}

#[test]
fn no_pause_is_longer_than_the_longest_delay() {
    assert_eq!(pauses(SECOND / 2), vec![SECOND / 2, SECOND / 2, SECOND / 2]);
    assert_eq!(pauses(SECOND - 1), vec![SECOND - 1, SECOND - 1, SECOND - 1]);
    assert_eq!(pauses(1), vec![1, 1, 1]);
    assert_eq!(pauses(0), vec![0, 0, 0]);
}

#[test]
fn the_pauses_never_fall_and_keep_within_the_delay() {
    for max_delay in [0, 1, SECOND / 3, SECOND, SECOND + 1, 3 * SECOND, 5 * SECOND, LONGEST] {
        let pauses = pauses(max_delay);
        assert_eq!(pauses.len(), 3);
        assert!(pauses.iter().all(|pause| *pause <= max_delay));
        assert!(pauses[0] <= pauses[1] && pauses[1] <= pauses[2]);
        assert!(pauses.iter().sum::<u128>() <= 7 * SECOND);
    }
}

#[test]
fn a_longest_pause_beyond_all_durations_is_taken() {
    assert_eq!(pauses(LONGEST), vec![SECOND, 2 * SECOND, 4 * SECOND]);
    assert_eq!(pauses(u128::MAX), vec![SECOND, 2 * SECOND, 4 * SECOND]);
}

#[test]
fn the_longest_duration_is_the_one_of_the_standard_library() {
    assert_eq!(std::time::Duration::MAX.as_nanos(), LONGEST);
}

#[test]
fn no_pause_is_left_after_the_third() {
    let mut retry = Retry::new(SECOND);
    for _ in 0..3 {
        assert!(matches!(retry.after_failure(TaError::DownloadFailed), Verdict::Wait(_)));
    }
    for _ in 0..3 {
        assert!(matches!(
            retry.after_failure(TaError::DownloadFailed),
            Verdict::GiveUp(TaError::DownloadFailed)
        ));
    }
}

#[test]
fn a_malformed_hash_is_not_worth_a_retry() {
    let mut retry = Retry::new(SECOND);
    assert!(matches!(
        retry.after_failure(TaError::BadHashFormat),
        Verdict::GiveUp(TaError::BadHashFormat)
    ));
    assert!(matches!(retry.after_failure(TaError::DownloadFailed), Verdict::Wait(SECOND)));
    assert!(matches!(
        retry.after_failure(TaError::BadHashFormat),
        Verdict::GiveUp(TaError::BadHashFormat)
    ));
    assert!(matches!(retry.after_failure(TaError::DownloadFailed), Verdict::Wait(SECOND)));
}

#[test]
fn every_other_error_is_worth_a_retry() {
    let mut retry = Retry::new(10 * SECOND);
    let io = TaError::Io(std::io::Error::from(std::io::ErrorKind::TimedOut));
    assert!(matches!(retry.after_failure(io), Verdict::Wait(SECOND)));
    let mismatch = TaError::HashMismatch("found".to_string(), "declared".to_string());
    assert!(matches!(retry.after_failure(mismatch), Verdict::Wait(pause) if pause == 2 * SECOND));
    assert!(matches!(
        retry.after_failure(TaError::DownloadFailed),
        Verdict::Wait(pause) if pause == 4 * SECOND
    ));
}

#[test]
fn the_error_given_up_on_is_the_last_one() {
    let mut retry = Retry::new(0);
    for _ in 0..3 {
        assert!(matches!(retry.after_failure(TaError::DownloadFailed), Verdict::Wait(_)));
    }
    let last = TaError::HashMismatch("found".to_string(), "declared".to_string());
    match retry.after_failure(last) {
        Verdict::GiveUp(TaError::HashMismatch(found, declared)) => {
            assert_eq!(found, "found");
            assert_eq!(declared, "declared");
        },
        _ => panic!("expected the mismatch"),
    }
}
