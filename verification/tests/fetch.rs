use test_assets_ureq::fetch::{
    declared_length, digit_of, download_test_file, hash_of, DownloadOutcome, Transfer,
};
use test_assets_ureq::TaError;

fn body(content_length: Option<&str>, complete: bool, bytes: &[u8]) -> Transfer {
    Transfer::Body {
        content_length: content_length.map(|text| text.to_string()),
        complete,
        bytes: bytes.to_vec(),
    }
}

fn refused(transfer: Transfer) -> bool {
    matches!(download_test_file(transfer), Err(TaError::DownloadFailed))
}

fn digest_taken(transfer: Transfer) -> String {
    match download_test_file(transfer) {
        Ok(download) => {
            let DownloadOutcome::WithHash(hash) = download.outcome;
            assert_eq!(hash, hash_of(&download.bytes));
            hash.to_hex()
        },
        Err(err) => panic!("the transfer was refused: {err:?}"),
    }
}

#[test]
fn decimal_digits_have_their_values() {
    assert_eq!(digit_of('0'), Some(0));
    assert_eq!(digit_of('9'), Some(9));
    assert_eq!(digit_of('a'), None);
    assert_eq!(digit_of('/'), None);
    assert_eq!(digit_of(':'), None);
    assert_eq!(digit_of('٣'), None);
}

#[test]
fn a_length_is_read_from_its_digits() {
    assert_eq!(declared_length(Some("0")), Some(0));
    assert_eq!(declared_length(Some("5")), Some(5));
    assert_eq!(declared_length(Some("1234567890")), Some(1234567890));
    assert_eq!(declared_length(Some("007")), Some(7));
}

#[test]
fn a_plus_sign_may_stand_before_the_digits() {
    assert_eq!(declared_length(Some("+5")), Some(5));
    assert_eq!(declared_length(Some("+")), None);
    assert_eq!(declared_length(Some("++5")), None);
    assert_eq!(declared_length(Some("5+")), None);
}

#[test]
fn a_missing_header_declares_nothing() {
    assert_eq!(declared_length(None), None);
}

#[test]
fn what_is_no_number_declares_nothing() {
    for text in ["", " ", "-5", "5 ", " 5", "12a", "a12", "1.5", "0x10", "٣"] {
        assert_eq!(declared_length(Some(text)), None, "{text:?}");
    }
}

#[test]
fn a_length_is_read_as_the_standard_library_reads_it() {
    for text in ["0", "+0", "42", "+42", "", "+", "-1", "1_000", "00000000000000000000001"] {
        assert_eq!(declared_length(Some(text)), text.parse::<usize>().ok(), "{text:?}");
    }
}

#[test]
fn the_largest_length_is_read_and_the_next_is_not() {
    let largest = usize::MAX.to_string();
    assert_eq!(declared_length(Some(&largest)), Some(usize::MAX));
    let next = (usize::MAX as u128 + 1).to_string();
    assert_eq!(declared_length(Some(&next)), None);
    assert_eq!(declared_length(Some("99999999999999999999999999999999")), None);
}

#[test]
fn a_request_that_failed_is_a_failed_download() {
    assert!(matches!(download_test_file(Transfer::Refused), Err(TaError::DownloadFailed)));
}

#[test]
fn a_read_that_failed_is_an_io_error() {
    let reset = std::io::Error::from(std::io::ErrorKind::ConnectionReset);
    match download_test_file(Transfer::Broken(reset)) {
        Err(TaError::Io(err)) => assert_eq!(err.kind(), std::io::ErrorKind::ConnectionReset),
        _ => panic!("expected the I/O error"),
    }
}

#[test]
fn a_whole_body_is_handed_on_with_its_digest() {
    match download_test_file(body(Some("5"), true, b"hello")) {
        Ok(download) => {
            assert_eq!(download.bytes, b"hello");
            let DownloadOutcome::WithHash(hash) = download.outcome;
            assert_eq!(
                hash.to_hex(),
                "2cf24dba5fb0a30e26e83b2ac5b9e29e1b161e5c1fa7425e73043362938b9824"
            );
        },
        Err(err) => panic!("{err:?}"),
    }
}

#[test]
fn a_body_shorter_than_declared_is_a_failed_download() {
    assert!(refused(body(Some("5"), false, b"hel")));
    assert!(refused(body(Some("10"), false, b"hello")));
    assert!(refused(body(Some("5"), false, b"")));
    assert!(refused(body(Some("1"), false, b"")));
}

#[test]
fn a_short_body_is_refused_however_the_stream_ended() {
    assert!(refused(body(Some("5"), true, b"hel")));
    assert!(refused(body(Some("10"), true, b"hello")));
    assert!(refused(body(Some("+10"), true, b"hello")));
}

#[test]
fn a_body_longer_than_declared_is_a_failed_download() {
    assert!(refused(body(Some("4"), true, b"hello")));
    assert!(refused(body(Some("0"), true, b"hello")));
}

#[test]
fn a_body_of_the_declared_length_is_taken() {
    let hello = hash_of(b"hello").to_hex();
    assert_eq!(digest_taken(body(Some("5"), true, b"hello")), hello);
    assert_eq!(digest_taken(body(Some("+5"), true, b"hello")), hello);
    assert_eq!(digest_taken(body(Some("005"), true, b"hello")), hello);
    assert_eq!(digest_taken(body(Some("5"), false, b"hello")), hello);
}

#[test]
fn a_body_without_a_declared_length_is_taken_at_the_end_of_the_stream() {
    for header in [None, Some(""), Some("five"), Some("-5"), Some("5 ")] {
        assert_eq!(digest_taken(body(header, true, b"hello")), hash_of(b"hello").to_hex());
    }
}

#[test]
fn a_body_without_a_declared_length_that_broke_off_is_a_failed_download() {
    for header in [None, Some(""), Some("five")] {
        assert!(refused(body(header, false, b"hello")));
        assert!(refused(body(header, false, b"")));
    }
}

#[test]
fn an_empty_body_is_taken() {
    match download_test_file(body(Some("0"), true, b"")) {
        Ok(download) => {
            assert!(download.bytes.is_empty());
            let DownloadOutcome::WithHash(hash) = download.outcome;
            assert_eq!(hash, hash_of(b""));
        },
        Err(err) => panic!("{err:?}"),
    }
    assert_eq!(digest_taken(body(None, true, b"")), hash_of(b"").to_hex());
}
