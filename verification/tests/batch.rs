use test_assets_ureq::batch::{conclude, Batch, Delivery, Step};
use test_assets_ureq::fetch::{hash_of, DownloadOutcome};
use test_assets_ureq::hash_list::HashList;
use test_assets_ureq::{TaError, TestAssetDef};

const HELLO: &str = "2cf24dba5fb0a30e26e83b2ac5b9e29e1b161e5c1fa7425e73043362938b9824";

fn asset(filename: &str, hash: &str) -> TestAssetDef {
    TestAssetDef {
        filename: filename.to_string(),
        hash: hash.to_string(),
        url: format!("https://x/{filename}"),
    }
}

fn hex_of(bytes: &[u8]) -> String {
    hash_of(bytes).to_hex()
}

/// Runs a batch to its end. `serve` stands for the server: the bytes of each
/// asset by its index, or `None` where the fetch fails.
fn run(
    list: HashList,
    defs: &[TestAssetDef],
    serve: &dyn Fn(usize) -> Option<Vec<u8>>,
) -> (Result<(), TaError>, HashList, Vec<usize>, Vec<usize>) {
    let mut fetched = Vec::new();
    let mut skipped = Vec::new();
    let mut batch = Batch::new(list, defs.to_vec());
    loop {
        match batch.step() {
            Step::Skip(index, next) => {
                skipped.push(index);
                batch = next;
            },
            Step::Fetch(index, pending) => {
                fetched.push(index);
                let result = match serve(index) {
                    Some(bytes) => Ok(DownloadOutcome::WithHash(hash_of(&bytes))),
                    None => Err(TaError::DownloadFailed),
                };
                let (next, delivery) = pending.deliver(result);
                let declared = defs[index].hash.to_lowercase();
                let expected = match serve(index) {
                    Some(bytes) if hex_of(&bytes) == declared => Delivery::Verified,
                    Some(_) => Delivery::Mismatch,
                    None => Delivery::Failed,
                };
                assert_eq!(delivery, expected);
                batch = next;
            },
            Step::Finish(result, list) => return (result, list, fetched, skipped),
        }
    }
}

#[test]
fn an_asset_is_fetched_and_recorded() {
    let defs = [asset("a.bin", HELLO)];
    let (result, list, fetched, skipped) =
        run(HashList::new(), &defs, &|_| Some(b"hello".to_vec()));
    assert!(result.is_ok());
    assert_eq!(fetched, vec![0]);
    assert!(skipped.is_empty());
    assert_eq!(list.get_hash("a.bin"), Some(&hash_of(b"hello")));
    assert_eq!(list.serialize(), format!("{HELLO} a.bin\n"));
}

#[test]
fn a_second_run_needs_no_server() {
    let defs = [asset("a.bin", HELLO)];
    let (first, list, _, _) = run(HashList::new(), &defs, &|_| Some(b"hello".to_vec()));
    assert!(first.is_ok());
    let manifest = list.serialize();
    let (second, list, fetched, skipped) = run(list, &defs, &|_| None);
    assert!(second.is_ok());
    assert!(fetched.is_empty());
    assert_eq!(skipped, vec![0]);
    assert_eq!(list.serialize(), manifest);
}

#[test]
fn a_malformed_hash_ends_the_run_before_any_fetch() {
    let bad = "zz".repeat(32);
    let defs = [asset("a.bin", &bad), asset("b.bin", HELLO)];
    let (result, list, fetched, skipped) =
        run(HashList::new(), &defs, &|_| Some(b"hello".to_vec()));
    assert!(matches!(result, Err(TaError::BadHashFormat)));
    assert!(fetched.is_empty());
    assert!(skipped.is_empty());
    assert_eq!(list.serialize(), "");
}

#[test]
fn a_malformed_hash_ends_the_run_where_it_stands() {
    let defs = [asset("a.bin", HELLO), asset("b.bin", "short"), asset("c.bin", HELLO)];
    let (result, list, fetched, _) = run(HashList::new(), &defs, &|_| Some(b"hello".to_vec()));
    assert!(matches!(result, Err(TaError::BadHashFormat)));
    assert_eq!(fetched, vec![0]);
    assert_eq!(list.serialize(), format!("{HELLO} a.bin\n"));
}

#[test]
fn a_mismatch_names_both_digests_and_records_the_one_found() {
    let defs = [asset("a.bin", HELLO), asset("b.bin", HELLO)];
    let (result, list, fetched, _) = run(HashList::new(), &defs, &|_| Some(b"other".to_vec()));
    match result {
        Err(TaError::HashMismatch(found, declared)) => {
            assert_eq!(found, hex_of(b"other"));
            assert_eq!(declared, HELLO);
        },
        _ => panic!("expected a mismatch"),
    }
    assert_eq!(fetched, vec![0]);
    assert_eq!(list.get_hash("a.bin"), Some(&hash_of(b"other")));
    assert!(list.get_hash("b.bin").is_none());
}

#[test]
fn a_mismatch_keeps_the_hash_as_it_was_declared() {
    let capitals = HELLO.to_uppercase();
    let defs = [asset("a.bin", &capitals)];
    let (result, _, _, _) = run(HashList::new(), &defs, &|_| Some(b"other".to_vec()));
    assert!(matches!(result, Err(TaError::HashMismatch(_, declared)) if declared == capitals));
}

#[test]
fn a_hash_in_capitals_is_met_by_the_same_digest() {
    let defs = [asset("a.bin", &HELLO.to_uppercase())];
    let (result, list, _, _) = run(HashList::new(), &defs, &|_| Some(b"hello".to_vec()));
    assert!(result.is_ok());
    let (again, _, fetched, _) = run(list, &defs, &|_| None);
    assert!(again.is_ok());
    assert!(fetched.is_empty());
}

#[test]
fn a_failed_fetch_ends_the_run_and_records_nothing() {
    let defs = [asset("a.bin", HELLO), asset("b.bin", HELLO)];
    let (result, list, fetched, _) = run(HashList::new(), &defs, &|_| None);
    assert!(matches!(result, Err(TaError::DownloadFailed)));
    assert_eq!(fetched, vec![0]);
    assert_eq!(list.serialize(), "");
}

#[test]
fn a_stale_entry_is_fetched_again() {
    let mut list = HashList::new();
    list.add_entry("a.bin", &hash_of(b"old"));
    let defs = [asset("a.bin", HELLO)];
    let (result, list, fetched, _) = run(list, &defs, &|_| Some(b"hello".to_vec()));
    assert!(result.is_ok());
    assert_eq!(fetched, vec![0]);
    assert_eq!(list.serialize(), format!("{HELLO} a.bin\n"));
}

#[test]
fn only_what_is_missing_is_fetched() {
    let mut list = HashList::new();
    list.add_entry("b.bin", &hash_of(b"b"));
    let defs = [
        asset("a.bin", &hex_of(b"a")),
        asset("b.bin", &hex_of(b"b")),
        asset("c.bin", &hex_of(b"c")),
    ];
    let serve = |index: usize| Some(vec![b"abc"[index]]);
    let (result, list, fetched, skipped) = run(list, &defs, &serve);
    assert!(result.is_ok());
    assert_eq!(fetched, vec![0, 2]);
    assert_eq!(skipped, vec![1]);
    assert_eq!(
        list.serialize(),
        format!("{} b.bin\n{} a.bin\n{} c.bin\n", hex_of(b"b"), hex_of(b"a"), hex_of(b"c"))
    );
}

#[test]
fn a_run_after_a_failure_fetches_what_failed() {
    let defs = [asset("a.bin", &hex_of(b"a")), asset("b.bin", &hex_of(b"b"))];
    let (first, list, _, _) =
        run(HashList::new(), &defs, &|index| if index == 0 { Some(b"a".to_vec()) } else { None });
    assert!(matches!(first, Err(TaError::DownloadFailed)));
    let (second, _, fetched, skipped) = run(list, &defs, &|_| Some(b"b".to_vec()));
    assert!(second.is_ok());
    assert_eq!(fetched, vec![1]);
    assert_eq!(skipped, vec![0]);
}

#[test]
fn a_run_over_no_assets_succeeds() {
    let (result, list, fetched, skipped) = run(HashList::new(), &[], &|_| None);
    assert!(result.is_ok());
    assert!(fetched.is_empty() && skipped.is_empty());
    assert_eq!(list.serialize(), "");
}

#[test]
fn the_error_of_a_fetch_is_the_error_of_the_run() {
    let batch = Batch::new(HashList::new(), vec![asset("a.bin", HELLO)]);
    let pending = match batch.step() {
        Step::Fetch(0, pending) => pending,
        _ => panic!("expected a fetch of the first asset"),
    };
    let reset = std::io::Error::from(std::io::ErrorKind::ConnectionReset);
    let (batch, delivery) = pending.deliver(Err(TaError::Io(reset)));
    assert_eq!(delivery, Delivery::Failed);
    match batch.step() {
        Step::Finish(Err(TaError::Io(err)), _) => {
            assert_eq!(err.kind(), std::io::ErrorKind::ConnectionReset)
        },
        _ => panic!("expected the end of the run"),
    }
}

#[test]
fn the_error_of_the_run_comes_before_the_error_of_persisting() {
    let full = || Err(std::io::Error::from(std::io::ErrorKind::StorageFull));
    assert!(matches!(conclude(Err(TaError::DownloadFailed), full()), Err(TaError::DownloadFailed)));
    assert!(matches!(conclude(Err(TaError::BadHashFormat), Ok(())), Err(TaError::BadHashFormat)));
    assert!(conclude(Ok(()), Ok(())).is_ok());
    match conclude(Ok(()), full()) {
        Err(TaError::Io(err)) => assert_eq!(err.kind(), std::io::ErrorKind::StorageFull),
        _ => panic!("expected the I/O error"),
    }
}

#[test]
fn an_asset_whose_name_holds_a_line_feed_is_a_hit_at_the_next_run() {
    let defs = [asset("a\nb.bin", HELLO), asset("c\\d.bin", HELLO)];
    let (first, list, fetched, _) = run(HashList::new(), &defs, &|_| Some(b"hello".to_vec()));
    assert!(first.is_ok());
    assert_eq!(fetched, vec![0, 1]);
    let manifest = list.serialize();
    let list = match HashList::parse(&manifest) {
        Ok(list) => list,
        Err(err) => panic!("the manifest was refused: {err:?}"),
    };
    let (second, list, fetched, skipped) = run(list, &defs, &|_| None);
    assert!(second.is_ok());
    assert!(fetched.is_empty());
    assert_eq!(skipped, vec![0, 1]);
    assert_eq!(list.serialize(), manifest);
}
