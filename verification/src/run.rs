//! A whole run, from any state to its end, for any way the fetches may go;
//! and what holds of every run.

use vstd::prelude::*;

use crate::asset::TestAssetDef;
use crate::batch::{
    after_delivery, after_skip, expected_digest, is_hit, next_move, Move, Run,
};
use crate::digest::to_hex_spec;
use crate::error::TaErrorView;
use crate::hash_list::{distinct, lemma_lookup_upsert, lemma_upsert_distinct, lookup, upsert};

verus! {

/// How a run ends.
pub struct Ending {
    /// The result that the run returns.
    pub result: Result<(), TaErrorView>,
    /// The entries of the hash list that the run leaves to be persisted.
    pub records: Seq<(Seq<char>, Seq<u8>)>,
    /// The indices of the assets that were fetched, in the order of the fetches.
    pub fetched: Seq<int>,
}

/// A bound on the moves that a run still makes before it ends.
pub open spec fn moves_left(run: Run) -> nat {
    if run.failure is Some || run.position >= run.assets.len() {
        0
    } else {
        (run.assets.len() - run.position + 1) as nat
    }
}

/// The end of a run that goes on from `run`, where `fetch` says for each
/// index what the fetch of that asset gives: an error, or the digest of the
/// bytes received.
pub open spec fn run_to_end(
    run: Run,
    fetch: spec_fn(int) -> Result<Seq<u8>, TaErrorView>,
) -> Ending
    decreases moves_left(run),
{
    match next_move(run) {
        Move::Finish(result) => Ending { result, records: run.records, fetched: Seq::empty() },
        Move::Skip => run_to_end(after_skip(run), fetch),
        Move::Fetch => {
            let rest = run_to_end(after_delivery(run, fetch(run.position as int)), fetch);
            Ending { fetched: seq![run.position as int] + rest.fetched, ..rest }
        },
    }
}

/// Whether no two assets share a file name.
pub open spec fn names_unique(assets: Seq<TestAssetDef>) -> bool {
    forall|i: int, j: int|
        0 <= i < j < assets.len() ==> (#[trigger] assets[i]).filename@ != (
        #[trigger] assets[j]).filename@
}

/// Whether the list holds every asset before `upto` with the digest it declares.
pub open spec fn hits_before(
    records: Seq<(Seq<char>, Seq<u8>)>,
    assets: Seq<TestAssetDef>,
    upto: int,
) -> bool {
    forall|k: int| 0 <= k < upto && k < assets.len() ==> is_hit(records, #[trigger] assets[k])
}

/// Whether the list holds every asset from `from` on with the digest it declares.
pub open spec fn hits_from(
    records: Seq<(Seq<char>, Seq<u8>)>,
    assets: Seq<TestAssetDef>,
    from: int,
) -> bool {
    forall|k: int| from <= k < assets.len() ==> is_hit(records, #[trigger] assets[k])
}

/// A run whose remaining assets are all recorded with the digests they
/// declare fetches nothing, succeeds, and leaves the list as it was.
pub proof fn lemma_hits_fetch_nothing(
    run: Run,
    fetch: spec_fn(int) -> Result<Seq<u8>, TaErrorView>,
)
    requires
        run.failure is None,
        hits_from(run.records, run.assets, run.position as int),
    ensures
        run_to_end(run, fetch) == (Ending {
            result: Ok(()),
            records: run.records,
            fetched: Seq::empty(),
        }),
    decreases moves_left(run),
{
    if run.position < run.assets.len() {
        assert(is_hit(run.records, run.assets[run.position as int]));
        lemma_hits_fetch_nothing(after_skip(run), fetch);
    }
}

/// An asset that is recorded with the digest it declares, and whose file
/// name no other asset has, is not fetched, however the other fetches go;
/// and the run leaves its entry as it was.
pub proof fn lemma_hit_is_not_fetched(
    run: Run,
    fetch: spec_fn(int) -> Result<Seq<u8>, TaErrorView>,
    index: int,
)
    requires
        distinct(run.records),
        run.position <= index < run.assets.len(),
        is_hit(run.records, run.assets[index]),
        forall|j: int|
            0 <= j < run.assets.len() && j != index ==> (#[trigger] run.assets[j]).filename@
                != run.assets[index].filename@,
    ensures
        !run_to_end(run, fetch).fetched.contains(index),
        lookup(run_to_end(run, fetch).records, run.assets[index].filename@) == lookup(
            run.records,
            run.assets[index].filename@,
        ),
    decreases moves_left(run),
{
    let name = run.assets[index].filename@;
    match next_move(run) {
        Move::Finish(_) => {},
        Move::Skip => {
            if run.position < index {
                lemma_hit_is_not_fetched(after_skip(run), fetch, index);
            } else {
                lemma_entry_stays(after_skip(run), fetch, name);
            }
        },
        Move::Fetch => {
            let here = run.position as int;
            let after = after_delivery(run, fetch(here));
            let rest = run_to_end(after, fetch);
            assert(here != index);
            assert(run.assets[here].filename@ != name);
            match fetch(here) {
                Ok(found) => {
                    lemma_upsert_distinct(run.records, run.assets[here].filename@, found);
                    lemma_lookup_upsert(run.records, run.assets[here].filename@, found, name);
                },
                Err(_) => {},
            }
            if after.failure is None {
                lemma_hit_is_not_fetched(after, fetch, index);
            }
            assert forall|i: int| 0 <= i < (seq![here] + rest.fetched).len() implies (seq![here]
                + rest.fetched)[i] != index by {
                if i > 0 {
                    assert((seq![here] + rest.fetched)[i] == rest.fetched[i - 1]);
                }
            }
        },
    }
}

/// A run that has passed every asset of a name leaves the entry of that name
/// as it is.
pub proof fn lemma_entry_stays(
    run: Run,
    fetch: spec_fn(int) -> Result<Seq<u8>, TaErrorView>,
    name: Seq<char>,
)
    requires
        distinct(run.records),
        forall|j: int|
            run.position <= j < run.assets.len() ==> (#[trigger] run.assets[j]).filename@ != name,
    ensures
        lookup(run_to_end(run, fetch).records, name) == lookup(run.records, name),
        forall|i: int|
            0 <= i < run_to_end(run, fetch).fetched.len() ==> run.position <= (
            #[trigger] run_to_end(run, fetch).fetched[i]),
    decreases moves_left(run),
{
    match next_move(run) {
        Move::Finish(_) => {},
        Move::Skip => {
            lemma_entry_stays(after_skip(run), fetch, name);
        },
        Move::Fetch => {
            let here = run.position as int;
            let after = after_delivery(run, fetch(here));
            let rest = run_to_end(after, fetch);
            assert(run.assets[here].filename@ != name);
            match fetch(here) {
                Ok(found) => {
                    lemma_upsert_distinct(run.records, run.assets[here].filename@, found);
                    lemma_lookup_upsert(run.records, run.assets[here].filename@, found, name);
                },
                Err(_) => {},
            }
            lemma_entry_stays(after, fetch, name);
            assert forall|i: int| 0 <= i < (seq![here] + rest.fetched).len() implies here <= (
            seq![here] + rest.fetched)[i] by {
                if i > 0 {
                    assert((seq![here] + rest.fetched)[i] == rest.fetched[i - 1]);
                }
            }
        },
    }
}

/// A fetch that gives another digest than the asset declares ends the run
/// with a mismatch that names the digest found and the hash declared; the
/// list holds the digest found for the asset's file name.
pub proof fn lemma_mismatch_ends_run(
    run: Run,
    fetch: spec_fn(int) -> Result<Seq<u8>, TaErrorView>,
    found: Seq<u8>,
)
    requires
        distinct(run.records),
        next_move(run) is Fetch,
        fetch(run.position as int) == Ok::<Seq<u8>, TaErrorView>(found),
        expected_digest(run.assets[run.position as int]) != Some(found),
    ensures
        run_to_end(run, fetch).result == Err::<(), TaErrorView>(
            TaErrorView::HashMismatch(to_hex_spec(found), run.assets[run.position as int].hash@),
        ),
        run_to_end(run, fetch).fetched == seq![run.position as int],
        run_to_end(run, fetch).records == upsert(
            run.records,
            run.assets[run.position as int].filename@,
            found,
        ),
        lookup(run_to_end(run, fetch).records, run.assets[run.position as int].filename@) == Some(
            found,
        ),
{
    let name = run.assets[run.position as int].filename@;
    let after = after_delivery(run, fetch(run.position as int));
    assert(next_move(after) is Finish);
    assert(run_to_end(after, fetch).fetched == Seq::<int>::empty());
    assert(run_to_end(after, fetch).records == after.records);
    assert(run_to_end(after, fetch).result == Err::<(), TaErrorView>(after.failure.unwrap()));
    assert(seq![run.position as int] + Seq::<int>::empty() =~= seq![run.position as int]);
    lemma_lookup_upsert(run.records, name, found, name);
}

/// A fetch that fails ends the run with the error of the fetch, and leaves
/// the list as it was.
pub proof fn lemma_failed_fetch_ends_run(
    run: Run,
    fetch: spec_fn(int) -> Result<Seq<u8>, TaErrorView>,
    err: TaErrorView,
)
    requires
        next_move(run) is Fetch,
        fetch(run.position as int) == Err::<Seq<u8>, TaErrorView>(err),
    ensures
        run_to_end(run, fetch) == (Ending {
            result: Err(err),
            records: run.records,
            fetched: seq![run.position as int],
        }),
{
    let after = after_delivery(run, fetch(run.position as int));
    assert(next_move(after) is Finish);
    assert(run_to_end(after, fetch) == (Ending {
        result: Err(err),
        records: run.records,
        fetched: Seq::empty(),
    }));
    assert(seq![run.position as int] + Seq::<int>::empty() =~= seq![run.position as int]);
}

/// A run that comes to an asset whose hash is malformed ends there, with
/// that error, and fetches neither that asset nor any after it.
pub proof fn lemma_bad_hash_ends_run(
    run: Run,
    fetch: spec_fn(int) -> Result<Seq<u8>, TaErrorView>,
)
    requires
        run.failure is None,
        run.position < run.assets.len(),
        expected_digest(run.assets[run.position as int]) is None,
    ensures
        run_to_end(run, fetch) == (Ending {
            result: Err(TaErrorView::BadHashFormat),
            records: run.records,
            fetched: Seq::empty(),
        }),
{
}

/// Where a run succeeds, the list that it leaves holds every asset with the
/// digest it declares.
pub proof fn lemma_success_records_all(
    run: Run,
    fetch: spec_fn(int) -> Result<Seq<u8>, TaErrorView>,
)
    requires
        distinct(run.records),
        names_unique(run.assets),
        hits_before(run.records, run.assets, run.position as int),
        run_to_end(run, fetch).result is Ok,
    ensures
        hits_from(run_to_end(run, fetch).records, run.assets, 0),
        distinct(run_to_end(run, fetch).records),
    decreases moves_left(run),
{
    match next_move(run) {
        Move::Finish(_) => {
            assert(run.position >= run.assets.len());
        },
        Move::Skip => {
            lemma_success_records_all(after_skip(run), fetch);
        },
        Move::Fetch => {
            let here = run.position as int;
            let name = run.assets[here].filename@;
            let after = after_delivery(run, fetch(here));
            match fetch(here) {
                Ok(found) => {
                    lemma_upsert_distinct(run.records, name, found);
                    if expected_digest(run.assets[here]) == Some(found) {
                        assert forall|k: int| 0 <= k < here + 1 && k < run.assets.len() implies is_hit(
                            after.records,
                            #[trigger] run.assets[k],
                        ) by {
                            lemma_lookup_upsert(run.records, name, found, run.assets[k].filename@);
                            if k < here {
                                assert(run.assets[k].filename@ != run.assets[here].filename@);
                                assert(is_hit(run.records, run.assets[k]));
                            }
                        }
                        lemma_success_records_all(after, fetch);
                    } else {
                        assert(next_move(after) is Finish);
                    }
                },
                Err(_) => {
                    assert(next_move(after) is Finish);
                },
            }
        },
    }
}

/// A run over assets with distinct file names that has succeeded need not be
/// made again: a second run from the list that the first one left fetches
/// nothing, succeeds, and leaves the list as it is.
pub proof fn lemma_second_run_fetches_nothing(
    records: Seq<(Seq<char>, Seq<u8>)>,
    assets: Seq<TestAssetDef>,
    first: spec_fn(int) -> Result<Seq<u8>, TaErrorView>,
    second: spec_fn(int) -> Result<Seq<u8>, TaErrorView>,
)
    requires
        distinct(records),
        names_unique(assets),
        run_to_end(Run { records, assets, position: 0, failure: None }, first).result is Ok,
    ensures
        ({
            let left = run_to_end(Run { records, assets, position: 0, failure: None }, first).records;
            run_to_end(Run { records: left, assets, position: 0, failure: None }, second) == (Ending {
                result: Ok(()),
                records: left,
                fetched: Seq::empty(),
            })
        }),
{
    let start = Run { records, assets, position: 0, failure: None };
    lemma_success_records_all(start, first);
    let left = run_to_end(start, first).records;
    lemma_hits_fetch_nothing(Run { records: left, assets, position: 0, failure: None }, second);
}

} // verus!
