//! One run over a list of assets: which of them have to be fetched, what is
//! recorded of each fetch, and how the run ends. The caller fetches; every
//! decision is made here.

use vstd::prelude::*;

use crate::asset::TestAssetDef;
use crate::digest::{from_hex_spec, is_hex_digest, to_hex_spec, Sha256Hash};
use crate::error::{TaError, TaErrorView};
use crate::fetch::DownloadOutcome;
use crate::hash_list::{distinct, lookup, upsert, HashList};

verus! {

/// The digest that an asset declares, if its hash is well formed.
pub open spec fn expected_digest(def: TestAssetDef) -> Option<Seq<u8>> {
    if is_hex_digest(def.hash@) {
        Some(from_hex_spec(def.hash@))
    } else {
        None
    }
}

/// Whether `records` hold, for the asset's file name, the digest that the
/// asset declares.
pub open spec fn is_hit(records: Seq<(Seq<char>, Seq<u8>)>, def: TestAssetDef) -> bool {
    expected_digest(def) matches Some(digest) && lookup(records, def.filename@) == Some(digest)
}

/// The state of a run, as plain values.
pub struct Run {
    /// The entries of the hash list, in order.
    pub records: Seq<(Seq<char>, Seq<u8>)>,
    /// The assets of the run.
    pub assets: Seq<TestAssetDef>,
    /// The index of the asset that the run looks at next.
    pub position: nat,
    /// The error that ends the run at its next step, if there is one.
    pub failure: Option<TaErrorView>,
}

/// What a run does next.
pub enum Move {
    /// It passes over the asset at its position, which is verified already.
    Skip,
    /// It asks for the asset at its position to be fetched.
    Fetch,
    /// It ends with this result.
    Finish(Result<(), TaErrorView>),
}

/// The next move of a run. A failure that was delivered ends it; so does the
/// end of the assets, and an asset whose hash is malformed. An asset that the
/// list holds with the digest it declares is passed over, and any other is
/// to be fetched.
pub open spec fn next_move(run: Run) -> Move {
    match run.failure {
        Some(err) => Move::Finish(Err(err)),
        None => if run.position >= run.assets.len() {
            Move::Finish(Ok(()))
        } else if expected_digest(run.assets[run.position as int]) is None {
            Move::Finish(Err(TaErrorView::BadHashFormat))
        } else if is_hit(run.records, run.assets[run.position as int]) {
            Move::Skip
        } else {
            Move::Fetch
        },
    }
}

/// The run after it has passed over the asset at its position.
pub open spec fn after_skip(run: Run) -> Run {
    Run { position: run.position + 1, ..run }
}

/// The run after the fetch of the asset at its position gave `fetched`: an
/// error, or the digest of the bytes received. An error ends the run. A
/// digest is recorded for the asset's file name, whatever it is; if it is not
/// the one that the asset declares, the run ends with a mismatch that names
/// the digest found and the hash declared.
pub open spec fn after_delivery(run: Run, fetched: Result<Seq<u8>, TaErrorView>) -> Run {
    match fetched {
        Err(err) => Run { failure: Some(err), ..run },
        Ok(found) => {
            let def = run.assets[run.position as int];
            let records = upsert(run.records, def.filename@, found);
            if expected_digest(def) == Some(found) {
                Run { records, position: run.position + 1, ..run }
            } else {
                Run {
                    records,
                    failure: Some(TaErrorView::HashMismatch(to_hex_spec(found), def.hash@)),
                    ..run
                }
            }
        },
    }
}

/// What became of an asset that was to be fetched.
#[derive(PartialEq, Eq, Structural, Clone, Copy, Debug)]
pub enum Delivery {
    /// It was fetched, and has the digest that it declares.
    Verified,
    /// It was fetched, and has another digest than it declares.
    Mismatch,
    /// The fetch failed.
    Failed,
}

/// What became of the asset at the run's position, whose fetch gave `fetched`.
pub open spec fn delivery_of(run: Run, fetched: Result<Seq<u8>, TaErrorView>) -> Delivery {
    match fetched {
        Err(_) => Delivery::Failed,
        Ok(found) => if expected_digest(run.assets[run.position as int]) == Some(found) {
            Delivery::Verified
        } else {
            Delivery::Mismatch
        },
    }
}

/// The result of a run, as plain values.
pub open spec fn result_view(result: Result<(), TaError>) -> Result<(), TaErrorView> {
    match result {
        Ok(_) => Ok(()),
        Err(err) => Err(err@),
    }
}

/// What a fetch gave, as plain values.
pub open spec fn fetched_view(fetched: Result<DownloadOutcome, TaError>) -> Result<
    Seq<u8>,
    TaErrorView,
> {
    match fetched {
        Ok(DownloadOutcome::WithHash(found)) => Ok(found@),
        Err(err) => Err(err@),
    }
}

/// A run that is ready for its next step.
pub struct Batch {
    list: HashList,
    defs: Vec<TestAssetDef>,
    next: usize,
    failure: Option<TaError>,
}

/// A run that waits for the asset at its position to be fetched.
pub struct Pending {
    list: HashList,
    defs: Vec<TestAssetDef>,
    next: usize,
    expected: Sha256Hash,
}

/// What a run asks of its caller.
pub enum Step {
    /// The asset at this index is recorded with the digest it declares:
    /// nothing is fetched for it.
    Skip(usize, Batch),
    /// The asset at this index has to be fetched, and the result delivered.
    Fetch(usize, Pending),
    /// The run is over, with this result and this list to persist.
    Finish(Result<(), TaError>, HashList),
}

impl View for Batch {
    type V = Run;

    closed spec fn view(&self) -> Run {
        Run {
            records: self.list.records(),
            assets: self.defs@,
            position: self.next as nat,
            failure: match self.failure {
                Some(err) => Some(err@),
                None => None,
            },
        }
    }
}

impl View for Pending {
    type V = Run;

    closed spec fn view(&self) -> Run {
        Run {
            records: self.list.records(),
            assets: self.defs@,
            position: self.next as nat,
            failure: None,
        }
    }
}

impl Batch {
    /// A run over `defs` that starts from `list`.
    pub fn new(list: HashList, defs: Vec<TestAssetDef>) -> (batch: Self)
        ensures
            batch@ == (Run {
                records: list.records(),
                assets: defs@,
                position: 0,
                failure: None,
            }),
    {
        Batch { list, defs, next: 0, failure: None }
    }

    /// Makes the next move of the run, and hands out what the move needs:
    /// the index of the asset, and the run as it goes on; at the end, the
    /// result and the list to persist.
    pub fn step(self) -> (step: Step)
        ensures
            match next_move(self@) {
                Move::Finish(result) => {
                    &&& step matches Step::Finish(ended, list)
                    &&& result_view(ended) == result
                    &&& list.records() == self@.records
                    &&& distinct(list.records())
                },
                Move::Skip => {
                    &&& step matches Step::Skip(index, batch)
                    &&& index == self@.position
                    &&& batch@ == after_skip(self@)
                },
                Move::Fetch => {
                    &&& step matches Step::Fetch(index, pending)
                    &&& index == self@.position
                    &&& pending@ == self@
                },
            },
    {
        let Batch { list, defs, next, failure } = self;
        proof {
            use_type_invariant(&list);
        }
        if let Some(err) = failure {
            return Step::Finish(Err(err), list);
        }
        if next >= defs.len() {
            return Step::Finish(Ok(()), list);
        }
        let expected = match Sha256Hash::from_hex(defs[next].hash.as_str()) {
            Ok(expected) => expected,
            Err(err) => {
                return Step::Finish(Err(err), list);
            },
        };
        let hit = match list.get_hash(defs[next].filename.as_str()) {
            Some(recorded) => *recorded == expected,
            None => false,
        };
        if hit {
            Step::Skip(next, Batch { list, defs, next: next + 1, failure: None })
        } else {
            Step::Fetch(next, Pending { list, defs, next, expected })
        }
    }
}

impl Pending {
    #[verifier::type_invariant]
    spec fn wf(&self) -> bool {
        &&& self.next < self.defs@.len()
        &&& expected_digest(self.defs@[self.next as int]) == Some(self.expected@)
    }

    /// Takes what the fetch gave, and hands out the run as it goes on,
    /// with what became of the asset.
    pub fn deliver(self, fetched: Result<DownloadOutcome, TaError>) -> (next: (Batch, Delivery))
        ensures
            next.0@ == after_delivery(self@, fetched_view(fetched)),
            next.1 == delivery_of(self@, fetched_view(fetched)),
            next.1 is Verified <==> next.0@.failure is None,
    {
        proof {
            use_type_invariant(&self);
        }
        let Pending { list, defs, next, expected } = self;
        let mut list = list;
        assert(next < defs.len());
        match fetched {
            Err(err) => (Batch { list, defs, next, failure: Some(err) }, Delivery::Failed),
            Ok(DownloadOutcome::WithHash(found)) => {
                list.add_entry(defs[next].filename.as_str(), &found);
                if found == expected {
                    (Batch { list, defs, next: next + 1, failure: None }, Delivery::Verified)
                } else {
                    let mismatch = TaError::HashMismatch(found.to_hex(), defs[next].hash.clone());
                    (Batch { list, defs, next, failure: Some(mismatch) }, Delivery::Mismatch)
                }
            },
        }
    }
}

/// The result of a run whose list was then persisted: the run's own error
/// where it failed, else the error of persisting, else success.
pub fn conclude(result: Result<(), TaError>, persisted: Result<(), std::io::Error>) -> (end: Result<
    (),
    TaError,
>)
    ensures
        end == match (result, persisted) {
            (Err(err), _) => Err::<(), TaError>(err),
            (Ok(_), Err(err)) => Err(TaError::Io(err)),
            (Ok(_), Ok(_)) => Ok(()),
        },
{
    match result {
        Err(err) => Err(err),
        Ok(_) => match persisted {
            Err(err) => Err(TaError::from(err)),
            Ok(_) => Ok(()),
        },
    }
}

} // verus!
