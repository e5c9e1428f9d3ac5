//! Running a failed batch again after a pause, as long as the backoff of
//! `backon` hands out pauses. No pause is longer than the caller's longest
//! delay. The caller sleeps and runs; whether to go on, and for how long to
//! sleep, is decided here.

use vstd::prelude::*;

use crate::error::{TaError, TaErrorView};

verus! {

/// One second, in nanoseconds.
pub const SECOND: u128 = 1_000_000_000;

/// The longest time that a `std::time::Duration` holds, in nanoseconds.
pub const LONGEST: u128 = 18_446_744_073_709_551_615_999_999_999;

/// The exponential backoff of `backon`: an iterator over the pauses still to come.
#[verifier::external_type_specification]
#[verifier::external_body]
pub struct ExExponentialBackoff(backon::ExponentialBackoff);

/// The pauses that a backoff will still hand out, in nanoseconds, the next one first.
pub uninterp spec fn pauses_left(backoff: backon::ExponentialBackoff) -> Seq<u128>;

/// `pause`, but no more than `max_delay`.
pub open spec fn capped(pause: u128, max_delay: u128) -> u128 {
    if pause < max_delay {
        pause
    } else {
        max_delay
    }
}

/// The pauses that `backon` hands out: one second, then two and four
/// seconds, these two cut down to `max_delay`.
pub open spec fn backon_schedule(max_delay: u128) -> Seq<u128> {
    seq![SECOND, capped(2_000_000_000, max_delay), capped(4_000_000_000, max_delay)]
}

/// `pauses`, each cut down to `max_delay`.
pub open spec fn all_capped(pauses: Seq<u128>, max_delay: u128) -> Seq<u128> {
    Seq::new(pauses.len(), |i: int| capped(pauses[i], max_delay))
}

/// The pauses of a run with retries: one, two and four seconds, each cut
/// down to `max_delay`.
pub open spec fn schedule(max_delay: u128) -> Seq<u128> {
    seq![
        capped(SECOND, max_delay),
        capped(2_000_000_000, max_delay),
        capped(4_000_000_000, max_delay),
    ]
}

/// `backon::ExponentialBuilder::default`, `with_max_delay` and `build`: the
/// backoff with the crate's defaults (no jitter, factor 2, a first pause of
/// one second, three pauses in all) and the given longest pause. The first
/// pause is the crate's minimum, whatever `max_delay` is; each later one
/// doubles the one before and is then cut down to `max_delay`.
#[verifier::external_body]
fn backon_exponential(max_delay: u128) -> (backoff: backon::ExponentialBackoff)
    requires
        max_delay <= LONGEST,
    ensures
        pauses_left(backoff) == backon_schedule(max_delay),
{
    let longest = std::time::Duration::from_nanos_u128(max_delay);
    backon::BackoffBuilder::build(backon::ExponentialBuilder::default().with_max_delay(longest))
}

/// `Iterator::next` of `backon::ExponentialBackoff`: hands out the next
/// pause, in nanoseconds, or `None` once all were handed out.
#[verifier::external_body]
fn backon_next(backoff: &mut backon::ExponentialBackoff) -> (pause: Option<u128>)
    ensures
        pauses_left(*old(backoff)).len() == 0 ==> pause is None && pauses_left(*final(backoff))
            == pauses_left(*old(backoff)),
        pauses_left(*old(backoff)).len() > 0 ==> pause == Some(pauses_left(*old(backoff))[0])
            && pauses_left(*final(backoff)) == pauses_left(*old(backoff)).drop_first(),
{
    match backoff.next() {
        Some(pause) => Some(pause.as_nanos()),
        None => None,
    }
}

/// Whether a run that failed with `err` may be made again. A malformed hash
/// is a fault of the asset list, which no other run mends.
pub open spec fn retryable(err: TaErrorView) -> bool {
    !(err is BadHashFormat)
}

/// What to do after a run has failed.
pub enum Verdict {
    /// Sleep for this many nanoseconds, then run again.
    Wait(u128),
    /// Return this error, which is the one of the run that failed last.
    GiveUp(TaError),
}

/// The retries that a caller has left.
pub struct Retry {
    backoff: backon::ExponentialBackoff,
    max_delay: u128,
}

impl Retry {
    /// The pauses before the runs still to come, in nanoseconds: those that
    /// the backoff hands out, each cut down to the caller's longest delay.
    pub closed spec fn pauses(&self) -> Seq<u128> {
        all_capped(pauses_left(self.backoff), self.max_delay)
    }

    /// The retries of a caller that is to pause no longer than `max_delay`
    /// nanoseconds.
    pub fn new(max_delay: u128) -> (retry: Self)
        ensures
            retry.pauses() == schedule(max_delay),
    {
        let longest = if max_delay > LONGEST {
            LONGEST
        } else {
            max_delay
        };
        let retry = Retry { backoff: backon_exponential(longest), max_delay };
        assert(retry.pauses() =~= schedule(max_delay));
        retry
    }

    /// Decides what follows a run that failed with `err`: a pause and
    /// another run, while the error is one that another run may mend and a
    /// pause is left; else the error itself.
    pub fn after_failure(&mut self, err: TaError) -> (verdict: Verdict)
        ensures
            retryable(err@) && old(self).pauses().len() > 0 ==> verdict == Verdict::Wait(
                old(self).pauses()[0],
            ) && final(self).pauses() == old(self).pauses().drop_first(),
            !(retryable(err@) && old(self).pauses().len() > 0) ==> verdict == Verdict::GiveUp(err)
                && final(self).pauses() == old(self).pauses(),
    {
        if let TaError::BadHashFormat = err {
            return Verdict::GiveUp(err);
        }
        match backon_next(&mut self.backoff) {
            Some(pause) => {
                assert(self.pauses() =~= old(self).pauses().drop_first());
                if pause < self.max_delay {
                    Verdict::Wait(pause)
                } else {
                    Verdict::Wait(self.max_delay)
                }
            },
            None => Verdict::GiveUp(err),
        }
    }
}

/// The result of running with retries, where `attempt` gives the result of
/// each run by its number, `made` runs were made, and `pauses` are left: the
/// result of the first run that succeeds, is not worth a retry, or finds no
/// pause left.
pub open spec fn result_with_retries(
    attempt: spec_fn(int) -> Result<(), TaErrorView>,
    pauses: Seq<u128>,
    made: int,
) -> Result<(), TaErrorView>
    decreases pauses.len(),
{
    match attempt(made) {
        Ok(_) => Ok(()),
        Err(err) => if retryable(err) && pauses.len() > 0 {
            result_with_retries(attempt, pauses.drop_first(), made + 1)
        } else {
            Err(err)
        },
    }
}

/// The number of the run whose result running with retries returns.
pub open spec fn last_run(
    attempt: spec_fn(int) -> Result<(), TaErrorView>,
    pauses: Seq<u128>,
    made: int,
) -> int
    decreases pauses.len(),
{
    match attempt(made) {
        Ok(_) => made,
        Err(err) => if retryable(err) && pauses.len() > 0 {
            last_run(attempt, pauses.drop_first(), made + 1)
        } else {
            made
        },
    }
}

/// Running with retries returns the result of its last run, which comes
/// after no more runs than there are pauses; every run before it failed with
/// an error worth a retry.
pub proof fn lemma_result_is_of_last_run(
    attempt: spec_fn(int) -> Result<(), TaErrorView>,
    pauses: Seq<u128>,
    made: int,
)
    ensures
        made <= last_run(attempt, pauses, made) <= made + pauses.len(),
        result_with_retries(attempt, pauses, made) == match attempt(
            last_run(attempt, pauses, made),
        ) {
            Ok(_) => Ok::<(), TaErrorView>(()),
            Err(err) => Err(err),
        },
        forall|k: int|
            made <= k < last_run(attempt, pauses, made) ==> (#[trigger] attempt(k) matches Err(err)
                && retryable(err)),
    decreases pauses.len(),
{
    if let Err(err) = attempt(made) {
        if retryable(err) && pauses.len() > 0 {
            lemma_result_is_of_last_run(attempt, pauses.drop_first(), made + 1);
        }
    }
}

/// The time slept when running with retries, in nanoseconds: the pauses
/// between the runs that were made.
pub open spec fn time_slept(
    attempt: spec_fn(int) -> Result<(), TaErrorView>,
    pauses: Seq<u128>,
    made: int,
) -> nat
    decreases pauses.len(),
{
    match attempt(made) {
        Ok(_) => 0,
        Err(err) => if retryable(err) && pauses.len() > 0 {
            pauses[0] as nat + time_slept(attempt, pauses.drop_first(), made + 1)
        } else {
            0
        },
    }
}

/// Where no pause is longer than `max_delay`, the time slept is at most
/// `max_delay` for each run that followed another: nothing is slept before
/// the first run or after the last.
pub proof fn lemma_time_slept(
    attempt: spec_fn(int) -> Result<(), TaErrorView>,
    pauses: Seq<u128>,
    made: int,
    max_delay: u128,
)
    requires
        forall|i: int| 0 <= i < pauses.len() ==> #[trigger] pauses[i] <= max_delay,
    ensures
        time_slept(attempt, pauses, made) <= (last_run(attempt, pauses, made) - made) * max_delay,
    decreases pauses.len(),
{
    if let Err(err) = attempt(made) {
        if retryable(err) && pauses.len() > 0 {
            let rest = pauses.drop_first();
            assert forall|i: int| 0 <= i < rest.len() implies #[trigger] rest[i] <= max_delay by {
                assert(rest[i] == pauses[i + 1]);
            }
            lemma_time_slept(attempt, rest, made + 1, max_delay);
            let runs = last_run(attempt, rest, made + 1) - (made + 1);
            assert((runs + 1) * max_delay == runs * max_delay + max_delay) by (nonlinear_arith);
        }
    }
}

/// With the pauses of `schedule`, a batch is run four times at most; no
/// pause is longer than `max_delay`, and none is shorter than the one before.
pub proof fn lemma_schedule(max_delay: u128)
    ensures
        schedule(max_delay).len() == 3,
        forall|i: int| 0 <= i < 3 ==> #[trigger] schedule(max_delay)[i] <= max_delay,
        forall|i: int, j: int|
            0 <= i <= j < 3 ==> #[trigger] schedule(max_delay)[i] <= #[trigger] schedule(
                max_delay,
            )[j],
        schedule(max_delay) == all_capped(backon_schedule(max_delay), max_delay),
{
    assert(schedule(max_delay) =~= all_capped(backon_schedule(max_delay), max_delay));
}

/// Running with the pauses of `schedule` makes four runs at most and
/// sleeps, in all, no longer than `max_delay` for each run after the first.
pub proof fn lemma_retries_within_the_delay(
    attempt: spec_fn(int) -> Result<(), TaErrorView>,
    max_delay: u128,
)
    ensures
        0 <= last_run(attempt, schedule(max_delay), 0) <= 3,
        time_slept(attempt, schedule(max_delay), 0) <= last_run(attempt, schedule(max_delay), 0)
            * max_delay,
{
    lemma_schedule(max_delay);
    lemma_result_is_of_last_run(attempt, schedule(max_delay), 0);
    lemma_time_slept(attempt, schedule(max_delay), 0, max_delay);
}

} // verus!
