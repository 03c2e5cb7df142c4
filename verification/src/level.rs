//! The load-leveling pieces of a per-thread runtime: the best-of-two random
//! choice of a worker, and the count of tasks in flight on each worker.

use vstd::prelude::*;

use std::sync::atomic::AtomicUsize;

use crate::text::{append_decimal, decimal_chars};
use std::sync::Arc;

verus! {

#[verifier::external_type_specification]
#[verifier::external_body]
pub struct ExThreadRng(rand::rngs::ThreadRng);

/// `rand::rng`: this thread's random number generator.
#[verifier::external_body]
fn thread_rng() -> rand::rngs::ThreadRng {
    rand::rng()
}

/// `rand::Rng::random_range(0..len)`: a uniformly random index below `len`.
/// Which index comes back is chance; only its range is stated.
#[verifier::external_body]
fn random_index(rng: &mut rand::rngs::ThreadRng, len: usize) -> (index: usize)
    requires
        len > 0,
    ensures
        index < len,
{
    rand::Rng::random_range(rng, 0..len)
}

/// Something with a count of tasks in flight.
pub trait Concurrency {
    /// Whether `concurrency` reports `load()`. Something whose count others
    /// change concurrently says nothing (the default), and nothing is then
    /// claimed of its count.
    open spec fn obeys_load() -> bool {
        false
    }

    /// How many tasks are in flight, for something that says it reports it.
    open spec fn load(&self) -> usize {
        0
    }

    /// How many tasks are in flight.
    fn concurrency(&self) -> (count: usize)
        ensures
            Self::obeys_load() ==> count == self.load(),
    ;
}

/// Of two candidates, the less loaded: `first` when its load is strictly
/// lower, otherwise `second`.
pub fn less_loaded(first: usize, first_load: usize, second: usize, second_load: usize) -> (choice: usize)
    ensures
        choice == if first_load < second_load { first } else { second },
        choice == first || choice == second,
{
    if first_load < second_load {
        first
    } else {
        second
    }
}

/// Of the two drawn workers `workers[first]` and `workers[second]`, the one
/// with fewer tasks in flight (the second on a tie). For workers that report
/// their load, the one picked is one of the two and carries no more load than
/// either.
pub fn pick_less_loaded<W: Concurrency>(workers: &[W], first: usize, second: usize) -> (worker: &W)
    requires
        first < workers@.len(),
        second < workers@.len(),
    ensures
        *worker == workers@[first as int] || *worker == workers@[second as int],
        W::obeys_load() ==> worker.load() <= workers@[first as int].load() && worker.load() <= workers@[
            second as int].load(),
        W::obeys_load() ==> (workers@[first as int].load() < workers@[second as int].load() ==> *worker
            == workers@[first as int]),
        W::obeys_load() ==> (workers@[second as int].load() <= workers@[first as int].load() ==> *worker
            == workers@[second as int]),
{
    let choice = less_loaded(first, workers[first].concurrency(), second, workers[second].concurrency());
    &workers[choice]
}

/// Pick a worker by best of two random choices: draw two indices and take
/// the worker with fewer tasks in flight (the second on a tie), as
/// [`pick_less_loaded`] does.
pub fn balance_workers<W: Concurrency>(workers: &[W]) -> (worker: &W)
    requires
        workers@.len() > 0,
    ensures
        exists|i: int| 0 <= i < workers@.len() && *worker == workers@[i],
{
    let mut rng = thread_rng();
    let a = random_index(&mut rng, workers.len());
    let b = random_index(&mut rng, workers.len());
    pick_less_loaded(workers, a, b)
}

/// The longest thread name prefix, in bytes: unix tools show 15 characters
/// of a thread's name, and a worker's index takes three (`-01`).
pub const MAX_THREAD_NAME_PREFIX: usize = 12;

/// The UTF-8 bytes of a string.
pub open spec fn str_bytes(s: &str) -> Seq<u8> {
    vstd::string::StringSliceAdditionalSpecFns::spec_bytes(s)
}

/// The thread name prefix kept from `name`: its first 12 bytes when it is
/// longer. (Cutting inside a character panics, so the cut must fall on a
/// character boundary.)
pub fn thread_name_prefix_of(name: &str) -> (prefix: &str)
    requires
        str_bytes(name).len() <= usize::MAX,
        str_bytes(name).len() > MAX_THREAD_NAME_PREFIX ==> vstd::utf8::is_char_boundary(
            str_bytes(name),
            MAX_THREAD_NAME_PREFIX as int,
        ),
    ensures
        str_bytes(prefix) == if str_bytes(name).len() > MAX_THREAD_NAME_PREFIX {
            str_bytes(name).subrange(0, MAX_THREAD_NAME_PREFIX as int)
        } else {
            str_bytes(name)
        },
{
    if name.len() > MAX_THREAD_NAME_PREFIX {
        let parts = name.split_at(MAX_THREAD_NAME_PREFIX);
        assert(str_bytes(parts.0) =~= str_bytes(name).subrange(0, MAX_THREAD_NAME_PREFIX as int));
        parts.0
    } else {
        name
    }
}

/// The name of worker thread `index`: the prefix, a dash, and the index in
/// decimal, padded to two digits.
pub fn worker_thread_name(prefix: &str, index: u64) -> (name: String)
    ensures
        name@ == prefix@ + "-"@ + (if index < 10 { "0"@ } else { Seq::<char>::empty() }) + decimal_chars(index as nat),
{
    proof {
        reveal_strlit("-");
        reveal_strlit("0");
    }
    let mut name = String::from_str(prefix);
    name.append("-");
    if index < 10 {
        name.append("0");
    }
    append_decimal(&mut name, index);
    assert(name@ =~= prefix@ + "-"@ + (if index < 10 { "0"@ } else { Seq::<char>::empty() }) + decimal_chars(index as nat));
    name
}

/// A value tracked by a shared count of tracked values in flight: the count
/// goes up when the value is wrapped and down when it is dropped.
pub struct ConcurrencyTracker<F> {
    concurrency: Arc<AtomicUsize>,
    future: F,
}

impl<F> ConcurrencyTracker<F> {
    /// The shared count.
    pub closed spec fn counter(&self) -> Arc<AtomicUsize> {
        self.concurrency
    }

    /// The tracked value.
    pub closed spec fn inner(&self) -> F {
        self.future
    }

    /// Count `future` as in flight in `concurrency` until the tracker drops.
    pub fn wrap(concurrency: Arc<AtomicUsize>, future: F) -> (tracker: Self)
        ensures
            tracker.counter() == concurrency,
            tracker.inner() == future,
    {
        concurrency.fetch_add(1, std::sync::atomic::Ordering::Relaxed);
        ConcurrencyTracker { concurrency, future }
    }

    /// The tracked value.
    pub fn future_mut(&mut self) -> (future: &mut F)
        ensures
            *future == old(self).inner(),
            final(self).inner() == *final(future),
            final(self).counter() == old(self).counter(),
    {
        &mut self.future
    }
}

impl<F> Drop for ConcurrencyTracker<F> {
    fn drop(&mut self)
        opens_invariants none
        no_unwind
    {
        release_one(&self.concurrency);
    }
}

/// `AtomicUsize::fetch_sub(1, Relaxed)`, which neither unwinds nor opens an
/// invariant. What it returns, and the count after, depend on other threads
/// and are not stated.
#[verifier::external_body]
fn release_one(counter: &AtomicUsize)
    opens_invariants none
    no_unwind
{
    counter.fetch_sub(1, std::sync::atomic::Ordering::Relaxed);
}

} // verus!
