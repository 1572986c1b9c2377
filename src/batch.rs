use vstd::prelude::*;

use crate::clock::now_millis;

verus! {

/// Limits of one group commit: how many publishes it may hold and how long
/// the first of them may wait for company.
#[derive(Debug, Clone, Copy)]
pub struct BatchConfig {
    /// Maximum number of items in a batch.
    pub max_batch_size: usize,
    /// Maximum time, in milliseconds, that a partial batch may wait.
    pub max_batch_delay_ms: u64,
}

impl Default for BatchConfig {
    fn default() -> (r: Self)
        ensures
            r.max_batch_size == 100,
            r.max_batch_delay_ms == 5,
    {
        BatchConfig { max_batch_size: 100, max_batch_delay_ms: 5 }
    }
}

impl BatchConfig {
    /// The limits given by the server configuration.
    pub fn from_config(batch_size: usize, batch_delay_ms: u64) -> (r: Self)
        ensures
            r.max_batch_size == batch_size,
            r.max_batch_delay_ms == batch_delay_ms,
    {
        BatchConfig { max_batch_size: batch_size, max_batch_delay_ms: batch_delay_ms }
    }

    /// Limits that flush every item at once, for tests.
    pub fn test_config() -> (r: Self)
        ensures
            r.max_batch_size == 1,
            r.max_batch_delay_ms == 1,
    {
        BatchConfig { max_batch_size: 1, max_batch_delay_ms: 1 }
    }
}

/// Time elapsed from `start` to `now`, or zero where the clock went back.
pub open spec fn elapsed_ms(start: u64, now: u64) -> nat {
    if now >= start {
        (now - start) as nat
    } else {
        0
    }
}

/// Collects items until the batch is full or its first item has waited
/// `max_batch_delay_ms`.
///
/// Times are milliseconds on the caller's clock: `batch_start` is the time
/// at which the first item of the current batch arrived.
#[derive(Debug)]
pub struct BatchAccumulator<T> {
    config: BatchConfig,
    items: Vec<T>,
    batch_start: Option<u64>,
}

impl<T> BatchAccumulator<T> {
    /// The items collected so far, oldest first.
    pub closed spec fn spec_items(&self) -> Seq<T> {
        self.items@
    }

    pub closed spec fn spec_config(&self) -> BatchConfig {
        self.config
    }

    /// When the first item of the current batch arrived.
    pub closed spec fn spec_batch_start(&self) -> Option<u64> {
        self.batch_start
    }

    /// A batch has a start time exactly when it holds an item.
    pub closed spec fn wf(&self) -> bool {
        (self.items@.len() == 0) == self.batch_start.is_none()
    }

    /// The batch should be flushed at time `now`: it holds an item and is
    /// either full or has waited long enough.
    pub open spec fn ready_at(&self, now: u64) -> bool {
        self.spec_items().len() > 0 && (self.spec_items().len() >= self.spec_config().max_batch_size
            || (self.spec_batch_start().is_some() && elapsed_ms(
            self.spec_batch_start().unwrap(),
            now,
        ) >= self.spec_config().max_batch_delay_ms))
    }

    /// An empty accumulator with the given limits.
    pub fn new(config: BatchConfig) -> (r: Self)
        ensures
            r.wf(),
            r.spec_items() == Seq::<T>::empty(),
            r.spec_config() == config,
    {
        BatchAccumulator { config, items: Vec::new(), batch_start: None }
    }

    /// Adds an item that arrived at time `now`, and says whether the batch is
    /// now ready to flush.
    pub fn push_at(&mut self, item: T, now: u64) -> (r: bool)
        requires
            old(self).wf(),
        ensures
            final(self).wf(),
            final(self).spec_items() == old(self).spec_items().push(item),
            final(self).spec_config() == old(self).spec_config(),
            final(self).spec_batch_start() == (if old(self).spec_items().len() == 0 {
                Some(now)
            } else {
                old(self).spec_batch_start()
            }),
            r == final(self).ready_at(now),
    {
        if self.batch_start.is_none() {
            self.batch_start = Some(now);
        }
        self.items.push(item);
        self.is_ready_at(now)
    }

    /// Adds an item, timed by the system clock, and says whether the batch is
    /// now ready to flush.
    pub fn push(&mut self, item: T) -> (r: bool)
        requires
            old(self).wf(),
        ensures
            final(self).wf(),
            final(self).spec_items() == old(self).spec_items().push(item),
            final(self).spec_config() == old(self).spec_config(),
            old(self).spec_items().len() == 0 ==> final(self).spec_batch_start() is Some,
            old(self).spec_items().len() > 0 ==> final(self).spec_batch_start() == old(
                self,
            ).spec_batch_start(),
            final(self).spec_items().len() >= final(self).spec_config().max_batch_size ==> r,
    {
        let now = clock_reading();
        self.push_at(item, now)
    }

    /// Whether the batch should be flushed at time `now`.
    pub fn is_ready_at(&self, now: u64) -> (r: bool)
        requires
            self.wf(),
        ensures
            r == self.ready_at(now),
    {
        if self.items.len() == 0 {
            return false;
        }
        if self.items.len() >= self.config.max_batch_size {
            return true;
        }
        match self.batch_start {
            Some(start) => {
                let waited: u64 = if now >= start {
                    now - start
                } else {
                    0
                };
                waited >= self.config.max_batch_delay_ms
            },
            None => false,
        }
    }

    /// Whether the batch should be flushed now, by the system clock.
    pub fn is_ready(&self) -> (r: bool)
        requires
            self.wf(),
        ensures
            self.spec_items().len() == 0 ==> !r,
            self.spec_items().len() > 0 && self.spec_items().len()
                >= self.spec_config().max_batch_size ==> r,
    {
        let now = clock_reading();
        self.is_ready_at(now)
    }

    /// How long, at time `now`, until the batch should be flushed: `None`
    /// for an empty batch, zero for one that is ready.
    pub fn time_until_ready_at(&self, now: u64) -> (r: Option<u64>)
        requires
            self.wf(),
        ensures
            self.spec_items().len() == 0 ==> r.is_none(),
            self.spec_items().len() > 0 && self.ready_at(now) ==> r == Some(0u64),
            self.spec_items().len() > 0 && !self.ready_at(now) ==> r == Some(
                (self.spec_config().max_batch_delay_ms - elapsed_ms(
                    self.spec_batch_start().unwrap(),
                    now,
                )) as u64,
            ),
    {
        if self.items.len() == 0 {
            return None;
        }
        if self.is_ready_at(now) {
            return Some(0);
        }
        match self.batch_start {
            Some(start) => {
                let waited: u64 = if now >= start {
                    now - start
                } else {
                    0
                };
                Some(self.config.max_batch_delay_ms - waited)
            },
            None => None,
        }
    }

    /// How long until the batch should be flushed, by the system clock.
    pub fn time_until_ready(&self) -> (r: Option<u64>)
        requires
            self.wf(),
        ensures
            self.spec_items().len() == 0 <==> r.is_none(),
            r.is_some() ==> r.unwrap() <= self.spec_config().max_batch_delay_ms,
    {
        let now = clock_reading();
        self.time_until_ready_at(now)
    }

    /// Hands out every collected item, oldest first, and starts a new batch.
    pub fn drain(&mut self) -> (r: Vec<T>)
        requires
            old(self).wf(),
        ensures
            final(self).wf(),
            r@ == old(self).spec_items(),
            final(self).spec_items() == Seq::<T>::empty(),
            final(self).spec_config() == old(self).spec_config(),
    {
        self.batch_start = None;
        let mut taken: Vec<T> = Vec::new();
        std::mem::swap(&mut taken, &mut self.items);
        taken
    }

    /// Whether the batch holds no item.
    pub fn is_empty(&self) -> (r: bool)
        ensures
            r == (self.spec_items().len() == 0),
    {
        self.items.len() == 0
    }

    /// The number of items in the batch.
    pub fn len(&self) -> (r: usize)
        ensures
            r == self.spec_items().len(),
    {
        self.items.len()
    }
}

/// In a well-formed accumulator a batch has a start time exactly when it
/// holds an item.
pub proof fn lemma_batch_start_iff_items<T>(b: &BatchAccumulator<T>)
    requires
        b.wf(),
    ensures
        (b.spec_items().len() == 0) == b.spec_batch_start().is_none(),
{
}

/// The system clock in milliseconds, read as zero before the epoch.
fn clock_reading() -> u64 {
    let ms = now_millis();
    if ms < 0 {
        0
    } else {
        ms as u64
    }
}

} // verus!
