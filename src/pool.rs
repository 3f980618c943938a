//! Worker-count derivation, round-robin dispatch, and the bounded per-worker
//! queues that dispatch offers connections to without ever waiting.
use vstd::prelude::*;
use std::collections::VecDeque;
use crate::text::{chars_of, parse_usize, parse_usize_range};

verus! {

/// Worker count used when neither configuration nor the platform gives one.
pub const DEFAULT_POOL_SIZE: usize = 4;

/// Connections each worker's queue holds at most.
pub const QUEUE_CAPACITY: usize = 100;

/// Log entries the log queue holds at most.
pub const LOG_QUEUE_CAPACITY: usize = 100;

/// The worker count chosen from a parsed configuration value and the
/// platform's reported parallelism.
pub open spec fn pool_size_of(configured: Option<usize>, parallelism: Option<usize>) -> usize {
    match configured {
        Some(n) => if n == 0 {
            1
        } else {
            n
        },
        None => match parallelism {
            Some(p) => if p > 0 {
                p
            } else {
                DEFAULT_POOL_SIZE
            },
            None => DEFAULT_POOL_SIZE,
        },
    }
}

/// A configured worker count, read as a decimal number.
pub open spec fn configured_size(env_value: Option<String>) -> Option<usize> {
    match env_value {
        Some(v) => parse_usize(v@),
        None => None,
    }
}

/// The worker count: the configured value where it reads as a number (0
/// counting as 1), else the platform's parallelism where it is positive, else
/// [`DEFAULT_POOL_SIZE`].
pub fn compute_pool_size(env_value: Option<String>, available_parallelism: Option<usize>) -> (r:
    usize)
    ensures
        r == pool_size_of(configured_size(env_value), available_parallelism),
        r >= 1,
{
    let configured = match &env_value {
        Some(v) => {
            let c = chars_of(v.as_str());
            assert(c@.subrange(0, c@.len() as int) =~= v@);
            parse_usize_range(&c, 0, c.len())
        },
        None => None,
    };
    match configured {
        Some(n) => if n == 0 {
            1
        } else {
            n
        },
        None => match available_parallelism {
            Some(p) => if p > 0 {
                p
            } else {
                DEFAULT_POOL_SIZE
            },
            None => DEFAULT_POOL_SIZE,
        },
    }
}

/// Worker-count fallbacks: a configured 0 gives one worker, never none; a
/// value that is absent or does not read as a number gives the platform's
/// parallelism; where that is unknown too, four.
pub proof fn lemma_pool_size_fallbacks(env_value: Option<String>, parallelism: Option<usize>)
    ensures
        configured_size(env_value) == Some(0usize) ==> pool_size_of(
            configured_size(env_value),
            parallelism,
        ) == 1,
        (configured_size(env_value) is None && (parallelism matches Some(p) && p > 0)) ==> Some(
            pool_size_of(configured_size(env_value), parallelism),
        ) == parallelism,
        configured_size(env_value) is None && parallelism is None ==> pool_size_of(
            configured_size(env_value),
            parallelism,
        ) == 4,
        pool_size_of(configured_size(env_value), parallelism) >= 1,
{
}

/// Hands out worker indices in strict rotation, one per accepted connection.
pub struct Dispatcher {
    pool_size: usize,
    next: usize,
}

/// The worker that the connection numbered `n` (from 0) goes to.
pub open spec fn slot_after(n: nat, size: nat) -> nat
    decreases n,
{
    if n == 0 {
        0
    } else {
        (slot_after((n - 1) as nat, size) + 1) % size
    }
}

impl Dispatcher {
    /// The number of workers.
    pub closed spec fn size(&self) -> nat {
        self.pool_size as nat
    }

    /// The worker the next connection goes to.
    pub closed spec fn cursor(&self) -> nat {
        self.next as nat
    }

    /// At least one worker, and the cursor names one of them.
    pub open spec fn wf(&self) -> bool {
        self.size() >= 1 && self.cursor() < self.size()
    }

    /// A dispatcher over `pool_size` workers, starting at the first.
    pub fn new(pool_size: usize) -> (r: Dispatcher)
        requires
            pool_size >= 1,
        ensures
            r.wf(),
            r.size() == pool_size,
            r.cursor() == 0,
    {
        Dispatcher { pool_size, next: 0 }
    }

    /// The number of workers.
    pub fn pool_size(&self) -> (r: usize)
        ensures
            r == self.size(),
    {
        self.pool_size
    }

    /// The worker for the next accepted connection; the rotation moves on by one.
    pub fn assign(&mut self) -> (r: usize)
        requires
            old(self).wf(),
        ensures
            r == old(self).cursor(),
            final(self).size() == old(self).size(),
            final(self).cursor() == (old(self).cursor() + 1) % old(self).size(),
            final(self).wf(),
    {
        let r = self.next;
        self.next = if self.next + 1 == self.pool_size {
            0
        } else {
            self.next + 1
        };
        assert(self.next == (r + 1) % (self.pool_size as int)) by {
            if r + 1 < self.pool_size {
                vstd::arithmetic::div_mod::lemma_small_mod((r + 1) as nat, self.pool_size as nat);
            } else {
                vstd::arithmetic::div_mod::lemma_mod_self_0(self.pool_size as int);
            }
        }
        r
    }
}

/// Round robin: from a fresh dispatcher, the connection numbered `n` (from 0)
/// goes to worker `n mod size`.
pub proof fn lemma_round_robin(size: nat, n: nat)
    requires
        size >= 1,
    ensures
        slot_after(n, size) == n % size,
    decreases n,
{
    if n == 0 {
        vstd::arithmetic::div_mod::lemma_small_mod(0, size);
    } else {
        let m = (n - 1) as nat;
        lemma_round_robin(size, m);
        vstd::arithmetic::div_mod::lemma_add_mod_noop(m as int, 1, size as int);
        if size > 1 {
            vstd::arithmetic::div_mod::lemma_small_mod(1, size);
        } else {
            assert((m % size + 1) % size == 0);
            assert((m + 1) % size == 0);
        }
    }
}

/// What became of an offer to a worker's queue.
pub enum Offer<T> {
    /// Queued for the worker.
    Accepted,
    /// The queue was full; the item is handed back, to be dropped.
    Full(T),
    /// The worker is gone; the item is handed back, to be dropped.
    Closed(T),
}

/// A bounded first-in first-out queue of work for one worker.
pub struct WorkQueue<T> {
    items: VecDeque<T>,
    capacity: usize,
    closed: bool,
}

impl<T> WorkQueue<T> {
    /// The queued items, oldest first.
    pub closed spec fn items(&self) -> Seq<T> {
        self.items@
    }

    /// How many items the queue holds at most.
    pub closed spec fn capacity(&self) -> nat {
        self.capacity as nat
    }

    /// Whether the consumer is gone.
    pub closed spec fn is_closed(&self) -> bool {
        self.closed
    }

    /// The queue holds no more than its capacity.
    pub open spec fn wf(&self) -> bool {
        self.items().len() <= self.capacity()
    }

    /// An empty, open queue of the given capacity.
    pub fn new(capacity: usize) -> (r: WorkQueue<T>)
        ensures
            r.wf(),
            r.items() == Seq::<T>::empty(),
            r.capacity() == capacity,
            !r.is_closed(),
    {
        WorkQueue { items: VecDeque::new(), capacity, closed: false }
    }

    /// How many items are queued.
    pub fn len(&self) -> (r: usize)
        ensures
            r == self.items().len(),
    {
        self.items.len()
    }

    /// Queues `item` unless the queue is full or closed; never waits.
    pub fn offer(&mut self, item: T) -> (r: Offer<T>)
        requires
            old(self).wf(),
        ensures
            final(self).wf(),
            final(self).capacity() == old(self).capacity(),
            final(self).is_closed() == old(self).is_closed(),
            old(self).is_closed() ==> r == Offer::Closed(item) && final(self).items() == old(
                self,
            ).items(),
            !old(self).is_closed() && old(self).items().len() < old(self).capacity() ==> r
                == Offer::<T>::Accepted && final(self).items() == old(self).items().push(item),
            !old(self).is_closed() && old(self).items().len() >= old(self).capacity() ==> r
                == Offer::Full(item) && final(self).items() == old(self).items(),
    {
        if self.closed {
            Offer::Closed(item)
        } else if self.items.len() < self.capacity {
            self.items.push_back(item);
            Offer::Accepted
        } else {
            Offer::Full(item)
        }
    }

    /// Removes the oldest item, if any.
    pub fn take(&mut self) -> (r: Option<T>)
        requires
            old(self).wf(),
        ensures
            final(self).wf(),
            final(self).capacity() == old(self).capacity(),
            final(self).is_closed() == old(self).is_closed(),
            old(self).items().len() > 0 ==> r == Some(old(self).items()[0]) && final(self).items()
                == old(self).items().drop_first(),
            old(self).items().len() == 0 ==> r is None && final(self).items() == old(self).items(),
    {
        self.items.pop_front()
    }

    /// Marks the consumer as gone: later offers are handed back.
    pub fn close(&mut self)
        requires
            old(self).wf(),
        ensures
            final(self).wf(),
            final(self).is_closed(),
            final(self).capacity() == old(self).capacity(),
            final(self).items() == old(self).items(),
    {
        self.closed = true;
    }
}

/// The event logged when a connection is dropped because its queue was full.
pub open spec fn queue_full_notice() -> Seq<char> {
    "Connection dropped: worker queue is full"@
}

/// The event logged when a connection is dropped because its worker is gone.
pub open spec fn queue_closed_notice() -> Seq<char> {
    "Worker queue disconnected \u{2013} dropping connection"@
}

/// The event to log for an offer: one for each dropped connection, naming
/// why, and none for an accepted one.
pub fn drop_notice<T>(offer: &Offer<T>) -> (r: Option<&'static str>)
    ensures
        offer is Accepted ==> r is None,
        offer is Full ==> (r matches Some(s) && s@ == queue_full_notice()),
        offer is Closed ==> (r matches Some(s) && s@ == queue_closed_notice()),
{
    match offer {
        Offer::Accepted => None,
        Offer::Full(_) => Some("Connection dropped: worker queue is full"),
        Offer::Closed(_) => Some("Worker queue disconnected \u{2013} dropping connection"),
    }
}

/// How many of `k` offers are refused by an open queue of capacity `cap`
/// that holds `len` items and from which nothing is taken meanwhile: each
/// offer is accepted while there is room, as [`WorkQueue::offer`] states.
pub open spec fn refused(len: nat, cap: nat, k: nat) -> nat
    decreases k,
{
    if k == 0 {
        0
    } else if len < cap {
        refused(len + 1, cap, (k - 1) as nat)
    } else {
        1 + refused(len, cap, (k - 1) as nat)
    }
}

proof fn lemma_refused_from(len: nat, cap: nat, k: nat)
    requires
        len <= cap,
    ensures
        refused(len, cap, k) == if len + k > cap {
            (len + k - cap) as nat
        } else {
            0
        },
    decreases k,
{
    if k > 0 {
        if len < cap {
            lemma_refused_from(len + 1, cap, (k - 1) as nat);
        } else {
            lemma_refused_from(len, cap, (k - 1) as nat);
        }
    }
}

/// Backpressure: when `k` connections reach one worker's empty queue of
/// capacity `cap` before it takes any, exactly those beyond `cap` are refused,
/// each with one queue-full event.
pub proof fn lemma_saturation_drops(cap: nat, k: nat)
    ensures
        refused(0, cap, k) == if k > cap {
            (k - cap) as nat
        } else {
            0
        },
        k > cap ==> refused(0, cap, k) >= 1,
{
    lemma_refused_from(0, cap, k);
}

/// With one worker, every connection is assigned to it.
pub proof fn lemma_single_worker_takes_all(n: nat)
    ensures
        slot_after(n, 1) == 0,
{
    lemma_round_robin(1, n);
}

} // verus!
