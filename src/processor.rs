//! The dispatch side of the pipeline: a queue of pending identifiers without
//! duplicates, the flag that admits a single drain loop, the batches that
//! loop takes, and the history of relays that succeeded.
//!
//! The caller holds an `AvatarProcessor` under one lock, performs the relay
//! requests of each batch, and hands the outcomes back.
use vstd::prelude::*;
use vstd::string::StringExecFns;

use crate::matcher::{find_avatar_id, has_id, id_text, is_first_id_at};
use crate::history::{history_ok, no_duplicates, record_spec, SuccessHistory};

verus! {

/// Most relay requests in flight at once, which is the size of a batch.
pub const MAX_CONCURRENT: usize = 3;

/// Endpoint that a relay request is posted to, before the identifier.
pub const RELAY_URL_PREFIX: &'static str = "https://paw-api.amelia.fun/update?avatarId=";

/// Value of the `User-Agent` header of a relay request.
pub const USER_AGENT: &'static str = "PAW-APP/0.0.1";

pub open spec fn texts(v: Seq<String>) -> Seq<Seq<char>> {
    v.map_values(|s: String| s@)
}

/// The pending queue after `id` is offered to it.
pub open spec fn enqueue_pending(q: Seq<Seq<char>>, id: Seq<char>) -> Seq<Seq<char>> {
    if q.contains(id) {
        q
    } else {
        q.push(id)
    }
}

/// Size of the batch taken from a queue of `n` identifiers.
pub open spec fn batch_len(n: int) -> int {
    if n < MAX_CONCURRENT {
        n
    } else {
        MAX_CONCURRENT as int
    }
}

/// Queue, drain flag and number of drain loops started after `ids` are
/// enqueued one after another, from queue `q` and flag `active`.
pub open spec fn enqueue_run(q: Seq<Seq<char>>, active: bool, ids: Seq<Seq<char>>) -> (
    Seq<Seq<char>>,
    bool,
    nat,
)
    decreases ids.len(),
{
    if ids.len() == 0 {
        (q, active, 0)
    } else {
        let prev = enqueue_run(q, active, ids.drop_last());
        (enqueue_pending(prev.0, ids.last()), true, prev.2 + if prev.1 {
            0nat
        } else {
            1nat
        })
    }
}

/// An HTTP status in the success class.
pub open spec fn is_success_status(code: u16) -> bool {
    200 <= code <= 299
}

/// A relay succeeded when a response came back with a success status.
pub open spec fn relay_succeeded_spec(status: Option<u16>) -> bool {
    match status {
        Some(code) => is_success_status(code),
        None => false,
    }
}

/// Whether a relay whose response carried `status` (`None`: no response)
/// succeeded.
pub fn relay_succeeded(status: Option<u16>) -> (r: bool)
    ensures
        r == relay_succeeded_spec(status),
{
    match status {
        Some(code) => 200 <= code && code <= 299,
        None => false,
    }
}

/// The address a relay request for `avatar_id` is posted to.
pub fn relay_url(avatar_id: &str) -> (r: String)
    ensures
        r@ == RELAY_URL_PREFIX@ + avatar_id@,
{
    let mut url = RELAY_URL_PREFIX.to_owned();
    url.append(avatar_id);
    url
}

fn contains_text(v: &Vec<String>, id: &String) -> (r: bool)
    ensures
        r == texts(v@).contains(id@),
{
    let mut i: usize = 0;
    while i < v.len()
        invariant
            i <= v@.len(),
            forall|j: int| 0 <= j < i ==> texts(v@)[j] != id@,
        decreases v@.len() - i,
    {
        if v[i] == *id {
            assert(texts(v@)[i as int] == id@);
            return true;
        }
        i = i + 1;
    }
    proof {
        if texts(v@).contains(id@) {
            let j = choose|j: int| 0 <= j < texts(v@).len() && texts(v@)[j] == id@;
            assert(texts(v@)[j] != id@);
        }
    }
    false
}

pub struct AvatarProcessor {
    queue: Vec<String>,
    is_processing: bool,
    successful_posts: SuccessHistory,
}

impl AvatarProcessor {
    /// Identifiers waiting for a batch, oldest first.
    pub closed spec fn pending(&self) -> Seq<Seq<char>> {
        texts(self.queue@)
    }

    /// Whether a drain loop is active.
    pub closed spec fn processing(&self) -> bool {
        self.is_processing
    }

    /// Identifiers whose relay succeeded, oldest first.
    pub closed spec fn history(&self) -> Seq<Seq<char>> {
        self.successful_posts@
    }

    /// The queue holds no identifier twice, it is empty whenever no drain
    /// loop is active, and the history is within bounds.
    pub open spec fn wf(&self) -> bool {
        &&& no_duplicates(self.pending())
        &&& (!self.processing() ==> self.pending().len() == 0)
        &&& history_ok(self.history())
    }

    pub fn new() -> (r: Self)
        ensures
            r.pending() == Seq::<Seq<char>>::empty(),
            !r.processing(),
            r.history() == Seq::<Seq<char>>::empty(),
            r.wf(),
    {
        let r = AvatarProcessor {
            queue: Vec::new(),
            is_processing: false,
            successful_posts: SuccessHistory::new(),
        };
        assert(r.pending() =~= Seq::<Seq<char>>::empty());
        r
    }

    /// Adds `avatar_id` to the queue unless it is already waiting. Returns
    /// true when no drain loop was active: the caller must then start one,
    /// which runs until `next_batch` finds the queue empty.
    pub fn process_avatar(&mut self, avatar_id: String) -> (start: bool)
        requires
            old(self).wf(),
        ensures
            final(self).pending() == enqueue_pending(old(self).pending(), avatar_id@),
            final(self).processing(),
            start == !old(self).processing(),
            final(self).history() == old(self).history(),
            final(self).wf(),
    {
        if !contains_text(&self.queue, &avatar_id) {
            proof {
                lemma_enqueue_keeps_unique(self.pending(), avatar_id@);
            }
            let ghost before = self.queue@;
            self.queue.push(avatar_id);
            assert(texts(self.queue@) =~= texts(before).push(avatar_id@));
        }
        let start = !self.is_processing;
        self.is_processing = true;
        start
    }

    /// Scans the content of a data file and enqueues the first identifier
    /// in it, if any. Returns true when the caller must start a drain loop.
    pub fn ingest_content(&mut self, content: &[u8]) -> (start: bool)
        requires
            old(self).wf(),
        ensures
            !has_id(content@) ==> !start && *final(self) == *old(self),
            has_id(content@) ==> exists|i: int|
                is_first_id_at(content@, i) && final(self).pending() == enqueue_pending(
                    old(self).pending(),
                    #[trigger] id_text(content@, i),
                ),
            has_id(content@) ==> start == !old(self).processing() && final(self).processing(),
            final(self).history() == old(self).history(),
            final(self).wf(),
    {
        match find_avatar_id(content) {
            Some(id) => self.process_avatar(id),
            None => false,
        }
    }

    /// The drain loop's step. Takes up to `MAX_CONCURRENT` identifiers from
    /// the front of the queue as the next batch. When the queue is empty,
    /// returns `None` and marks the drain loop finished.
    pub fn next_batch(&mut self) -> (r: Option<Vec<String>>)
        requires
            old(self).wf(),
        ensures
            old(self).pending().len() == 0 ==> r is None && !final(self).processing()
                && final(self).pending() == old(self).pending(),
            old(self).pending().len() > 0 ==> r is Some && final(self).processing()
                == old(self).processing(),
            r matches Some(b) ==> {
                let k = batch_len(old(self).pending().len() as int);
                &&& b@.len() == k
                &&& b@.len() <= MAX_CONCURRENT
                &&& texts(b@) == old(self).pending().take(k)
                &&& final(self).pending() == old(self).pending().skip(k)
            },
            final(self).history() == old(self).history(),
            final(self).wf(),
    {
        let n = self.queue.len();
        if n == 0 {
            self.is_processing = false;
            return None;
        }
        let k: usize = if n < MAX_CONCURRENT {
            n
        } else {
            MAX_CONCURRENT
        };
        let ghost before = self.queue@;
        let mut batch = self.queue.split_off(k);
        core::mem::swap(&mut self.queue, &mut batch);
        assert(texts(batch@) =~= texts(before).take(k as int));
        assert(texts(self.queue@) =~= texts(before).skip(k as int));
        proof {
            lemma_skip_keeps_unique(texts(before), k as int);
        }
        Some(batch)
    }

    /// Hands back the outcome of one relay: `status` is the response's HTTP
    /// status, or `None` where no response came. On success the identifier
    /// enters the history. Returns whether the relay succeeded.
    pub fn record_relay(&mut self, avatar_id: String, status: Option<u16>) -> (ok: bool)
        requires
            old(self).wf(),
        ensures
            ok == relay_succeeded_spec(status),
            final(self).history() == if ok {
                record_spec(old(self).history(), avatar_id@)
            } else {
                old(self).history()
            },
            final(self).pending() == old(self).pending(),
            final(self).processing() == old(self).processing(),
            final(self).wf(),
    {
        let ok = relay_succeeded(status);
        if ok {
            self.successful_posts.record(avatar_id);
        }
        ok
    }

    /// The identifiers whose relay succeeded, oldest first.
    pub fn get_successful_posts(&self) -> (r: Vec<String>)
        ensures
            texts(r@) == self.history(),
    {
        self.successful_posts.snapshot()
    }

    /// The identifiers waiting for a batch, oldest first.
    pub fn pending_ids(&self) -> (r: Vec<String>)
        ensures
            texts(r@) == self.pending(),
    {
        let mut r: Vec<String> = Vec::new();
        let mut i: usize = 0;
        while i < self.queue.len()
            invariant
                i <= self.queue@.len(),
                r@.len() == i,
                forall|j: int| 0 <= j < i ==> #[trigger] r@[j]@ == self.queue@[j]@,
            decreases self.queue@.len() - i,
        {
            r.push(self.queue[i].clone());
            i = i + 1;
        }
        assert(texts(r@) =~= self.pending());
        r
    }

    pub fn is_processing(&self) -> (r: bool)
        ensures
            r == self.processing(),
    {
        self.is_processing
    }
}

/// Offering an identifier keeps the queue free of duplicates.
pub proof fn lemma_enqueue_keeps_unique(q: Seq<Seq<char>>, id: Seq<char>)
    requires
        no_duplicates(q),
    ensures
        no_duplicates(enqueue_pending(q, id)),
{
    if !q.contains(id) {
        let p = q.push(id);
        assert forall|i: int, j: int| 0 <= i < j < p.len() implies p[i] != p[j] by {
            if j == q.len() {
                assert(p[i] == q[i]);
            }
        }
    }
}

/// Taking a batch from the front keeps the queue free of duplicates.
pub proof fn lemma_skip_keeps_unique(q: Seq<Seq<char>>, k: int)
    requires
        no_duplicates(q),
        0 <= k <= q.len(),
    ensures
        no_duplicates(q.skip(k)),
{
    let s = q.skip(k);
    assert forall|i: int, j: int| 0 <= i < j < s.len() implies s[i] != s[j] by {
        assert(s[i] == q[i + k] && s[j] == q[j + k]);
    }
}

/// Whatever identifiers are enqueued, one after another, the queue never
/// holds one twice, and every one of them is waiting afterwards.
pub proof fn lemma_pending_never_duplicates(
    q: Seq<Seq<char>>,
    active: bool,
    ids: Seq<Seq<char>>,
)
    requires
        no_duplicates(q),
    ensures
        no_duplicates(enqueue_run(q, active, ids).0),
        forall|i: int| 0 <= i < ids.len() ==> enqueue_run(q, active, ids).0.contains(#[trigger] ids[i]),
    decreases ids.len(),
{
    if ids.len() > 0 {
        let prev = ids.drop_last();
        lemma_pending_never_duplicates(q, active, prev);
        let p = enqueue_run(q, active, prev).0;
        lemma_enqueue_keeps_unique(p, ids.last());
        let r = enqueue_pending(p, ids.last());
        assert forall|i: int| 0 <= i < ids.len() implies r.contains(#[trigger] ids[i]) by {
            if i < prev.len() {
                assert(p.contains(prev[i]));
                let j = choose|j: int| 0 <= j < p.len() && p[j] == prev[i];
                if !p.contains(ids.last()) {
                    assert(r[j] == p[j]);
                }
            } else if !p.contains(ids.last()) {
                assert(r[p.len() as int] == ids.last());
            }
        }
    }
}

/// However many identifiers are enqueued, at most one drain loop is
/// started: exactly one when none was active and something was enqueued,
/// none otherwise; and a loop is active afterwards.
pub proof fn lemma_one_drain_loop(q: Seq<Seq<char>>, active: bool, ids: Seq<Seq<char>>)
    ensures
        enqueue_run(q, active, ids).2 == if !active && ids.len() > 0 {
            1nat
        } else {
            0nat
        },
        ids.len() > 0 ==> enqueue_run(q, active, ids).1,
    decreases ids.len(),
{
    if ids.len() > 0 {
        lemma_one_drain_loop(q, active, ids.drop_last());
    }
}

} // verus!
