//! A bounded, duplicate-free record of identifiers whose relay succeeded,
//! oldest first.
use vstd::prelude::*;

verus! {

/// Number of identifiers the history keeps.
pub const HISTORY_CAPACITY: usize = 1000;

pub open spec fn no_duplicates(s: Seq<Seq<char>>) -> bool {
    forall|i: int, j: int| 0 <= i < j < s.len() ==> s[i] != s[j]
}

/// The history after recording `id`: unchanged if `id` is present, else
/// `id` appended and, beyond capacity, the oldest entry dropped.
pub open spec fn record_spec(h: Seq<Seq<char>>, id: Seq<char>) -> Seq<Seq<char>> {
    if h.contains(id) {
        h
    } else if h.len() + 1 > HISTORY_CAPACITY {
        h.push(id).drop_first()
    } else {
        h.push(id)
    }
}

/// The history after recording each of `ids` in turn.
pub open spec fn record_all(h: Seq<Seq<char>>, ids: Seq<Seq<char>>) -> Seq<Seq<char>>
    decreases ids.len(),
{
    if ids.len() == 0 {
        h
    } else {
        record_spec(record_all(h, ids.drop_last()), ids.last())
    }
}

pub open spec fn history_ok(h: Seq<Seq<char>>) -> bool {
    h.len() <= HISTORY_CAPACITY && no_duplicates(h)
}

pub struct SuccessHistory {
    entries: Vec<String>,
}

impl View for SuccessHistory {
    type V = Seq<Seq<char>>;

    closed spec fn view(&self) -> Seq<Seq<char>> {
        self.entries@.map_values(|s: String| s@)
    }
}

impl SuccessHistory {
    pub open spec fn wf(&self) -> bool {
        history_ok(self@)
    }

    pub fn new() -> (r: Self)
        ensures
            r@ == Seq::<Seq<char>>::empty(),
            r.wf(),
    {
        let r = SuccessHistory { entries: Vec::new() };
        assert(r@ =~= Seq::<Seq<char>>::empty());
        r
    }

    pub fn contains(&self, id: &String) -> (r: bool)
        ensures
            r == self@.contains(id@),
    {
        let mut i: usize = 0;
        while i < self.entries.len()
            invariant
                i <= self.entries@.len(),
                forall|j: int| 0 <= j < i ==> self@[j] != id@,
            decreases self.entries@.len() - i,
        {
            if self.entries[i] == *id {
                assert(self@[i as int] == id@);
                return true;
            }
            i = i + 1;
        }
        proof {
            if self@.contains(id@) {
                let j = choose|j: int| 0 <= j < self@.len() && self@[j] == id@;
                assert(self@[j] != id@);
            }
        }
        false
    }

    /// Records a confirmed identifier; see `record_spec`.
    pub fn record(&mut self, id: String)
        requires
            old(self).wf(),
        ensures
            final(self)@ == record_spec(old(self)@, id@),
            final(self).wf(),
    {
        if self.contains(&id) {
            return;
        }
        proof {
            lemma_record_keeps_history_ok(self@, id@);
        }
        let ghost before = self@;
        self.entries.push(id);
        assert(self@ =~= before.push(id@));
        if self.entries.len() > HISTORY_CAPACITY {
            self.entries.remove(0);
            assert(self@ =~= before.push(id@).drop_first());
        }
    }

    /// A copy of the entries, oldest first.
    pub fn snapshot(&self) -> (r: Vec<String>)
        ensures
            r@.map_values(|s: String| s@) == self@,
    {
        let mut out: Vec<String> = Vec::new();
        let mut i: usize = 0;
        while i < self.entries.len()
            invariant
                i <= self.entries@.len(),
                out@.len() == i,
                forall|j: int| 0 <= j < i ==> #[trigger] out@[j]@ == self.entries@[j]@,
            decreases self.entries@.len() - i,
        {
            out.push(self.entries[i].clone());
            i = i + 1;
        }
        assert(out@.map_values(|s: String| s@) =~= self@);
        out
    }

    pub fn len(&self) -> (r: usize)
        ensures
            r == self@.len(),
    {
        self.entries.len()
    }
}

/// Recording keeps the history within capacity and free of duplicates.
pub proof fn lemma_record_keeps_history_ok(h: Seq<Seq<char>>, id: Seq<char>)
    requires
        history_ok(h),
    ensures
        history_ok(record_spec(h, id)),
{
    if !h.contains(id) {
        let p = h.push(id);
        assert forall|i: int, j: int| 0 <= i < j < p.len() implies p[i] != p[j] by {
            if j == h.len() {
                assert(p[i] == h[i]);
            }
        }
        if h.len() + 1 > HISTORY_CAPACITY {
            let d = p.drop_first();
            assert forall|i: int, j: int| 0 <= i < j < d.len() implies d[i] != d[j] by {
                assert(d[i] == p[i + 1] && d[j] == p[j + 1]);
            }
        }
    }
}

/// From any well-formed history, any run of recordings keeps it within
/// capacity and free of duplicates.
pub proof fn lemma_history_stays_bounded(h: Seq<Seq<char>>, ids: Seq<Seq<char>>)
    requires
        history_ok(h),
    ensures
        history_ok(record_all(h, ids)),
    decreases ids.len(),
{
    if ids.len() > 0 {
        lemma_history_stays_bounded(h, ids.drop_last());
        lemma_record_keeps_history_ok(record_all(h, ids.drop_last()), ids.last());
    }
}

/// Up to capacity, distinct identifiers recorded into an empty history are
/// kept in the order they came.
pub proof fn lemma_history_keeps_order(ids: Seq<Seq<char>>)
    requires
        no_duplicates(ids),
        ids.len() <= HISTORY_CAPACITY,
    ensures
        record_all(Seq::empty(), ids) == ids,
    decreases ids.len(),
{
    if ids.len() > 0 {
        let prev = ids.drop_last();
        assert(no_duplicates(prev));
        lemma_history_keeps_order(prev);
        if prev.contains(ids.last()) {
            let j = choose|j: int| 0 <= j < prev.len() && prev[j] == ids.last();
            assert(ids[j] == ids[ids.len() - 1]);
        }
        assert(prev.push(ids.last()) =~= ids);
    }
}

/// After one more distinct identifier than the capacity has been recorded
/// into an empty history, the first is gone and the rest remain in order.
pub proof fn lemma_history_evicts_oldest(ids: Seq<Seq<char>>)
    requires
        no_duplicates(ids),
        ids.len() == HISTORY_CAPACITY + 1,
    ensures
        record_all(Seq::empty(), ids) == ids.drop_first(),
        !record_all(Seq::empty(), ids).contains(ids[0]),
{
    let prev = ids.drop_last();
    assert(no_duplicates(prev));
    lemma_history_keeps_order(prev);
    if prev.contains(ids.last()) {
        let j = choose|j: int| 0 <= j < prev.len() && prev[j] == ids.last();
        assert(ids[j] == ids[ids.len() - 1]);
    }
    assert(prev.push(ids.last()) =~= ids);
    let r = ids.drop_first();
    if r.contains(ids[0]) {
        let j = choose|j: int| 0 <= j < r.len() && r[j] == ids[0];
        assert(ids[j + 1] == ids[0]);
    }
}

} // verus!
