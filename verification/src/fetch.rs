//! The decisions of the commands that ask the API several times: retrying a
//! failed node query, putting concurrently fetched node results back in the
//! order they were asked for, and walking the pages of the node list.
use vstd::prelude::*;
use crate::json::{Json, get, as_array};

verus! {

// ---------------------------------------------------------------------------
// Retrying a node query
// ---------------------------------------------------------------------------

/// How many times a node is asked for before it is given up.
pub const MAX_ATTEMPTS: u32 = 3;

/// What to do after an attempt.
pub enum Attempt<T, E> {
    /// The attempt succeeded with this answer.
    Done(T),
    /// The attempt failed; ask again.
    Retry,
    /// The attempt failed and was the last one allowed; give the node up.
    GiveUp(E),
}

/// The decision after an attempt, given how many attempts were made before it.
pub enum Decision {
    Done,
    Retry,
    GiveUp,
}

/// The decision after an attempt that succeeded (`ok`) or failed, when
/// `made` attempts preceded it.
pub open spec fn decide(made: nat, ok: bool) -> Decision {
    if ok {
        Decision::Done
    } else if made + 1 < MAX_ATTEMPTS {
        Decision::Retry
    } else {
        Decision::GiveUp
    }
}

/// The decision that an `Attempt` stands for.
pub open spec fn decision_of<T, E>(a: Attempt<T, E>) -> Decision {
    match a {
        Attempt::Done(_) => Decision::Done,
        Attempt::Retry => Decision::Retry,
        Attempt::GiveUp(_) => Decision::GiveUp,
    }
}

/// The attempts made to fetch one node.
pub struct Retrier {
    made: u32,
}

impl Retrier {
    /// How many attempts were made (counting stops at `MAX_ATTEMPTS`).
    pub closed spec fn made(&self) -> nat {
        self.made as nat
    }

    /// No attempt made yet.
    pub fn new() -> (r: Retrier)
        ensures
            r.made() == 0,
    {
        Retrier { made: 0 }
    }

    /// Records the outcome of an attempt and decides what to do next: a
    /// success ends the attempts with its answer; a failure is retried while
    /// fewer than `MAX_ATTEMPTS` attempts were made, and gives the node up,
    /// with the failure, after that.
    pub fn record<T, E>(&mut self, outcome: Result<T, E>) -> (r: Attempt<T, E>)
        ensures
            decision_of(r) == decide(old(self).made(), outcome is Ok),
            final(self).made() == if old(self).made() < MAX_ATTEMPTS {
                old(self).made() + 1
            } else {
                old(self).made()
            },
            outcome matches Ok(v) ==> r == Attempt::<T, E>::Done(v),
            outcome matches Err(e) ==> (r is Retry || r == Attempt::<T, E>::GiveUp(e)),
    {
        let before = self.made;
        if self.made < MAX_ATTEMPTS {
            self.made = self.made + 1;
        }
        match outcome {
            Ok(v) => Attempt::Done(v),
            Err(e) => {
                if before < MAX_ATTEMPTS - 1 {
                    Attempt::Retry
                } else {
                    Attempt::GiveUp(e)
                }
            },
        }
    }
}

/// How many requests are made for one node when the successive attempts
/// succeed or fail as `outcomes` says, `made` attempts having been made.
pub open spec fn requests_made(made: nat, outcomes: Seq<bool>) -> nat
    decreases outcomes.len(),
{
    if outcomes.len() == 0 {
        0
    } else {
        match decide(made, outcomes[0]) {
            Decision::Retry => 1 + requests_made(made + 1, outcomes.drop_first()),
            _ => 1,
        }
    }
}

/// Whether one node is fetched when the successive attempts succeed or fail
/// as `outcomes` says, `made` attempts having been made.
pub open spec fn fetched(made: nat, outcomes: Seq<bool>) -> bool
    decreases outcomes.len(),
{
    if outcomes.len() == 0 {
        false
    } else {
        match decide(made, outcomes[0]) {
            Decision::Done => true,
            Decision::Retry => fetched(made + 1, outcomes.drop_first()),
            Decision::GiveUp => false,
        }
    }
}

proof fn lemma_retry_run(made: nat, outcomes: Seq<bool>)
    requires
        made < MAX_ATTEMPTS,
    ensures
        requests_made(made, outcomes) <= MAX_ATTEMPTS - made,
        fetched(made, outcomes) <==> exists|i: int|
            0 <= i < outcomes.len() && i < MAX_ATTEMPTS - made && #[trigger] outcomes[i],
        fetched(made, outcomes) ==> requests_made(made, outcomes) == first_success(outcomes)
            + 1,
    decreases outcomes.len(),
{
    if outcomes.len() > 0 {
        let rest = outcomes.drop_first();
        if !outcomes[0] && made + 1 < MAX_ATTEMPTS {
            lemma_retry_run(made + 1, rest);
            if fetched(made, outcomes) {
                let i = choose|i: int| 0 <= i < rest.len() && i < MAX_ATTEMPTS - made - 1 && #[trigger] rest[i];
                assert(outcomes[i + 1]);
                lemma_first_success_skip(outcomes);
            }
            if exists|i: int| 0 <= i < outcomes.len() && i < MAX_ATTEMPTS - made && #[trigger] outcomes[i] {
                let i = choose|i: int| 0 <= i < outcomes.len() && i < MAX_ATTEMPTS - made && #[trigger] outcomes[i];
                assert(i != 0);
                assert(rest[i - 1]);
            }
        } else if !outcomes[0] {
            if exists|i: int| 0 <= i < outcomes.len() && i < MAX_ATTEMPTS - made && #[trigger] outcomes[i] {
                let i = choose|i: int| 0 <= i < outcomes.len() && i < MAX_ATTEMPTS - made && #[trigger] outcomes[i];
                assert(i != 0);
            }
        } else {
            assert(outcomes[0]);
        }
    }
}

/// The index of the first success among `outcomes` (their length if none).
pub open spec fn first_success(outcomes: Seq<bool>) -> nat
    decreases outcomes.len(),
{
    if outcomes.len() == 0 {
        0
    } else if outcomes[0] {
        0
    } else {
        1 + first_success(outcomes.drop_first())
    }
}

proof fn lemma_first_success_skip(outcomes: Seq<bool>)
    requires
        outcomes.len() > 0,
        !outcomes[0],
    ensures
        first_success(outcomes) == 1 + first_success(outcomes.drop_first()),
{
}

/// A node is asked for at most `MAX_ATTEMPTS` times. It is fetched exactly
/// when one of its first `MAX_ATTEMPTS` attempts succeeds, and then the
/// asking stops at the first success; otherwise it is given up.
pub proof fn lemma_retry_bound(outcomes: Seq<bool>)
    ensures
        requests_made(0, outcomes) <= MAX_ATTEMPTS,
        fetched(0, outcomes) <==> exists|i: int|
            0 <= i < outcomes.len() && i < MAX_ATTEMPTS && #[trigger] outcomes[i],
        fetched(0, outcomes) ==> requests_made(0, outcomes) == first_success(outcomes) + 1,
{
    lemma_retry_run(0, outcomes);
}

// ---------------------------------------------------------------------------
// Putting concurrent results back in order
// ---------------------------------------------------------------------------

/// The results of several node queries, by the position of each hashid in
/// the list asked for. A slot stays empty while its result is missing, and
/// for good when its node was given up.
pub struct NodeResults<T> {
    slots: Vec<Option<T>>,
}

/// The values held by the filled slots, in slot order.
pub open spec fn present<T>(slots: Seq<Option<T>>) -> Seq<T>
    decreases slots.len(),
{
    if slots.len() == 0 {
        Seq::<T>::empty()
    } else {
        match slots.last() {
            Some(v) => present(slots.drop_last()).push(v),
            None => present(slots.drop_last()),
        }
    }
}

/// `n` empty slots.
pub open spec fn empty_slots<T>(n: nat) -> Seq<Option<T>> {
    Seq::new(n, |i: int| None::<T>)
}

impl<T> NodeResults<T> {
    /// The slots, by position.
    pub closed spec fn slots(&self) -> Seq<Option<T>> {
        self.slots@
    }

    /// Room for the results of `total` queries, none in yet.
    pub fn new(total: usize) -> (r: NodeResults<T>)
        ensures
            r.slots() == empty_slots::<T>(total as nat),
    {
        let mut slots: Vec<Option<T>> = Vec::new();
        let mut i: usize = 0;
        while i < total
            invariant
                i <= total,
                slots@ == empty_slots::<T>(i as nat),
            decreases total - i,
        {
            slots.push(None);
            i = i + 1;
            assert(slots@ =~= empty_slots::<T>(i as nat));
        }
        NodeResults { slots }
    }

    /// The number of queries.
    pub fn len(&self) -> (r: usize)
        ensures
            r == self.slots().len(),
    {
        self.slots.len()
    }

    /// Puts the result of the query at `index` in its slot.
    pub fn place(&mut self, index: usize, item: T)
        requires
            index < old(self).slots().len(),
        ensures
            final(self).slots() == old(self).slots().update(index as int, Some(item)),
    {
        self.slots.set(index, Some(item));
    }

    /// Records how the query at `index` ended: a result goes in its slot; a
    /// node given up after its retries leaves its slot empty, and the other
    /// nodes go on.
    pub fn settle<E>(&mut self, index: usize, outcome: Result<T, E>)
        requires
            index < old(self).slots().len(),
        ensures
            match outcome {
                Ok(item) => final(self).slots() == old(self).slots().update(index as int, Some(item)),
                Err(_) => final(self).slots() == old(self).slots(),
            },
    {
        if let Ok(item) = outcome {
            self.place(index, item);
        }
    }

    /// The results that came in, in the order the hashids were given.
    pub fn into_items(self) -> (r: Vec<T>)
        ensures
            r@ == present(self.slots()),
    {
        let mut out: Vec<T> = Vec::new();
        let mut slots = self.slots;
        let ghost all = slots@;
        let n = slots.len();
        let mut i: usize = 0;
        assert(all.take(0) =~= Seq::<Option<T>>::empty());
        assert(all.skip(0) =~= all);
        while i < n
            invariant
                n == all.len(),
                i <= n,
                slots@ == all.skip(i as int),
                out@ == present(all.take(i as int)),
            decreases n - i,
        {
            let slot = slots.remove(0);
            assert(slot == all[i as int]);
            assert(all.skip(i as int).drop_first() =~= all.skip(i + 1));
            assert(all.take(i + 1).drop_last() =~= all.take(i as int));
            match slot {
                Some(v) => {
                    out.push(v);
                },
                None => {},
            }
            i = i + 1;
        }
        assert(all.take(n as int) =~= all);
        out
    }
}

/// The slots after the queries at the positions `order[0]`, `order[1]`, ...
/// were placed, in that order, each with its value from `vals`.
pub open spec fn placed<T>(slots: Seq<Option<T>>, order: Seq<int>, vals: Seq<T>) -> Seq<Option<T>>
    decreases order.len(),
{
    if order.len() == 0 {
        slots
    } else {
        placed(slots, order.drop_last(), vals).update(order.last(), Some(vals[order.last()]))
    }
}

/// After the queries at the positions in `order` were placed, in any order,
/// each slot holds the value of its own position if that position was
/// placed, and is empty otherwise: a given-up node leaves only its own slot
/// empty.
pub proof fn lemma_placed_slots<T>(n: nat, order: Seq<int>, vals: Seq<T>)
    requires
        forall|k: int| 0 <= k < order.len() ==> 0 <= #[trigger] order[k] < n,
    ensures
        placed(empty_slots::<T>(n), order, vals).len() == n,
        forall|i: int|
            0 <= i < n ==> #[trigger] placed(empty_slots::<T>(n), order, vals)[i] == if order.contains(i) {
                Some(vals[i])
            } else {
                None
            },
    decreases order.len(),
{
    if order.len() > 0 {
        let prev = order.drop_last();
        lemma_placed_slots(n, prev, vals);
        let s = placed(empty_slots::<T>(n), order, vals);
        assert forall|i: int| 0 <= i < n implies #[trigger] s[i] == if order.contains(i) {
            Some(vals[i])
        } else {
            None
        } by {
            if i == order.last() {
                assert(order.contains(i) == true) by {
                    assert(order[order.len() - 1] == i);
                }
            } else {
                if order.contains(i) {
                    let k = choose|k: int| 0 <= k < order.len() && order[k] == i;
                    assert(prev[k] == i);
                }
                if prev.contains(i) {
                    let k = choose|k: int| 0 <= k < prev.len() && prev[k] == i;
                    assert(order[k] == i);
                }
            }
        }
    }
}

proof fn lemma_present_all_some<T>(slots: Seq<Option<T>>, vals: Seq<T>)
    requires
        slots.len() == vals.len(),
        forall|i: int| 0 <= i < slots.len() ==> #[trigger] slots[i] == Some(vals[i]),
    ensures
        present(slots) == vals,
    decreases slots.len(),
{
    if slots.len() > 0 {
        lemma_present_all_some(slots.drop_last(), vals.drop_last());
        assert(vals.drop_last().push(vals.last()) =~= vals);
    }
}

/// However the results of all queries arrive, once each one was placed
/// (in any order), the results are listed in the order the hashids were
/// given.
pub proof fn lemma_results_in_input_order<T>(n: nat, order: Seq<int>, vals: Seq<T>)
    requires
        vals.len() == n,
        forall|k: int| 0 <= k < order.len() ==> 0 <= #[trigger] order[k] < n,
        forall|i: int| 0 <= i < n ==> order.contains(i),
    ensures
        present(placed(empty_slots::<T>(n), order, vals)) == vals,
{
    lemma_placed_slots(n, order, vals);
    lemma_present_all_some(placed(empty_slots::<T>(n), order, vals), vals);
}

// ---------------------------------------------------------------------------
// Walking the pages of the node list
// ---------------------------------------------------------------------------

/// The last page fetched when all node lists are exported.
pub const LAST_PAGE: u32 = 100;

/// The items of a page of the node list: the `data` array of the answer.
pub fn page_items(page: &Json) -> (r: Option<&Vec<Json>>)
    ensures
        r.is_some() <==> as_array(get(page@, "data"@)).is_some(),
        r matches Some(items) ==> items@.len() == as_array(get(page@, "data"@))->0.len() && forall|i: int|
            0 <= i < items@.len() ==> #[trigger] items@[i]@ == as_array(get(page@, "data"@))->0[i],
{
    match page.get("data") {
        Some(d) => d.as_array(),
        None => None,
    }
}

/// The sum of a list of counts.
pub open spec fn sum(counts: Seq<nat>) -> nat
    decreases counts.len(),
{
    if counts.len() == 0 {
        0
    } else {
        sum(counts.drop_last()) + counts.last()
    }
}

/// The export of all node lists, page after page: which page comes next and
/// how many records were written so far.
pub struct DumpAll {
    next: u32,
    total: usize,
    pages: Ghost<Seq<u32>>,
    counts: Ghost<Seq<nat>>,
}

impl DumpAll {
    /// The pages fetched so far, in order.
    pub closed spec fn pages(&self) -> Seq<u32> {
        self.pages@
    }

    /// The number of records of each page fetched so far.
    pub closed spec fn counts(&self) -> Seq<nat> {
        self.counts@
    }

    /// The number of records written so far.
    pub closed spec fn written(&self) -> nat {
        self.total as nat
    }

    /// The state is consistent: the pages fetched are `1, 2, ...` in order,
    /// at most `LAST_PAGE` of them, and the records written are those of the
    /// pages fetched.
    pub closed spec fn wf(&self) -> bool {
        &&& 1 <= self.next <= LAST_PAGE + 1
        &&& self.pages@ == Seq::new((self.next - 1) as nat, |i: int| (i + 1) as u32)
        &&& self.counts@.len() == self.pages@.len()
        &&& self.total == sum(self.counts@)
    }

    /// Nothing fetched yet.
    pub fn new() -> (r: DumpAll)
        ensures
            r.wf(),
            r.pages() == Seq::<u32>::empty(),
            r.written() == 0,
    {
        let r = DumpAll { next: 1, total: 0, pages: Ghost(Seq::empty()), counts: Ghost(Seq::empty()) };
        assert(r.pages@ =~= Seq::new(0, |i: int| (i + 1) as u32));
        r
    }

    /// The page to fetch next: the one after the last fetched, until
    /// `LAST_PAGE` was fetched. When none is left, pages `1` to `LAST_PAGE`
    /// were all fetched, in order.
    pub fn next_page(&self) -> (r: Option<u32>)
        requires
            self.wf(),
        ensures
            r matches Some(p) ==> p == self.pages().len() + 1 && p <= LAST_PAGE,
            r is None ==> self.pages() == Seq::new(LAST_PAGE as nat, |i: int| (i + 1) as u32),
    {
        if self.next <= LAST_PAGE {
            Some(self.next)
        } else {
            None
        }
    }

    /// Records that the next page was fetched and its `records` items written.
    pub fn record_page(&mut self, records: usize)
        requires
            old(self).wf(),
            old(self).pages().len() < LAST_PAGE,
            old(self).written() + records <= usize::MAX,
        ensures
            final(self).wf(),
            final(self).pages() == old(self).pages().push((old(self).pages().len() + 1) as u32),
            final(self).counts() == old(self).counts().push(records as nat),
            final(self).written() == old(self).written() + records,
    {
        let ghost old_counts = self.counts@;
        self.pages = Ghost(self.pages@.push(self.next));
        self.counts = Ghost(self.counts@.push(records as nat));
        self.next = self.next + 1;
        self.total = self.total + records;
        assert(self.pages@ =~= Seq::new((self.next - 1) as nat, |i: int| (i + 1) as u32));
        assert(self.counts@.drop_last() =~= old_counts);
    }

    /// The number of records written so far: the sum of the records of the
    /// pages fetched.
    pub fn total(&self) -> (r: usize)
        requires
            self.wf(),
        ensures
            r == self.written(),
            r == sum(self.counts()),
    {
        self.total
    }
}

} // verus!
