//! One triage pass over a fetched queue, and the calls it plans.

use vstd::prelude::*;
use crate::classify::{
    classify_messages, lemma_messages_never_supersede, messages_disposition, Disposition,
};
use crate::queue::{key_of, DedupKey, QueueItem};
use crate::scoreboard::{elected, election, Election, Scoreboard};

verus! {

/// `s` with `x` appended, unless `s` already holds it.
pub open spec fn add_unique(s: Seq<i32>, x: i32) -> Seq<i32> {
    if s.contains(x) {
        s
    } else {
        s.push(x)
    }
}

/// What a pass has gathered so far: the leaders, the series to refresh and the
/// items to delete, each list in the order first met.
pub struct TriageState {
    pub board: Map<DedupKey, (i32, i32)>,
    pub refresh: Seq<i32>,
    pub delete: Seq<i32>,
}

pub open spec fn empty_state() -> TriageState {
    TriageState { board: Map::empty(), refresh: Seq::empty(), delete: Seq::empty() }
}

/// The disposition of `item` met with leaders `board`: superseded when its key's
/// leader scores higher, else what its messages say.
pub open spec fn disposition_in(board: Map<DedupKey, (i32, i32)>, item: QueueItem) -> Disposition {
    match key_of(item) {
        Some(k) => if election(board, k, item.id, item.quality_score) == Election::Discarded {
            Disposition::Superseded
        } else {
            messages_disposition(item.status_messages@)
        },
        None => messages_disposition(item.status_messages@),
    }
}

/// The former leader that `item` displaces, if any.
pub open spec fn displaced_in(board: Map<DedupKey, (i32, i32)>, item: QueueItem) -> Option<i32> {
    match key_of(item) {
        Some(k) => match election(board, k, item.id, item.quality_score) {
            Election::Displaced { previous } => Some(previous),
            _ => None,
        },
        None => None,
    }
}

/// The state after one more item, taken in fetch order.
pub open spec fn step(s: TriageState, item: QueueItem) -> TriageState {
    let d = disposition_in(s.board, item);
    let board = match key_of(item) {
        Some(k) => elected(s.board, k, item.id, item.quality_score),
        None => s.board,
    };
    let delete = match displaced_in(s.board, item) {
        Some(p) => add_unique(s.delete, p),
        None => s.delete,
    };
    TriageState {
        board,
        refresh: match (d, item.series_id) {
            (Disposition::Monitor, Some(series)) => add_unique(s.refresh, series),
            _ => s.refresh,
        },
        delete: if d == Disposition::Delete || d == Disposition::Superseded {
            add_unique(delete, item.id)
        } else {
            delete
        },
    }
}

/// The state after taking `items` in order from an empty one.
pub open spec fn run(items: Seq<QueueItem>) -> TriageState
    decreases items.len(),
{
    if items.len() == 0 {
        empty_state()
    } else {
        step(run(items.drop_last()), items.last())
    }
}

fn push_unique(v: &mut Vec<i32>, x: i32)
    ensures
        final(v)@ == add_unique(old(v)@, x),
{
    let mut i: usize = 0;
    while i < v.len()
        invariant
            i <= v@.len(),
            forall|j: int| 0 <= j < i ==> v@[j] != x,
        decreases v@.len() - i,
    {
        if v[i] == x {
            assert(v@.contains(x));
            return;
        }
        i += 1;
    }
    v.push(x);
}

/// The state of one pass: created empty, fed every fetched item in order, then
/// turned into a plan. It lives no longer than the pass.
pub struct Triage {
    board: Scoreboard,
    refresh: Vec<i32>,
    delete: Vec<i32>,
}

impl View for Triage {
    type V = TriageState;

    closed spec fn view(&self) -> TriageState {
        TriageState { board: self.board@, refresh: self.refresh@, delete: self.delete@ }
    }
}

/// The calls one cycle makes: one refresh per series, one bulk delete.
pub struct CyclePlan {
    pub refresh: Vec<i32>,
    pub delete: Vec<i32>,
}

impl Triage {
    pub fn new() -> (r: Triage)
        ensures
            r@ == empty_state(),
    {
        Triage { board: Scoreboard::new(), refresh: Vec::new(), delete: Vec::new() }
    }

    /// The leader `(item id, score)` recorded so far for `key`.
    pub fn leader(&self, key: DedupKey) -> (r: Option<(i32, i32)>)
        ensures
            r == (if self@.board.contains_key(key) {
                Some(self@.board[key])
            } else {
                None::<(i32, i32)>
            }),
    {
        self.board.leader(key)
    }

    /// Classifies the next item in fetch order and gathers what it asks for.
    pub fn take_item(&mut self, item: &QueueItem) -> (d: Disposition)
        ensures
            d == disposition_in(old(self)@.board, *item),
            final(self)@ == step(old(self)@, *item),
    {
        let superseded = match item.dedup_key() {
            Some(k) => match self.board.elect(k, item.id, item.quality_score) {
                Election::Displaced { previous } => {
                    push_unique(&mut self.delete, previous);
                    false
                },
                Election::Discarded => true,
                _ => false,
            },
            None => false,
        };
        let d = if superseded {
            Disposition::Superseded
        } else {
            classify_messages(&item.status_messages)
        };
        match d {
            Disposition::Monitor => {
                if let Some(series) = item.series_id {
                    push_unique(&mut self.refresh, series);
                }
            },
            Disposition::Delete | Disposition::Superseded => {
                push_unique(&mut self.delete, item.id);
            },
            Disposition::Ignore => {},
        }
        d
    }

    pub fn finish(self) -> (plan: CyclePlan)
        ensures
            plan.refresh@ == self@.refresh,
            plan.delete@ == self@.delete,
    {
        CyclePlan { refresh: self.refresh, delete: self.delete }
    }
}

/// Classifies every item in fetch order and plans the cycle's calls.
pub fn triage(items: &Vec<QueueItem>) -> (plan: CyclePlan)
    ensures
        plan.refresh@ == run(items@).refresh,
        plan.delete@ == run(items@).delete,
        plan.refresh@.no_duplicates(),
        plan.delete@.no_duplicates(),
{
    proof {
        lemma_run_unique(items@);
    }
    let mut state = Triage::new();
    let mut i: usize = 0;
    while i < items.len()
        invariant
            i <= items@.len(),
            state@ == run(items@.take(i as int)),
        decreases items@.len() - i,
    {
        state.take_item(&items[i]);
        assert(items@.take(i + 1).drop_last() =~= items@.take(i as int));
        i += 1;
    }
    assert(items@.take(items@.len() as int) =~= items@);
    state.finish()
}

/// Why a queue could not be fetched.
#[derive(Clone, Debug)]
pub struct FetchError {
    pub reason: String,
}

/// Plans a cycle from what the fetch returned: a failed fetch means nothing
/// to do this cycle.
pub fn plan_cycle(fetched: &Result<Vec<QueueItem>, FetchError>) -> (plan: CyclePlan)
    ensures
        match fetched {
            Ok(items) => plan.refresh@ == run(items@).refresh && plan.delete@ == run(items@).delete,
            Err(_) => plan.refresh@.len() == 0 && plan.delete@.len() == 0,
        },
        plan.refresh@.no_duplicates(),
        plan.delete@.no_duplicates(),
{
    match fetched {
        Ok(items) => triage(items),
        Err(_) => CyclePlan { refresh: Vec::new(), delete: Vec::new() },
    }
}

impl CyclePlan {
    /// The ids for the one bulk delete of the cycle; none when there is nothing
    /// to delete, so that no call is made.
    pub fn delete_request(&self) -> (r: Option<&Vec<i32>>)
        ensures
            r is None <==> self.delete@.len() == 0,
            r matches Some(ids) ==> ids@ == self.delete@,
    {
        if self.delete.len() == 0 {
            None
        } else {
            Some(&self.delete)
        }
    }
}

pub proof fn lemma_add_unique(s: Seq<i32>, x: i32)
    requires
        s.no_duplicates(),
    ensures
        add_unique(s, x).no_duplicates(),
        add_unique(s, x).contains(x),
        forall|y: i32| s.contains(y) ==> add_unique(s, x).contains(y),
{
    lemma_add_unique_keeps(s, x);
    if !s.contains(x) {
        let t = s.push(x);
        assert forall|i: int, j: int| 0 <= i < j < t.len() implies t[i] != t[j] by {
            if j == s.len() {
                assert(s[i] == t[i]);
            }
        }
    }
}

/// Neither list of a pass ever holds an id twice: a series is refreshed once
/// and an item is deleted once per cycle, however often it matched.
pub proof fn lemma_run_unique(items: Seq<QueueItem>)
    ensures
        run(items).refresh.no_duplicates(),
        run(items).delete.no_duplicates(),
    decreases items.len(),
{
    if items.len() > 0 {
        let prev = run(items.drop_last());
        let item = items.last();
        lemma_run_unique(items.drop_last());
        let mid = match displaced_in(prev.board, item) {
            Some(p) => add_unique(prev.delete, p),
            None => prev.delete,
        };
        if let Some(p) = displaced_in(prev.board, item) {
            lemma_add_unique(prev.delete, p);
        }
        lemma_add_unique(mid, item.id);
        if let Some(series) = item.series_id {
            lemma_add_unique(prev.refresh, series);
        }
    }
}

proof fn lemma_step_keeps(s: TriageState, item: QueueItem)
    ensures
        forall|y: i32| s.delete.contains(y) ==> step(s, item).delete.contains(y),
        forall|y: i32| s.refresh.contains(y) ==> step(s, item).refresh.contains(y),
{
    let mid = match displaced_in(s.board, item) {
        Some(p) => add_unique(s.delete, p),
        None => s.delete,
    };
    if let Some(p) = displaced_in(s.board, item) {
        lemma_add_unique_keeps(s.delete, p);
    }
    lemma_add_unique_keeps(mid, item.id);
    if let Some(series) = item.series_id {
        lemma_add_unique_keeps(s.refresh, series);
    }
}

/// What an item asks for at its turn is in the lists at the end of the pass:
/// its id when it is to be deleted or superseded, the id of a leader it
/// displaces, and its series when that is to be refreshed.
pub proof fn lemma_run_collects(items: Seq<QueueItem>, i: int)
    requires
        0 <= i < items.len(),
    ensures
        ({
            let d = disposition_in(run(items.take(i)).board, items[i]);
            d == Disposition::Delete || d == Disposition::Superseded
        }) ==> run(items).delete.contains(items[i].id),
        displaced_in(run(items.take(i)).board, items[i]) matches Some(p) ==> run(
            items,
        ).delete.contains(p),
        (disposition_in(run(items.take(i)).board, items[i]) == Disposition::Monitor
            && items[i].series_id is Some) ==> run(items).refresh.contains(
            items[i].series_id.unwrap(),
        ),
    decreases items.len(),
{
    let prev = items.drop_last();
    if i == items.len() - 1 {
        assert(items.take(i) =~= prev);
        let s = run(prev);
        let item = items[i];
        let mid = match displaced_in(s.board, item) {
            Some(p) => add_unique(s.delete, p),
            None => s.delete,
        };
        if let Some(p) = displaced_in(s.board, item) {
            lemma_add_unique_keeps(s.delete, p);
        }
        lemma_add_unique_keeps(mid, item.id);
        if let Some(series) = item.series_id {
            lemma_add_unique_keeps(s.refresh, series);
        }
    } else {
        lemma_run_collects(prev, i);
        assert(prev.take(i) =~= items.take(i));
        assert(prev[i] == items[i]);
        lemma_step_keeps(run(prev), items.last());
    }
}

/// An item without a dedup key leaves the leaders untouched, and its
/// disposition is what its messages say, whatever the leaders are.
pub proof fn lemma_keyless_item(s: TriageState, item: QueueItem)
    requires
        key_of(item) is None,
    ensures
        step(s, item).board == s.board,
        displaced_in(s.board, item) is None,
        forall|b: Map<DedupKey, (i32, i32)>|
            #[trigger] disposition_in(b, item) == messages_disposition(item.status_messages@),
{
}

/// Of two items on one key, met in that order with no leader before them, a
/// later one with a higher score takes over: the earlier is marked for
/// deletion, the later is not superseded and is the recorded leader.
pub proof fn lemma_higher_score_takes_over(s: TriageState, a: QueueItem, b: QueueItem)
    requires
        key_of(a) is Some,
        key_of(b) == key_of(a),
        !s.board.contains_key(key_of(a).unwrap()),
        a.quality_score < b.quality_score,
    ensures
        disposition_in(step(s, a).board, b) != Disposition::Superseded,
        displaced_in(step(s, a).board, b) == Some(a.id),
        step(step(s, a), b).delete.contains(a.id),
        step(step(s, a), b).board[key_of(a).unwrap()] == (b.id, b.quality_score),
{
    lemma_messages_never_supersede(b.status_messages@);
    let s1 = step(s, a);
    let mid = add_unique(s1.delete, a.id);
    lemma_add_unique_keeps(s1.delete, a.id);
    lemma_add_unique_keeps(mid, b.id);
}

/// Of two items on one key, met in that order with no leader before them, a
/// later one with a lower score is superseded and marked for deletion, and
/// the earlier stays the recorded leader.
pub proof fn lemma_lower_score_is_superseded(s: TriageState, a: QueueItem, b: QueueItem)
    requires
        key_of(a) is Some,
        key_of(b) == key_of(a),
        !s.board.contains_key(key_of(a).unwrap()),
        a.quality_score > b.quality_score,
    ensures
        disposition_in(s.board, a) != Disposition::Superseded,
        disposition_in(step(s, a).board, b) == Disposition::Superseded,
        step(step(s, a), b).delete.contains(b.id),
        step(step(s, a), b).board[key_of(a).unwrap()] == (a.id, a.quality_score),
{
    lemma_messages_never_supersede(a.status_messages@);
    lemma_add_unique_keeps(step(s, a).delete, b.id);
}

/// Two items on one key with equal scores: the comparison supersedes neither,
/// displaces nobody, and the earlier stays the recorded leader.
pub proof fn lemma_tie_keeps_both(s: TriageState, a: QueueItem, b: QueueItem)
    requires
        key_of(a) is Some,
        key_of(b) == key_of(a),
        !s.board.contains_key(key_of(a).unwrap()),
        a.quality_score == b.quality_score,
    ensures
        disposition_in(s.board, a) == messages_disposition(a.status_messages@),
        disposition_in(step(s, a).board, b) == messages_disposition(b.status_messages@),
        displaced_in(step(s, a).board, b) is None,
        step(step(s, a), b).board[key_of(a).unwrap()] == (a.id, a.quality_score),
{
}

/// `items[j]` is the first of the items on `k` with the highest score among them.
pub open spec fn first_best(items: Seq<QueueItem>, k: DedupKey, j: int) -> bool {
    &&& 0 <= j < items.len()
    &&& key_of(items[j]) == Some(k)
    &&& forall|i: int|
        0 <= i < items.len() && key_of(#[trigger] items[i]) == Some(k) ==> items[i].quality_score
            <= items[j].quality_score
    &&& forall|i: int|
        0 <= i < j && key_of(#[trigger] items[i]) == Some(k) ==> items[i].quality_score
            < items[j].quality_score
}

/// After a pass, a key has a leader exactly when some item has that key, and
/// the leader is the first item on the key with the highest score: a later
/// item takes over only with a strictly higher score.
pub proof fn lemma_board_holds_first_best(items: Seq<QueueItem>, k: DedupKey)
    ensures
        run(items).board.contains_key(k) <==> exists|i: int|
            0 <= i < items.len() && key_of(#[trigger] items[i]) == Some(k),
        run(items).board.contains_key(k) ==> exists|j: int|
            first_best(items, k, j) && run(items).board[k] == (items[j].id, items[j].quality_score),
    decreases items.len(),
{
    if items.len() > 0 {
        let prev = items.drop_last();
        let n = items.len() - 1;
        let last = items.last();
        lemma_board_holds_first_best(prev, k);
        let b = run(prev).board;
        assert forall|i: int| 0 <= i < n implies items[i] == prev[i] by {}
        if key_of(last) == Some(k) {
            if !b.contains_key(k) {
                assert forall|i: int|
                    0 <= i < items.len() && key_of(#[trigger] items[i]) == Some(k) implies i
                    == n by {
                    if i < n {
                        assert(key_of(prev[i]) == Some(k));
                    }
                }
                assert(first_best(items, k, n));
            } else {
                let j = choose|j: int|
                    first_best(prev, k, j) && b[k] == (prev[j].id, prev[j].quality_score);
                assert forall|i: int|
                    0 <= i < n && key_of(#[trigger] items[i]) == Some(k) implies items[i].quality_score
                    <= items[j].quality_score by {
                    assert(key_of(prev[i]) == Some(k));
                }
                if b[k].1 < last.quality_score {
                    assert(first_best(items, k, n));
                } else {
                    assert forall|i: int|
                        0 <= i < j && key_of(#[trigger] items[i]) == Some(k) implies items[i].quality_score
                        < items[j].quality_score by {
                        assert(key_of(prev[i]) == Some(k));
                    }
                    assert(first_best(items, k, j));
                }
            }
            assert(key_of(items[n]) == Some(k));
        } else {
            assert(run(items).board.contains_key(k) == b.contains_key(k));
            assert(b.contains_key(k) ==> run(items).board[k] == b[k]);
            assert((exists|i: int| 0 <= i < items.len() && key_of(#[trigger] items[i]) == Some(k))
                ==> (exists|i: int| 0 <= i < prev.len() && key_of(#[trigger] prev[i]) == Some(k)))
                by {
                if exists|i: int| 0 <= i < items.len() && key_of(#[trigger] items[i]) == Some(k) {
                    let i = choose|i: int| 0 <= i < items.len() && key_of(#[trigger] items[i]) == Some(k);
                    assert(key_of(prev[i]) == Some(k));
                }
            }
            if b.contains_key(k) {
                let j = choose|j: int|
                    first_best(prev, k, j) && b[k] == (prev[j].id, prev[j].quality_score);
                assert forall|i: int|
                    0 <= i < items.len() && key_of(#[trigger] items[i]) == Some(k) implies items[i].quality_score
                    <= items[j].quality_score by {
                    assert(key_of(prev[i]) == Some(k));
                }
                assert forall|i: int|
                    0 <= i < j && key_of(#[trigger] items[i]) == Some(k) implies items[i].quality_score
                    < items[j].quality_score by {
                    assert(key_of(prev[i]) == Some(k));
                }
                assert(first_best(items, k, j));
            }
        }
    }
}

proof fn lemma_add_unique_keeps(s: Seq<i32>, x: i32)
    ensures
        add_unique(s, x).contains(x),
        forall|y: i32| s.contains(y) ==> add_unique(s, x).contains(y),
{
    if !s.contains(x) {
        let t = s.push(x);
        assert(t[s.len() as int] == x);
        assert forall|y: i32| s.contains(y) implies t.contains(y) by {
            let i = choose|i: int| 0 <= i < s.len() && s[i] == y;
            assert(t[i] == y);
        }
    }
}

} // verus!
