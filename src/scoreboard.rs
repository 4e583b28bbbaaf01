//! Leader election among queue items that download the same episode.

use vstd::prelude::*;
use std::collections::HashMap;
use crate::queue::DedupKey;

verus! {

broadcast use vstd::std_specs::hash::group_hash_axioms;

/// Where a key's two ids land in one 64-bit number: each id shifted to be
/// non-negative, the series id in the high half.
pub open spec fn key_number(k: DedupKey) -> int {
    (k.series_id as int + 0x8000_0000) * 0x1_0000_0000 + (k.episode_id as int + 0x8000_0000)
}

pub open spec fn key_code(k: DedupKey) -> u64 {
    key_number(k) as u64
}

pub proof fn lemma_key_number_bounds(k: DedupKey)
    ensures
        0 <= key_number(k) <= u64::MAX,
        key_code(k) as int == key_number(k),
{
    let hi = k.series_id as int + 0x8000_0000;
    let lo = k.episode_id as int + 0x8000_0000;
    assert(0 <= hi * 0x1_0000_0000 <= 0xffff_ffff * 0x1_0000_0000) by (nonlinear_arith)
        requires
            0 <= hi <= 0xffff_ffff,
    ;
}

/// Distinct keys have distinct codes.
pub proof fn lemma_key_code_injective(a: DedupKey, b: DedupKey)
    ensures
        key_code(a) == key_code(b) <==> a == b,
{
    lemma_key_number_bounds(a);
    lemma_key_number_bounds(b);
    let ah = a.series_id as int + 0x8000_0000;
    let al = a.episode_id as int + 0x8000_0000;
    let bh = b.series_id as int + 0x8000_0000;
    let bl = b.episode_id as int + 0x8000_0000;
    if key_number(a) == key_number(b) {
        assert(ah == bh && al == bl) by (nonlinear_arith)
            requires
                ah * 0x1_0000_0000 + al == bh * 0x1_0000_0000 + bl,
                0 <= al < 0x1_0000_0000,
                0 <= bl < 0x1_0000_0000,
        ;
    }
}

fn encode(k: DedupKey) -> (r: u64)
    ensures
        r == key_code(k),
{
    proof {
        lemma_key_number_bounds(k);
    }
    let hi: u64 = (k.series_id as i64 + 0x8000_0000) as u64;
    let lo: u64 = (k.episode_id as i64 + 0x8000_0000) as u64;
    assert(hi * 0x1_0000_0000 <= 0xffff_ffff * 0x1_0000_0000) by (nonlinear_arith)
        requires
            hi <= 0xffff_ffff,
    ;
    hi * 0x1_0000_0000 + lo
}

/// What comparing an incoming item against a key's current leader decided.
#[derive(Clone, Copy, Debug, PartialEq, Eq, Structural)]
pub enum Election {
    /// The key had no leader: the incoming item leads now.
    Vacant,
    /// Equal scores: the leader stays and the incoming item is kept too.
    Tie,
    /// The incoming item scores higher and leads now; `previous` lost.
    Displaced { previous: i32 },
    /// The leader scores higher: the incoming item lost.
    Discarded,
}

/// The decision for an incoming item `(id, score)` under `key`.
pub open spec fn election(
    board: Map<DedupKey, (i32, i32)>,
    key: DedupKey,
    id: i32,
    score: i32,
) -> Election {
    if !board.contains_key(key) {
        Election::Vacant
    } else if board[key].1 == score {
        Election::Tie
    } else if board[key].1 < score {
        Election::Displaced { previous: board[key].0 }
    } else {
        Election::Discarded
    }
}

/// The board after that decision: a new leader is recorded, nothing else changes.
pub open spec fn elected(
    board: Map<DedupKey, (i32, i32)>,
    key: DedupKey,
    id: i32,
    score: i32,
) -> Map<DedupKey, (i32, i32)> {
    match election(board, key, id, score) {
        Election::Vacant | Election::Displaced { .. } => board.insert(key, (id, score)),
        _ => board,
    }
}

/// The current leader `(item id, score)` of each key seen in one cycle.
pub struct Scoreboard {
    table: HashMap<u64, (i32, i32)>,
}

impl View for Scoreboard {
    type V = Map<DedupKey, (i32, i32)>;

    closed spec fn view(&self) -> Map<DedupKey, (i32, i32)> {
        Map::new(
            |k: DedupKey| self.table@.contains_key(key_code(k)),
            |k: DedupKey| self.table@[key_code(k)],
        )
    }
}

impl Scoreboard {
    pub fn new() -> (r: Scoreboard)
        ensures
            r@ == Map::<DedupKey, (i32, i32)>::empty(),
    {
        let r = Scoreboard { table: HashMap::new() };
        assert(r@ =~= Map::<DedupKey, (i32, i32)>::empty());
        r
    }

    /// The leader recorded for `key`, if any.
    pub fn leader(&self, key: DedupKey) -> (r: Option<(i32, i32)>)
        ensures
            r == (if self@.contains_key(key) {
                Some(self@[key])
            } else {
                None::<(i32, i32)>
            }),
    {
        let code = encode(key);
        match self.table.get(&code) {
            Some(v) => Some(*v),
            None => None,
        }
    }

    proof fn lemma_insert(&self, after: &Scoreboard, key: DedupKey, v: (i32, i32))
        requires
            after.table@ == self.table@.insert(key_code(key), v),
        ensures
            after@ == self@.insert(key, v),
    {
        assert forall|k: DedupKey| #![auto] after@.contains_key(k) == self@.insert(
            key,
            v,
        ).contains_key(k) by {
            lemma_key_code_injective(k, key);
        }
        assert forall|k: DedupKey| #![auto] after@.contains_key(k) ==> after@[k] == self@.insert(
            key,
            v,
        )[k] by {
            lemma_key_code_injective(k, key);
        }
        assert(after@ =~= self@.insert(key, v));
    }

    /// Compares the incoming item `(id, score)` with the leader of `key` and
    /// records the outcome.
    pub fn elect(&mut self, key: DedupKey, id: i32, score: i32) -> (r: Election)
        ensures
            r == election(old(self)@, key, id, score),
            final(self)@ == elected(old(self)@, key, id, score),
    {
        let ghost before = *self;
        let code = encode(key);
        let current = match self.table.get(&code) {
            Some(v) => Some(*v),
            None => None,
        };
        match current {
            None => {
                self.table.insert(code, (id, score));
                proof {
                    before.lemma_insert(self, key, (id, score));
                }
                Election::Vacant
            },
            Some((leader_id, leader_score)) => {
                if leader_score == score {
                    Election::Tie
                } else if leader_score < score {
                    self.table.insert(code, (id, score));
                    proof {
                        before.lemma_insert(self, key, (id, score));
                    }
                    Election::Displaced { previous: leader_id }
                } else {
                    Election::Discarded
                }
            },
        }
    }
}

} // verus!
