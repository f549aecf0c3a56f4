//! The coordinator's decisions: how many shards, which shard gets which file,
//! and what the shards' replies add up to.

use vstd::prelude::*;
use crate::block::LogFile;
use crate::shard::{ClientMessages, LogSearchResult, capped, is_find_reply};
use crate::stats::{LogThreadStats, LogThreadsStats};

verus! {

broadcast use vstd::seq_lib::group_to_multiset_ensures;

pub open spec fn min_nat(a: nat, b: nat) -> nat {
    if a <= b {
        a
    } else {
        b
    }
}

/// The number of shards a pool gets: what was asked for, but never more than
/// there are files.
pub fn effective_shard_count(thread_count: usize, file_count: usize) -> (r: usize)
    ensures
        r == min_nat(thread_count as nat, file_count as nat),
{
    if file_count > thread_count {
        thread_count
    } else {
        file_count
    }
}

/// The shard that the file at `index` goes to.
pub fn shard_for(index: usize, shard_count: usize) -> (r: usize)
    requires
        shard_count > 0,
    ensures
        r == index % shard_count,
        r < shard_count,
{
    index % shard_count
}

/// How a pool spreads its files: the shard count, and the shard of each file.
pub struct ShardPlan {
    pub shard_count: usize,
    pub assignment: Vec<usize>,
}

/// Spreads `file_count` files round-robin over at most `thread_count` shards.
pub fn plan_shards(thread_count: usize, file_count: usize) -> (r: ShardPlan)
    requires
        thread_count >= 1,
    ensures
        r.shard_count == min_nat(thread_count as nat, file_count as nat),
        r.assignment@.len() == file_count,
        forall|j: int| 0 <= j < file_count ==> #[trigger] r.assignment@[j] == j % (r.shard_count as int),
{
    let n = effective_shard_count(thread_count, file_count);
    let mut assignment: Vec<usize> = Vec::new();
    let mut j: usize = 0;
    while j < file_count
        invariant
            0 <= j <= file_count,
            n == min_nat(thread_count as nat, file_count as nat),
            thread_count >= 1,
            assignment@.len() == j,
            forall|i: int| 0 <= i < j ==> #[trigger] assignment@[i] == i % (n as int),
        decreases file_count - j,
    {
        assignment.push(shard_for(j, n));
        j = j + 1;
    }
    ShardPlan { shard_count: n, assignment }
}

/// Some file among `file_count` goes to shard `s` of `n`.
pub open spec fn shard_gets_file(file_count: nat, n: nat, s: int) -> bool {
    exists|j: int| 0 <= j < file_count && #[trigger] (j % (n as int)) == s
}

/// Round-robin assignment: every file lands on exactly one shard, the one its
/// index and the shard count name, and every shard of the pool gets a file.
pub proof fn lemma_round_robin_covers(thread_count: nat, file_count: nat)
    requires
        thread_count >= 1,
    ensures
        ({
            let n = min_nat(thread_count, file_count);
            &&& forall|j: int| 0 <= j < file_count ==> 0 <= #[trigger] (j % (n as int)) < n
            &&& forall|s: int| 0 <= s < n ==> #[trigger] shard_gets_file(file_count, n, s)
        }),
{
    let n = min_nat(thread_count, file_count);
    assert forall|s: int| 0 <= s < n implies #[trigger] shard_gets_file(file_count, n, s) by {
        vstd::arithmetic::div_mod::lemma_small_mod(s as nat, n);
        assert(0 <= s < file_count && s % (n as int) == s);
    }
}

/// Why a query over the pool failed.
#[derive(PartialEq, Eq, Structural, Clone, Copy, Debug)]
pub enum FindError {
    /// The needle is a regex that does not compile.
    Pattern,
    /// A shard answered with something that is no answer to a query.
    Protocol,
}

/// The count one reply contributes.
pub open spec fn reply_hits(m: ClientMessages) -> nat {
    match m {
        ClientMessages::FoundNeedle(_, _, _, c) => c as nat,
        _ => 0,
    }
}

pub open spec fn hits_total(rs: Seq<ClientMessages>) -> nat
    decreases rs.len(),
{
    if rs.len() == 0 {
        0
    } else {
        hits_total(rs.drop_last()) + reply_hits(rs.last())
    }
}

pub open spec fn has_load_reply(rs: Seq<ClientMessages>) -> bool {
    exists|i: int| 0 <= i < rs.len() && #[trigger] rs[i] is ReadFiles
}

pub open spec fn has_bad_pattern(rs: Seq<ClientMessages>) -> bool {
    exists|i: int| 0 <= i < rs.len() && #[trigger] rs[i] is BadPattern
}

/// What a query over the pool returns, given every shard's reply.
pub open spec fn find_outcome(rs: Seq<ClientMessages>) -> Result<LogSearchResult, FindError> {
    if has_load_reply(rs) {
        Err(FindError::Protocol)
    } else if has_bad_pattern(rs) {
        Err(FindError::Pattern)
    } else {
        Ok(capped(hits_total(rs)))
    }
}

/// Adds up the shards' replies to one query.
pub fn sum_find_replies(replies: &Vec<ClientMessages>) -> (r: Result<LogSearchResult, FindError>)
    ensures
        r == find_outcome(replies@),
{
    let ghost rs = replies@;
    let mut count: u64 = 0;
    let mut load_seen = false;
    let mut bad_seen = false;
    let mut i: usize = 0;
    while i < replies.len()
        invariant
            0 <= i <= replies.len(),
            rs == replies@,
            count == capped(hits_total(rs.take(i as int))),
            load_seen == has_load_reply(rs.take(i as int)),
            bad_seen == has_bad_pattern(rs.take(i as int)),
        decreases replies.len() - i,
    {
        let ghost t = rs.take(i as int + 1);
        assert(t.drop_last() =~= rs.take(i as int));
        assert(t[i as int] == rs[i as int]);
        match &replies[i] {
            ClientMessages::FoundNeedle(_, _, _, c) => {
                count = count.saturating_add(*c);
            },
            ClientMessages::NotFound(_, _, _) => {},
            ClientMessages::BadPattern(_, _, _) => {
                bad_seen = true;
            },
            ClientMessages::ReadFiles(_) => {
                load_seen = true;
            },
        }
        proof {
            if has_load_reply(t) {
                let w = choose|w: int| 0 <= w < t.len() && #[trigger] t[w] is ReadFiles;
                if w < i {
                    assert(rs.take(i as int)[w] is ReadFiles);
                }
            }
            if has_bad_pattern(t) {
                let w = choose|w: int| 0 <= w < t.len() && #[trigger] t[w] is BadPattern;
                if w < i {
                    assert(rs.take(i as int)[w] is BadPattern);
                }
            }
            if has_load_reply(rs.take(i as int)) {
                let w = choose|w: int| 0 <= w < i && #[trigger] rs.take(i as int)[w] is ReadFiles;
                assert(t[w] is ReadFiles);
            }
            if has_bad_pattern(rs.take(i as int)) {
                let w = choose|w: int| 0 <= w < i && #[trigger] rs.take(i as int)[w] is BadPattern;
                assert(t[w] is BadPattern);
            }
        }
        i = i + 1;
    }
    assert(rs.take(i as int) =~= rs);
    if load_seen {
        Err(FindError::Protocol)
    } else if bad_seen {
        Err(FindError::Pattern)
    } else {
        Ok(count)
    }
}

proof fn lemma_hits_remove(b: Seq<ClientMessages>, k: int)
    requires
        0 <= k < b.len(),
    ensures
        hits_total(b) == hits_total(b.remove(k)) + reply_hits(b[k]),
    decreases b.len(),
{
    if k == b.len() - 1 {
        assert(b.remove(k) =~= b.drop_last());
    } else {
        assert(b.remove(k).drop_last() =~= b.drop_last().remove(k));
        assert(b.remove(k).last() == b.last());
        lemma_hits_remove(b.drop_last(), k);
    }
}

proof fn lemma_hits_permutation(a: Seq<ClientMessages>, b: Seq<ClientMessages>)
    requires
        a.to_multiset() == b.to_multiset(),
    ensures
        hits_total(a) == hits_total(b),
    decreases a.len(),
{
    if a.len() == 0 {
        assert(a.to_multiset().len() == a.len());
        assert(b.to_multiset().len() == b.len());
    } else {
        let x = a.last();
        let a1 = a.drop_last();
        assert(a =~= a1.push(x));
        assert(a.contains(x));
        assert(a.to_multiset().count(x) > 0);
        assert(b.to_multiset().count(x) > 0);
        assert(b.contains(x));
        let k = choose|k: int| 0 <= k < b.len() && b[k] == x;
        let b1 = b.remove(k);
        assert(b1.to_multiset() =~= a1.to_multiset());
        lemma_hits_permutation(a1, b1);
        lemma_hits_remove(b, k);
    }
}

proof fn lemma_has_kind_permutation(a: Seq<ClientMessages>, b: Seq<ClientMessages>)
    requires
        a.to_multiset() == b.to_multiset(),
    ensures
        has_load_reply(a) ==> has_load_reply(b),
        has_bad_pattern(a) ==> has_bad_pattern(b),
{
    if has_load_reply(a) {
        let i = choose|i: int| 0 <= i < a.len() && #[trigger] a[i] is ReadFiles;
        assert(a.contains(a[i]));
        assert(a.to_multiset().count(a[i]) > 0);
        assert(b.to_multiset().count(a[i]) > 0);
        assert(b.contains(a[i]));
        let j = choose|j: int| 0 <= j < b.len() && b[j] == a[i];
        assert(b[j] is ReadFiles);
    }
    if has_bad_pattern(a) {
        let i = choose|i: int| 0 <= i < a.len() && #[trigger] a[i] is BadPattern;
        assert(a.contains(a[i]));
        assert(a.to_multiset().count(a[i]) > 0);
        assert(b.to_multiset().count(a[i]) > 0);
        assert(b.contains(a[i]));
        let j = choose|j: int| 0 <= j < b.len() && b[j] == a[i];
        assert(b[j] is BadPattern);
    }
}

/// The answer to a query over the pool does not depend on the order in which
/// the shards' replies are summed: any rearrangement of the same replies gives
/// the same result.
pub proof fn lemma_find_outcome_order_free(a: Seq<ClientMessages>, b: Seq<ClientMessages>)
    requires
        a.to_multiset() == b.to_multiset(),
    ensures
        find_outcome(a) == find_outcome(b),
{
    lemma_hits_permutation(a, b);
    lemma_has_kind_permutation(a, b);
    lemma_has_kind_permutation(b, a);
}

/// Asking a ready shard the same query twice gets the same answer: a query
/// leaves the worker as it was (`ShardWorker::on_message`), and the reply it
/// owes depends on the shard's blocks and the query alone.
pub proof fn lemma_repeated_find_same_reply(
    r1: ClientMessages,
    r2: ClientMessages,
    name: Seq<char>,
    files: Seq<LogFile>,
    field: Seq<char>,
    needle: Seq<char>,
    use_regex: bool,
)
    requires
        is_find_reply(r1, name, files, field, needle, use_regex),
        is_find_reply(r2, name, files, field, needle, use_regex),
    ensures
        reply_hits(r1) == reply_hits(r2),
        find_outcome(seq![r1]) == find_outcome(seq![r2]),
{
    assert(seq![r1].drop_last() =~= Seq::<ClientMessages>::empty());
    assert(seq![r2].drop_last() =~= Seq::<ClientMessages>::empty());
    assert(seq![r1][0] == r1);
    assert(seq![r2][0] == r2);
}

/// Why a pool could not start.
#[derive(PartialEq, Eq, Structural, Clone, Copy, Debug)]
pub enum PoolInitError {
    /// A shard stopped before it acknowledged its load.
    ShardLost,
    /// A shard answered its load with something else.
    Protocol,
}

pub open spec fn is_load_ack(r: Option<ClientMessages>) -> bool {
    r is Some && r->Some_0 is ReadFiles
}

/// Gathers every shard's answer to its initial load, in shard order (`None`
/// where a shard's channel closed). The pool starts only when every shard
/// acknowledged; an answer of the wrong kind is a protocol fault.
pub fn collect_load_replies(replies: Vec<Option<ClientMessages>>) -> (r: Result<
    LogThreadsStats,
    PoolInitError,
>)
    ensures
        r is Ok <==> forall|i: int| 0 <= i < replies@.len() ==> is_load_ack(#[trigger] replies@[i]),
        r is Ok ==> r->Ok_0.lts@.len() == replies@.len() && forall|i: int|
            0 <= i < replies@.len() ==> #[trigger] r->Ok_0.lts@[i] == replies@[i]->Some_0->ReadFiles_0,
        r == Err::<LogThreadsStats, PoolInitError>(PoolInitError::Protocol) <==> exists|i: int|
            0 <= i < replies@.len() && #[trigger] replies@[i] is Some && !(replies@[i]->Some_0 is ReadFiles),
{
    let ghost orig = replies@;
    let mut replies = replies;
    let mut lts: Vec<LogThreadStats> = Vec::new();
    let mut lost = false;
    let mut wrong = false;
    let mut k: usize = 0;
    assert(orig.len() == replies.len());
    while replies.len() > 0
        invariant
            replies@ == orig.skip(k as int),
            k + replies@.len() == orig.len(),
            orig.len() <= usize::MAX,
            !lost && !wrong ==> lts@.len() == k && forall|i: int|
                0 <= i < k ==> #[trigger] lts@[i] == orig[i]->Some_0->ReadFiles_0,
            (!lost && !wrong) <==> forall|i: int| 0 <= i < k ==> is_load_ack(#[trigger] orig[i]),
            wrong <==> exists|i: int|
                0 <= i < k && #[trigger] orig[i] is Some && !(orig[i]->Some_0 is ReadFiles),
        decreases replies.len(),
    {
        let item = replies.remove(0);
        assert(item == orig[k as int]);
        match item {
            Some(ClientMessages::ReadFiles(ts)) => {
                lts.push(ts);
            },
            Some(_) => {
                wrong = true;
            },
            None => {
                lost = true;
            },
        }
        assert(replies@ =~= orig.skip(k as int + 1));
        k = k + 1;
    }
    if wrong {
        Err(PoolInitError::Protocol)
    } else if lost {
        Err(PoolInitError::ShardLost)
    } else {
        Ok(LogThreadsStats { lts })
    }
}

} // verus!
