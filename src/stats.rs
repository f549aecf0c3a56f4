//! Load statistics: per file, per shard and for the whole pool.

use vstd::prelude::*;
use vstd::string::StringExecFns;
use crate::decimal::{decimal_repr, decimal_string};

verus! {

/// Load statistics of one block file.
pub struct LogFileStats {
    pub fname: String,
    pub size_bytes: usize,
    pub line_count: u32,
}

/// What one shard loaded, and how long it took in milliseconds.
pub struct LogThreadStats {
    pub file_stats: Vec<LogFileStats>,
    pub time: i64,
}

/// The load statistics of every shard of a pool.
pub struct LogThreadsStats {
    pub lts: Vec<LogThreadStats>,
}

pub open spec fn seq_sum(s: Seq<int>) -> int
    decreases s.len(),
{
    if s.len() == 0 {
        0
    } else {
        seq_sum(s.drop_last()) + s.last()
    }
}

pub open spec fn all_nonneg(s: Seq<int>) -> bool {
    forall|i: int| 0 <= i < s.len() ==> 0 <= #[trigger] s[i]
}

proof fn lemma_sum_nonneg(s: Seq<int>)
    requires
        all_nonneg(s),
    ensures
        seq_sum(s) >= 0,
    decreases s.len(),
{
    if s.len() > 0 {
        lemma_sum_nonneg(s.drop_last());
    }
}

/// With no negative terms, a prefix sums to at most the whole.
proof fn lemma_prefix_sum_le(s: Seq<int>, i: int)
    requires
        all_nonneg(s),
        0 <= i <= s.len(),
    ensures
        seq_sum(s.take(i)) <= seq_sum(s),
    decreases s.len() - i,
{
    if i < s.len() {
        assert(s.take(i + 1).drop_last() =~= s.take(i));
        lemma_prefix_sum_le(s, i + 1);
    } else {
        assert(s.take(i) =~= s);
    }
}

/// One step of a running sum over a prefix.
proof fn lemma_sum_take_step(s: Seq<int>, i: int)
    requires
        0 <= i < s.len(),
    ensures
        seq_sum(s.take(i + 1)) == seq_sum(s.take(i)) + s[i],
{
    assert(s.take(i + 1).drop_last() =~= s.take(i));
}

pub open spec fn file_lines(fs: Seq<LogFileStats>) -> Seq<int> {
    fs.map_values(|f: LogFileStats| f.line_count as int)
}

pub open spec fn file_bytes(fs: Seq<LogFileStats>) -> Seq<int> {
    fs.map_values(|f: LogFileStats| f.size_bytes as int)
}

/// Lines loaded by one shard.
pub open spec fn thread_lines(t: LogThreadStats) -> int {
    seq_sum(file_lines(t.file_stats@))
}

/// Bytes loaded by one shard.
pub open spec fn thread_bytes(t: LogThreadStats) -> int {
    seq_sum(file_bytes(t.file_stats@))
}

/// Files loaded by each shard, lines and bytes likewise.
pub open spec fn pool_files(lts: Seq<LogThreadStats>) -> Seq<int> {
    lts.map_values(|t: LogThreadStats| t.file_stats@.len() as int)
}

pub open spec fn pool_lines(lts: Seq<LogThreadStats>) -> Seq<int> {
    lts.map_values(|t: LogThreadStats| thread_lines(t))
}

pub open spec fn pool_bytes(lts: Seq<LogThreadStats>) -> Seq<int> {
    lts.map_values(|t: LogThreadStats| thread_bytes(t))
}

proof fn lemma_pool_nonneg(lts: Seq<LogThreadStats>)
    ensures
        all_nonneg(pool_files(lts)),
        all_nonneg(pool_lines(lts)),
        all_nonneg(pool_bytes(lts)),
{
    assert forall|i: int| 0 <= i < lts.len() implies 0 <= #[trigger] pool_lines(lts)[i] by {
        lemma_sum_nonneg(file_lines(lts[i].file_stats@));
    }
    assert forall|i: int| 0 <= i < lts.len() implies 0 <= #[trigger] pool_bytes(lts)[i] by {
        lemma_sum_nonneg(file_bytes(lts[i].file_stats@));
    }
}

/// A size in bytes as people read it.
pub open spec fn human_size(b: nat) -> Seq<char> {
    if b > 1024 {
        if b > 1024 * 1024 {
            decimal_repr(b / (1024 * 1024)) + " MB"@
        } else {
            decimal_repr(b / 1024) + " kb"@
        }
    } else {
        decimal_repr(b) + " bytes"@
    }
}

/// Writes a size in bytes as a whole number of MB, kb or bytes.
pub fn byte_to_human(byte: usize) -> (r: String)
    ensures
        r@ == human_size(byte as nat),
{
    if byte > 1024 {
        if byte > 1024 * 1024 {
            let mut s = decimal_string((byte / (1024 * 1024)) as u64);
            s.append(" MB");
            s
        } else {
            let mut s = decimal_string((byte / 1024) as u64);
            s.append(" kb");
            s
        }
    } else {
        let mut s = decimal_string(byte as u64);
        s.append(" bytes");
        s
    }
}

impl LogThreadStats {
    /// Lines over every file this shard loaded.
    pub fn line_count(&self) -> (r: u32)
        requires
            thread_lines(*self) <= u32::MAX,
        ensures
            r == thread_lines(*self),
    {
        let ghost s = file_lines(self.file_stats@);
        let mut acc: u32 = 0;
        let mut i: usize = 0;
        while i < self.file_stats.len()
            invariant
                0 <= i <= self.file_stats.len(),
                s == file_lines(self.file_stats@),
                seq_sum(s) <= u32::MAX,
                acc == seq_sum(s.take(i as int)),
            decreases self.file_stats.len() - i,
        {
            proof {
                lemma_sum_take_step(s, i as int);
                lemma_prefix_sum_le(s, i as int + 1);
            }
            acc = acc + self.file_stats[i].line_count;
            i = i + 1;
        }
        assert(s.take(i as int) =~= s);
        acc
    }

    /// Bytes over every file this shard loaded.
    pub fn size_bytes(&self) -> (r: usize)
        requires
            thread_bytes(*self) <= usize::MAX,
        ensures
            r == thread_bytes(*self),
    {
        let ghost s = file_bytes(self.file_stats@);
        let mut acc: usize = 0;
        let mut i: usize = 0;
        while i < self.file_stats.len()
            invariant
                0 <= i <= self.file_stats.len(),
                s == file_bytes(self.file_stats@),
                seq_sum(s) <= usize::MAX,
                acc == seq_sum(s.take(i as int)),
            decreases self.file_stats.len() - i,
        {
            proof {
                lemma_sum_take_step(s, i as int);
                lemma_prefix_sum_le(s, i as int + 1);
            }
            acc = acc + self.file_stats[i].size_bytes;
            i = i + 1;
        }
        assert(s.take(i as int) =~= s);
        acc
    }
}

impl LogThreadsStats {
    /// The pool's totals fit the integers they are reported in.
    pub open spec fn totals_fit(&self) -> bool {
        &&& seq_sum(pool_files(self.lts@)) <= usize::MAX
        &&& seq_sum(pool_lines(self.lts@)) <= u32::MAX
        &&& seq_sum(pool_bytes(self.lts@)) <= usize::MAX
    }

    /// Files loaded over the whole pool.
    pub fn file_count(&self) -> (r: usize)
        requires
            seq_sum(pool_files(self.lts@)) <= usize::MAX,
        ensures
            r == seq_sum(pool_files(self.lts@)),
    {
        let ghost s = pool_files(self.lts@);
        proof {
            lemma_pool_nonneg(self.lts@);
        }
        let mut acc: usize = 0;
        let mut i: usize = 0;
        while i < self.lts.len()
            invariant
                0 <= i <= self.lts.len(),
                s == pool_files(self.lts@),
                all_nonneg(s),
                seq_sum(s) <= usize::MAX,
                acc == seq_sum(s.take(i as int)),
            decreases self.lts.len() - i,
        {
            proof {
                lemma_sum_take_step(s, i as int);
                lemma_prefix_sum_le(s, i as int + 1);
            }
            acc = acc + self.lts[i].file_stats.len();
            i = i + 1;
        }
        assert(s.take(i as int) =~= s);
        acc
    }

    /// Lines loaded over the whole pool.
    pub fn line_count(&self) -> (r: u32)
        requires
            seq_sum(pool_lines(self.lts@)) <= u32::MAX,
        ensures
            r == seq_sum(pool_lines(self.lts@)),
    {
        let ghost s = pool_lines(self.lts@);
        proof {
            lemma_pool_nonneg(self.lts@);
        }
        let mut acc: u32 = 0;
        let mut i: usize = 0;
        while i < self.lts.len()
            invariant
                0 <= i <= self.lts.len(),
                s == pool_lines(self.lts@),
                all_nonneg(s),
                seq_sum(s) <= u32::MAX,
                acc == seq_sum(s.take(i as int)),
            decreases self.lts.len() - i,
        {
            proof {
                lemma_sum_take_step(s, i as int);
                lemma_prefix_sum_le(s, i as int + 1);
                lemma_sum_nonneg(s.take(i as int));
            }
            acc = acc + self.lts[i].line_count();
            i = i + 1;
        }
        assert(s.take(i as int) =~= s);
        acc
    }

    /// Bytes loaded over the whole pool.
    pub fn size_bytes(&self) -> (r: usize)
        requires
            seq_sum(pool_bytes(self.lts@)) <= usize::MAX,
        ensures
            r == seq_sum(pool_bytes(self.lts@)),
    {
        let ghost s = pool_bytes(self.lts@);
        proof {
            lemma_pool_nonneg(self.lts@);
        }
        let mut acc: usize = 0;
        let mut i: usize = 0;
        while i < self.lts.len()
            invariant
                0 <= i <= self.lts.len(),
                s == pool_bytes(self.lts@),
                all_nonneg(s),
                seq_sum(s) <= usize::MAX,
                acc == seq_sum(s.take(i as int)),
            decreases self.lts.len() - i,
        {
            proof {
                lemma_sum_take_step(s, i as int);
                lemma_prefix_sum_le(s, i as int + 1);
                lemma_sum_nonneg(s.take(i as int));
            }
            acc = acc + self.lts[i].size_bytes();
            i = i + 1;
        }
        assert(s.take(i as int) =~= s);
        acc
    }

    /// One line that sums up the pool: files, lines and size.
    pub fn summary(&self) -> (r: String)
        requires
            self.totals_fit(),
        ensures
            r@ == decimal_repr(seq_sum(pool_files(self.lts@)) as nat) + " files, "@ + decimal_repr(
                seq_sum(pool_lines(self.lts@)) as nat,
            ) + " lines in "@ + human_size(seq_sum(pool_bytes(self.lts@)) as nat) + "."@,
    {
        let f = self.file_count();
        let l = self.line_count();
        let b = self.size_bytes();
        let mut s = decimal_string(f as u64);
        s.append(" files, ");
        let ls = decimal_string(l as u64);
        s.append(ls.as_str());
        s.append(" lines in ");
        let bs = byte_to_human(b);
        s.append(bs.as_str());
        s.append(".");
        s
    }
}

/// Shards ordered by load time, fastest first.
pub open spec fn sorted_by_time(s: Seq<LogThreadStats>) -> bool {
    forall|i: int, j: int| 0 <= i < j < s.len() ==> #[trigger] s[i].time <= #[trigger] s[j].time
}

/// The line that reports one file's load.
pub open spec fn file_report(f: LogFileStats) -> Seq<char> {
    f.fname@ + ": "@ + decimal_repr(f.line_count as nat) + " lines for "@ + human_size(
        f.size_bytes as nat,
    ) + "."@
}

proof fn lemma_insert_multiset(s: Seq<LogThreadStats>, p: int, x: LogThreadStats)
    requires
        0 <= p <= s.len(),
    ensures
        s.insert(p, x).to_multiset() =~= s.to_multiset().insert(x),
{
    broadcast use vstd::seq_lib::group_to_multiset_ensures;

    let t = s.insert(p, x);
    t.to_multiset_ensures();
    assert(t.remove(p) =~= s);
    assert(t[p] == x);
    assert(t.remove(p).to_multiset() =~= t.to_multiset().remove(x));
    assert(t.to_multiset().count(x) > 0);
}

impl LogFileStats {
    /// Orders `lts` by load time, fastest first, and writes the line that
    /// reports this file's load.
    pub fn stats(&self, lts: &mut Vec<LogThreadStats>) -> (r: String)
        ensures
            final(lts)@.to_multiset() == old(lts)@.to_multiset(),
            sorted_by_time(final(lts)@),
            r@ == file_report(*self),
    {
        broadcast use vstd::seq_lib::group_to_multiset_ensures;

        let ghost orig = lts@;
        let mut sorted: Vec<LogThreadStats> = Vec::new();
        while lts.len() > 0
            invariant
                sorted@.to_multiset().add(lts@.to_multiset()) == orig.to_multiset(),
                sorted_by_time(sorted@),
            decreases lts.len(),
        {
            let ghost before = lts@;
            let item = lts.pop().unwrap();
            assert(before =~= lts@.push(item));
            proof {
                lts@.to_multiset_ensures();
            }
            assert(lts@.push(item).to_multiset() =~= lts@.to_multiset().insert(item));
            let mut p: usize = 0;
            while p < sorted.len() && sorted[p].time <= item.time
                invariant
                    0 <= p <= sorted.len(),
                    sorted_by_time(sorted@),
                    forall|q: int| 0 <= q < p ==> #[trigger] sorted@[q].time <= item.time,
                decreases sorted.len() - p,
            {
                p = p + 1;
            }
            let ghost old_sorted = sorted@;
            proof {
                lemma_insert_multiset(old_sorted, p as int, item);
            }
            sorted.insert(p, item);
            assert forall|i: int, j: int| 0 <= i < j < sorted@.len() implies #[trigger] sorted@[i].time
                <= #[trigger] sorted@[j].time by {
                if p < old_sorted.len() {
                    assert(old_sorted[p as int].time > item.time);
                }
                if i < p && j > p {
                    assert(sorted@[i] == old_sorted[i]);
                    assert(sorted@[j] == old_sorted[j - 1]);
                } else if j == p as int {
                    assert(sorted@[i] == old_sorted[i]);
                } else if i == p as int {
                    assert(sorted@[j] == old_sorted[j - 1]);
                    assert(old_sorted[p as int].time <= old_sorted[j - 1].time);
                } else if j < p {
                    assert(sorted@[i] == old_sorted[i]);
                    assert(sorted@[j] == old_sorted[j]);
                } else {
                    assert(sorted@[i] == old_sorted[i - 1]);
                    assert(sorted@[j] == old_sorted[j - 1]);
                }
            }
            assert(sorted@.to_multiset().add(lts@.to_multiset()) =~= orig.to_multiset());
        }
        assert(lts@.to_multiset() =~= vstd::multiset::Multiset::empty());
        assert(sorted@.to_multiset() =~= orig.to_multiset());
        *lts = sorted;
        let mut line = self.fname.clone();
        line.append(": ");
        let lines = decimal_string(self.line_count as u64);
        line.append(lines.as_str());
        line.append(" lines for ");
        let size = byte_to_human(self.size_bytes);
        line.append(size.as_str());
        line.append(".");
        line
    }
}

} // verus!
