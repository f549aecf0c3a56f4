//! A shard: the blocks it owns, the messages it exchanges with the
//! coordinator, and the decisions of its worker loop.

use vstd::prelude::*;
use crate::block::{
    LogFile, ReadError, accepted_count, block_match_count, lemma_accepted_count_is_match_count,
};
use crate::matcher::{Needle, PatternError, regex_compiles};
use crate::stats::{LogFileStats, LogThreadStats};

verus! {

pub type LogSearchResult = u64;

/// A count, or `u64::MAX` when it does not fit.
pub open spec fn capped(n: nat) -> u64 {
    if n <= u64::MAX {
        n as u64
    } else {
        u64::MAX
    }
}

/// Entries of `files` that the needle accepts on `field`.
pub open spec fn shard_accepted(files: Seq<LogFile>, field: Seq<char>, n: Needle) -> nat
    decreases files.len(),
{
    if files.len() == 0 {
        0
    } else {
        shard_accepted(files.drop_last(), field, n) + match files.last().decoded() {
            Some(es) => accepted_count(es, field, n),
            None => 0,
        }
    }
}

/// Entries of `files` that match the query `(field, needle, use_regex)`.
pub open spec fn shard_matches(
    files: Seq<LogFile>,
    field: Seq<char>,
    needle: Seq<char>,
    use_regex: bool,
) -> nat
    decreases files.len(),
{
    if files.len() == 0 {
        0
    } else {
        shard_matches(files.drop_last(), field, needle, use_regex) + block_match_count(
            files.last().decoded(),
            field,
            needle,
            use_regex,
        )
    }
}

proof fn lemma_shard_accepted_is_matches(
    files: Seq<LogFile>,
    field: Seq<char>,
    n: Needle,
    needle: Seq<char>,
    use_regex: bool,
)
    requires
        n.is_for(needle, use_regex),
    ensures
        shard_accepted(files, field, n) == shard_matches(files, field, needle, use_regex),
    decreases files.len(),
{
    if files.len() > 0 {
        lemma_shard_accepted_is_matches(files.drop_last(), field, n, needle, use_regex);
        if let Some(es) = files.last().decoded() {
            lemma_accepted_count_is_match_count(es, field, n, needle, use_regex);
        }
    }
}

/// The blocks one shard owns.
pub struct LogFileThread {
    pub name: String,
    pub content: Vec<LogFile>,
}

impl LogFileThread {
    /// Counts, over every owned block, the entries whose facet `field` the
    /// needle accepts.
    pub fn search(&self, field: &str, needle: &Needle) -> (r: LogSearchResult)
        ensures
            r == capped(shard_accepted(self.content@, field@, *needle)),
    {
        let mut acc: u64 = 0;
        let mut i: usize = 0;
        while i < self.content.len()
            invariant
                0 <= i <= self.content.len(),
                acc == capped(shard_accepted(self.content@.take(i as int), field@, *needle)),
            decreases self.content.len() - i,
        {
            assert(self.content@.take(i as int + 1).drop_last() =~= self.content@.take(i as int));
            let c = self.content[i].gen_find(field, needle);
            acc = acc.saturating_add(c);
            i = i + 1;
        }
        assert(self.content@.take(i as int) =~= self.content@);
        acc
    }

    /// Counts the entries whose facet `field` contains `needle`.
    pub fn find(&self, field: &str, needle: &str) -> (r: LogSearchResult)
        ensures
            r == capped(shard_matches(self.content@, field@, needle@, false)),
    {
        match Needle::new(needle, false) {
            Ok(n) => {
                proof {
                    lemma_shard_accepted_is_matches(self.content@, field@, n, needle@, false);
                }
                self.search(field, &n)
            },
            Err(_) => 0,
        }
    }

    /// Counts the entries whose facet `field` the regex `needle` matches; the
    /// regex is compiled once for the whole shard.
    pub fn rfind(&self, field: &str, needle: &str) -> (r: Result<LogSearchResult, PatternError>)
        ensures
            r is Err <==> !regex_compiles(needle@),
            r is Ok ==> r->Ok_0 == capped(shard_matches(self.content@, field@, needle@, true)),
    {
        let n = Needle::new(needle, true)?;
        proof {
            lemma_shard_accepted_is_matches(self.content@, field@, n, needle@, true);
        }
        Ok(self.search(field, &n))
    }
}

/// What the coordinator sends a shard.
pub enum ManagerMessages {
    /// Add a file to those the next load reads.
    QueueFile(String),
    /// Read and decode every queued file now.
    ReadFiles,
    /// Count the entries whose facet (first) matches the needle (second),
    /// as a regex when the flag is set.
    FindNeedle(String, String, bool),
    /// Stop; the text says why.
    Shutdown(String),
}

/// What a shard sends the coordinator.
pub enum ClientMessages {
    /// The load is done; what was loaded.
    ReadFiles(LogThreadStats),
    /// Shard name, field, needle, and a positive count of matching entries.
    FoundNeedle(String, String, String, LogSearchResult),
    /// Shard name, field and needle of a query that matched nothing.
    NotFound(String, String, String),
    /// Shard name, field and needle of a regex query whose needle does not compile.
    BadPattern(String, String, String),
}

/// Where a shard's worker stands.
#[derive(PartialEq, Eq, Structural, Clone, Copy, Debug)]
pub enum ShardPhase {
    /// Collecting the files to load.
    Idle,
    /// Told to load; waiting for the files it asked for.
    Loading,
    /// Loaded; answering queries.
    Ready,
    /// Shut down; nothing more is processed.
    Stopped,
}

/// What the worker loop must do after a message.
pub enum WorkerAction {
    /// Nothing to do.
    Ignore,
    /// Nothing to do, but the message was out of place; worth a log line.
    Unexpected,
    /// Read these files, in this order, and hand them to `on_loaded`.
    Load(Vec<String>),
    /// Send this reply to the coordinator.
    Reply(ClientMessages),
    /// Leave the loop.
    Stop,
}

/// The reply a shard owes to a query over `files`.
pub open spec fn is_find_reply(
    r: ClientMessages,
    name: Seq<char>,
    files: Seq<LogFile>,
    field: Seq<char>,
    needle: Seq<char>,
    use_regex: bool,
) -> bool {
    if use_regex && !regex_compiles(needle) {
        r matches ClientMessages::BadPattern(n, f, q) && n@ == name && f@ == field && q@ == needle
    } else if capped(shard_matches(files, field, needle, use_regex)) > 0 {
        r matches ClientMessages::FoundNeedle(n, f, q, c) && n@ == name && f@ == field && q@
            == needle && c == capped(shard_matches(files, field, needle, use_regex))
    } else {
        r matches ClientMessages::NotFound(n, f, q) && n@ == name && f@ == field && q@ == needle
    }
}

/// The blocks a load keeps: those read and decodable, in order.
pub open spec fn loaded_files(reads: Seq<Result<LogFile, ReadError>>) -> Seq<LogFile>
    decreases reads.len(),
{
    if reads.len() == 0 {
        Seq::empty()
    } else {
        let rest = loaded_files(reads.drop_last());
        match reads.last() {
            Ok(f) => if f.decoded() is Some {
                rest.push(f)
            } else {
                rest
            },
            Err(_) => rest,
        }
    }
}

/// `stats` describes `files`, one for one.
pub open spec fn describes(stats: Seq<LogFileStats>, files: Seq<LogFile>) -> bool {
    &&& stats.len() == files.len()
    &&& forall|i: int|
        0 <= i < files.len() ==> {
            &&& (#[trigger] stats[i]).fname@ == files[i].fname@
            &&& stats[i].size_bytes == files[i].content@.len()
            &&& files[i].decoded() is Some
            &&& stats[i].line_count == files[i].decoded()->Some_0.len()
        }
}

/// A shard's worker: its blocks, the files queued for its load, and its phase.
pub struct ShardWorker {
    pub shard: LogFileThread,
    pub queued: Vec<String>,
    pub phase: ShardPhase,
}

impl ShardWorker {
    /// The message is out of place in the phase the worker is in.
    pub open spec fn unexpected(&self, msg: ManagerMessages) -> bool {
        match self.phase {
            ShardPhase::Idle => msg is FindNeedle,
            ShardPhase::Loading => !(msg is Shutdown),
            ShardPhase::Ready => msg is QueueFile || msg is ReadFiles,
            ShardPhase::Stopped => false,
        }
    }

    /// A worker with no blocks and nothing queued.
    pub fn new(name: String) -> (r: ShardWorker)
        ensures
            r.shard.name == name,
            r.shard.content@.len() == 0,
            r.queued@.len() == 0,
            r.phase == ShardPhase::Idle,
    {
        ShardWorker { shard: LogFileThread { name, content: Vec::new() }, queued: Vec::new(), phase: ShardPhase::Idle }
    }

    /// Answers a query from the blocks loaded so far.
    pub fn answer(&self, field: String, needle: String, use_regex: bool) -> (r: ClientMessages)
        ensures
            is_find_reply(r, self.shard.name@, self.shard.content@, field@, needle@, use_regex),
    {
        let found = if use_regex {
            self.shard.rfind(field.as_str(), needle.as_str())
        } else {
            Ok(self.shard.find(field.as_str(), needle.as_str()))
        };
        match found {
            Ok(c) => if c > 0 {
                ClientMessages::FoundNeedle(self.shard.name.clone(), field, needle, c)
            } else {
                ClientMessages::NotFound(self.shard.name.clone(), field, needle)
            },
            Err(_) => ClientMessages::BadPattern(self.shard.name.clone(), field, needle),
        }
    }

    /// Decides what one message from the coordinator does. Messages out of
    /// place change nothing and are flagged; after `Shutdown` every message is
    /// ignored.
    pub fn on_message(&mut self, msg: ManagerMessages) -> (a: WorkerAction)
        ensures
            old(self).phase == ShardPhase::Stopped ==> *final(self) == *old(self) && a is Ignore,
            old(self).phase != ShardPhase::Stopped && msg is Shutdown ==> final(self).phase
                == ShardPhase::Stopped && final(self).shard == old(self).shard && a is Stop,
            old(self).unexpected(msg) ==> *final(self) == *old(self) && a is Unexpected,
            old(self).phase == ShardPhase::Idle && msg is QueueFile ==> final(self).phase
                == ShardPhase::Idle && final(self).shard == old(self).shard && final(self).queued@
                == old(self).queued@.push(msg->QueueFile_0) && a is Ignore,
            old(self).phase == ShardPhase::Idle && msg is ReadFiles ==> final(self).phase
                == ShardPhase::Loading && final(self).shard == old(self).shard
                && final(self).queued@.len() == 0 && a == WorkerAction::Load(old(self).queued),
            old(self).phase == ShardPhase::Ready && msg is FindNeedle ==> *final(self) == *old(self)
                && a is Reply && is_find_reply(
                a->Reply_0,
                old(self).shard.name@,
                old(self).shard.content@,
                msg->FindNeedle_0@,
                msg->FindNeedle_1@,
                msg->FindNeedle_2,
            ),
    {
        if self.phase == ShardPhase::Stopped {
            return WorkerAction::Ignore;
        }
        match msg {
            ManagerMessages::Shutdown(_) => {
                self.phase = ShardPhase::Stopped;
                WorkerAction::Stop
            },
            ManagerMessages::QueueFile(f) => {
                if self.phase == ShardPhase::Idle {
                    self.queued.push(f);
                    WorkerAction::Ignore
                } else {
                    WorkerAction::Unexpected
                }
            },
            ManagerMessages::ReadFiles => {
                if self.phase == ShardPhase::Idle {
                    let mut files: Vec<String> = Vec::new();
                    std::mem::swap(&mut files, &mut self.queued);
                    self.phase = ShardPhase::Loading;
                    WorkerAction::Load(files)
                } else {
                    WorkerAction::Unexpected
                }
            },
            ManagerMessages::FindNeedle(field, needle, use_regex) => {
                if self.phase == ShardPhase::Ready {
                    WorkerAction::Reply(self.answer(field, needle, use_regex))
                } else {
                    WorkerAction::Unexpected
                }
            },
        }
    }

    /// Takes the files that a load read, in the order asked for, and how long
    /// reading took. Keeps those that were read and decode; skips the others
    /// without failing. The reply describes what was kept.
    pub fn on_loaded(&mut self, reads: Vec<Result<LogFile, ReadError>>, elapsed_ms: i64) -> (r:
        ClientMessages)
        requires
            old(self).phase == ShardPhase::Loading,
        ensures
            final(self).phase == ShardPhase::Ready,
            final(self).queued == old(self).queued,
            final(self).shard.name == old(self).shard.name,
            final(self).shard.content@ == old(self).shard.content@ + loaded_files(reads@),
            r matches ClientMessages::ReadFiles(ts) && ts.time == elapsed_ms && describes(
                ts.file_stats@,
                loaded_files(reads@),
            ),
    {
        let ghost orig = reads@;
        let ghost start = self.shard.content@;
        let ghost queued0 = self.queued;
        let ghost name0 = self.shard.name;
        let mut reads = reads;
        assert(orig.len() == reads.len());
        let mut stats: Vec<LogFileStats> = Vec::new();
        let mut k: usize = 0;
        while reads.len() > 0
            invariant
                reads@ == orig.skip(k as int),
                k + reads@.len() == orig.len(),
                orig.len() <= usize::MAX,
                self.queued == queued0,
                self.shard.name == name0,
                self.phase == ShardPhase::Loading,
                self.shard.content@ == start + loaded_files(orig.take(k as int)),
                describes(stats@, loaded_files(orig.take(k as int))),
            decreases reads.len(),
        {
            let item = reads.remove(0);
            assert(orig.take(k as int + 1).drop_last() =~= orig.take(k as int));
            assert(item == orig[k as int]);
            match item {
                Ok(f) => match f.get_stats() {
                    Ok(st) => {
                        stats.push(st);
                        self.shard.content.push(f);
                    },
                    Err(_) => {},
                },
                Err(_) => {},
            }
            assert(reads@ =~= orig.skip(k as int + 1));
            k = k + 1;
        }
        assert(orig.take(k as int) =~= orig);
        self.phase = ShardPhase::Ready;
        ClientMessages::ReadFiles(LogThreadStats { file_stats: stats, time: elapsed_ms })
    }
}

} // verus!
