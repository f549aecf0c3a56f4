//! Log blocks: the packed capnp file in memory, its decoded entries, and the
//! scan of those entries for a query.
//!
//! A block file is one packed capnp message whose root is a `List(List(Text))`.
//! Each inner list is one entry: its timestamp in microseconds written in
//! decimal, its facility, then its facets as key, value, key, value, ...

use vstd::prelude::*;
use crate::decimal::{decimal_value, is_u64_decimal, parse_u64};
use crate::matcher::{Needle, PatternError, occurs_in, query_accepts, regex_compiles};
use crate::stats::LogFileStats;
use capnp::message::ReaderOptions;

verus! {

/// capnp's `message::ReaderOptions`: two public fields, read as they are.
#[verifier::external_type_specification]
pub struct ExReaderOptions(capnp::message::ReaderOptions);

/// capnp's `Error`, carried through unopened.
#[verifier::external_type_specification]
#[verifier::external_body]
pub struct ExCapnpError(capnp::Error);

/// `std::io::Error`, carried through unopened.
#[verifier::external_type_specification]
#[verifier::external_body]
pub struct ExIoError(std::io::Error);

/// Relies on `ReaderOptions::new`, which returns capnp's defaults: a traversal
/// limit of 8 Mi words and a nesting limit of 64.
pub assume_specification[ capnp::message::ReaderOptions::new ]() -> (r: ReaderOptions)
    ensures
        r.traversal_limit_in_words == Some(8388608usize),
        r.nesting_limit == 64,
;

/// Relies on `ReaderOptions::traversal_limit_in_words`, which sets that one field.
#[verifier::external_body]
fn set_traversal_limit(options: &mut ReaderOptions, words: usize)
    ensures
        final(options).traversal_limit_in_words == Some(words),
        final(options).nesting_limit == old(options).nesting_limit,
{
    options.traversal_limit_in_words(Some(words));
}

/// The rows that capnp's packed reader finds in `bytes` read as a
/// `List(List(Text))`: `None` when the message or its root cannot be read;
/// a row is `None` when that inner list cannot be read, a cell `None` when
/// that text cannot be read or is not UTF-8.
pub uninterp spec fn packed_rows(
    bytes: Seq<u8>,
    traversal_limit: Option<usize>,
    nesting_limit: i32,
) -> Option<Seq<Option<Seq<Option<Seq<char>>>>>>;

pub open spec fn cell_view(c: Option<String>) -> Option<Seq<char>> {
    match c {
        Some(s) => Some(s@),
        None => None,
    }
}

pub open spec fn cells_view(cells: Seq<Option<String>>) -> Seq<Option<Seq<char>>> {
    cells.map_values(|c: Option<String>| cell_view(c))
}

pub open spec fn row_view(r: Option<Vec<Option<String>>>) -> Option<Seq<Option<Seq<char>>>> {
    match r {
        Some(cells) => Some(cells_view(cells@)),
        None => None,
    }
}

pub open spec fn rows_view(rows: Seq<Option<Vec<Option<String>>>>) -> Seq<
    Option<Seq<Option<Seq<char>>>>,
> {
    rows.map_values(|r: Option<Vec<Option<String>>>| row_view(r))
}

/// Relies on capnp's `serialize_packed::read_message`, `Reader::get_root` and
/// its list readers: the rows depend on the bytes and the options alone, and a
/// capnp list holds at most `u32::MAX` elements.
#[verifier::external_body]
fn read_packed_rows(bytes: &[u8], options: ReaderOptions) -> (r: Result<
    Vec<Option<Vec<Option<String>>>>,
    capnp::Error,
>)
    ensures
        r is Ok <==> packed_rows(bytes@, options.traversal_limit_in_words, options.nesting_limit) is Some,
        r is Ok ==> rows_view(r->Ok_0@) == packed_rows(
            bytes@,
            options.traversal_limit_in_words,
            options.nesting_limit,
        )->Some_0,
        r is Ok ==> r->Ok_0@.len() <= u32::MAX,
{
    let message = capnp::serialize_packed::read_message(bytes, options)?;
    let rows: capnp::list_list::Reader<capnp::text_list::Owned> = message.get_root()?;
    Ok(rows.iter().map(|row| {
        row.ok().map(|cells| cells.iter().map(|c| c.ok().and_then(|t| t.to_string().ok())).collect())
    }).collect())
}

/// One decoded entry, as a mathematical value.
pub struct EntryView {
    pub time: u64,
    pub facility: Seq<char>,
    pub facets: Seq<(Seq<char>, Seq<char>)>,
}

/// One log line: a timestamp in microseconds, a facility, and its facets in
/// the order the block holds them.
pub struct LogEntry {
    pub time: u64,
    pub facility: String,
    pub facets: Vec<(String, String)>,
}

pub open spec fn pair_view(p: (String, String)) -> (Seq<char>, Seq<char>) {
    (p.0@, p.1@)
}

impl View for LogEntry {
    type V = EntryView;

    open spec fn view(&self) -> EntryView {
        EntryView {
            time: self.time,
            facility: self.facility@,
            facets: self.facets@.map_values(|p: (String, String)| pair_view(p)),
        }
    }
}

/// The decoded entries of one block, in block order.
pub struct LogBlock {
    pub entries: Vec<LogEntry>,
}

impl View for LogBlock {
    type V = Seq<EntryView>;

    open spec fn view(&self) -> Seq<EntryView> {
        self.entries@.map_values(|e: LogEntry| e@)
    }
}

/// The facets of an entry read from the cells after its facility: pairwise,
/// or none at all when a cell is unreadable or a key has no value.
pub open spec fn facets_of_cells(cells: Seq<Option<Seq<char>>>) -> Seq<(Seq<char>, Seq<char>)> {
    if cells.len() % 2 == 0 && forall|i: int| 0 <= i < cells.len() ==> #[trigger] cells[i] is Some {
        Seq::new(cells.len() / 2, |k: int| (cells[2 * k]->Some_0, cells[2 * k + 1]->Some_0))
    } else {
        Seq::empty()
    }
}

/// The entry a row spells, if its timestamp and facility can be read.
pub open spec fn entry_of_cells(cells: Seq<Option<Seq<char>>>) -> Option<EntryView> {
    if cells.len() >= 2 && cells[0] is Some && is_u64_decimal(cells[0]->Some_0) && cells[1] is Some {
        Some(
            EntryView {
                time: decimal_value(cells[0]->Some_0) as u64,
                facility: cells[1]->Some_0,
                facets: facets_of_cells(cells.skip(2)),
            },
        )
    } else {
        None
    }
}

/// The block that the rows spell, if every row is a readable entry.
pub open spec fn block_of_rows(rows: Seq<Option<Seq<Option<Seq<char>>>>>) -> Option<Seq<EntryView>> {
    if forall|i: int|
        0 <= i < rows.len() ==> #[trigger] rows[i] is Some && entry_of_cells(rows[i]->Some_0) is Some {
        Some(Seq::new(rows.len(), |i: int| entry_of_cells(rows[i]->Some_0)->Some_0))
    } else {
        None
    }
}

/// The value of the first facet named `field`.
pub open spec fn facet_lookup(facets: Seq<(Seq<char>, Seq<char>)>, field: Seq<char>) -> Option<
    Seq<char>,
>
    decreases facets.len(),
{
    if facets.len() == 0 {
        None
    } else if facets[0].0 == field {
        Some(facets[0].1)
    } else {
        facet_lookup(facets.drop_first(), field)
    }
}

/// The entry has a facet `field` whose value satisfies the query.
pub open spec fn entry_matches(e: EntryView, field: Seq<char>, needle: Seq<char>, use_regex: bool) -> bool {
    match facet_lookup(e.facets, field) {
        Some(v) => query_accepts(needle, use_regex, v),
        None => false,
    }
}

/// How many of `es` match the query.
pub open spec fn match_count(es: Seq<EntryView>, field: Seq<char>, needle: Seq<char>, use_regex: bool) -> nat
    decreases es.len(),
{
    if es.len() == 0 {
        0
    } else {
        match_count(es.drop_last(), field, needle, use_regex) + if entry_matches(
            es.last(),
            field,
            needle,
            use_regex,
        ) {
            1nat
        } else {
            0nat
        }
    }
}

/// The entry has a facet `field` that the needle accepts.
pub open spec fn entry_accepted(e: EntryView, field: Seq<char>, n: Needle) -> bool {
    match facet_lookup(e.facets, field) {
        Some(v) => n.accepts(v),
        None => false,
    }
}

/// How many of `es` the needle accepts on `field`.
pub open spec fn accepted_count(es: Seq<EntryView>, field: Seq<char>, n: Needle) -> nat
    decreases es.len(),
{
    if es.len() == 0 {
        0
    } else {
        accepted_count(es.drop_last(), field, n) + if entry_accepted(es.last(), field, n) {
            1nat
        } else {
            0nat
        }
    }
}

pub proof fn lemma_accepted_count_is_match_count(
    es: Seq<EntryView>,
    field: Seq<char>,
    n: Needle,
    needle: Seq<char>,
    use_regex: bool,
)
    requires
        n.is_for(needle, use_regex),
    ensures
        accepted_count(es, field, n) == match_count(es, field, needle, use_regex),
    decreases es.len(),
{
    if es.len() > 0 {
        lemma_accepted_count_is_match_count(es.drop_last(), field, n, needle, use_regex);
    }
}

/// The count never exceeds the number of entries.
pub proof fn lemma_accepted_count_le_len(es: Seq<EntryView>, field: Seq<char>, n: Needle)
    ensures
        accepted_count(es, field, n) <= es.len(),
    decreases es.len(),
{
    if es.len() > 0 {
        lemma_accepted_count_le_len(es.drop_last(), field, n);
    }
}

/// A block in which every entry carries the facet `field` with the value `v`
/// has every one of its entries counted by a literal search for `v` on `field`.
pub proof fn lemma_uniform_block_counts_all(es: Seq<EntryView>, field: Seq<char>, v: Seq<char>)
    requires
        forall|i: int| 0 <= i < es.len() ==> facet_lookup(#[trigger] es[i].facets, field) == Some(v),
    ensures
        match_count(es, field, v, false) == es.len(),
    decreases es.len(),
{
    if es.len() > 0 {
        assert(v.subrange(0, 0 + v.len() as int) =~= v);
        assert(occurs_in(v, v));
        assert(facet_lookup(es[es.len() - 1].facets, field) == Some(v));
        assert(entry_matches(es.last(), field, v, false));
        assert forall|i: int| 0 <= i < es.drop_last().len() implies facet_lookup(
            #[trigger] es.drop_last()[i].facets,
            field,
        ) == Some(v) by {
            assert(es.drop_last()[i] == es[i]);
        }
        lemma_uniform_block_counts_all(es.drop_last(), field, v);
    }
}

/// A search on a field that no entry carries finds nothing, whatever the
/// needle; it is no error.
pub proof fn lemma_absent_field_matches_nothing(
    es: Seq<EntryView>,
    field: Seq<char>,
    needle: Seq<char>,
    use_regex: bool,
)
    requires
        forall|i: int| 0 <= i < es.len() ==> facet_lookup(#[trigger] es[i].facets, field) is None,
    ensures
        match_count(es, field, needle, use_regex) == 0,
    decreases es.len(),
{
    if es.len() > 0 {
        assert(facet_lookup(es[es.len() - 1].facets, field) is None);
        assert forall|i: int| 0 <= i < es.drop_last().len() implies facet_lookup(
            #[trigger] es.drop_last()[i].facets,
            field,
        ) is None by {
            assert(es.drop_last()[i] == es[i]);
        }
        lemma_absent_field_matches_nothing(es.drop_last(), field, needle, use_regex);
    }
}

/// Finds the value of the first facet named `field`.
pub fn find_field<'a>(entry: &'a LogEntry, field: &String) -> (r: Option<&'a String>)
    ensures
        match r {
            Some(v) => facet_lookup(entry@.facets, field@) == Some(v@),
            None => facet_lookup(entry@.facets, field@) is None,
        },
{
    let ghost fs = entry@.facets;
    assert(fs.skip(0) =~= fs);
    let mut i: usize = 0;
    while i < entry.facets.len()
        invariant
            0 <= i <= entry.facets.len(),
            fs == entry@.facets,
            facet_lookup(fs, field@) == facet_lookup(fs.skip(i as int), field@),
        decreases entry.facets.len() - i,
    {
        let kv = &entry.facets[i];
        assert(fs.skip(i as int)[0] == pair_view(*kv));
        if kv.0 == *field {
            return Some(&kv.1);
        }
        assert(fs.skip(i as int).drop_first() =~= fs.skip(i as int + 1));
        i = i + 1;
    }
    None
}

impl LogBlock {
    /// Counts the entries whose facet `field` the needle accepts.
    pub fn count_matches(&self, field: &str, needle: &Needle) -> (r: u64)
        ensures
            r == accepted_count(self@, field@, *needle),
    {
        let f = field.to_string();
        let mut count: u64 = 0;
        let mut i: usize = 0;
        while i < self.entries.len()
            invariant
                0 <= i <= self.entries.len(),
                f@ == field@,
                count == accepted_count(self@.take(i as int), field@, *needle),
            decreases self.entries.len() - i,
        {
            proof {
                assert(self@.take(i as int + 1).drop_last() =~= self@.take(i as int));
                lemma_accepted_count_le_len(self@.take(i as int), field@, *needle);
            }
            let hit = match find_field(&self.entries[i], &f) {
                Some(v) => needle.accepts_value(v.as_str()),
                None => false,
            };
            if hit {
                count = count + 1;
            }
            i = i + 1;
        }
        assert(self@.take(i as int) =~= self@);
        count
    }
}

fn facets_from_cells(cells: &Vec<Option<String>>, start: usize) -> (r: Vec<(String, String)>)
    requires
        start <= cells.len(),
    ensures
        r@.map_values(|p: (String, String)| pair_view(p)) == facets_of_cells(
            cells_view(cells@).skip(start as int),
        ),
{
    let ghost rest = cells_view(cells@).skip(start as int);
    let mut out: Vec<(String, String)> = Vec::new();
    if (cells.len() - start) % 2 != 0 {
        assert(out@.map_values(|p: (String, String)| pair_view(p)) =~= Seq::empty());
        return out;
    }
    let pairs = (cells.len() - start) / 2;
    let mut k: usize = 0;
    while k < pairs
        invariant
            start <= cells.len(),
            pairs * 2 == cells.len() - start,
            rest == cells_view(cells@).skip(start as int),
            rest.len() == pairs * 2,
            0 <= k <= pairs,
            forall|i: int| 0 <= i < 2 * k ==> #[trigger] rest[i] is Some,
            out@.len() == k,
            forall|j: int|
                0 <= j < k ==> pair_view(#[trigger] out@[j]) == (
                    rest[2 * j]->Some_0,
                    rest[2 * j + 1]->Some_0,
                ),
        decreases pairs - k,
    {
        let key = &cells[start + 2 * k];
        let value = &cells[start + 2 * k + 1];
        match (key, value) {
            (Some(a), Some(b)) => {
                out.push((a.clone(), b.clone()));
            },
            _ => {
                assert(!(rest[2 * k as int] is Some && rest[2 * k as int + 1] is Some));
                let empty: Vec<(String, String)> = Vec::new();
                assert(empty@.map_values(|p: (String, String)| pair_view(p)) =~= Seq::empty());
                return empty;
            },
        }
        k = k + 1;
    }
    assert(out@.map_values(|p: (String, String)| pair_view(p)) =~= facets_of_cells(rest));
    out
}

fn entry_from_cells(cells: &Vec<Option<String>>) -> (r: Option<LogEntry>)
    ensures
        r is Some <==> entry_of_cells(cells_view(cells@)) is Some,
        r is Some ==> r->Some_0@ == entry_of_cells(cells_view(cells@))->Some_0,
{
    let ghost cv = cells_view(cells@);
    if cells.len() < 2 {
        return None;
    }
    let time = match &cells[0] {
        Some(t) => parse_u64(t.as_str()),
        None => None,
    };
    match (time, &cells[1]) {
        (Some(t), Some(facility)) => {
            let facets = facets_from_cells(cells, 2);
            let e = LogEntry { time: t, facility: facility.clone(), facets };
            assert(e@ =~= entry_of_cells(cv)->Some_0);
            Some(e)
        },
        _ => None,
    }
}

/// Why a block could not be had.
#[derive(Debug)]
pub enum ReadError {
    /// The file could not be opened or read.
    Io(std::io::Error),
    /// capnp could not read the message or its root.
    Proto(capnp::Error),
    /// A row is unreadable or lacks a readable timestamp and facility.
    Malformed,
}

impl LogBlock {
    /// Builds a block from the rows of a message; fails only when a row itself
    /// is unreadable or lacks its timestamp or facility.
    pub fn from_rows(rows: &Vec<Option<Vec<Option<String>>>>) -> (r: Result<LogBlock, ReadError>)
        ensures
            r is Ok <==> block_of_rows(rows_view(rows@)) is Some,
            r is Ok ==> r->Ok_0@ == block_of_rows(rows_view(rows@))->Some_0,
            r is Err ==> r->Err_0 is Malformed,
    {
        let ghost rv = rows_view(rows@);
        let mut entries: Vec<LogEntry> = Vec::new();
        let mut i: usize = 0;
        while i < rows.len()
            invariant
                0 <= i <= rows.len(),
                rv == rows_view(rows@),
                entries@.len() == i,
                forall|j: int|
                    0 <= j < i ==> #[trigger] rv[j] is Some && entry_of_cells(rv[j]->Some_0) is Some
                        && entries@[j]@ == entry_of_cells(rv[j]->Some_0)->Some_0,
            decreases rows.len() - i,
        {
            assert(rv[i as int] == row_view(rows@[i as int]));
            match &rows[i] {
                Some(cells) => match entry_from_cells(cells) {
                    Some(e) => {
                        entries.push(e);
                    },
                    None => {
                        assert(!(rv[i as int] is Some && entry_of_cells(rv[i as int]->Some_0) is Some));
                        return Err(ReadError::Malformed);
                    },
                },
                None => {
                    assert(!(rv[i as int] is Some));
                    return Err(ReadError::Malformed);
                },
            }
            i = i + 1;
        }
        let b = LogBlock { entries };
        assert(b@ =~= block_of_rows(rv)->Some_0);
        Ok(b)
    }
}

/// The traversal limit that block files are read with: far above any real
/// block, so that only a corrupt message reaches it.
pub const TRAVERSAL_LIMIT_WORDS: usize = 20000000;

/// What a block file holds once decoded.
pub open spec fn decoded_block(content: Seq<u8>) -> Option<Seq<EntryView>> {
    match packed_rows(content, Some(TRAVERSAL_LIMIT_WORDS), 64) {
        Some(rows) => block_of_rows(rows),
        None => None,
    }
}

/// How many entries of a decoded block match; an undecodable block matches none.
pub open spec fn block_match_count(
    block: Option<Seq<EntryView>>,
    field: Seq<char>,
    needle: Seq<char>,
    use_regex: bool,
) -> nat {
    match block {
        Some(es) => match_count(es, field, needle, use_regex),
        None => 0,
    }
}

/// One block file, held as the bytes read from disk.
pub struct LogFile {
    pub fname: String,
    pub content: Vec<u8>,
}

impl LogFile {
    pub open spec fn decoded(&self) -> Option<Seq<EntryView>> {
        decoded_block(self.content@)
    }

    /// The options block files are read with.
    pub fn reader_options(&self) -> (r: ReaderOptions)
        ensures
            r.traversal_limit_in_words == Some(TRAVERSAL_LIMIT_WORDS),
            r.nesting_limit == 64,
    {
        let mut ro = ReaderOptions::new();
        set_traversal_limit(&mut ro, TRAVERSAL_LIMIT_WORDS);
        ro
    }

    /// Decodes the block; done afresh on every call, nothing is cached.
    pub fn decode(&self) -> (r: Result<LogBlock, ReadError>)
        ensures
            r is Ok <==> self.decoded() is Some,
            r is Ok ==> r->Ok_0@ == self.decoded()->Some_0,
            r is Ok ==> r->Ok_0@.len() <= u32::MAX,
    {
        match read_packed_rows(self.content.as_slice(), self.reader_options()) {
            Ok(rows) => LogBlock::from_rows(&rows),
            Err(e) => Err(ReadError::Proto(e)),
        }
    }

    /// Name, size and number of entries of the block; fails when it cannot be decoded.
    pub fn get_stats(&self) -> (r: Result<LogFileStats, ReadError>)
        ensures
            r is Ok <==> self.decoded() is Some,
            r is Ok ==> r->Ok_0.fname@ == self.fname@ && r->Ok_0.size_bytes == self.content@.len()
                && r->Ok_0.line_count == self.decoded()->Some_0.len(),
    {
        match self.decode() {
            Ok(block) => {
                assert(block@.len() == block.entries@.len());
                Ok(
                    LogFileStats {
                        fname: self.fname.clone(),
                        size_bytes: self.content.len(),
                        line_count: block.entries.len() as u32,
                    },
                )
            },
            Err(e) => Err(e),
        }
    }

    /// Counts the entries whose facet `field` the needle accepts; a block that
    /// cannot be decoded counts none.
    pub fn gen_find(&self, field: &str, needle: &Needle) -> (r: u64)
        ensures
            r == match self.decoded() {
                Some(es) => accepted_count(es, field@, *needle),
                None => 0,
            },
    {
        match self.decode() {
            Ok(block) => block.count_matches(field, needle),
            Err(_) => 0,
        }
    }

    /// Counts the entries whose facet `field` contains `needle`.
    pub fn find(&self, field: &str, needle: &str) -> (r: u64)
        ensures
            r == block_match_count(self.decoded(), field@, needle@, false),
    {
        let n = Needle::new(needle, false);
        match n {
            Ok(n) => {
                proof {
                    if let Some(es) = self.decoded() {
                        lemma_accepted_count_is_match_count(es, field@, n, needle@, false);
                    }
                }
                self.gen_find(field, &n)
            },
            Err(_) => 0,
        }
    }

    /// Counts the entries whose facet `field` the regex `needle` matches.
    pub fn rfind(&self, field: &str, needle: &str) -> (r: Result<u64, PatternError>)
        ensures
            r is Err <==> !regex_compiles(needle@),
            r is Ok ==> r->Ok_0 == block_match_count(self.decoded(), field@, needle@, true),
    {
        let n = Needle::new(needle, true)?;
        proof {
            if let Some(es) = self.decoded() {
                lemma_accepted_count_is_match_count(es, field@, n, needle@, true);
            }
        }
        Ok(self.gen_find(field, &n))
    }
}

} // verus!
