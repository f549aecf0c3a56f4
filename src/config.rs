//! A configuration once parsed, the first steps of reading one, and what the
//! ingestion side receives.

use vstd::prelude::*;
use vstd::string::StrSliceExecFns;
use std::collections::HashMap;

verus! {

/// A character that can belong to a symbol: anything but a blank, a comment
/// mark, a line end, `=` or a brace.
pub open spec fn symbol_char(c: char) -> bool {
    !(c == ' ' || c == '#' || c == '\n' || c == '=' || c == '{' || c == '}')
}

pub fn end_of_symbol(chr: char) -> (r: bool)
    ensures
        r == symbol_char(chr),
{
    !(chr == ' ' || chr == '#' || chr == '\n' || chr == '=' || chr == '{' || chr == '}')
}

/// A `#` stands at or before position `i`.
pub open spec fn comment_started(s: Seq<char>, i: int) -> bool {
    exists|j: int| 0 <= j <= i && s[j] == '#'
}

/// Where a run of blanks and comments ends: inside a comment at its line end,
/// elsewhere at the first character that is no space or tab.
pub open spec fn stops_at(s: Seq<char>, i: int) -> bool {
    if comment_started(s, i) {
        s[i] == '\n'
    } else {
        !(s[i] == ' ' || s[i] == '\t')
    }
}

/// Splits off the blanks and the comment that open `input`, up to the line
/// end that closes the comment. Gives `(rest, taken)`; `None` on empty input.
pub fn until_eol<'a>(input: &'a str) -> (r: Option<(&'a str, &'a str)>)
    ensures
        r is None <==> input@.len() == 0,
        r is Some ==> ({
            let k = r->Some_0.1@.len() as int;
            &&& r->Some_0.1@ == input@.subrange(0, k)
            &&& r->Some_0.0@ == input@.subrange(k, input@.len() as int)
            &&& forall|i: int| 0 <= i < k ==> !stops_at(input@, i)
            &&& k < input@.len() ==> stops_at(input@, k)
        }),
{
    let n = input.unicode_len();
    if n == 0 {
        return None;
    }
    let mut in_comment = false;
    let mut i: usize = 0;
    while i < n
        invariant
            0 <= i <= n,
            n == input@.len(),
            in_comment == exists|j: int| 0 <= j < i && input@[j] == '#',
            forall|q: int| 0 <= q < i ==> !stops_at(input@, q),
        decreases n - i,
    {
        let chr = input.get_char(i);
        if chr == '#' {
            in_comment = true;
        }
        assert(in_comment == comment_started(input@, i as int));
        let stop = if in_comment {
            chr == '\n'
        } else {
            !(chr == ' ' || chr == '\t')
        };
        if stop {
            let taken = input.substring_char(0, i);
            let rest = input.substring_char(i, n);
            return Some((rest, taken));
        }
        i = i + 1;
    }
    let taken = input.substring_char(0, n);
    let rest = input.substring_char(n, n);
    Some((rest, taken))
}

/// Named inputs and outputs, each with its optional settings.
#[derive(Debug)]
pub struct Configuration {
    pub inputs: Vec<(String, Option<HashMap<String, String>>)>,
    pub outputs: Vec<(String, Option<HashMap<String, String>>)>,
}

/// One event posted to the ingestion endpoint.
pub struct Event {
    pub line: String,
    pub source: String,
    pub tag: String,
    pub attrs: Option<HashMap<String, String>>,
}

} // verus!
