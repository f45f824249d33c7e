//! Content search in one file: which lines hold the query, and where.

use vstd::prelude::*;
use vstd::utf8::*;
use crate::lines::{
    find_line_break, lemma_boundaries_at_ascii, lemma_boundary_in_prefix, lemma_line_break,
    line_end, lines_from, next_line, slice_text, text_lines,
};
use crate::matching::{
    find_match, first_match, lemma_first_match_is_first, lowercase_of, to_lowercase,
};
use crate::duplicate::Duplicate;
use crate::filter::{is_scanned, should_scan};
use crate::text::bytes_of;

verus! {

/// Largest decoded text, in bytes, that is searched.
pub const MAX_TEXT_BYTES: usize = 5000000;

/// Longest line, in bytes, that is searched.
pub const MAX_LINE_BYTES: usize = 1000;

/// Most matches recorded for one file.
pub const MAX_MATCHES_PER_FILE: usize = 100;

/// One matching line, as plain values.
pub struct Found {
    pub file_path: Seq<char>,
    pub line_number: nat,
    pub line_content: Seq<char>,
    pub match_start: nat,
    pub match_end: nat,
}

impl Found {
    /// The line number counts from 1, and the match is a non-empty range of
    /// bytes of the line that starts and ends between characters.
    pub open spec fn wf(self) -> bool {
        &&& self.line_number >= 1
        &&& self.match_start < self.match_end <= bytes_of(self.line_content).len()
        &&& is_char_boundary(bytes_of(self.line_content), self.match_start as int)
        &&& is_char_boundary(bytes_of(self.line_content), self.match_end as int)
    }
}

/// One matching line of a file: the first match of the query on it.
#[derive(Debug, Clone)]
pub struct SearchResult {
    pub file_path: String,
    pub line_number: usize,
    pub line_content: String,
    pub match_start: usize,
    pub match_end: usize,
}

impl View for SearchResult {
    type V = Found;

    open spec fn view(&self) -> Found {
        Found {
            file_path: self.file_path@,
            line_number: self.line_number as nat,
            line_content: self.line_content@,
            match_start: self.match_start as nat,
            match_end: self.match_end as nat,
        }
    }
}

impl Duplicate for SearchResult {
    fn duplicate(&self) -> (copy: Self) {
        SearchResult {
            file_path: self.file_path.clone(),
            line_number: self.line_number,
            line_content: self.line_content.clone(),
            match_start: self.match_start,
            match_end: self.match_end,
        }
    }
}

/// What a list of results holds.
pub open spec fn findings(results: Seq<SearchResult>) -> Seq<Found> {
    Seq::new(results.len(), |i: int| results[i]@)
}

/// What is recorded for line `number` of a file: nothing for an empty
/// query, for a line over the length limit, or for a line that does not
/// hold the query; else the line with the first range of it whose
/// lower-case form is the lower-case form of the query.
pub open spec fn line_finding(
    path: Seq<char>,
    line: Seq<u8>,
    number: nat,
    query: Seq<char>,
) -> Option<Found> {
    if query.len() == 0 || line.len() > MAX_LINE_BYTES {
        None
    } else {
        match first_match(line, lowercase_of(query)) {
            Some((from, to)) => Some(
                Found {
                    file_path: path,
                    line_number: number,
                    line_content: decode_utf8(line),
                    match_start: from as nat,
                    match_end: to as nat,
                },
            ),
            None => None,
        }
    }
}

/// What is recorded for the given lines, numbered from 1, in their order.
pub open spec fn findings_in(path: Seq<char>, lines: Seq<Seq<u8>>, query: Seq<char>) -> Seq<Found>
    decreases lines.len(),
{
    if lines.len() == 0 {
        Seq::empty()
    } else {
        let earlier = findings_in(path, lines.drop_last(), query);
        match line_finding(path, lines.last(), lines.len(), query) {
            Some(found) => earlier.push(found),
            None => earlier,
        }
    }
}

/// What a content search records for one file: nothing for a text over the
/// size limit, else the findings of its lines up to the limit per file.
pub open spec fn scan_of(path: Seq<char>, text: Seq<u8>, query: Seq<char>) -> Seq<Found> {
    let all = findings_in(path, text_lines(text), query);
    if text.len() > MAX_TEXT_BYTES {
        Seq::empty()
    } else if all.len() > MAX_MATCHES_PER_FILE {
        all.take(MAX_MATCHES_PER_FILE as int)
    } else {
        all
    }
}

/// The findings are all of the file `path`, on lines that come one
/// after another: no two of them on one line.
pub open spec fn lines_ascend(found: Seq<Found>, path: Seq<char>) -> bool {
    &&& forall|i: int| 0 <= i < found.len() ==> (#[trigger] found[i]).file_path == path
    &&& forall|i: int, j: int|
        0 <= i < j < found.len() ==> (#[trigger] found[i]).line_number < (
        #[trigger] found[j]).line_number
}

/// What is recorded for a list of lines is of the one file, on lines of
/// the list, each line once at most and in the order of the lines.
proof fn lemma_findings_ascend(path: Seq<char>, lines: Seq<Seq<u8>>, query: Seq<char>)
    ensures
        lines_ascend(findings_in(path, lines, query), path),
        forall|i: int|
            0 <= i < findings_in(path, lines, query).len() ==> 1 <= (
            #[trigger] findings_in(path, lines, query)[i]).line_number <= lines.len(),
    decreases lines.len(),
{
    if lines.len() > 0 {
        lemma_findings_ascend(path, lines.drop_last(), query);
    }
}

/// What a content search records for one file is of that file, one
/// finding a line at most, in the order of the lines.
pub proof fn lemma_scan_lines_ascend(path: Seq<char>, text: Seq<u8>, query: Seq<char>)
    ensures
        lines_ascend(scan_of(path, text, query), path),
{
    lemma_findings_ascend(path, text_lines(text), query);
}

/// The findings of a list of lines start with the findings of each of its
/// prefixes.
proof fn lemma_findings_prefix(
    path: Seq<char>,
    done: Seq<Seq<u8>>,
    rest: Seq<Seq<u8>>,
    query: Seq<char>,
)
    ensures
        findings_in(path, done, query).len() <= findings_in(path, done + rest, query).len(),
        findings_in(path, done + rest, query).take(findings_in(path, done, query).len() as int)
            == findings_in(path, done, query),
    decreases rest.len(),
{
    let part = findings_in(path, done, query);
    if rest.len() == 0 {
        assert(done + rest =~= done);
        assert(part.take(part.len() as int) =~= part);
    } else {
        lemma_findings_prefix(path, done, rest.drop_last(), query);
        assert((done + rest).drop_last() =~= done + rest.drop_last());
        let shorter = findings_in(path, done + rest.drop_last(), query);
        let whole = findings_in(path, done + rest, query);
        assert(whole.take(part.len() as int) =~= shorter.take(part.len() as int));
    }
}

/// Every finding of a line of valid UTF-8 is well formed.
proof fn lemma_line_finding_wf(path: Seq<char>, line: Seq<u8>, number: nat, query: Seq<char>)
    requires
        valid_utf8(line),
        number >= 1,
    ensures
        line_finding(path, line, number, query) matches Some(found) ==> found.wf(),
{
    if line_finding(path, line, number, query) is Some {
        lemma_first_match_is_first(line, lowercase_of(query));
        decode_utf8_encode_utf8(line);
    }
}

/// Searches the text of one file for the query, line by line and letter
/// case aside.
pub fn scan_text(path: &str, content: &str, query: &str) -> (results: Vec<SearchResult>)
    ensures
        findings(results@) == scan_of(path@, bytes_of(content@), query@),
        forall|k: int| 0 <= k < results@.len() ==> (#[trigger] results@[k])@.wf(),
        lines_ascend(findings(results@), path@),
{
    proof {
        lemma_scan_lines_ascend(path@, bytes_of(content@), query@);
    }
    let text = content.as_bytes();
    let mut results: Vec<SearchResult> = Vec::new();
    if text.len() > MAX_TEXT_BYTES || query.is_empty() {
        proof {
            if query@.len() == 0 {
                lemma_no_findings(path@, text_lines(text@), query@);
            }
            assert(findings(results@) =~= Seq::<Found>::empty());
        }
        return results;
    }
    let target = to_lowercase(query);
    let total = text.len();
    let mut start: usize = 0;
    let mut number: usize = 1;
    let ghost done: Seq<Seq<u8>> = Seq::empty();
    proof {
        encode_utf8_valid_utf8(content@);
        is_char_boundary_start_end_of_seq(text@);
        assert(done + lines_from(text@, 0) =~= text_lines(text@));
        assert(findings(results@) =~= findings_in(path@, done, query@));
    }
    while start < total && results.len() < MAX_MATCHES_PER_FILE
        invariant
            text@ == bytes_of(content@),
            query@.len() > 0,
            target@ == lowercase_of(query@),
            valid_utf8(text@),
            total == text@.len(),
            total <= MAX_TEXT_BYTES,
            start <= total,
            is_char_boundary(text@, start as int),
            number == done.len() + 1,
            done.len() <= start,
            text_lines(text@) == done + lines_from(text@, start as int),
            findings(results@) == findings_in(path@, done, query@),
            results@.len() <= MAX_MATCHES_PER_FILE,
            forall|k: int| 0 <= k < results@.len() ==> (#[trigger] results@[k])@.wf(),
        decreases total - start,
    {
        let feed = find_line_break(text, start);
        let end = if feed < total && start < feed && text[feed - 1] == 13 {
            feed - 1
        } else {
            feed
        };
        let next = if feed < total {
            feed + 1
        } else {
            feed
        };
        proof {
            lemma_line_break(text@, start as int);
            assert(end == line_end(text@, start as int));
            assert(next == next_line(text@, start as int));
            if feed < total {
                lemma_boundaries_at_ascii(text@, feed as int);
            } else {
                is_char_boundary_start_end_of_seq(text@);
            }
            if end < feed {
                lemma_boundaries_at_ascii(text@, end as int);
            }
            lemma_boundary_in_prefix(text@, start as int, end as int);
        }
        let line = slice_text(content, start, end);
        let ghost line_seq = text@.subrange(start as int, end as int);
        let ghost before = findings(results@);
        proof {
            assert(bytes_of(line@) == line_seq);
            assert((done.push(line_seq)).drop_last() =~= done);
            assert(done + lines_from(text@, start as int) =~= done.push(line_seq) + lines_from(
                text@,
                next as int,
            ));
            lemma_line_finding_wf(path@, line_seq, number as nat, query@);
        }
        if end - start <= MAX_LINE_BYTES {
            match find_match(line, target.as_str()) {
                Some((from, to)) => {
                    results.push(
                        SearchResult {
                            file_path: path.to_owned(),
                            line_number: number,
                            line_content: line.to_owned(),
                            match_start: from,
                            match_end: to,
                        },
                    );
                    assert(findings(results@) =~= before.push(
                        line_finding(path@, line_seq, number as nat, query@)->0,
                    ));
                },
                None => {},
            }
        }
        proof {
            done = done.push(line_seq);
        }
        number = number + 1;
        start = next;
    }
    proof {
        let all = findings_in(path@, text_lines(text@), query@);
        lemma_findings_prefix(path@, done, lines_from(text@, start as int), query@);
        if start >= total {
            assert(done + lines_from(text@, start as int) =~= done);
        } else {
            assert(all.take(MAX_MATCHES_PER_FILE as int) == findings(results@));
            if all.len() <= MAX_MATCHES_PER_FILE {
                assert(all.take(all.len() as int) =~= all);
            }
        }
    }
    results
}

/// Calls `std::str::from_utf8`, which gives the bytes as text where they
/// are valid UTF-8 and reports an error where they are not.
#[verifier::external_body]
fn decode(bytes: &[u8]) -> (text: Option<&str>)
    ensures
        match text {
            Some(t) => valid_utf8(bytes@) && bytes_of(t@) == bytes@,
            None => !valid_utf8(bytes@),
        },
{
    match std::str::from_utf8(bytes) {
        Ok(text) => Some(text),
        Err(_) => None,
    }
}

/// What a content search records for a file of the given path and size
/// whose content, once read, is `bytes`: nothing for a file that is not
/// read or whose content is no text, else what the scan of its text finds.
pub open spec fn file_scan_of(
    path: Seq<char>,
    size: u64,
    bytes: Seq<u8>,
    query: Seq<char>,
) -> Seq<Found> {
    if is_scanned(path, size) && valid_utf8(bytes) {
        scan_of(path, bytes, query)
    } else {
        Seq::empty()
    }
}

/// Searches one file, given its size and its content. A file over the
/// size limit, or with an extension of the binary list, gives no result,
/// whatever it holds; nor does content that is not valid UTF-8.
pub fn scan_file(path: &str, size: u64, bytes: &[u8], query: &str) -> (results: Vec<SearchResult>)
    ensures
        findings(results@) == file_scan_of(path@, size, bytes@, query@),
        !is_scanned(path@, size) ==> results@.len() == 0,
        forall|k: int| 0 <= k < results@.len() ==> (#[trigger] results@[k])@.wf(),
        lines_ascend(findings(results@), path@),
{
    if should_scan(path, size) {
        match decode(bytes) {
            Some(content) => {
                return scan_text(path, content, query);
            },
            None => {},
        }
    }
    let results: Vec<SearchResult> = Vec::new();
    assert(findings(results@) =~= Seq::<Found>::empty());
    results
}

/// An empty query is found on no line.
proof fn lemma_no_findings(path: Seq<char>, lines: Seq<Seq<u8>>, query: Seq<char>)
    requires
        query.len() == 0,
    ensures
        findings_in(path, lines, query) == Seq::<Found>::empty(),
    decreases lines.len(),
{
    if lines.len() > 0 {
        lemma_no_findings(path, lines.drop_last(), query);
    }
}

} // verus!
