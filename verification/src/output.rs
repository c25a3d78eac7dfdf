//! Turning what `chdman` and the format helper print into lines, and lines into
//! progress figures.

use vstd::prelude::*;
use crate::routing::string_views;
use crate::text::{chars_of, is_white, is_white_exec, string_from_chars, trim, trim_white};

verus! {

broadcast use vstd::string::group_string_axioms;

/// Carriage return and line feed both end a line of `chdman` output (its progress
/// updates end with a bare carriage return).
pub open spec fn is_line_break(b: u8) -> bool {
    b == 13 || b == 10
}

/// Splits `input`, read after the unfinished line `pending`, into the lines it
/// completes (every line break completes one, possibly empty, line) and the new
/// unfinished line.
pub open spec fn scan_lines(pending: Seq<u8>, input: Seq<u8>) -> (Seq<Seq<u8>>, Seq<u8>)
    decreases input.len(),
{
    if input.len() == 0 {
        (seq![], pending)
    } else {
        let (lines, rest) = scan_lines(pending, input.drop_last());
        if is_line_break(input.last()) {
            (lines.push(rest), seq![])
        } else {
            (lines, rest.push(input.last()))
        }
    }
}

/// The views of a list of byte vectors.
pub open spec fn byte_views(v: Seq<Vec<u8>>) -> Seq<Seq<u8>> {
    v.map_values(|b: Vec<u8>| b@)
}

/// Splits a byte stream into lines as it arrives in chunks.
pub struct LineSplitter {
    pending: Vec<u8>,
}

impl View for LineSplitter {
    type V = Seq<u8>;

    /// The unfinished line read so far.
    closed spec fn view(&self) -> Seq<u8> {
        self.pending@
    }
}

impl LineSplitter {
    /// A splitter that has read nothing.
    pub fn new() -> (s: Self)
        ensures
            s@ == Seq::<u8>::empty(),
    {
        LineSplitter { pending: Vec::new() }
    }

    /// Reads `chunk` and returns the lines it completes, in order.
    pub fn feed(&mut self, chunk: &[u8]) -> (lines: Vec<Vec<u8>>)
        ensures
            (byte_views(lines@), final(self)@) == scan_lines(old(self)@, chunk@),
    {
        let ghost start = self@;
        let mut lines: Vec<Vec<u8>> = Vec::new();
        let mut i: usize = 0;
        while i < chunk.len()
            invariant
                i <= chunk@.len(),
                (byte_views(lines@), self@) == scan_lines(start, chunk@.take(i as int)),
            decreases chunk@.len() - i,
        {
            assert(chunk@.take(i + 1).drop_last() =~= chunk@.take(i as int));
            let b = chunk[i];
            if b == 13 || b == 10 {
                let mut line: Vec<u8> = Vec::new();
                std::mem::swap(&mut line, &mut self.pending);
                let ghost prev = lines@;
                lines.push(line);
                assert(byte_views(lines@) =~= byte_views(prev).push(line@));
            } else {
                self.pending.push(b);
            }
            i = i + 1;
        }
        assert(chunk@.take(chunk@.len() as int) =~= chunk@);
        lines
    }

    /// Ends the stream and returns the unfinished line (possibly empty).
    pub fn finish(self) -> (rest: Vec<u8>)
        ensures
            rest@ == self@,
    {
        self.pending
    }
}

/// Lines do not depend on how the stream is cut into chunks: reading `a` and then
/// `b` completes the same lines, in the same order, and leaves the same unfinished
/// line as reading `a + b` at once.
pub proof fn law_chunking_does_not_matter(pending: Seq<u8>, a: Seq<u8>, b: Seq<u8>)
    ensures
        scan_lines(pending, a + b) == ({
            let (l1, p1) = scan_lines(pending, a);
            let (l2, p2) = scan_lines(p1, b);
            (l1 + l2, p2)
        }),
    decreases b.len(),
{
    if b.len() == 0 {
        assert(a + b =~= a);
        assert(scan_lines(pending, a).0 + seq![] =~= scan_lines(pending, a).0);
    } else {
        assert((a + b).drop_last() =~= a + b.drop_last());
        assert((a + b).last() == b.last());
        law_chunking_does_not_matter(pending, a, b.drop_last());
        let (l1, p1) = scan_lines(pending, a);
        let (l2, p2) = scan_lines(p1, b.drop_last());
        if is_line_break(b.last()) {
            assert(l1 + l2.push(p2) =~= (l1 + l2).push(p2));
        }
    }
}

/// No line, and no unfinished line, ever holds a line break, provided the
/// unfinished line read before held none.
pub proof fn law_lines_hold_no_breaks(pending: Seq<u8>, input: Seq<u8>)
    requires
        forall|j: int| 0 <= j < pending.len() ==> !is_line_break(#[trigger] pending[j]),
    ensures
        forall|j: int| 0 <= j < scan_lines(pending, input).1.len() ==> !is_line_break(
            #[trigger] scan_lines(pending, input).1[j],
        ),
        forall|k: int, j: int|
            0 <= k < scan_lines(pending, input).0.len() && 0 <= j < scan_lines(pending, input).0[k].len()
                ==> !is_line_break(#[trigger] scan_lines(pending, input).0[k][j]),
    decreases input.len(),
{
    if input.len() > 0 {
        law_lines_hold_no_breaks(pending, input.drop_last());
        let (lines, rest) = scan_lines(pending, input.drop_last());
        if !is_line_break(input.last()) {
            assert forall|j: int| 0 <= j < rest.push(input.last()).len() implies !is_line_break(
                #[trigger] rest.push(input.last())[j],
            ) by {
                if j < rest.len() {
                    assert(rest.push(input.last())[j] == rest[j]);
                }
            }
        } else {
            assert forall|k: int, j: int|
                0 <= k < lines.push(rest).len() && 0 <= j < lines.push(rest)[k].len() implies !is_line_break(
                #[trigger] lines.push(rest)[k][j],
            ) by {
                if k < lines.len() {
                    assert(lines.push(rest)[k] == lines[k]);
                }
            }
        }
    }
}

/// What `String::from_utf8_lossy` makes of a byte sequence: its UTF-8 decoding,
/// with U+FFFD in place of every invalid sequence.
pub uninterp spec fn utf8_lossy(bytes: Seq<u8>) -> Seq<char>;

/// `String::from_utf8_lossy`: decodes UTF-8, replacing invalid sequences with
/// U+FFFD. Its result is named by `utf8_lossy`; of valid UTF-8 it is the decoding.
#[verifier::external_body]
fn from_utf8_lossy(bytes: &[u8]) -> (s: String)
    ensures
        s@ == utf8_lossy(bytes@),
        vstd::utf8::valid_utf8(bytes@) ==> s@ == vstd::utf8::decode_utf8(bytes@),
{
    String::from_utf8_lossy(bytes).into_owned()
}

/// Text worth showing: `text` without surrounding white space, or `None` when
/// nothing is left.
pub open spec fn spec_clean_text(text: Seq<char>) -> Option<Seq<char>> {
    let t = trim_white(text);
    if t.len() == 0 {
        None
    } else {
        Some(t)
    }
}

/// `text` trimmed of surrounding white space; `None` when it is blank.
pub fn clean_text(text: &str) -> (r: Option<String>)
    ensures
        match r {
            Some(s) => spec_clean_text(text@) == Some(s@),
            None => spec_clean_text(text@) is None,
        },
{
    let cs = chars_of(text);
    let t = trim(cs.as_slice());
    if t.len() == 0 {
        None
    } else {
        Some(string_from_chars(t.as_slice(), 0, t.len()))
    }
}

/// The text of a raw output line, decoded and trimmed; `None` for blank lines.
pub fn clean_line(raw: &[u8]) -> (r: Option<String>)
    ensures
        match r {
            Some(s) => spec_clean_text(utf8_lossy(raw@)) == Some(s@),
            None => spec_clean_text(utf8_lossy(raw@)) is None,
        },
{
    let text = from_utf8_lossy(raw);
    clean_text(text.as_str())
}

/// `s` without one trailing carriage return.
pub open spec fn strip_cr(s: Seq<char>) -> Seq<char> {
    if s.len() > 0 && s.last() == '\r' {
        s.drop_last()
    } else {
        s
    }
}

/// Scans text into the lines that line feeds end (without the `\n`, and without a
/// `\r` right before it) and the text after the last line feed.
pub open spec fn scan_text_lines(s: Seq<char>) -> (Seq<Seq<char>>, Seq<char>)
    decreases s.len(),
{
    if s.len() == 0 {
        (seq![], seq![])
    } else {
        let (lines, cur) = scan_text_lines(s.drop_last());
        if s.last() == '\n' {
            (lines.push(strip_cr(cur)), seq![])
        } else {
            (lines, cur.push(s.last()))
        }
    }
}

/// The lines of a text as `str::lines` gives them: split at `\n` or `\r\n`, with a
/// final line that has no line ending kept unless it is empty.
pub open spec fn text_lines(s: Seq<char>) -> Seq<Seq<char>> {
    let (lines, cur) = scan_text_lines(s);
    if cur.len() == 0 {
        lines
    } else {
        lines.push(cur)
    }
}

/// The lines of `text` (one file path per line in the format helper's output).
pub fn output_lines(text: &str) -> (lines: Vec<String>)
    ensures
        string_views(lines@) == text_lines(text@),
{
    let cs = chars_of(text);
    let mut lines: Vec<String> = Vec::new();
    let mut start: usize = 0;
    let mut i: usize = 0;
    while i < cs.len()
        invariant
            cs@ == text@,
            start <= i <= cs@.len(),
            (string_views(lines@), cs@.subrange(start as int, i as int)) == scan_text_lines(cs@.take(i as int)),
        decreases cs@.len() - i,
    {
        assert(cs@.take(i + 1).drop_last() =~= cs@.take(i as int));
        if cs[i] == '\n' {
            let ghost cur = cs@.subrange(start as int, i as int);
            let end = if i > start && cs[i - 1] == '\r' { i - 1 } else { i };
            let line = string_from_chars(cs.as_slice(), start, end);
            assert(line@ =~= strip_cr(cur));
            let ghost prev = lines@;
            lines.push(line);
            assert(string_views(lines@) =~= string_views(prev).push(line@));
            start = i + 1;
            assert(cs@.subrange(start as int, i + 1) =~= Seq::<char>::empty());
        } else {
            assert(cs@.subrange(start as int, i + 1) =~= cs@.subrange(start as int, i as int).push(cs@[i as int]));
        }
        i = i + 1;
    }
    assert(cs@.take(cs@.len() as int) =~= cs@);
    if start < cs.len() {
        let last = string_from_chars(cs.as_slice(), start, cs.len());
        let ghost prev = lines@;
        lines.push(last);
        assert(string_views(lines@) =~= string_views(prev).push(last@));
    }
    lines
}


/// Scans `s` into the white-space separated words it completes and the word in
/// progress at its end.
pub open spec fn scan_words(s: Seq<char>) -> (Seq<Seq<char>>, Seq<char>)
    decreases s.len(),
{
    if s.len() == 0 {
        (seq![], seq![])
    } else {
        let (words, cur) = scan_words(s.drop_last());
        if is_white(s.last()) {
            if cur.len() > 0 {
                (words.push(cur), seq![])
            } else {
                (words, seq![])
            }
        } else {
            (words, cur.push(s.last()))
        }
    }
}

/// The maximal runs of non-white characters of `s`, in order (as
/// `str::split_whitespace`).
pub open spec fn words(s: Seq<char>) -> Seq<Seq<char>> {
    let (ws, cur) = scan_words(s);
    if cur.len() > 0 {
        ws.push(cur)
    } else {
        ws
    }
}

/// Characters that may stay in a percentage token: ASCII digits, `.` and `%`.
pub open spec fn is_percent_char(c: char) -> bool {
    ('0' <= c && c <= '9') || c == '.' || c == '%'
}

/// `w` without its leading characters that cannot be part of a percentage.
pub open spec fn trim_percent_start(w: Seq<char>) -> Seq<char>
    decreases w.len(),
{
    if w.len() > 0 && !is_percent_char(w[0]) {
        trim_percent_start(w.drop_first())
    } else {
        w
    }
}

/// `w` without its trailing characters that cannot be part of a percentage.
pub open spec fn trim_percent_end(w: Seq<char>) -> Seq<char>
    decreases w.len(),
{
    if w.len() > 0 && !is_percent_char(w.last()) {
        trim_percent_end(w.drop_last())
    } else {
        w
    }
}

/// The number text of a word that reads as a percentage: the word trimmed of
/// characters other than digits, `.` and `%` on both sides must end with `%`; the
/// candidate is what precedes that `%`.
pub open spec fn percent_candidate(w: Seq<char>) -> Option<Seq<char>> {
    let t = trim_percent_end(trim_percent_start(w));
    if t.len() > 0 && t.last() == '%' {
        Some(t.drop_last())
    } else {
        None
    }
}

/// The percentage candidates of a list of words, in order.
pub open spec fn candidates_of(ws: Seq<Seq<char>>) -> Seq<Seq<char>>
    decreases ws.len(),
{
    if ws.len() == 0 {
        seq![]
    } else {
        let acc = candidates_of(ws.drop_last());
        match percent_candidate(ws.last()) {
            Some(c) => acc.push(c),
            None => acc,
        }
    }
}

/// The percentage candidates of a line of `chdman` output.
pub open spec fn spec_percent_candidates(text: Seq<char>) -> Seq<Seq<char>> {
    candidates_of(words(text))
}

proof fn lemma_candidates_push(ws: Seq<Seq<char>>, w: Seq<char>)
    ensures
        candidates_of(ws.push(w)) == match percent_candidate(w) {
            Some(c) => candidates_of(ws).push(c),
            None => candidates_of(ws),
        },
{
    assert(ws.push(w).drop_last() =~= ws);
}

proof fn lemma_trim_percent_start_skip(s: Seq<char>, k: int)
    requires
        0 <= k <= s.len(),
        forall|j: int| 0 <= j < k ==> !is_percent_char(#[trigger] s[j]),
    ensures
        trim_percent_start(s) == trim_percent_start(s.subrange(k, s.len() as int)),
    decreases k,
{
    if k > 0 {
        assert(s.drop_first().subrange(k - 1, s.drop_first().len() as int) =~= s.subrange(k, s.len() as int));
        lemma_trim_percent_start_skip(s.drop_first(), k - 1);
    } else {
        assert(s.subrange(0, s.len() as int) =~= s);
    }
}

proof fn lemma_trim_percent_end_skip(s: Seq<char>, k: int)
    requires
        0 <= k <= s.len(),
        forall|j: int| k <= j < s.len() ==> !is_percent_char(#[trigger] s[j]),
    ensures
        trim_percent_end(s) == trim_percent_end(s.subrange(0, k)),
    decreases s.len() - k,
{
    if k < s.len() {
        assert(s.drop_last().subrange(0, k) =~= s.subrange(0, k));
        lemma_trim_percent_end_skip(s.drop_last(), k);
    } else {
        assert(s.subrange(0, k) =~= s);
    }
}

fn is_percent_char_exec(c: char) -> (r: bool)
    ensures
        r == is_percent_char(c),
{
    ('0' <= c && c <= '9') || c == '.' || c == '%'
}

/// The percentage candidate of the word `w`.
fn word_candidate(w: &Vec<char>) -> (r: Option<String>)
    ensures
        match r {
            Some(c) => percent_candidate(w@) == Some(c@),
            None => percent_candidate(w@) is None,
        },
{
    let mut a: usize = 0;
    while a < w.len() && !is_percent_char_exec(w[a])
        invariant
            a <= w@.len(),
            forall|j: int| 0 <= j < a ==> !is_percent_char(#[trigger] w@[j]),
        decreases w@.len() - a,
    {
        a = a + 1;
    }
    proof {
        lemma_trim_percent_start_skip(w@, a as int);
    }
    let ghost t = w@.subrange(a as int, w@.len() as int);
    let mut b: usize = w.len();
    while b > a && !is_percent_char_exec(w[b - 1])
        invariant
            a <= b <= w@.len(),
            t == w@.subrange(a as int, w@.len() as int),
            forall|j: int| b <= j < w@.len() ==> !is_percent_char(#[trigger] w@[j]),
        decreases b - a,
    {
        b = b - 1;
    }
    proof {
        assert forall|j: int| (b - a) <= j < t.len() implies !is_percent_char(#[trigger] t[j]) by {
            assert(t[j] == w@[a + j]);
        }
        lemma_trim_percent_end_skip(t, b - a);
        assert(t.subrange(0, b - a) =~= w@.subrange(a as int, b as int));
        if a < w@.len() {
            assert(is_percent_char(t[0]));
        }
        assert(trim_percent_start(t) == t);
        let u = w@.subrange(a as int, b as int);
        if b > a {
            assert(is_percent_char(u.last()));
        }
        assert(trim_percent_end(u) == u);
    }
    if b > a && w[b - 1] == '%' {
        let c = string_from_chars(w.as_slice(), a, b - 1);
        assert(c@ =~= w@.subrange(a as int, b as int).drop_last());
        Some(c)
    } else {
        None
    }
}

/// The number texts of the words of `text` that read as percentages, in order
/// (`"42.7"` for `"Compressing, 42.7% complete..."`). The first that parses as a
/// number is the progress figure the line reports.
pub fn percent_candidates(text: &str) -> (r: Vec<String>)
    ensures
        string_views(r@) == spec_percent_candidates(text@),
{
    let cs = chars_of(text);
    let ghost mut words_done: Seq<Seq<char>> = seq![];
    let mut r: Vec<String> = Vec::new();
    let mut cur: Vec<char> = Vec::new();
    let mut i: usize = 0;
    while i < cs.len()
        invariant
            cs@ == text@,
            i <= cs@.len(),
            (words_done, cur@) == scan_words(cs@.take(i as int)),
            string_views(r@) == candidates_of(words_done),
        decreases cs@.len() - i,
    {
        assert(cs@.take(i + 1).drop_last() =~= cs@.take(i as int));
        let c = cs[i];
        if is_white_exec(c) {
            if cur.len() > 0 {
                proof {
                    lemma_candidates_push(words_done, cur@);
                }
                match word_candidate(&cur) {
                    Some(cand) => {
                        let ghost prev = r@;
                        r.push(cand);
                        assert(string_views(r@) =~= string_views(prev).push(cand@));
                    },
                    None => {},
                }
                proof {
                    words_done = words_done.push(cur@);
                }
                cur = Vec::new();
            }
        } else {
            cur.push(c);
        }
        i = i + 1;
    }
    assert(cs@.take(cs@.len() as int) =~= cs@);
    if cur.len() > 0 {
        proof {
            lemma_candidates_push(words_done, cur@);
        }
        match word_candidate(&cur) {
            Some(cand) => {
                let ghost prev = r@;
                r.push(cand);
                assert(string_views(r@) =~= string_views(prev).push(cand@));
            },
            None => {},
        }
    }
    r
}


proof fn lemma_scan_text_lines_no_feed(s: Seq<char>)
    ensures
        forall|j: int| 0 <= j < scan_text_lines(s).1.len() ==> #[trigger] scan_text_lines(s).1[j] != '\n',
        forall|k: int, j: int|
            0 <= k < scan_text_lines(s).0.len() && 0 <= j < scan_text_lines(s).0[k].len()
                ==> #[trigger] scan_text_lines(s).0[k][j] != '\n',
    decreases s.len(),
{
    if s.len() > 0 {
        lemma_scan_text_lines_no_feed(s.drop_last());
        let (lines, cur) = scan_text_lines(s.drop_last());
        if s.last() == '\n' {
            let c = strip_cr(cur);
            assert forall|j: int| 0 <= j < c.len() implies c[j] != '\n' by {
                assert(c[j] == cur[j]);
            }
            assert forall|k: int, j: int|
                0 <= k < lines.push(c).len() && 0 <= j < lines.push(c)[k].len() implies #[trigger] lines.push(c)[k][j] != '\n' by {
                if k < lines.len() {
                    assert(lines.push(c)[k] == lines[k]);
                } else {
                    assert(lines.push(c)[k] == c);
                }
            }
        } else {
            assert forall|j: int| 0 <= j < cur.push(s.last()).len() implies #[trigger] cur.push(s.last())[j] != '\n' by {
                if j < cur.len() {
                    assert(cur.push(s.last())[j] == cur[j]);
                }
            }
        }
    }
}

/// No line of a text holds a line feed.
pub proof fn law_text_lines_hold_no_feed(s: Seq<char>)
    ensures
        forall|k: int, j: int|
            0 <= k < text_lines(s).len() && 0 <= j < text_lines(s)[k].len() ==> #[trigger] text_lines(s)[k][j]
                != '\n',
{
    lemma_scan_text_lines_no_feed(s);
    let (lines, cur) = scan_text_lines(s);
    if cur.len() > 0 {
        assert forall|k: int, j: int|
            0 <= k < lines.push(cur).len() && 0 <= j < lines.push(cur)[k].len() implies #[trigger] lines.push(cur)[k][j] != '\n' by {
            if k < lines.len() {
                assert(lines.push(cur)[k] == lines[k]);
            } else {
                assert(lines.push(cur)[k] == cur);
            }
        }
    }
}


/// The number of bytes in a list of lines.
pub open spec fn bytes_in(lines: Seq<Seq<u8>>) -> nat
    decreases lines.len(),
{
    if lines.len() == 0 {
        0
    } else {
        bytes_in(lines.drop_last()) + lines.last().len()
    }
}

/// No byte is lost or invented: the completed lines, one line break each, and the
/// unfinished line account for exactly the bytes read.
pub proof fn law_every_byte_is_accounted_for(pending: Seq<u8>, input: Seq<u8>)
    ensures
        bytes_in(scan_lines(pending, input).0) + scan_lines(pending, input).0.len() + scan_lines(
            pending,
            input,
        ).1.len() == pending.len() + input.len(),
    decreases input.len(),
{
    if input.len() > 0 {
        law_every_byte_is_accounted_for(pending, input.drop_last());
        let (lines, rest) = scan_lines(pending, input.drop_last());
        if is_line_break(input.last()) {
            assert(lines.push(rest).drop_last() =~= lines);
        }
    }
}

} // verus!
