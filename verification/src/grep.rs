//! Searching file contents line by line for a regular expression, and
//! listing the matches, with line numbers and optional context lines.
use vstd::prelude::*;
use vstd::string::{StringExecFns, StringSliceAdditionalSpecFns};
use vstd::utf8::{decode_utf8, encode_utf8, is_char_boundary};

use crate::text::{join, join_range, lines_of, push_decimal, decimal, split_lines, views};

verus! {

/// At most this many matches are listed by default.
pub const DEFAULT_MAX_RESULTS: usize = 100;
/// A shown line keeps at most this many bytes.
pub const MAX_LINE_LENGTH: usize = 500;

/// The arguments of a search.
pub struct GrepArgs {
    pub pattern: String,
    pub path: Option<String>,
    pub glob: Option<String>,
    pub ignore_case: Option<bool>,
    pub literal: Option<bool>,
    pub context: Option<usize>,
    pub max_results: Option<usize>,
}

/// The search tool; relative paths are taken from `working_dir`.
pub struct Grep {
    pub working_dir: Option<String>,
}

/// The settings of a search, with the defaults filled in.
#[derive(Clone, Copy, Debug, PartialEq, Eq, Structural)]
pub struct GrepOptions {
    pub ignore_case: bool,
    pub literal: bool,
    pub max_results: usize,
    pub context: usize,
}

impl GrepArgs {
    /// The settings asked for: case-sensitive, a regular expression, at most
    /// `DEFAULT_MAX_RESULTS` matches, and no context lines, unless given.
    pub fn options(&self) -> (r: GrepOptions)
        ensures
            r.ignore_case == match self.ignore_case {
                Some(b) => b,
                None => false,
            },
            r.literal == match self.literal {
                Some(b) => b,
                None => false,
            },
            r.max_results == match self.max_results {
                Some(n) => n,
                None => DEFAULT_MAX_RESULTS,
            },
            r.context == match self.context {
                Some(n) => n,
                None => 0,
            },
    {
        GrepOptions {
            ignore_case: match self.ignore_case {
                Some(b) => b,
                None => false,
            },
            literal: match self.literal {
                Some(b) => b,
                None => false,
            },
            max_results: match self.max_results {
                Some(n) => n,
                None => DEFAULT_MAX_RESULTS,
            },
            context: match self.context {
                Some(n) => n,
                None => 0,
            },
        }
    }
}

// ---------------------------------------------------------------------------
// Regular expressions
// ---------------------------------------------------------------------------

#[verifier::external_type_specification]
#[verifier::external_body]
pub struct ExRegex(regex::Regex);

/// The characters that have a meaning in a regular expression.
pub open spec fn is_meta_character(c: char) -> bool {
    c == '\\' || c == '.' || c == '+' || c == '*' || c == '?' || c == '(' || c == ')' || c == '|'
        || c == '[' || c == ']' || c == '{' || c == '}' || c == '^' || c == '$' || c == '#' || c
        == '&' || c == '-' || c == '~'
}

/// `s` with a backslash before every meta character.
pub open spec fn regex_escape(s: Seq<char>) -> Seq<char>
    decreases s.len(),
{
    if s.len() == 0 {
        Seq::empty()
    } else {
        let c = s.last();
        regex_escape(s.drop_last()) + if is_meta_character(c) {
            seq!['\\', c]
        } else {
            seq![c]
        }
    }
}

/// Whether `regex::RegexBuilder` with the given case setting accepts
/// `pattern` (`Ok`), or the text of its error (`Err`).
pub uninterp spec fn regex_build(pattern: Seq<char>, ignore_case: bool) -> Result<(), Seq<char>>;

/// Whether the regular expression `pattern`, built with the given case
/// setting, matches somewhere in `line`.
pub uninterp spec fn regex_is_match(pattern: Seq<char>, ignore_case: bool, line: Seq<char>) -> bool;

/// Calls `regex::escape`. Claimed, as its source (`regex_syntax::escape_into`)
/// shows: each character is copied, after a backslash when it is one of the
/// meta characters `\ . + * ? ( ) | [ ] { } ^ $ # & - ~`.
#[verifier::external_body]
fn escape(s: &str) -> (r: String)
    ensures
        r@ == regex_escape(s@),
{
    regex::escape(s)
}

/// A compiled regular expression with the text and case setting it was built
/// from. Only `build_line_pattern` makes one, from exactly those.
pub struct LinePattern {
    regex: regex::Regex,
    source: String,
    ignore_case: bool,
}

/// Calls `regex::RegexBuilder::new(source).case_insensitive(ignore_case).build()`
/// and keeps the regex together with the `source` and `ignore_case` it was
/// built from. Claimed: it succeeds exactly when `regex_build` says so, with
/// that error text otherwise.
#[verifier::external_body]
fn build_line_pattern(source: String, ignore_case: bool) -> (r: Result<LinePattern, String>)
    ensures
        match regex_build(source@, ignore_case) {
            Ok(_) => r is Ok && r->Ok_0.source() == source@ && r->Ok_0.ignores_case() == ignore_case,
            Err(e) => r is Err && r->Err_0@ == e,
        },
{
    match regex::RegexBuilder::new(&source).case_insensitive(ignore_case).build() {
        Ok(regex) => Ok(LinePattern { regex, source, ignore_case }),
        Err(e) => Err(e.to_string()),
    }
}

impl LinePattern {
    /// The text the expression was built from.
    pub closed spec fn source(&self) -> Seq<char> {
        self.source@
    }

    /// Whether the expression ignores case.
    pub closed spec fn ignores_case(&self) -> bool {
        self.ignore_case
    }

    /// Calls `regex::Regex::is_match` on the line. Claimed: the answer is
    /// `regex_is_match` of the text and case setting the regex was built from
    /// (a `LinePattern` is only made by `build_line_pattern`, from exactly those).
    #[verifier::external_body]
    pub(crate) fn is_match(&self, line: &str) -> (r: bool)
        ensures
            r == regex_is_match(self.source(), self.ignores_case(), line@),
    {
        self.regex.is_match(line)
    }
}

/// The text handed to the regex builder: the pattern, escaped when literal.
pub open spec fn pattern_text(pattern: Seq<char>, literal: bool) -> Seq<char> {
    if literal {
        regex_escape(pattern)
    } else {
        pattern
    }
}

/// Compiles the search pattern: escaped first when it is literal text, then
/// built with the case setting; the builder's error text when it refuses it.
pub fn compile_line_pattern(pattern: &str, literal: bool, ignore_case: bool) -> (r: Result<LinePattern, String>)
    ensures
        match regex_build(pattern_text(pattern@, literal), ignore_case) {
            Ok(_) => r is Ok && r->Ok_0.source() == pattern_text(pattern@, literal)
                && r->Ok_0.ignores_case() == ignore_case,
            Err(e) => r is Err && r->Err_0@ == e,
        },
{
    let text = if literal {
        escape(pattern)
    } else {
        String::from_str(pattern)
    };
    build_line_pattern(text, ignore_case)
}

// ---------------------------------------------------------------------------
// Shown lines
// ---------------------------------------------------------------------------

/// A line keeps at most `MAX_LINE_LENGTH` bytes when shown.
pub open spec fn shown_line(line: Seq<char>) -> Seq<char> {
    let b = encode_utf8(line);
    if b.len() <= MAX_LINE_LENGTH {
        line
    } else {
        decode_utf8(b.take(MAX_LINE_LENGTH as int))
    }
}

/// A long line can be cut after `MAX_LINE_LENGTH` bytes without splitting a character.
pub open spec fn line_cut_ok(line: Seq<char>) -> bool {
    let b = encode_utf8(line);
    b.len() > MAX_LINE_LENGTH ==> is_char_boundary(b, MAX_LINE_LENGTH as int)
}

/// The first `MAX_LINE_LENGTH` bytes of `line`, or all of it when shorter.
pub fn truncate_line(line: &str) -> (r: &str)
    requires
        line_cut_ok(line@),
    ensures
        r@ == shown_line(line@),
        r.spec_bytes() == if line.spec_bytes().len() <= MAX_LINE_LENGTH {
            line.spec_bytes()
        } else {
            line.spec_bytes().take(MAX_LINE_LENGTH as int)
        },
{
    let b = line.as_bytes();
    proof {
        assert(b.len() == b@.len());
        vstd::utf8::encode_utf8_valid_utf8(line@);
    }
    if line.len() <= MAX_LINE_LENGTH {
        line
    } else {
        let (head, _) = line.split_at(MAX_LINE_LENGTH);
        proof {
            vstd::utf8::encode_utf8_decode_utf8(head@);
        }
        head
    }
}

/// Whether `truncate_line` may be called on `line`.
fn cut_ok(line: &str) -> (r: bool)
    ensures
        r == line_cut_ok(line@),
{
    let b = line.as_bytes();
    proof {
        assert(b.len() == b@.len());
        vstd::utf8::encode_utf8_valid_utf8(line@);
    }
    line.len() <= MAX_LINE_LENGTH || line.is_char_boundary(MAX_LINE_LENGTH)
}

// ---------------------------------------------------------------------------
// The entries of a match
// ---------------------------------------------------------------------------

/// First line of the context around line `idx` (0-based).
pub open spec fn context_start(idx: int, context: int) -> int {
    if idx >= context {
        idx - context
    } else {
        0
    }
}

/// One past the last line of the context around line `idx` (0-based).
pub open spec fn context_end(idx: int, context: int, count: int) -> int {
    if idx + context + 1 < count {
        idx + context + 1
    } else {
        count
    }
}

/// A context line: `>` for the matching line, a space otherwise, then its
/// 1-based number, `: ` and the shown text.
pub open spec fn context_entry(lines: Seq<Seq<char>>, k: int, idx: int) -> Seq<char> {
    seq![if k == idx { '>' } else { ' ' }] + decimal((k + 1) as nat) + ": "@ + shown_line(lines[k])
}

/// The context lines `from..to` around the matching line `idx`.
pub open spec fn context_entries(lines: Seq<Seq<char>>, from: int, to: int, idx: int) -> Seq<Seq<char>>
    decreases to - from,
{
    if from >= to {
        Seq::empty()
    } else {
        context_entries(lines, from, to - 1, idx).push(context_entry(lines, to - 1, idx))
    }
}

/// The entries listed for a match on line `idx` (0-based) of the file `path`:
/// without context, `path:number:text`; with context, the context lines,
/// then `path:number`, then `--`.
pub open spec fn match_entries(path: Seq<char>, lines: Seq<Seq<char>>, idx: int, context: int) -> Seq<Seq<char>> {
    let num = decimal((idx + 1) as nat);
    if context > 0 {
        context_entries(
            lines,
            context_start(idx, context),
            context_end(idx, context, lines.len() as int),
            idx,
        ) + seq![path + ":"@ + num, "--"@]
    } else {
        seq![path + ":"@ + num + ":"@ + shown_line(lines[idx])]
    }
}

/// The lines the entries for a match on line `idx` show can all be cut safely.
pub open spec fn match_cut_ok(lines: Seq<Seq<char>>, idx: int, context: int) -> bool {
    if context > 0 {
        forall|k: int|
            context_start(idx, context) <= k < context_end(idx, context, lines.len() as int)
                ==> line_cut_ok(#[trigger] lines[k])
    } else {
        line_cut_ok(lines[idx])
    }
}

/// The matches listed so far and their number.
pub struct ScanState {
    pub count: int,
    pub entries: Seq<Seq<char>>,
}

/// Scans `lines[i..]` of the file `path`: each line that matches, while
/// fewer than `max` matches have been counted, is counted and its entries
/// are listed. `None` when a shown line would be cut inside a character.
pub open spec fn scan(
    st: ScanState,
    path: Seq<char>,
    lines: Seq<Seq<char>>,
    i: int,
    max: int,
    context: int,
    pattern: Seq<char>,
    ignore_case: bool,
) -> Option<ScanState>
    decreases lines.len() - i,
{
    if i >= lines.len() || i < 0 || st.count >= max {
        Some(st)
    } else if regex_is_match(pattern, ignore_case, lines[i]) {
        if match_cut_ok(lines, i, context) {
            scan(
                ScanState { count: st.count + 1, entries: st.entries + match_entries(path, lines, i, context) },
                path,
                lines,
                i + 1,
                max,
                context,
                pattern,
                ignore_case,
            )
        } else {
            None
        }
    } else {
        scan(st, path, lines, i + 1, max, context, pattern, ignore_case)
    }
}

/// Why a search stopped.
#[derive(PartialEq, Eq, Structural, Debug, Clone, Copy)]
pub enum GrepError {
    /// A line to be shown cannot be cut after `MAX_LINE_LENGTH` bytes
    /// without splitting a character.
    LineCutInsideChar,
}

/// The matches found, in the order the files and lines were scanned.
pub struct GrepSearch {
    entries: Vec<String>,
    count: usize,
    max_results: usize,
    context: usize,
}

/// The result of a search.
pub enum GrepReport {
    NoMatches,
    /// The entries joined by line feeds; `truncated` when the limit was reached.
    Matches { text: String, truncated: bool },
}

impl GrepSearch {
    /// The state of the search as a count and the listed entries.
    pub closed spec fn state(&self) -> ScanState {
        ScanState { count: self.count as int, entries: views(self.entries@) }
    }

    /// The most matches listed.
    pub closed spec fn max(&self) -> int {
        self.max_results as int
    }

    /// The number of context lines around a match.
    pub closed spec fn context_lines(&self) -> int {
        self.context as int
    }

    /// A search that has found nothing yet.
    pub fn new(options: GrepOptions) -> (r: GrepSearch)
        ensures
            r.state() == (ScanState { count: 0, entries: Seq::empty() }),
            r.max() == options.max_results,
            r.context_lines() == options.context,
    {
        let r = GrepSearch {
            entries: Vec::new(),
            count: 0,
            max_results: options.max_results,
            context: options.context,
        };
        assert(views(r.entries@) =~= Seq::empty());
        r
    }

    /// Whether the limit of matches has been reached, so that no more files are read.
    pub fn is_full(&self) -> (r: bool)
        ensures
            r == (self.state().count >= self.max()),
    {
        self.count >= self.max_results
    }

    /// The entries of a match on line `idx`.
    fn push_match(&mut self, path: &str, lines: &Vec<String>, idx: usize) -> (ok: bool)
        requires
            idx < lines.len(),
        ensures
            final(self).count == old(self).count,
            final(self).max_results == old(self).max_results,
            final(self).context == old(self).context,
            ok == match_cut_ok(views(lines@), idx as int, old(self).context as int),
            ok ==> views(final(self).entries@) == views(old(self).entries@) + match_entries(
                path@,
                views(lines@),
                idx as int,
                old(self).context as int,
            ),
    {
        let ghost ls = views(lines@);
        let ghost before = views(self.entries@);
        let n = lines.len();
        assert(ls.len() == n);
        if self.context > 0 {
            let start = if idx >= self.context { idx - self.context } else { 0 };
            let end = if idx.saturating_add(self.context).saturating_add(1) < n {
                idx + self.context + 1
            } else {
                n
            };
            let mut k = start;
            while k < end
                invariant
                    start <= k <= end <= n,
                    n == lines.len(),
                    ls == views(lines@),
                    start == context_start(idx as int, self.context as int),
                    end == context_end(idx as int, self.context as int, n as int),
                    self.count == old(self).count,
                    self.max_results == old(self).max_results,
                    self.context == old(self).context,
                    self.context > 0,
                    forall|j: int| start <= j < k ==> line_cut_ok(#[trigger] ls[j]),
                    views(self.entries@) == before + context_entries(ls, start as int, k as int, idx as int),
                decreases end - k,
            {
                let line = lines[k].as_str();
                assert(line@ == ls[k as int]);
                if !cut_ok(line) {
                    return false;
                }
                let mut e = String::new();
                e.push(if k == idx { '>' } else { ' ' });
                push_decimal(&mut e, k + 1);
                e.append(": ");
                e.append(truncate_line(line));
                let ghost b2 = views(self.entries@);
                self.entries.push(e);
                proof {
                    assert(views(self.entries@) =~= b2.push(e@));
                    assert(e@ =~= context_entry(ls, k as int, idx as int));
                }
                k += 1;
            }
            let mut p = String::from_str(path);
            p.append(":");
            push_decimal(&mut p, idx + 1);
            let ghost b3 = views(self.entries@);
            self.entries.push(p);
            self.entries.push(String::from_str("--"));
            proof {
                assert(views(self.entries@) =~= b3 + seq![p@, "--"@]);
            }
            true
        } else {
            let line = lines[idx].as_str();
            assert(line@ == ls[idx as int]);
            if !cut_ok(line) {
                return false;
            }
            let mut e = String::from_str(path);
            e.append(":");
            push_decimal(&mut e, idx + 1);
            e.append(":");
            e.append(truncate_line(line));
            self.entries.push(e);
            proof {
                assert(views(self.entries@) =~= before + seq![e@]);
            }
            true
        }
    }

    /// Scans the content of the file `path` (as shown, relative to the search
    /// root) line by line, stopping at the limit of matches.
    pub fn scan_file(self, path: &str, content: &str, pattern: &LinePattern) -> (r: Result<GrepSearch, GrepError>)
        ensures
            match scan(self.state(), path@, lines_of(content@), 0, self.max(), self.context_lines(), pattern.source(), pattern.ignores_case()) {
                Some(st) => r is Ok && r->Ok_0.state() == st && r->Ok_0.max() == self.max()
                    && r->Ok_0.context_lines() == self.context_lines(),
                None => r == Err::<GrepSearch, GrepError>(GrepError::LineCutInsideChar),
            },
    {
        let ghost goal = scan(self.state(), path@, lines_of(content@), 0, self.max(), self.context_lines(), pattern.source(), pattern.ignores_case());
        let ghost max = self.max();
        let ghost ctx = self.context_lines();
        let ghost pat = pattern.source();
        let ghost ic = pattern.ignores_case();
        let lines = split_lines(content);
        let ghost ls = lines_of(content@);
        let mut me = self;
        let mut i: usize = 0;
        while i < lines.len()
            invariant
                i <= lines.len(),
                views(lines@) == ls,
                max == me.max(),
                ctx == me.context_lines(),
                pat == pattern.source(),
                ic == pattern.ignores_case(),
                goal == scan(me.state(), path@, ls, i as int, max, ctx, pat, ic),
                goal == scan(self.state(), path@, lines_of(content@), 0, self.max(), self.context_lines(), pattern.source(), pattern.ignores_case()),
                max == self.max(),
                ctx == self.context_lines(),
            decreases lines.len() - i,
        {
            if me.count >= me.max_results {
                return Ok(me);
            }
            let line = lines[i].as_str();
            assert(line@ == ls[i as int]);
            if pattern.is_match(line) {
                let ok = me.push_match(path, &lines, i);
                if !ok {
                    return Err(GrepError::LineCutInsideChar);
                }
                assert(me.count < me.max_results);
                me.count = me.count + 1;
            }
            i += 1;
        }
        Ok(me)
    }

    /// The listing of the search: the entries joined by line feeds, marked
    /// truncated when the limit of matches was reached.
    pub fn finish(self) -> (r: GrepReport)
        ensures
            self.state().entries.len() == 0 ==> r is NoMatches,
            self.state().entries.len() > 0 ==> (r matches GrepReport::Matches { text, truncated }
                && text@ == join(self.state().entries, seq!['\n'])
                && truncated == (self.state().count >= self.max())),
    {
        if self.entries.len() == 0 {
            return GrepReport::NoMatches;
        }
        let n = self.entries.len();
        let text = join_range(&self.entries, 0, n, "\n");
        proof {
            reveal_strlit("\n");
            assert("\n"@ =~= seq!['\n']);
            assert(views(self.entries@).subrange(0, n as int) =~= views(self.entries@));
        }
        GrepReport::Matches { text, truncated: self.count >= self.max_results }
    }
}


// ---------------------------------------------------------------------------
// Laws
// ---------------------------------------------------------------------------

/// Scanning never takes back what was listed, and never counts past the
/// limit: the matches listed before stay first, and the count stays at most
/// `max` (when it started there).
pub proof fn lemma_scan_bounded(
    st: ScanState,
    path: Seq<char>,
    lines: Seq<Seq<char>>,
    i: int,
    max: int,
    context: int,
    pattern: Seq<char>,
    ignore_case: bool,
)
    requires
        st.count <= max,
    ensures
        scan(st, path, lines, i, max, context, pattern, ignore_case) matches Some(r) ==> {
            &&& st.count <= r.count <= max
            &&& r.entries.len() >= st.entries.len()
            &&& r.entries.take(st.entries.len() as int) == st.entries
        },
    decreases lines.len() - i,
{
    if i >= lines.len() || i < 0 || st.count >= max {
        assert(st.entries.take(st.entries.len() as int) =~= st.entries);
    } else if regex_is_match(pattern, ignore_case, lines[i]) {
        if match_cut_ok(lines, i, context) {
            let next = ScanState { count: st.count + 1, entries: st.entries + match_entries(path, lines, i, context) };
            lemma_scan_bounded(next, path, lines, i + 1, max, context, pattern, ignore_case);
            if let Some(r) = scan(next, path, lines, i + 1, max, context, pattern, ignore_case) {
                assert(r.entries.take(st.entries.len() as int) =~= r.entries.take(next.entries.len() as int).take(
                    st.entries.len() as int,
                ));
                assert(next.entries.take(st.entries.len() as int) =~= st.entries);
            }
        }
    } else {
        lemma_scan_bounded(st, path, lines, i + 1, max, context, pattern, ignore_case);
    }
}

/// Without context lines, every counted match is listed as exactly one entry.
pub proof fn lemma_scan_one_entry_per_match(
    st: ScanState,
    path: Seq<char>,
    lines: Seq<Seq<char>>,
    i: int,
    max: int,
    pattern: Seq<char>,
    ignore_case: bool,
)
    requires
        st.entries.len() == st.count,
    ensures
        scan(st, path, lines, i, max, 0, pattern, ignore_case) matches Some(r) ==> r.entries.len() == r.count,
    decreases lines.len() - i,
{
    if i >= lines.len() || i < 0 || st.count >= max {
    } else if regex_is_match(pattern, ignore_case, lines[i]) {
        if match_cut_ok(lines, i, 0) {
            let next = ScanState { count: st.count + 1, entries: st.entries + match_entries(path, lines, i, 0) };
            lemma_scan_one_entry_per_match(next, path, lines, i + 1, max, pattern, ignore_case);
        }
    } else {
        lemma_scan_one_entry_per_match(st, path, lines, i + 1, max, pattern, ignore_case);
    }
}

proof fn lemma_context_entries_index(lines: Seq<Seq<char>>, from: int, to: int, idx: int)
    requires
        from <= to,
    ensures
        context_entries(lines, from, to, idx).len() == to - from,
        forall|j: int|
            0 <= j < to - from ==> #[trigger] context_entries(lines, from, to, idx)[j] == context_entry(
                lines,
                from + j,
                idx,
            ),
    decreases to - from,
{
    if from < to {
        lemma_context_entries_index(lines, from, to - 1, idx);
    }
}

/// With `context > 0`, a match on line `idx` (0-based) lists the `context`
/// lines before it (all the lines above it when there are fewer), the
/// matching line itself, and the `context` lines after it (all the lines
/// below it when there are fewer), each in order as a context entry; then
/// `path:number` and `--`.
pub proof fn lemma_match_lists_surrounding_lines(path: Seq<char>, lines: Seq<Seq<char>>, idx: int, context: int)
    requires
        0 <= idx < lines.len(),
        context > 0,
    ensures
        ({
            let e = match_entries(path, lines, idx, context);
            let before = if idx < context { idx } else { context };
            let after = if lines.len() - 1 - idx < context { lines.len() - 1 - idx } else { context };
            let n = before + 1 + after;
            &&& e.len() == n + 2
            &&& forall|j: int| 0 <= j < n ==> #[trigger] e[j] == context_entry(lines, idx - before + j, idx)
            &&& e[before] == context_entry(lines, idx, idx)
            &&& e[n] == path + ":"@ + decimal((idx + 1) as nat)
            &&& e[n + 1] == "--"@
        }),
{
    let before = if idx < context { idx } else { context };
    let after = if lines.len() - 1 - idx < context { lines.len() - 1 - idx } else { context };
    let from = context_start(idx, context);
    let to = context_end(idx, context, lines.len() as int);
    assert(from == idx - before);
    assert(to == idx + after + 1);
    lemma_context_entries_index(lines, from, to, idx);
    let ce = context_entries(lines, from, to, idx);
    let e = match_entries(path, lines, idx, context);
    assert(e == ce + seq![path + ":"@ + decimal((idx + 1) as nat), "--"@]);
    assert forall|j: int| 0 <= j < before + 1 + after implies #[trigger] e[j] == context_entry(lines, idx - before + j, idx) by {
        assert(e[j] == ce[j]);
    }
    assert(e[before] == ce[before]);
}

/// A line that is short enough is shown whole.
pub proof fn lemma_short_line_shown_whole(line: Seq<char>)
    requires
        encode_utf8(line).len() <= MAX_LINE_LENGTH,
    ensures
        shown_line(line) == line,
        line_cut_ok(line),
{
}

} // verus!
