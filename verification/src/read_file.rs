//! Reading a file: images are recognised by extension, text is shown as a
//! window of its lines.
use vstd::prelude::*;

use crate::paths::{extension, path_extension};
use crate::text::{
    ascii_lower_range, ascii_lower_seq, chars_eq_str, chars_of, join_lines_spec, join_range,
    lemma_lines_join, lines_of, no_crlf, split_lines, views,
};

verus! {

/// The number of lines shown when no range is asked for.
pub const DEFAULT_MAX_LINES: usize = 500;

/// The arguments of a read: the path and an optional 1-based, inclusive line range.
pub struct ReadFileArgs {
    pub path: String,
    pub start_line: Option<usize>,
    pub end_line: Option<usize>,
}

/// The read tool; relative paths are taken from `working_dir`, and at most
/// `max_lines` lines are shown when no end line is given.
pub struct ReadFile {
    pub working_dir: Option<String>,
    pub max_lines: usize,
}

impl Default for ReadFile {
    fn default() -> (r: Self)
        ensures
            r.working_dir is None,
            r.max_lines == DEFAULT_MAX_LINES,
    {
        ReadFile { working_dir: None, max_lines: DEFAULT_MAX_LINES }
    }
}

// ---------------------------------------------------------------------------
// Images
// ---------------------------------------------------------------------------

/// The image MIME type for a lowercase file extension.
pub open spec fn mime_for_extension(e: Seq<char>) -> Option<Seq<char>> {
    if e == "jpg"@ || e == "jpeg"@ {
        Some("image/jpeg"@)
    } else if e == "png"@ {
        Some("image/png"@)
    } else if e == "gif"@ {
        Some("image/gif"@)
    } else if e == "webp"@ {
        Some("image/webp"@)
    } else if e == "heic"@ {
        Some("image/heic"@)
    } else if e == "heif"@ {
        Some("image/heif"@)
    } else if e == "svg"@ {
        Some("image/svg+xml"@)
    } else {
        None
    }
}

/// The image MIME type of a path, by its extension in any letter case.
pub open spec fn image_mime_spec(path: Seq<char>) -> Option<Seq<char>> {
    match path_extension(path) {
        Some(e) => mime_for_extension(ascii_lower_seq(e)),
        None => None,
    }
}

/// The image MIME type that the path's extension names, if any (the file
/// name is taken by the Unix path rules of `crate::paths`).
pub fn image_mime_for(path: &str) -> (r: Option<&'static str>)
    ensures
        match image_mime_spec(path@) {
            Some(m) => r is Some && r->0@ == m,
            None => r is None,
        },
{
    let ext = match extension(path) {
        Some(e) => e,
        None => {
            return None;
        },
    };
    let ec = chars_of(ext.as_str());
    let n = ec.len();
    let e = ascii_lower_range(&ec, 0, n);
    assert(ec@.subrange(0, n as int) =~= ec@);
    if chars_eq_str(&e, "jpg") || chars_eq_str(&e, "jpeg") {
        Some("image/jpeg")
    } else if chars_eq_str(&e, "png") {
        Some("image/png")
    } else if chars_eq_str(&e, "gif") {
        Some("image/gif")
    } else if chars_eq_str(&e, "webp") {
        Some("image/webp")
    } else if chars_eq_str(&e, "heic") {
        Some("image/heic")
    } else if chars_eq_str(&e, "heif") {
        Some("image/heif")
    } else if chars_eq_str(&e, "svg") {
        Some("image/svg+xml")
    } else {
        None
    }
}

// ---------------------------------------------------------------------------
// Line windows
// ---------------------------------------------------------------------------

/// The lines shown by a read.
pub struct LineWindow {
    /// The shown lines, joined by line feeds.
    pub text: String,
    /// The first shown line, 1-based.
    pub start: usize,
    /// The last shown line, 1-based; `start - 1` when none is shown.
    pub end: usize,
    /// The number of lines in the file.
    pub total: usize,
    /// The number of lines shown.
    pub shown: usize,
}

/// Why a read was refused.
#[derive(PartialEq, Eq, Structural, Debug, Clone, Copy)]
pub enum ReadError {
    /// The first line asked for lies after the last line of the file.
    StartBeyondEof { start: usize, total: usize },
}

/// The first line shown: the one asked for, at least 1.
pub open spec fn window_start(start_line: Option<usize>) -> int {
    match start_line {
        Some(s) => if s >= 1 {
            s as int
        } else {
            1
        },
        None => 1,
    }
}

/// The last line shown: the one asked for, or `max_lines` lines from the
/// start (the sum saturating at `usize::MAX`), and never past the last line.
pub open spec fn window_end(start: int, end_line: Option<usize>, max_lines: usize, total: int) -> int {
    let wanted = match end_line {
        Some(e) => e as int,
        None => if start + max_lines > usize::MAX {
            usize::MAX - 1
        } else {
            start + max_lines - 1
        },
    };
    if wanted < total {
        wanted
    } else {
        total
    }
}

/// The window is well formed: an end line before the start line would cut
/// the lines backwards, which the read does not allow.
pub open spec fn window_ok(content: Seq<char>, start_line: Option<usize>, end_line: Option<usize>, max_lines: usize) -> bool {
    let total = lines_of(content).len() as int;
    let start = window_start(start_line);
    start <= total ==> start - 1 <= window_end(start, end_line, max_lines, total)
}

impl ReadFile {
    /// Selects lines `start..=end` of `content`: `start` is the asked-for
    /// first line (at least 1, by default 1); `end` is the asked-for last
    /// line, by default `max_lines` lines on, and at most the last line.
    /// A start after the last line is refused.
    pub fn select_lines(&self, content: &str, start_line: Option<usize>, end_line: Option<usize>) -> (r: Result<LineWindow, ReadError>)
        requires
            window_ok(content@, start_line, end_line, self.max_lines),
        ensures
            ({
                let lines = lines_of(content@);
                let total = lines.len() as int;
                let start = window_start(start_line);
                let end = window_end(start, end_line, self.max_lines, total);
                if start > total {
                    r == Err::<LineWindow, ReadError>(ReadError::StartBeyondEof { start: start as usize, total: total as usize })
                } else {
                    &&& r is Ok
                    &&& r->Ok_0.start == start
                    &&& r->Ok_0.end == end
                    &&& r->Ok_0.total == total
                    &&& r->Ok_0.shown == end - start + 1
                    &&& r->Ok_0.text@ == join_lines_spec(lines.subrange(start - 1, end))
                }
            }),
    {
        let lines = split_lines(content);
        let total = lines.len();
        let start: usize = match start_line {
            Some(s) => if s >= 1 { s } else { 1 },
            None => 1,
        };
        let wanted: usize = match end_line {
            Some(e) => e,
            None => start.saturating_add(self.max_lines) - 1,
        };
        let end = if wanted < total { wanted } else { total };
        if start > total {
            return Err(ReadError::StartBeyondEof { start, total });
        }
        assert(views(lines@).len() == lines@.len());
        let text = join_range(&lines, start - 1, end, "\n");
        proof {
            reveal_strlit("\n");
            assert("\n"@ =~= seq!['\n']);
        }
        Ok(LineWindow { text, start, end, total, shown: end - (start - 1) })
    }
}


// ---------------------------------------------------------------------------
// Laws
// ---------------------------------------------------------------------------

/// Without an end line, a read shows at most `max_lines` lines.
pub proof fn lemma_window_at_most_max_lines(start_line: Option<usize>, max_lines: usize, total: int)
    requires
        1 <= window_start(start_line) <= total,
    ensures
        window_end(window_start(start_line), None, max_lines, total) - window_start(start_line) + 1 <= max_lines,
{
}

/// An asked-for last line is the last line shown, counted from the top of
/// the file and inclusive, whatever the first line is; only the end of the
/// file cuts it shorter. A range `s..=e` inside the file shows exactly lines
/// `s` to `e`.
pub proof fn lemma_end_line_is_inclusive(content: Seq<char>, s: usize, e: usize, max_lines: usize)
    requires
        1 <= s,
    ensures
        ({
            let lines = lines_of(content);
            let total = lines.len() as int;
            let end = window_end(window_start(Some(s)), Some(e), max_lines, total);
            &&& window_start(Some(s)) == s
            &&& end == if e < total { e as int } else { total }
            &&& s <= e <= total ==> {
                &&& window_ok(content, Some(s), Some(e), max_lines)
                &&& lines.subrange(s - 1, end).len() == e - s + 1
                &&& forall|k: int| 0 <= k <= e - s ==> #[trigger] lines.subrange(s - 1, end)[k] == lines[s - 1 + k]
            }
        }),
{
}

/// A read without a range, of a file with at least one line and no more
/// lines than the limit, can be made and shows every line of the file,
/// joined by line feeds.
pub proof fn lemma_whole_read_shows_every_line(content: Seq<char>, max_lines: usize)
    requires
        1 <= lines_of(content).len() <= max_lines,
        lines_of(content).len() < usize::MAX,
    ensures
        window_ok(content, None, None, max_lines),
        ({
            let lines = lines_of(content);
            let start = window_start(None);
            let end = window_end(start, None, max_lines, lines.len() as int);
            &&& start == 1
            &&& end == lines.len()
            &&& join_lines_spec(lines.subrange(start - 1, end)) == join_lines_spec(lines)
        }),
{
    let lines = lines_of(content);
    assert(lines.subrange(0, lines.len() as int) =~= lines);
}

/// A text file with no carriage return before a line feed and no final line
/// feed, read without a range and with no more lines than the limit, is
/// shown exactly as it is (a lone carriage return is kept).
pub proof fn lemma_whole_file_shown(content: Seq<char>, max_lines: usize)
    requires
        no_crlf(content),
        content.len() == 0 || content.last() != '\n',
        lines_of(content).len() <= max_lines,
        lines_of(content).len() >= 1,
        lines_of(content).len() < usize::MAX,
    ensures
        ({
            let lines = lines_of(content);
            let start = window_start(None);
            let end = window_end(start, None, max_lines, lines.len() as int);
            &&& start == 1
            &&& end == lines.len()
            &&& join_lines_spec(lines.subrange(start - 1, end)) == content
        }),
{
    let lines = lines_of(content);
    lemma_lines_join(content);
    assert(lines.subrange(0, lines.len() as int) =~= lines);
}

} // verus!
