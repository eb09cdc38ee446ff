//! The logic of a set of agent tools (read, edit and write files, list
//! directories, search by name and by content, run PowerShell, fetch web
//! pages), with the file system, processes and network left to the caller.
use vstd::prelude::*;
use vstd::string::StringSliceAdditionalSpecFns;
use vstd::utf8::{decode_utf8, is_char_boundary};

pub mod text;
pub mod encoding;
pub mod paths;
pub mod edit_file;
pub mod read_file;
pub mod grep;
pub mod sort;
pub mod glob;
pub mod ls;
pub mod web_fetch;
pub mod powershell;
pub mod write_file;

pub use edit_file::{EditFile, EditFileArgs, EditOperation};
pub use glob::{GlobArgs, GlobTool};
pub use grep::{Grep, GrepArgs};
pub use ls::{Ls, LsArgs};
pub use paths::resolve_path;
pub use powershell::{PowerShellArgs, PowerShellTool};
pub use read_file::{ReadFile, ReadFileArgs};
pub use web_fetch::{WebFetchArgs, WebFetchFormat};
pub use write_file::{WriteFile, WriteFileArgs};

use encoding::{decode_lossy, utf8_lossy};

verus! {

/// Metadata of a tool, for settings panels: its tool name and the keys of
/// its localized UI name and description.
#[derive(Clone, Copy, Debug)]
pub struct ToolMeta {
    /// The tool's name (e.g. "bash", "read_file").
    pub rig_name: &'static str,
    /// The key of the localized UI name.
    pub name_key: &'static str,
    /// The key of the localized short description.
    pub desc_key: &'static str,
}

/// The tools of this crate, in their display order.
pub open spec fn tool_table() -> Seq<ToolMeta> {
    seq![
        ToolMeta { rig_name: "read_file", name_key: "ui.read_file.name", desc_key: "ui.read_file.desc" },
        ToolMeta { rig_name: "edit_file", name_key: "ui.edit_file.name", desc_key: "ui.edit_file.desc" },
        ToolMeta { rig_name: "write_file", name_key: "ui.write_file.name", desc_key: "ui.write_file.desc" },
        ToolMeta { rig_name: "bash", name_key: "ui.bash.name", desc_key: "ui.bash.desc" },
        ToolMeta { rig_name: "powershell", name_key: "ui.powershell.name", desc_key: "ui.powershell.desc" },
        ToolMeta { rig_name: "grep", name_key: "ui.grep.name", desc_key: "ui.grep.desc" },
        ToolMeta { rig_name: "glob", name_key: "ui.glob.name", desc_key: "ui.glob.desc" },
        ToolMeta { rig_name: "ls", name_key: "ui.ls.name", desc_key: "ui.ls.desc" },
        ToolMeta { rig_name: "web_fetch", name_key: "ui.web_fetch.name", desc_key: "ui.web_fetch.desc" },
    ]
}

/// All tools provided by this crate, with their UI metadata.
pub fn tools() -> (r: Vec<ToolMeta>)
    ensures
        r@ == tool_table(),
{
    let v = vec![
        ToolMeta { rig_name: "read_file", name_key: "ui.read_file.name", desc_key: "ui.read_file.desc" },
        ToolMeta { rig_name: "edit_file", name_key: "ui.edit_file.name", desc_key: "ui.edit_file.desc" },
        ToolMeta { rig_name: "write_file", name_key: "ui.write_file.name", desc_key: "ui.write_file.desc" },
        ToolMeta { rig_name: "bash", name_key: "ui.bash.name", desc_key: "ui.bash.desc" },
        ToolMeta { rig_name: "powershell", name_key: "ui.powershell.name", desc_key: "ui.powershell.desc" },
        ToolMeta { rig_name: "grep", name_key: "ui.grep.name", desc_key: "ui.grep.desc" },
        ToolMeta { rig_name: "glob", name_key: "ui.glob.name", desc_key: "ui.glob.desc" },
        ToolMeta { rig_name: "ls", name_key: "ui.ls.name", desc_key: "ui.ls.desc" },
        ToolMeta { rig_name: "web_fetch", name_key: "ui.web_fetch.name", desc_key: "ui.web_fetch.desc" },
    ];
    assert(v@ =~= tool_table());
    v
}

/// Looks up the UI metadata of a tool by its tool name: the first entry of
/// the table with that name, or none.
pub fn tool_meta(rig_name: &str) -> (r: Option<ToolMeta>)
    ensures
        match r {
            Some(m) => exists|i: int|
                0 <= i < tool_table().len() && tool_table()[i] == m && m.rig_name@ == rig_name@
                    && forall|j: int| 0 <= j < i ==> tool_table()[j].rig_name@ != rig_name@,
            None => forall|i: int| 0 <= i < tool_table().len() ==> tool_table()[i].rig_name@ != rig_name@,
        },
{
    let table = tools();
    let want = text::chars_of(rig_name);
    let mut i: usize = 0;
    while i < table.len()
        invariant
            i <= table.len(),
            table@ == tool_table(),
            want@ == rig_name@,
            forall|j: int| 0 <= j < i ==> tool_table()[j].rig_name@ != rig_name@,
        decreases table.len() - i,
    {
        if text::chars_eq_str(&want, table[i].rig_name) {
            return Some(table[i]);
        }
        i += 1;
    }
    None
}

/// The error a tool reports, as text.
pub struct ToolError(pub String);

// ---------------------------------------------------------------------------
// Output of a command
// ---------------------------------------------------------------------------

/// What a finished command wrote, and how it ended.
pub struct CommandOutput {
    /// The exit code; none when the command was ended by a signal.
    pub exit_code: Option<i32>,
    pub stdout: Vec<u8>,
    pub stderr: Vec<u8>,
}

/// At most this many bytes of a command's output are kept.
pub const MAX_OUTPUT_LENGTH: usize = 10000;

/// Standard output, then (when there is any) standard error under a label
/// line, separated from standard output by a line feed when both are there.
pub open spec fn combined_output(out: Seq<char>, err: Seq<char>, label: Seq<char>) -> Seq<char> {
    if err.len() == 0 {
        out
    } else {
        (if out.len() > 0 {
            out + seq!['\n']
        } else {
            Seq::empty()
        }) + label + seq!['\n'] + err
    }
}

/// The combined output as UTF-8 bytes.
pub open spec fn combined_bytes(stdout: Seq<u8>, stderr: Seq<u8>, label: Seq<char>) -> Seq<u8> {
    vstd::utf8::encode_utf8(combined_output(utf8_lossy(stdout), utf8_lossy(stderr), label))
}

/// Where the kept tail of a long output starts, in bytes.
pub open spec fn cut_point(bytes: Seq<u8>) -> int {
    bytes.len() - MAX_OUTPUT_LENGTH
}

/// The tail of a long output can be cut off at a character boundary.
pub open spec fn output_cut_ok(stdout: Seq<u8>, stderr: Seq<u8>, label: Seq<char>) -> bool {
    let b = combined_bytes(stdout, stderr, label);
    b.len() > MAX_OUTPUT_LENGTH ==> is_char_boundary(b, cut_point(b))
}

/// The text a command's output is shown as: the combined output, or, when it
/// is longer than `MAX_OUTPUT_LENGTH` bytes, the notice, a line feed, and the
/// last `MAX_OUTPUT_LENGTH` bytes.
pub open spec fn formatted_output(stdout: Seq<u8>, stderr: Seq<u8>, label: Seq<char>, notice: Seq<char>) -> Seq<char> {
    let b = combined_bytes(stdout, stderr, label);
    if b.len() > MAX_OUTPUT_LENGTH {
        notice + seq!['\n'] + decode_utf8(b.skip(cut_point(b)))
    } else {
        combined_output(utf8_lossy(stdout), utf8_lossy(stderr), label)
    }
}

fn combine(out: &String, err: &String, stderr_label: &str) -> (r: String)
    ensures
        r@ == combined_output(out@, err@, stderr_label@),
{
    let mut result = String::new();
    if !out.as_str().is_empty() {
        result.push_str(out.as_str());
    }
    if !err.as_str().is_empty() {
        if !result.as_str().is_empty() {
            result.push('\n');
        }
        result.push_str(stderr_label);
        result.push('\n');
        result.push_str(err.as_str());
    }
    assert(out@.len() == 0 ==> out@ =~= Seq::<char>::empty());
    result
}

/// Formats a command's output: standard output, then standard error under
/// `stderr_label`, both decoded with invalid UTF-8 replaced; an output longer
/// than `MAX_OUTPUT_LENGTH` bytes keeps only its tail, after `truncated_notice`.
/// The exit code plays no part.
pub fn format_command_output(output: &CommandOutput, stderr_label: &str, truncated_notice: &str) -> (r: String)
    requires
        output_cut_ok(output.stdout@, output.stderr@, stderr_label@),
    ensures
        r@ == formatted_output(output.stdout@, output.stderr@, stderr_label@, truncated_notice@),
{
    let out = decode_lossy(output.stdout.as_slice());
    let err = decode_lossy(output.stderr.as_slice());
    let result = combine(&out, &err, stderr_label);
    let s = result.as_str();
    let b = s.as_bytes();
    proof {
        assert(b.len() == b@.len());
        vstd::utf8::encode_utf8_valid_utf8(result@);
    }
    if s.len() > MAX_OUTPUT_LENGTH {
        let start = s.len() - MAX_OUTPUT_LENGTH;
        let (_, tail) = s.split_at(start);
        let mut shown = String::new();
        shown.push_str(truncated_notice);
        shown.push('\n');
        shown.push_str(tail);
        proof {
            vstd::utf8::encode_utf8_decode_utf8(tail@);
        }
        shown
    } else {
        result
    }
}

/// `format_command_output`, or none where cutting the tail of a long output
/// would split a character.
pub fn format_command_output_checked(output: &CommandOutput, stderr_label: &str, truncated_notice: &str) -> (r: Option<String>)
    ensures
        output_cut_ok(output.stdout@, output.stderr@, stderr_label@) ==> r is Some && r->0@
            == formatted_output(output.stdout@, output.stderr@, stderr_label@, truncated_notice@),
        !output_cut_ok(output.stdout@, output.stderr@, stderr_label@) ==> r is None,
{
    let out = decode_lossy(output.stdout.as_slice());
    let err = decode_lossy(output.stderr.as_slice());
    let result = combine(&out, &err, stderr_label);
    let s = result.as_str();
    let b = s.as_bytes();
    proof {
        assert(b.len() == b@.len());
        vstd::utf8::encode_utf8_valid_utf8(result@);
    }
    if s.len() > MAX_OUTPUT_LENGTH && !s.is_char_boundary(s.len() - MAX_OUTPUT_LENGTH) {
        return None;
    }
    Some(format_command_output(output, stderr_label, truncated_notice))
}


/// A long output keeps exactly its last `MAX_OUTPUT_LENGTH` bytes, after the
/// notice and a line feed.
pub proof fn lemma_long_output_keeps_tail(stdout: Seq<u8>, stderr: Seq<u8>, label: Seq<char>, notice: Seq<char>)
    requires
        output_cut_ok(stdout, stderr, label),
        combined_bytes(stdout, stderr, label).len() > MAX_OUTPUT_LENGTH,
    ensures
        ({
            let b = combined_bytes(stdout, stderr, label);
            let tail = decode_utf8(b.skip(cut_point(b)));
            &&& formatted_output(stdout, stderr, label, notice) == notice + seq!['\n'] + tail
            &&& vstd::utf8::encode_utf8(tail) == b.skip(cut_point(b))
            &&& vstd::utf8::encode_utf8(tail).len() == MAX_OUTPUT_LENGTH
        }),
{
    let b = combined_bytes(stdout, stderr, label);
    vstd::utf8::encode_utf8_valid_utf8(combined_output(utf8_lossy(stdout), utf8_lossy(stderr), label));
    vstd::utf8::valid_utf8_split(b, cut_point(b));
    assert(b.subrange(cut_point(b), b.len() as int) =~= b.skip(cut_point(b)));
    vstd::utf8::decode_utf8_encode_utf8(b.skip(cut_point(b)));
}

/// An output of at most `MAX_OUTPUT_LENGTH` bytes is shown whole.
pub proof fn lemma_short_output_whole(stdout: Seq<u8>, stderr: Seq<u8>, label: Seq<char>, notice: Seq<char>)
    requires
        combined_bytes(stdout, stderr, label).len() <= MAX_OUTPUT_LENGTH,
    ensures
        formatted_output(stdout, stderr, label, notice) == combined_output(utf8_lossy(stdout), utf8_lossy(stderr), label),
        output_cut_ok(stdout, stderr, label),
{
}


/// How a command ended never changes how its output is shown: two outputs
/// with the same streams are shown alike (and can be cut alike).
pub proof fn lemma_exit_code_ignored(o1: CommandOutput, o2: CommandOutput, label: Seq<char>, notice: Seq<char>)
    requires
        o1.stdout@ == o2.stdout@,
        o1.stderr@ == o2.stderr@,
    ensures
        output_cut_ok(o1.stdout@, o1.stderr@, label) == output_cut_ok(o2.stdout@, o2.stderr@, label),
        formatted_output(o1.stdout@, o1.stderr@, label, notice) == formatted_output(
            o2.stdout@,
            o2.stderr@,
            label,
            notice,
        ),
{
}

} // verus!
