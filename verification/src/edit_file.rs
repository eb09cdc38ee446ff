//! Replacing text in a file: choosing the edits, applying them in order to the
//! file's content, and showing the change as a line diff.
use vstd::prelude::*;

use crate::text::{string_from_range, chars_of};

verus! {

/// One replacement: the first occurrence of `old_string` becomes `new_string`.
pub struct EditOperation {
    pub old_string: String,
    pub new_string: String,
}

/// The arguments of an edit: either one `old_string`/`new_string` pair, or a
/// non-empty list of `edits`.
pub struct EditFileArgs {
    pub path: String,
    pub old_string: Option<String>,
    pub new_string: Option<String>,
    pub edits: Option<Vec<EditOperation>>,
}

/// The edit tool; relative paths are taken from `working_dir`.
pub struct EditFile {
    pub working_dir: Option<String>,
}

/// Why an edit was refused.
#[derive(PartialEq, Eq, Structural, Debug, Clone, Copy)]
pub enum EditError {
    /// Neither a single pair nor a non-empty list of edits was given.
    MissingArgs,
    /// The text to replace does not occur in the content at its turn.
    NotFound,
}

/// The kind of a line in a line diff.
#[derive(PartialEq, Eq, Structural, Debug, Clone, Copy)]
pub enum DiffTag {
    Equal,
    Delete,
    Insert,
}

// ---------------------------------------------------------------------------
// Occurrences and replacement
// ---------------------------------------------------------------------------

/// `pat` occurs in `s` starting at `i`.
pub open spec fn occurs_at(s: Seq<char>, pat: Seq<char>, i: int) -> bool {
    &&& 0 <= i
    &&& i + pat.len() <= s.len()
    &&& s.subrange(i, i + pat.len()) == pat
}

/// `pat` occurs somewhere in `s` (the empty pattern occurs in every string).
pub open spec fn contains(s: Seq<char>, pat: Seq<char>) -> bool {
    exists|i: int| occurs_at(s, pat, i)
}

/// `i` is where `pat` first occurs in `s`.
pub open spec fn is_first_occurrence(s: Seq<char>, pat: Seq<char>, i: int) -> bool {
    &&& occurs_at(s, pat, i)
    &&& forall|j: int| 0 <= j < i ==> !occurs_at(s, pat, j)
}

/// Where `pat` first occurs in `s` (meaningful when `contains(s, pat)`).
pub open spec fn first_occurrence(s: Seq<char>, pat: Seq<char>) -> int {
    choose|i: int| is_first_occurrence(s, pat, i)
}

/// `s` with its first occurrence of `old` replaced by `new`, as `replacen(old, new, 1)` does.
pub open spec fn replace_first(s: Seq<char>, old: Seq<char>, new: Seq<char>) -> Seq<char> {
    let i = first_occurrence(s, old);
    s.take(i) + new + s.skip(i + old.len())
}

/// A pattern that occurs has exactly one first occurrence.
pub proof fn lemma_first_occurrence(s: Seq<char>, pat: Seq<char>)
    requires
        contains(s, pat),
    ensures
        is_first_occurrence(s, pat, first_occurrence(s, pat)),
        forall|i: int| is_first_occurrence(s, pat, i) ==> i == first_occurrence(s, pat),
{
    let w = choose|i: int| occurs_at(s, pat, i);
    lemma_least_occurrence(s, pat, w);
    let f = first_occurrence(s, pat);
    assert forall|i: int| is_first_occurrence(s, pat, i) implies i == f by {
        if i < f {
            assert(!occurs_at(s, pat, i));
        } else if f < i {
            assert(!occurs_at(s, pat, f));
        }
    }
}

proof fn lemma_least_occurrence(s: Seq<char>, pat: Seq<char>, w: int)
    requires
        occurs_at(s, pat, w),
    ensures
        exists|i: int| is_first_occurrence(s, pat, i),
    decreases w,
{
    if forall|j: int| 0 <= j < w ==> !occurs_at(s, pat, j) {
        assert(is_first_occurrence(s, pat, w));
    } else {
        let j = choose|j: int| 0 <= j < w && occurs_at(s, pat, j);
        lemma_least_occurrence(s, pat, j);
    }
}

// ---------------------------------------------------------------------------
// Edits applied in order
// ---------------------------------------------------------------------------

/// The (old, new) texts of a list of edits.
pub open spec fn op_views(ops: Seq<EditOperation>) -> Seq<(Seq<char>, Seq<char>)> {
    ops.map_values(|op: EditOperation| (op.old_string@, op.new_string@))
}

/// The content after applying `ops` one after another, each to the result of
/// the previous one; `None` when some edit's text does not occur at its turn.
pub open spec fn apply_all(content: Seq<char>, ops: Seq<(Seq<char>, Seq<char>)>) -> Option<Seq<char>>
    decreases ops.len(),
{
    if ops.len() == 0 {
        Some(content)
    } else if !contains(content, ops[0].0) {
        None
    } else {
        apply_all(replace_first(content, ops[0].0, ops[0].1), ops.drop_first())
    }
}

/// Finds where `needle` first occurs in `hay`.
fn find_first(hay: &Vec<char>, needle: &Vec<char>) -> (r: Option<usize>)
    ensures
        match r {
            Some(i) => is_first_occurrence(hay@, needle@, i as int),
            None => !contains(hay@, needle@),
        },
{
    let n = hay.len();
    let m = needle.len();
    if m > n {
        assert forall|i: int| !occurs_at(hay@, needle@, i) by {}
        return None;
    }
    if m == 0 {
        assert(hay@.subrange(0, 0) =~= needle@);
        return Some(0);
    }
    let mut i: usize = 0;
    while i <= n - m
        invariant
            1 <= m <= n,
            n == hay@.len(),
            m == needle@.len(),
            forall|j: int| 0 <= j < i ==> !occurs_at(hay@, needle@, j),
        decreases n - m + 1 - i,
    {
        let mut k: usize = 0;
        let mut same = true;
        while k < m && same
            invariant
                m <= n,
                i <= n - m,
                n == hay@.len(),
                m == needle@.len(),
                k <= m,
                same ==> forall|t: int| 0 <= t < k ==> hay@[i + t] == needle@[t],
                !same ==> !occurs_at(hay@, needle@, i as int),
            decreases m - k + (if same { 1int } else { 0int }),
        {
            if hay[i + k] != needle[k] {
                same = false;
                proof {
                    assert(hay@.subrange(i as int, i + m)[k as int] == hay@[i + k]);
                }
            } else {
                k += 1;
            }
        }
        if same {
            assert(hay@.subrange(i as int, i + m) =~= needle@);
            return Some(i);
        }
        i += 1;
    }
    assert forall|j: int| !occurs_at(hay@, needle@, j) by {
        if 0 <= j && j + m <= n {
            assert(j < i);
        }
    }
    None
}

/// Replaces `cur[at..at + len]` by `new`.
fn splice(cur: &Vec<char>, at: usize, len: usize, new: &Vec<char>) -> (r: Vec<char>)
    requires
        at + len <= cur.len(),
    ensures
        r@ == cur@.take(at as int) + new@ + cur@.skip(at + len),
{
    let mut out: Vec<char> = Vec::new();
    let mut i: usize = 0;
    while i < at
        invariant
            i <= at,
            at + len <= cur.len(),
            out@ == cur@.take(i as int),
        decreases at - i,
    {
        out.push(cur[i]);
        i += 1;
        assert(out@ =~= cur@.take(i as int));
    }
    let mut j: usize = 0;
    while j < new.len()
        invariant
            j <= new.len(),
            out@ == cur@.take(at as int) + new@.take(j as int),
        decreases new.len() - j,
    {
        out.push(new[j]);
        j += 1;
        assert(out@ =~= cur@.take(at as int) + new@.take(j as int));
    }
    let mut k: usize = at + len;
    while k < cur.len()
        invariant
            at + len <= k <= cur.len(),
            out@ == cur@.take(at as int) + new@ + cur@.subrange(at + len, k as int),
        decreases cur.len() - k,
    {
        out.push(cur[k]);
        k += 1;
        assert(out@ =~= cur@.take(at as int) + new@ + cur@.subrange(at + len, k as int));
    }
    assert(new@.take(new@.len() as int) =~= new@);
    assert(cur@.subrange(at + len, cur@.len() as int) =~= cur@.skip(at + len));
    out
}

/// Applies the edits in order to `content`: each replaces the first occurrence
/// of its `old_string` in the text left by the edits before it.
pub fn apply_edits(content: &str, ops: &Vec<EditOperation>) -> (r: Result<String, EditError>)
    ensures
        match apply_all(content@, op_views(ops@)) {
            Some(c) => r == Ok::<String, EditError>(r->Ok_0) && r->Ok_0@ == c,
            None => r == Err::<String, EditError>(EditError::NotFound),
        },
{
    let mut cur = chars_of(content);
    let mut i: usize = 0;
    assert(op_views(ops@).skip(0) =~= op_views(ops@));
    while i < ops.len()
        invariant
            i <= ops.len(),
            apply_all(content@, op_views(ops@)) == apply_all(cur@, op_views(ops@).skip(i as int)),
        decreases ops.len() - i,
    {
        let ghost rest = op_views(ops@).skip(i as int);
        assert(rest[0] == (ops@[i as int].old_string@, ops@[i as int].new_string@));
        assert(rest.drop_first() =~= op_views(ops@).skip(i + 1));
        let old = chars_of(ops[i].old_string.as_str());
        let new = chars_of(ops[i].new_string.as_str());
        match find_first(&cur, &old) {
            None => {
                return Err(EditError::NotFound);
            },
            Some(at) => {
                proof {
                    lemma_first_occurrence(cur@, old@);
                }
                cur = splice(&cur, at, old.len(), &new);
            },
        }
        i += 1;
    }
    let n = cur.len();
    let out = string_from_range(&cur, 0, n);
    assert(out@ =~= cur@);
    Ok(out)
}


// ---------------------------------------------------------------------------
// Choosing the edits
// ---------------------------------------------------------------------------

/// The edits that `args` asks for: one pair, or a non-empty list; `None` otherwise.
pub open spec fn chosen_operations(args: EditFileArgs) -> Option<Seq<EditOperation>> {
    match (args.old_string, args.new_string, args.edits) {
        (Some(o), Some(n), None) => Some(seq![EditOperation { old_string: o, new_string: n }]),
        (None, None, Some(e)) => if e@.len() > 0 {
            Some(e@)
        } else {
            None
        },
        _ => None,
    }
}

impl EditFileArgs {
    /// The edits to make: the single `old_string`/`new_string` pair when both
    /// are given and `edits` is not, or the list `edits` when it is non-empty
    /// and neither of the pair is given; any other combination is refused.
    pub fn operations(self) -> (r: Result<Vec<EditOperation>, EditError>)
        ensures
            match chosen_operations(self) {
                Some(ops) => r is Ok && r->Ok_0@ == ops,
                None => r == Err::<Vec<EditOperation>, EditError>(EditError::MissingArgs),
            },
    {
        match (self.old_string, self.new_string, self.edits) {
            (Some(o), Some(n), None) => {
                let mut v: Vec<EditOperation> = Vec::new();
                v.push(EditOperation { old_string: o, new_string: n });
                Ok(v)
            },
            (None, None, Some(e)) => {
                if e.len() > 0 {
                    Ok(e)
                } else {
                    Err(EditError::MissingArgs)
                }
            },
            _ => Err(EditError::MissingArgs),
        }
    }
}

// ---------------------------------------------------------------------------
// Line diff of the change
// ---------------------------------------------------------------------------

/// The line changes that `similar::TextDiff::from_lines(old, new)` reports,
/// each with the line's text (its line feed included).
pub uninterp spec fn line_diff(old: Seq<char>, new: Seq<char>) -> Seq<(DiffTag, Seq<char>)>;

/// The changes with their texts as character sequences.
pub open spec fn change_views(cs: Seq<(DiffTag, String)>) -> Seq<(DiffTag, Seq<char>)> {
    cs.map_values(|c: (DiffTag, String)| (c.0, c.1@))
}

/// The texts of the changes not marked `skip`, concatenated in order.
pub open spec fn side_text(cs: Seq<(DiffTag, Seq<char>)>, skip: DiffTag) -> Seq<char>
    decreases cs.len(),
{
    if cs.len() == 0 {
        Seq::empty()
    } else {
        side_text(cs.drop_last(), skip) + if cs.last().0 == skip {
            Seq::empty()
        } else {
            cs.last().1
        }
    }
}

/// Calls `similar::TextDiff::from_lines(old, new)` and lists its changes in
/// order. Claimed: the list is `line_diff(old, new)`, a function of the two
/// texts alone (no deadline is configured); and, as the source shows (the
/// texts are cut into lines that keep their line endings, and the operations
/// cover both sides in order), the equal and deleted lines make up `old`
/// and the equal and inserted lines make up `new`.
#[verifier::external_body]
fn diff_lines(old: &str, new: &str) -> (r: Vec<(DiffTag, String)>)
    ensures
        change_views(r@) == line_diff(old@, new@),
        side_text(change_views(r@), DiffTag::Insert) == old@,
        side_text(change_views(r@), DiffTag::Delete) == new@,
{
    similar::TextDiff::from_lines(old, new).iter_all_changes().map(|c| {
        let tag = match c.tag() {
            similar::ChangeTag::Equal => DiffTag::Equal,
            similar::ChangeTag::Delete => DiffTag::Delete,
            similar::ChangeTag::Insert => DiffTag::Insert,
        };
        (tag, c.value().to_string())
    }).collect()
}

/// The sign that marks a line of the given kind.
pub open spec fn sign(tag: DiffTag) -> char {
    match tag {
        DiffTag::Delete => '-',
        DiffTag::Insert => '+',
        DiffTag::Equal => ' ',
    }
}

/// Every change as its sign followed by its text, concatenated.
pub open spec fn render(cs: Seq<(DiffTag, Seq<char>)>) -> Seq<char>
    decreases cs.len(),
{
    if cs.len() == 0 {
        Seq::empty()
    } else {
        render(cs.drop_last()) + seq![sign(cs.last().0)] + cs.last().1
    }
}

/// Writes each change as its sign (`-`, `+` or a space) and its text.
pub fn render_changes(changes: &Vec<(DiffTag, String)>) -> (r: String)
    ensures
        r@ == render(change_views(changes@)),
{
    let mut out = String::new();
    let mut i: usize = 0;
    while i < changes.len()
        invariant
            i <= changes.len(),
            out@ == render(change_views(changes@).take(i as int)),
        decreases changes.len() - i,
    {
        let ghost before = out@;
        let c = match changes[i].0 {
            DiffTag::Delete => '-',
            DiffTag::Insert => '+',
            DiffTag::Equal => ' ',
        };
        out.push(c);
        out.push_str(changes[i].1.as_str());
        proof {
            let t = change_views(changes@).take(i + 1);
            assert(t.drop_last() =~= change_views(changes@).take(i as int));
            assert(out@ =~= before + seq![c] + changes@[i as int].1@);
        }
        i += 1;
    }
    assert(change_views(changes@).take(changes.len() as int) =~= change_views(changes@));
    out
}

/// The line diff from `original` to `current`, each line marked with its
/// sign; the unmarked and `-` lines of the diff make up `original`, the
/// unmarked and `+` lines make up `current`.
pub fn diff_text(original: &str, current: &str) -> (r: String)
    ensures
        r@ == render(line_diff(original@, current@)),
        side_text(line_diff(original@, current@), DiffTag::Insert) == original@,
        side_text(line_diff(original@, current@), DiffTag::Delete) == current@,
{
    let changes = diff_lines(original, current);
    render_changes(&changes)
}

// ---------------------------------------------------------------------------
// Laws
// ---------------------------------------------------------------------------

/// A non-empty list of edits, with no single pair beside it, is made in
/// the order given, each edit exactly as listed.
pub proof fn lemma_operations_keep_list_order(args: EditFileArgs)
    requires
        args.old_string is None,
        args.new_string is None,
        args.edits is Some,
        args.edits->0@.len() > 0,
    ensures
        chosen_operations(args) is Some,
        chosen_operations(args)->0.len() == args.edits->0@.len(),
        forall|i: int|
            0 <= i < args.edits->0@.len() ==> #[trigger] chosen_operations(args)->0[i] == args.edits->0@[i],
{
}

/// A single pair, with no list beside it, is the one edit made.
pub proof fn lemma_operations_single_pair(args: EditFileArgs)
    requires
        args.old_string is Some,
        args.new_string is Some,
        args.edits is None,
    ensures
        chosen_operations(args) is Some,
        chosen_operations(args)->0.len() == 1,
        chosen_operations(args)->0[0].old_string == args.old_string->0,
        chosen_operations(args)->0[0].new_string == args.new_string->0,
{
}

/// Replacing a text by itself leaves the content as it was.
pub proof fn lemma_replace_with_itself(s: Seq<char>, old: Seq<char>)
    requires
        contains(s, old),
    ensures
        replace_first(s, old, old) == s,
{
    lemma_first_occurrence(s, old);
    let i = first_occurrence(s, old);
    assert(s.take(i) + s.subrange(i, i + old.len()) + s.skip(i + old.len()) =~= s);
}

/// The replacement text stands where the first occurrence was, and what was
/// before it is unchanged.
pub proof fn lemma_replace_first_shape(s: Seq<char>, old: Seq<char>, new: Seq<char>)
    requires
        contains(s, old),
    ensures
        ({
            let i = first_occurrence(s, old);
            let r = replace_first(s, old, new);
            &&& r.take(i) == s.take(i)
            &&& occurs_at(r, new, i)
            &&& r.len() == s.len() - old.len() + new.len()
            &&& r.skip(i + new.len()) == s.skip(i + old.len())
        }),
{
    lemma_first_occurrence(s, old);
    let i = first_occurrence(s, old);
    let r = replace_first(s, old, new);
    assert(r.take(i) =~= s.take(i));
    assert(r.subrange(i, i + new.len()) =~= new);
    assert(r.skip(i + new.len()) =~= s.skip(i + old.len()));
}

/// Applying `a` then `b` is applying `a + b`: a list of edits acts as the
/// edits one after another, and stops at the first that does not apply.
pub proof fn lemma_apply_all_concat(
    content: Seq<char>,
    a: Seq<(Seq<char>, Seq<char>)>,
    b: Seq<(Seq<char>, Seq<char>)>,
)
    ensures
        apply_all(content, a + b) == match apply_all(content, a) {
            Some(mid) => apply_all(mid, b),
            None => None,
        },
    decreases a.len(),
{
    if a.len() == 0 {
        assert(a + b =~= b);
    } else {
        assert((a + b)[0] == a[0]);
        assert((a + b).drop_first() =~= a.drop_first() + b);
        if contains(content, a[0].0) {
            lemma_apply_all_concat(replace_first(content, a[0].0, a[0].1), a.drop_first(), b);
        }
    }
}


/// An edit is undone by the reverse edit, when the new text's first
/// occurrence in the result is the one the edit put there.
pub proof fn lemma_reverse_edit_undoes(s: Seq<char>, old: Seq<char>, new: Seq<char>)
    requires
        contains(s, old),
        forall|j: int|
            0 <= j < first_occurrence(s, old) ==> !occurs_at(replace_first(s, old, new), new, j),
    ensures
        contains(replace_first(s, old, new), new),
        replace_first(replace_first(s, old, new), new, old) == s,
{
    lemma_replace_first_shape(s, old, new);
    lemma_first_occurrence(s, old);
    let i = first_occurrence(s, old);
    let r = replace_first(s, old, new);
    assert(is_first_occurrence(r, new, i));
    lemma_first_occurrence(r, new);
    assert(first_occurrence(r, new) == i);
    assert(r.take(i) + old + r.skip(i + new.len()) =~= s);
}

} // verus!
