//! Finding files by a glob pattern: which walked paths match, when to stop,
//! and the sorted listing.
use vstd::prelude::*;
use vstd::string::StringExecFns;

use crate::sort::{key_views, sort_by_keys, stably_sorted_by};
use crate::text::{chars_of, join, join_range, views};

verus! {

/// At most this many paths are listed by default.
pub const DEFAULT_MAX_RESULTS: usize = 1000;

/// The arguments of a file search.
pub struct GlobArgs {
    pub pattern: String,
    pub path: Option<String>,
    pub max_results: Option<usize>,
}

/// The file search tool; relative paths are taken from `working_dir`.
pub struct GlobTool {
    pub working_dir: Option<String>,
}

impl GlobArgs {
    /// The most paths listed: the one asked for, else `DEFAULT_MAX_RESULTS`.
    pub fn limit(&self) -> (r: usize)
        ensures
            r == match self.max_results {
                Some(n) => n,
                None => DEFAULT_MAX_RESULTS,
            },
    {
        match self.max_results {
            Some(n) => n,
            None => DEFAULT_MAX_RESULTS,
        }
    }
}

#[verifier::external_type_specification]
#[verifier::external_body]
pub struct ExGlobSet(globset::GlobSet);

/// Whether `globset::Glob::new` accepts `pattern` and a `globset::GlobSet`
/// holding that one glob can be built from it (`Ok`), or the text of the
/// error of whichever step refused it (a pattern that parses can still be
/// too large to compile).
pub uninterp spec fn glob_build(pattern: Seq<char>) -> Result<(), Seq<char>>;

/// Whether the glob set built from the one glob `pattern` matches `path`
/// (globset reads paths by the platform's rules: on Windows `\` counts as `/`).
pub uninterp spec fn glob_is_match(pattern: Seq<char>, path: Seq<char>) -> bool;

/// A compiled glob with the text it was compiled from. Only `build_glob`
/// makes one, from exactly that text.
pub struct GlobPattern {
    matcher: globset::GlobSet,
    source: String,
}

/// Calls `globset::Glob::new(pattern)`, then builds a `globset::GlobSet` of
/// that glob with `GlobSetBuilder::build`, which reports a glob too large to
/// compile as an error, and keeps the set together with `pattern`. Claimed:
/// it succeeds exactly when `glob_build` says so, with that error text
/// otherwise. (The set's literal matchers unwrap an Aho-Corasick build that
/// fails only on automata too large for memory.)
#[verifier::external_body]
fn build_glob(pattern: String) -> (r: Result<GlobPattern, String>)
    ensures
        match glob_build(pattern@) {
            Ok(_) => r is Ok && r->Ok_0.source() == pattern@,
            Err(e) => r is Err && r->Err_0@ == e,
        },
{
    let glob = globset::Glob::new(&pattern).map_err(|e| e.to_string())?;
    match globset::GlobSetBuilder::new().add(glob).build() {
        Ok(matcher) => Ok(GlobPattern { matcher, source: pattern }),
        Err(e) => Err(e.to_string()),
    }
}

impl GlobPattern {
    /// The text the glob was compiled from.
    pub closed spec fn source(&self) -> Seq<char> {
        self.source@
    }

    /// Compiles `pattern`; the error text when it is not a valid glob or is
    /// too large to compile.
    pub fn new(pattern: &str) -> (r: Result<GlobPattern, String>)
        ensures
            match glob_build(pattern@) {
                Ok(_) => r is Ok && r->Ok_0.source() == pattern@,
                Err(e) => r is Err && r->Err_0@ == e,
            },
    {
        build_glob(String::from_str(pattern))
    }

    /// Calls `globset::GlobSet::is_match` on the path. Claimed: the answer
    /// is `glob_is_match` of the text the set was built from (a
    /// `GlobPattern` is only made by `build_glob`, from that text).
    #[verifier::external_body]
    pub(crate) fn is_match(&self, path: &str) -> (r: bool)
        ensures
            r == glob_is_match(self.source(), path@),
    {
        self.matcher.is_match(path)
    }
}

/// The paths that matched so far, in the order they were walked.
pub struct GlobCollector {
    results: Vec<String>,
    max_results: usize,
}

/// The listing of a file search.
pub enum GlobListing {
    NoMatches,
    /// The matching paths sorted and joined by line feeds; `truncated` when
    /// the limit was reached.
    Paths { text: String, truncated: bool },
}

impl GlobCollector {
    /// The matching paths collected so far.
    pub closed spec fn results(&self) -> Seq<Seq<char>> {
        views(self.results@)
    }

    /// The most paths collected.
    pub closed spec fn max(&self) -> int {
        self.max_results as int
    }

    pub fn new(max_results: usize) -> (r: GlobCollector)
        ensures
            r.results() == Seq::<Seq<char>>::empty(),
            r.max() == max_results,
    {
        let r = GlobCollector { results: Vec::new(), max_results };
        assert(r.results() =~= Seq::<Seq<char>>::empty());
        r
    }

    /// Offers a walked file's path (relative to the search root): it is kept
    /// when the pattern matches it. Returns whether the walk should stop,
    /// which is when a path was just kept and the limit is reached.
    pub fn offer(&mut self, path: &str, pattern: &GlobPattern) -> (stop: bool)
        ensures
            final(self).max() == old(self).max(),
            glob_is_match(pattern.source(), path@) ==> final(self).results() == old(self).results().push(path@),
            !glob_is_match(pattern.source(), path@) ==> final(self).results() == old(self).results(),
            stop == (glob_is_match(pattern.source(), path@) && final(self).results().len() >= final(self).max()),
    {
        if pattern.is_match(path) {
            let ghost before = self.results();
            self.results.push(String::from_str(path));
            assert(self.results() =~= before.push(path@));
            self.results.len() >= self.max_results
        } else {
            false
        }
    }

    /// The listing: the kept paths sorted in the order of `str`, joined by
    /// line feeds, and marked truncated when the limit was reached.
    pub fn finish(self) -> (r: GlobListing)
        ensures
            self.results().len() == 0 ==> r is NoMatches,
            self.results().len() > 0 ==> (r matches GlobListing::Paths { text, truncated } && truncated
                == (self.results().len() >= self.max()) && exists|sorted: Seq<Seq<char>>, order: Seq<usize>|
                #[trigger] stably_sorted_by(sorted, self.results(), self.results(), order) && text@ == join(
                sorted,
                seq!['\n'],
            )),
    {
        let n = self.results.len();
        if n == 0 {
            return GlobListing::NoMatches;
        }
        let mut keys: Vec<Vec<char>> = Vec::new();
        let mut i: usize = 0;
        while i < n
            invariant
                n == self.results.len(),
                i <= n,
                keys.len() == i,
                forall|k: int| 0 <= k < i ==> #[trigger] keys@[k]@ == self.results@[k]@,
            decreases n - i,
        {
            keys.push(chars_of(self.results[i].as_str()));
            i += 1;
        }
        assert(key_views(keys@) =~= views(self.results@));
        let sorted = sort_by_keys(&self.results, &keys);
        let text = join_range(&sorted, 0, sorted.len(), "\n");
        proof {
            reveal_strlit("\n");
            assert("\n"@ =~= seq!['\n']);
            assert(views(sorted@).subrange(0, sorted.len() as int) =~= views(sorted@));
        }
        GlobListing::Paths { text, truncated: n >= self.max_results }
    }
}

} // verus!
