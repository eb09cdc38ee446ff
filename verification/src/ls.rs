//! Listing a directory: entry labels, their order, and the limit.
use vstd::prelude::*;
use vstd::string::StringExecFns;

use crate::sort::{key_views, sort_by_keys, stably_sorted_by};
use crate::text::{chars_of, join, join_range, views};

verus! {

/// At most this many entries are listed by default.
pub const DEFAULT_MAX_RESULTS: usize = 500;

/// The arguments of a listing.
pub struct LsArgs {
    pub path: Option<String>,
    pub max_results: Option<usize>,
}

/// The listing tool; relative paths are taken from `working_dir`.
pub struct Ls {
    pub working_dir: Option<String>,
}

impl LsArgs {
    /// The most entries listed: the one asked for, else `DEFAULT_MAX_RESULTS`.
    pub fn limit(&self) -> (r: usize)
        ensures
            r == match self.max_results {
                Some(n) => n,
                None => DEFAULT_MAX_RESULTS,
            },
    {
        match self.max_results {
            Some(n) => n,
            None => DEFAULT_MAX_RESULTS,
        }
    }
}

/// An entry's label: its name, with `/` after it for a directory.
pub fn entry_label(name: &str, is_dir: bool) -> (r: String)
    ensures
        r@ == if is_dir {
            name@.push('/')
        } else {
            name@
        },
{
    let mut s = String::from_str(name);
    if is_dir {
        s.push('/');
    }
    s
}

/// What `str::to_lowercase` makes of `s` (full Unicode lowercase mapping).
pub uninterp spec fn unicode_lowercase(s: Seq<char>) -> Seq<char>;

/// Calls `str::to_lowercase`. Claimed: the result is `unicode_lowercase(s)`,
/// a function of the text alone.
#[verifier::external_body]
fn to_lowercase(s: &str) -> (r: String)
    ensures
        r@ == unicode_lowercase(s@),
{
    s.to_lowercase()
}

/// The lowercase form of every label, by which the listing is ordered.
pub open spec fn lowercase_keys(labels: Seq<Seq<char>>) -> Seq<Seq<char>> {
    labels.map_values(|l: Seq<char>| unicode_lowercase(l))
}

/// The listing of a directory.
pub enum LsListing {
    Empty,
    /// The first labels in order, joined by line feeds; `truncated` when
    /// some were left out.
    Entries { text: String, truncated: bool },
}

/// Orders the labels by their lowercase form (equal forms keeping their
/// order), keeps the first `max_results`, and joins them by line feeds.
pub fn listing(labels: &Vec<String>, max_results: usize) -> (r: LsListing)
    ensures
        labels.len() == 0 ==> r is Empty,
        labels.len() > 0 ==> (r matches LsListing::Entries { text, truncated } && truncated == (labels.len()
            > max_results) && exists|sorted: Seq<Seq<char>>, order: Seq<usize>|
            #[trigger] stably_sorted_by(sorted, views(labels@), lowercase_keys(views(labels@)), order)
                && text@ == join(
                sorted.take(if labels.len() > max_results {
                    max_results as int
                } else {
                    labels.len() as int
                }),
                seq!['\n'],
            )),
{
    let n = labels.len();
    if n == 0 {
        return LsListing::Empty;
    }
    let mut keys: Vec<Vec<char>> = Vec::new();
    let mut i: usize = 0;
    while i < n
        invariant
            n == labels.len(),
            i <= n,
            keys.len() == i,
            forall|k: int| 0 <= k < i ==> #[trigger] keys@[k]@ == unicode_lowercase(labels@[k]@),
        decreases n - i,
    {
        let lower = to_lowercase(labels[i].as_str());
        keys.push(chars_of(lower.as_str()));
        i += 1;
    }
    assert(key_views(keys@) =~= lowercase_keys(views(labels@)));
    let sorted = sort_by_keys(labels, &keys);
    let shown = if n > max_results { max_results } else { n };
    let text = join_range(&sorted, 0, shown, "\n");
    proof {
        reveal_strlit("\n");
        assert("\n"@ =~= seq!['\n']);
        assert(views(sorted@).subrange(0, shown as int) =~= views(sorted@).take(shown as int));
    }
    LsListing::Entries { text, truncated: n > max_results }
}

} // verus!
