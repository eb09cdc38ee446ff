//! Ordering strings: the lexicographic order of their characters (the order
//! of `str`, since UTF-8 keeps code point order), and a stable sort by keys.
use vstd::prelude::*;

use crate::text::views;

verus! {

/// `a` comes before `b` in lexicographic order of characters.
pub open spec fn lex_lt(a: Seq<char>, b: Seq<char>) -> bool
    decreases a.len(),
{
    if a.len() == 0 {
        b.len() > 0
    } else if b.len() == 0 {
        false
    } else if a[0] != b[0] {
        a[0] < b[0]
    } else {
        lex_lt(a.drop_first(), b.drop_first())
    }
}

pub proof fn lemma_lex_irreflexive(a: Seq<char>)
    ensures
        !lex_lt(a, a),
    decreases a.len(),
{
    if a.len() > 0 {
        lemma_lex_irreflexive(a.drop_first());
    }
}

pub proof fn lemma_lex_asymmetric(a: Seq<char>, b: Seq<char>)
    requires
        lex_lt(a, b),
    ensures
        !lex_lt(b, a),
    decreases a.len(),
{
    if a.len() > 0 && b.len() > 0 && a[0] == b[0] {
        lemma_lex_asymmetric(a.drop_first(), b.drop_first());
    }
}

pub proof fn lemma_lex_transitive(a: Seq<char>, b: Seq<char>, c: Seq<char>)
    requires
        lex_lt(a, b),
        lex_lt(b, c),
    ensures
        lex_lt(a, c),
    decreases a.len(),
{
    if a.len() > 0 && b.len() > 0 && c.len() > 0 && a[0] == b[0] && b[0] == c[0] {
        lemma_lex_transitive(a.drop_first(), b.drop_first(), c.drop_first());
    }
}

pub proof fn lemma_lex_total(a: Seq<char>, b: Seq<char>)
    requires
        a != b,
    ensures
        lex_lt(a, b) || lex_lt(b, a),
    decreases a.len(),
{
    if a.len() > 0 && b.len() > 0 && a[0] == b[0] {
        if a.drop_first() == b.drop_first() {
            assert(a =~= seq![a[0]] + a.drop_first());
            assert(b =~= seq![b[0]] + b.drop_first());
        }
        lemma_lex_total(a.drop_first(), b.drop_first());
    } else if a.len() == 0 && b.len() == 0 {
        assert(a =~= b);
    }
}

/// `a` is a proper prefix of `b`.
pub open spec fn proper_prefix(a: Seq<char>, b: Seq<char>) -> bool {
    a.len() < b.len() && a == b.take(a.len() as int)
}

/// `a` and `b` agree before position `i`, and there `a` has the smaller character.
pub open spec fn first_difference_below(a: Seq<char>, b: Seq<char>, i: int) -> bool {
    0 <= i < a.len() && i < b.len() && a.take(i) == b.take(i) && a[i] < b[i]
}

/// The order of `str`: `a` comes before `b` exactly when `a` is a proper
/// prefix of `b`, or at the first position where they differ `a` has the
/// smaller character.
pub proof fn lemma_lex_lt_is_str_order(a: Seq<char>, b: Seq<char>)
    ensures
        lex_lt(a, b) == (proper_prefix(a, b) || exists|i: int| #[trigger] first_difference_below(a, b, i)),
    decreases a.len(),
{
    if a.len() == 0 {
        assert(b.take(0) =~= a);
        assert(!exists|i: int| #[trigger] first_difference_below(a, b, i));
    } else if b.len() == 0 {
        assert(!exists|i: int| #[trigger] first_difference_below(a, b, i));
    } else if a[0] != b[0] {
        if proper_prefix(a, b) {
            assert(a[0] == b.take(a.len() as int)[0]);
        }
        assert forall|i: int| #[trigger] first_difference_below(a, b, i) implies i == 0 by {
            if i > 0 {
                assert(a.take(i)[0] == a[0]);
                assert(b.take(i)[0] == b[0]);
            }
        }
        if a[0] < b[0] {
            assert(a.take(0) =~= b.take(0));
            assert(first_difference_below(a, b, 0));
        }
    } else {
        let a1 = a.drop_first();
        let b1 = b.drop_first();
        lemma_lex_lt_is_str_order(a1, b1);
        if proper_prefix(a1, b1) {
            assert(a =~= b.take(a.len() as int)) by {
                assert forall|k: int| 0 <= k < a.len() implies a[k] == b.take(a.len() as int)[k] by {
                    if k > 0 {
                        assert(a[k] == a1[k - 1]);
                        assert(b1.take(a1.len() as int)[k - 1] == b[k]);
                    }
                }
            }
        }
        if proper_prefix(a, b) {
            assert(a1 =~= b1.take(a1.len() as int)) by {
                assert forall|k: int| 0 <= k < a1.len() implies a1[k] == b1.take(a1.len() as int)[k] by {
                    assert(a[k + 1] == b.take(a.len() as int)[k + 1]);
                }
            }
        }
        assert forall|i: int| #[trigger] first_difference_below(a1, b1, i) implies first_difference_below(a, b, i + 1) by {
            assert forall|k: int| 0 <= k < i + 1 implies #[trigger] a.take(i + 1)[k] == b.take(i + 1)[k] by {
                if k > 0 {
                    assert(a1.take(i)[k - 1] == b1.take(i)[k - 1]);
                }
            }
            assert(a.take(i + 1) =~= b.take(i + 1));
        }
        assert forall|i: int| #[trigger] first_difference_below(a, b, i) implies i > 0 && first_difference_below(a1, b1, i - 1) by {
            if i == 0 {
                assert(a[0] < b[0]);
            }
            assert forall|k: int| 0 <= k < i - 1 implies #[trigger] a1.take(i - 1)[k] == b1.take(i - 1)[k] by {
                assert(a.take(i)[k + 1] == b.take(i)[k + 1]);
            }
            assert(a1.take(i - 1) =~= b1.take(i - 1));
        }
        if exists|i: int| #[trigger] first_difference_below(a1, b1, i) {
            let i = choose|i: int| #[trigger] first_difference_below(a1, b1, i);
            assert(first_difference_below(a, b, i + 1));
        }
        if exists|i: int| #[trigger] first_difference_below(a, b, i) {
            let i = choose|i: int| #[trigger] first_difference_below(a, b, i);
            assert(first_difference_below(a1, b1, i - 1));
        }
    }
}

/// A proper prefix comes before the longer string, and not after it.
pub proof fn lemma_prefix_comes_first(a: Seq<char>, s: Seq<char>)
    requires
        s.len() > 0,
    ensures
        lex_lt(a, a + s),
        !lex_lt(a + s, a),
{
    assert((a + s).take(a.len() as int) =~= a);
    lemma_lex_lt_is_str_order(a, a + s);
    lemma_lex_asymmetric(a, a + s);
}

/// Whether `a` comes before `b`.
pub fn lex_less(a: &Vec<char>, b: &Vec<char>) -> (r: bool)
    ensures
        r == lex_lt(a@, b@),
{
    let mut i: usize = 0;
    assert(a@.skip(0) =~= a@);
    assert(b@.skip(0) =~= b@);
    loop
        invariant
            i <= a.len(),
            i <= b.len(),
            lex_lt(a@, b@) == lex_lt(a@.skip(i as int), b@.skip(i as int)),
        decreases a.len() - i,
    {
        if i == a.len() {
            return i < b.len();
        }
        if i == b.len() {
            return false;
        }
        let x = a[i];
        let y = b[i];
        assert(a@.skip(i as int)[0] == x);
        assert(b@.skip(i as int)[0] == y);
        if x != y {
            return x < y;
        }
        assert(a@.skip(i as int).drop_first() =~= a@.skip(i + 1));
        assert(b@.skip(i as int).drop_first() =~= b@.skip(i + 1));
        i += 1;
    }
}

/// Whether `a` and `b` hold the same characters.
pub fn chars_equal(a: &Vec<char>, b: &Vec<char>) -> (r: bool)
    ensures
        r == (a@ == b@),
{
    if a.len() != b.len() {
        return false;
    }
    let mut i: usize = 0;
    while i < a.len()
        invariant
            i <= a.len() == b.len(),
            forall|j: int| 0 <= j < i ==> a@[j] == b@[j],
        decreases a.len() - i,
    {
        if a[i] != b[i] {
            return false;
        }
        i += 1;
    }
    assert(a@ =~= b@);
    true
}

/// The characters of each key.
pub open spec fn key_views(keys: Seq<Vec<char>>) -> Seq<Seq<char>> {
    keys.map_values(|k: Vec<char>| k@)
}

// ---------------------------------------------------------------------------
// Stable order of positions by key
// ---------------------------------------------------------------------------

/// Position `x` comes before position `y`: its key is smaller, or the keys
/// are equal and `x` came first.
pub open spec fn before(keys: Seq<Seq<char>>, x: int, y: int) -> bool {
    lex_lt(keys[x], keys[y]) || (keys[x] == keys[y] && x < y)
}

pub proof fn lemma_before_transitive(keys: Seq<Seq<char>>, x: int, y: int, z: int)
    requires
        before(keys, x, y),
        before(keys, y, z),
    ensures
        before(keys, x, z),
{
    if lex_lt(keys[x], keys[y]) && lex_lt(keys[y], keys[z]) {
        lemma_lex_transitive(keys[x], keys[y], keys[z]);
    }
}

pub proof fn lemma_before_total(keys: Seq<Seq<char>>, x: int, y: int)
    requires
        x != y,
    ensures
        before(keys, x, y) || before(keys, y, x),
{
    if keys[x] != keys[y] {
        lemma_lex_total(keys[x], keys[y]);
    }
}

/// `order` lists positions of `lo..hi` in strictly increasing `before` order.
pub open spec fn sorted_positions(keys: Seq<Seq<char>>, order: Seq<usize>, lo: int, hi: int) -> bool {
    &&& forall|i: int| 0 <= i < order.len() ==> lo <= #[trigger] order[i] < hi
    &&& forall|i: int, j: int|
        0 <= i < j < order.len() ==> before(keys, #[trigger] order[i] as int, #[trigger] order[j] as int)
}

fn position_before(keys: &Vec<Vec<char>>, x: usize, y: usize) -> (r: bool)
    requires
        x < keys.len(),
        y < keys.len(),
    ensures
        r == before(key_views(keys@), x as int, y as int),
{
    let ghost ks = key_views(keys@);
    assert(ks[x as int] == keys@[x as int]@);
    assert(ks[y as int] == keys@[y as int]@);
    if lex_less(&keys[x], &keys[y]) {
        true
    } else {
        chars_equal(&keys[x], &keys[y]) && x < y
    }
}

/// The positions `lo..hi`, sorted by key, equal keys in their first order.
fn sort_positions(keys: &Vec<Vec<char>>, lo: usize, hi: usize) -> (r: Vec<usize>)
    requires
        lo <= hi <= keys.len(),
    ensures
        r.len() == hi - lo,
        sorted_positions(key_views(keys@), r@, lo as int, hi as int),
    decreases hi - lo,
{
    let ghost ks = key_views(keys@);
    if hi - lo <= 1 {
        let mut r: Vec<usize> = Vec::new();
        if hi - lo == 1 {
            r.push(lo);
        }
        return r;
    }
    let mid = lo + (hi - lo) / 2;
    let a = sort_positions(keys, lo, mid);
    let b = sort_positions(keys, mid, hi);
    let mut out: Vec<usize> = Vec::new();
    let mut i: usize = 0;
    let mut j: usize = 0;
    while i < a.len() || j < b.len()
        invariant
            ks == key_views(keys@),
            lo < mid < hi <= keys.len(),
            a.len() == mid - lo,
            b.len() == hi - mid,
            sorted_positions(ks, a@, lo as int, mid as int),
            sorted_positions(ks, b@, mid as int, hi as int),
            i <= a.len(),
            j <= b.len(),
            out.len() == i + j,
            sorted_positions(ks, out@, lo as int, hi as int),
            forall|k: int, t: int|
                0 <= k < out.len() && i <= t < a.len() ==> before(ks, #[trigger] out@[k] as int, #[trigger] a@[t] as int),
            forall|k: int, t: int|
                0 <= k < out.len() && j <= t < b.len() ==> before(ks, #[trigger] out@[k] as int, #[trigger] b@[t] as int),
        decreases a.len() + b.len() - i - j,
    {
        let take_a = if i < a.len() && j < b.len() {
            position_before(keys, a[i], b[j])
        } else {
            i < a.len()
        };
        let ghost old_out = out@;
        if take_a {
            let x = a[i];
            proof {
                assert forall|t: int| j <= t < b.len() implies before(ks, x as int, b@[t] as int) by {
                    if t > j {
                        lemma_before_transitive(ks, x as int, b@[j as int] as int, b@[t] as int);
                    }
                }
                assert forall|t: int| i + 1 <= t < a.len() implies before(ks, x as int, a@[t] as int) by {}
            }
            out.push(x);
            i += 1;
        } else {
            let y = b[j];
            proof {
                if i < a.len() {
                    assert(a@[i as int] != y);
                    lemma_before_total(ks, a@[i as int] as int, y as int);
                }
                assert forall|t: int| i <= t < a.len() implies before(ks, y as int, a@[t] as int) by {
                    if t > i {
                        lemma_before_transitive(ks, y as int, a@[i as int] as int, a@[t] as int);
                    }
                }
            }
            out.push(y);
            j += 1;
        }
        proof {
            assert forall|p: int, q: int| 0 <= p < q < out.len() implies before(ks, #[trigger] out@[p] as int, #[trigger] out@[q] as int) by {
                if q < old_out.len() {
                    assert(out@[p] == old_out[p] && out@[q] == old_out[q]);
                } else {
                    assert(out@[p] == old_out[p]);
                }
            }
        }
    }
    out
}

/// A sort of `items` by `keys`: `order` puts every position once, by key,
/// equal keys in their first order, and `out` holds the items in that order.
pub open spec fn stably_sorted_by(out: Seq<Seq<char>>, items: Seq<Seq<char>>, keys: Seq<Seq<char>>, order: Seq<usize>) -> bool {
    &&& order.len() == items.len()
    &&& out.len() == items.len()
    &&& sorted_positions(keys, order, 0, items.len() as int)
    &&& forall|i: int| 0 <= i < out.len() ==> #[trigger] out[i] == items[order[i] as int]
}

/// Sorts `items` by their `keys`, keeping equal keys in their first order.
pub fn sort_by_keys(items: &Vec<String>, keys: &Vec<Vec<char>>) -> (r: Vec<String>)
    requires
        items.len() == keys.len(),
    ensures
        exists|order: Seq<usize>|
            #[trigger] stably_sorted_by(views(r@), views(items@), key_views(keys@), order),
{
    let n = items.len();
    let order = sort_positions(keys, 0, n);
    let mut out: Vec<String> = Vec::new();
    let mut i: usize = 0;
    while i < n
        invariant
            n == items.len() == keys.len(),
            order.len() == n,
            sorted_positions(key_views(keys@), order@, 0, n as int),
            i <= n,
            out.len() == i,
            forall|k: int| 0 <= k < i ==> #[trigger] out@[k]@ == items@[order@[k] as int]@,
        decreases n - i,
    {
        let p = order[i];
        out.push(items[p].clone());
        i += 1;
    }
    proof {
        assert(stably_sorted_by(views(out@), views(items@), key_views(keys@), order@));
    }
    out
}


// ---------------------------------------------------------------------------
// Laws
// ---------------------------------------------------------------------------

/// The positions as integers.
pub open spec fn positions(order: Seq<usize>) -> Seq<int> {
    order.map_values(|x: usize| x as int)
}

/// Position `p` stands somewhere in `order`.
pub open spec fn listed(order: Seq<usize>, p: int) -> bool {
    exists|i: int| 0 <= i < order.len() && order[i] == p
}

/// A sort lists every position exactly once: nothing is lost and nothing is
/// listed twice.
pub proof fn lemma_sort_lists_every_position(keys: Seq<Seq<char>>, order: Seq<usize>, n: int)
    requires
        order.len() == n,
        sorted_positions(keys, order, 0, n),
    ensures
        forall|i: int, j: int| 0 <= i < j < n ==> order[i] != order[j],
        forall|p: int| 0 <= p < n ==> #[trigger] listed(order, p),
{
    let o = positions(order);
    assert forall|i: int, j: int| 0 <= i < j < n implies order[i] != order[j] by {
        assert(before(keys, order[i] as int, order[j] as int));
        if order[i] == order[j] {
            lemma_lex_irreflexive(keys[order[i] as int]);
        }
    }
    assert(o.no_duplicates()) by {
        assert forall|i: int, j: int| 0 <= i < o.len() && 0 <= j < o.len() && i != j implies o[i] != o[j] by {
            if i < j {
                assert(order[i] != order[j]);
            } else {
                assert(order[j] != order[i]);
            }
        }
    }
    o.unique_seq_to_set();
    vstd::set_lib::lemma_int_range(0, n);
    let range = vstd::set_lib::set_int_range(0, n);
    assert(o.to_set().subset_of(range)) by {
        assert forall|p: int| o.to_set().contains(p) implies range.contains(p) by {
            let i = choose|i: int| 0 <= i < o.len() && o[i] == p;
            assert(0 <= order[i] < n);
        }
    }
    vstd::seq_lib::seq_to_set_is_finite(o);
    vstd::set_lib::lemma_subset_equality(o.to_set(), range);
    assert forall|p: int| 0 <= p < n implies #[trigger] listed(order, p) by {
        assert(range.contains(p));
        assert(o.to_set().contains(p));
        let i = choose|i: int| 0 <= i < o.len() && o[i] == p;
        assert(order[i] == p);
    }
}

} // verus!
