//! The order in which `ls` lists names: `.` first, `..` second, then the
//! other names by their lowercased text without leading dots; names that
//! compare equal keep the order in which they came.

use vstd::prelude::*;
use crate::text::{
    all_ascii, ascii_lower, chars_of, is_ascii_upper, lower_chars, lower_text,
};

verus! {

/// `s` without its leading dots (`trim_start_matches('.')`).
pub open spec fn trim_dots(s: Seq<char>) -> Seq<char>
    decreases s.len(),
{
    if s.len() > 0 && s[0] == '.' {
        trim_dots(s.drop_first())
    } else {
        s
    }
}

/// `.` comes first, `..` second, every other name after them.
pub open spec fn name_rank(s: Seq<char>) -> int {
    if s == seq!['.'] {
        0
    } else if s == seq!['.', '.'] {
        1
    } else {
        2
    }
}

/// The text by which names other than `.` and `..` are ordered: the name
/// without its leading dots, in lowercase (`to_lowercase`).
pub open spec fn sort_key(s: Seq<char>) -> Seq<char> {
    lower_text(trim_dots(s))
}

/// Lexicographic order of character sequences by code point, which is the
/// order of `String`'s `Ord` (UTF-8 preserves the code point order).
pub open spec fn chars_lt(a: Seq<char>, b: Seq<char>) -> bool
    decreases a.len(),
{
    if a.len() == 0 {
        b.len() > 0
    } else if b.len() == 0 {
        false
    } else if a[0] != b[0] {
        a[0] < b[0]
    } else {
        chars_lt(a.drop_first(), b.drop_first())
    }
}

/// Whether the name at position `i` of `names` is listed before the one at
/// position `j`: by rank, then by sort key, then by position.
pub open spec fn listed_before(names: Seq<Seq<char>>, i: int, j: int) -> bool {
    let a = names[i];
    let b = names[j];
    if name_rank(a) != name_rank(b) {
        name_rank(a) < name_rank(b)
    } else if name_rank(a) == 2 && sort_key(a) != sort_key(b) {
        chars_lt(sort_key(a), sort_key(b))
    } else {
        i < j
    }
}

/// `order` lists every position of `names` once, in listing order.
pub open spec fn is_listing_order(names: Seq<Seq<char>>, order: Seq<int>) -> bool {
    &&& order.len() == names.len()
    &&& forall|k: int| 0 <= k < order.len() ==> 0 <= #[trigger] order[k] < names.len()
    &&& forall|j: int| 0 <= j < names.len() ==> #[trigger] occurs_in(order, j)
    &&& forall|k: int, l: int| 0 <= k < l < order.len() ==> listed_before(names, #[trigger] order[k], #[trigger] order[l])
}

/// Whether `x` is an element of `s`.
pub open spec fn occurs_in<T>(s: Seq<T>, x: T) -> bool {
    exists|k: int| 0 <= k < s.len() && s[k] == x
}

/// The listing order of `names` (see [`is_listing_order`]; there is exactly
/// one, by [`lemma_listing_order_unique`]).
pub open spec fn listing_permutation(names: Seq<Seq<char>>) -> Seq<int> {
    choose|order: Seq<int>| is_listing_order(names, order)
}

/// The names in listing order.
pub open spec fn in_listing_order(names: Seq<Seq<char>>) -> Seq<Seq<char>> {
    listing_permutation(names).map_values(|k: int| names[k])
}

/// An order that lists every position once in listing order is the
/// listing order.
pub proof fn lemma_is_the_listing_order(names: Seq<Seq<char>>, order: Seq<int>)
    requires
        is_listing_order(names, order),
    ensures
        listing_permutation(names) == order,
{
    let o = listing_permutation(names);
    lemma_listing_order_unique(names, o, order);
}

pub proof fn lemma_chars_lt_irreflexive(a: Seq<char>)
    ensures
        !chars_lt(a, a),
    decreases a.len(),
{
    if a.len() > 0 {
        lemma_chars_lt_irreflexive(a.drop_first());
    }
}

pub proof fn lemma_chars_lt_asymmetric(a: Seq<char>, b: Seq<char>)
    ensures
        !(chars_lt(a, b) && chars_lt(b, a)),
    decreases a.len(),
{
    if a.len() > 0 && b.len() > 0 && a[0] == b[0] {
        lemma_chars_lt_asymmetric(a.drop_first(), b.drop_first());
    }
}

pub proof fn lemma_chars_lt_transitive(a: Seq<char>, b: Seq<char>, c: Seq<char>)
    requires
        chars_lt(a, b),
        chars_lt(b, c),
    ensures
        chars_lt(a, c),
    decreases a.len(),
{
    if a.len() > 0 && b.len() > 0 && c.len() > 0 && a[0] == b[0] && b[0] == c[0] {
        lemma_chars_lt_transitive(a.drop_first(), b.drop_first(), c.drop_first());
    }
}

pub proof fn lemma_chars_lt_total(a: Seq<char>, b: Seq<char>)
    requires
        a != b,
    ensures
        chars_lt(a, b) || chars_lt(b, a),
    decreases a.len(),
{
    if a.len() > 0 && b.len() > 0 && a[0] == b[0] {
        if a.drop_first() == b.drop_first() {
            assert(a =~= seq![a[0]] + a.drop_first());
            assert(b =~= seq![b[0]] + b.drop_first());
        }
        lemma_chars_lt_total(a.drop_first(), b.drop_first());
    } else if a.len() == 0 && b.len() == 0 {
        assert(a =~= b);
    }
}

pub proof fn lemma_listed_before_strict(names: Seq<Seq<char>>, i: int, j: int, k: int)
    ensures
        !listed_before(names, i, i),
        !(listed_before(names, i, j) && listed_before(names, j, i)),
        i != j ==> listed_before(names, i, j) || listed_before(names, j, i),
        listed_before(names, i, j) && listed_before(names, j, k) ==> listed_before(names, i, k),
{
    lemma_chars_lt_asymmetric(sort_key(names[i]), sort_key(names[j]));
    if i != j {
        if sort_key(names[i]) != sort_key(names[j]) {
            lemma_chars_lt_total(sort_key(names[i]), sort_key(names[j]));
        }
    }
    if listed_before(names, i, j) && listed_before(names, j, k) {
        let (a, b, c) = (sort_key(names[i]), sort_key(names[j]), sort_key(names[k]));
        if name_rank(names[i]) == 2 && name_rank(names[j]) == 2 && name_rank(names[k]) == 2 {
            if a != b && b != c {
                lemma_chars_lt_transitive(a, b, c);
                if a == c {
                    lemma_chars_lt_asymmetric(a, b);
                }
            } else if a != b && b == c {
            } else if a == b && b != c {
            }
        }
    }
}

/// There is one listing order only: two orders that both list every
/// position once in listing order are the same.
pub proof fn lemma_listing_order_unique(names: Seq<Seq<char>>, o1: Seq<int>, o2: Seq<int>)
    requires
        is_listing_order(names, o1),
        is_listing_order(names, o2),
    ensures
        o1 == o2,
{
    assert forall|p: int| 0 <= p < o1.len() implies o1[p] == o2[p] by {
        lemma_listing_order_agree_at(names, o1, o2, p);
    }
    assert(o1 =~= o2);
}

proof fn lemma_listing_order_agree_at(names: Seq<Seq<char>>, o1: Seq<int>, o2: Seq<int>, p: int)
    requires
        is_listing_order(names, o1),
        is_listing_order(names, o2),
        0 <= p < o1.len(),
    ensures
        o1[p] == o2[p],
    decreases p,
{
    if o1[p] != o2[p] {
        assert forall|q: int| 0 <= q < p implies o1[q] == o2[q] by {
            lemma_listing_order_agree_at(names, o1, o2, q);
        }
        let x = o1[p];
        let y = o2[p];
        assert(occurs_in(o2, x));
        assert(occurs_in(o1, y));
        let q = choose|q: int| 0 <= q < o2.len() && o2[q] == x;
        let r = choose|r: int| 0 <= r < o1.len() && o1[r] == y;
        lemma_listed_before_strict(names, x, y, x);
        if q < p {
            assert(o1[q] == x);
            assert(listed_before(names, o1[q], o1[p]));
        } else if r < p {
            assert(o2[r] == y);
            assert(listed_before(names, o2[r], o2[p]));
        } else {
            assert(listed_before(names, o2[p], o2[q]));
            assert(listed_before(names, o1[p], o1[r]));
        }
    }
}

/// Positions of `names` in listing order (see [`is_listing_order`]).
pub fn listing_order(names: &Vec<String>) -> (order: Vec<usize>)
    ensures
        is_listing_order(
            names@.map_values(|s: String| s@),
            order@.map_values(|k: usize| k as int),
        ),
{
    let ghost views = names@.map_values(|s: String| s@);
    let n = names.len();
    let mut ranks: Vec<u8> = Vec::new();
    let mut keys: Vec<Vec<char>> = Vec::new();
    let mut i: usize = 0;
    while i < n
        invariant
            n == names.len(),
            views == names@.map_values(|s: String| s@),
            i <= n,
            ranks.len() == i,
            keys.len() == i,
            forall|k: int| 0 <= k < i ==> ranks@[k] as int == name_rank(#[trigger] views[k]),
            forall|k: int| 0 <= k < i ==> (#[trigger] keys@[k])@ == sort_key(views[k]),
        decreases n - i,
    {
        let c = chars_of(names[i].as_str());
        let rank: u8 = if c.len() == 1 && c[0] == '.' {
            0
        } else if c.len() == 2 && c[0] == '.' && c[1] == '.' {
            1
        } else {
            2
        };
        proof {
            if c.len() == 1 && c[0] == '.' {
                assert(c@ =~= seq!['.']);
            } else if c.len() == 2 && c[0] == '.' && c[1] == '.' {
                assert(c@ =~= seq!['.', '.']);
            }
        }
        ranks.push(rank);
        let t = trim_leading_dots(&c);
        keys.push(lower_chars(&t));
        i = i + 1;
    }
    let mut order: Vec<usize> = Vec::new();
    let mut i: usize = 0;
    while i < n
        invariant
            n == names.len(),
            views == names@.map_values(|s: String| s@),
            views.len() == n,
            i <= n,
            ranks.len() == n,
            keys.len() == n,
            forall|k: int| 0 <= k < n ==> ranks@[k] as int == name_rank(#[trigger] views[k]),
            forall|k: int| 0 <= k < n ==> (#[trigger] keys@[k])@ == sort_key(views[k]),
            order.len() == i,
            forall|k: int| 0 <= k < order.len() ==> #[trigger] order@[k] < i,
            forall|j: usize| 0 <= j < i ==> #[trigger] occurs_in(order@, j),
            forall|k: int, l: int|
                0 <= k < l < order.len() ==> listed_before(views, #[trigger] order@[k] as int, #[trigger] order@[l] as int),
        decreases n - i,
    {
        let mut p: usize = order.len();
        while p > 0 && before(&ranks, &keys, i, order[p - 1])
            invariant
                n == names.len(),
                views.len() == n,
                i < n,
                ranks.len() == n,
                keys.len() == n,
                forall|k: int| 0 <= k < n ==> ranks@[k] as int == name_rank(#[trigger] views[k]),
                forall|k: int| 0 <= k < n ==> (#[trigger] keys@[k])@ == sort_key(views[k]),
                p <= order.len(),
                forall|k: int| 0 <= k < order.len() ==> #[trigger] order@[k] < i,
                forall|k: int| p <= k < order.len() ==> listed_before(views, i as int, #[trigger] order@[k] as int),
            decreases p,
        {
            p = p - 1;
        }
        let ghost old_order = order@;
        proof {
            if p > 0 {
                let last = old_order[p - 1] as int;
                lemma_listed_before_strict(views, i as int, last, i as int);
                assert(listed_before(views, last, i as int));
                assert forall|k: int| 0 <= k < p implies listed_before(views, #[trigger] old_order[k] as int, i as int) by {
                    if k < p - 1 {
                        lemma_listed_before_strict(views, old_order[k] as int, last, i as int);
                    }
                }
            }
        }
        order.insert(p, i);
        proof {
            assert forall|k: int, l: int|
                0 <= k < l < order.len() implies listed_before(views, #[trigger] order@[k] as int, #[trigger] order@[l] as int) by {
                if k < p && l < p {
                    assert(order@[k] == old_order[k] && order@[l] == old_order[l]);
                } else if k < p && l == p {
                    assert(order@[k] == old_order[k]);
                } else if k < p && l > p {
                    assert(order@[k] == old_order[k] && order@[l] == old_order[l - 1]);
                } else if k == p {
                    assert(order@[l] == old_order[l - 1]);
                } else {
                    assert(order@[k] == old_order[k - 1] && order@[l] == old_order[l - 1]);
                }
            }
            assert forall|j: usize| 0 <= j < i + 1 implies #[trigger] occurs_in(order@, j) by {
                if j == i {
                    assert(order@[p as int] == j);
                } else {
                    assert(occurs_in(old_order, j));
                    let k = choose|k: int| 0 <= k < old_order.len() && old_order[k] == j;
                    if k < p {
                        assert(order@[k] == j);
                    } else {
                        assert(order@[k + 1] == j);
                    }
                }
            }
            assert forall|k: int| 0 <= k < order.len() implies #[trigger] order@[k] < i + 1 by {
                if k < p {
                    assert(order@[k] == old_order[k]);
                } else if k > p {
                    assert(order@[k] == old_order[k - 1]);
                }
            }
        }
        i = i + 1;
    }
    proof {
        let o = order@.map_values(|k: usize| k as int);
        assert forall|j: int| 0 <= j < views.len() implies #[trigger] occurs_in(o, j) by {
            assert(occurs_in(order@, j as usize));
            let k = choose|k: int| 0 <= k < order.len() && order@[k] == j as usize;
            assert(o[k] == j);
        }
        assert forall|k: int, l: int| 0 <= k < l < o.len() implies listed_before(views, #[trigger] o[k], #[trigger] o[l]) by {
            assert(listed_before(views, order@[k] as int, order@[l] as int));
        }
    }
    order
}

fn trim_leading_dots(c: &Vec<char>) -> (r: Vec<char>)
    ensures
        r@ == trim_dots(c@),
{
    let mut k: usize = 0;
    assert(c@.skip(0) =~= c@);
    while k < c.len() && c[k] == '.'
        invariant
            k <= c.len(),
            trim_dots(c@) == trim_dots(c@.skip(k as int)),
        decreases c.len() - k,
    {
        assert(c@.skip(k as int).drop_first() =~= c@.skip(k + 1));
        k = k + 1;
    }
    assert(trim_dots(c@.skip(k as int)) == c@.skip(k as int)) by {
        if k < c.len() {
            assert(c@.skip(k as int)[0] == c@[k as int]);
        }
    }
    crate::text::chars_from(c, k)
}

fn chars_less(a: &Vec<char>, b: &Vec<char>) -> (r: bool)
    ensures
        r == chars_lt(a@, b@),
{
    let mut i: usize = 0;
    assert(a@.skip(0) =~= a@);
    assert(b@.skip(0) =~= b@);
    while i < a.len() && i < b.len() && a[i] == b[i]
        invariant
            i <= a.len(),
            i <= b.len(),
            chars_lt(a@, b@) == chars_lt(a@.skip(i as int), b@.skip(i as int)),
        decreases a.len() - i,
    {
        assert(a@.skip(i as int).drop_first() =~= a@.skip(i + 1));
        assert(b@.skip(i as int).drop_first() =~= b@.skip(i + 1));
        i = i + 1;
    }
    if i == a.len() {
        i < b.len()
    } else if i == b.len() {
        false
    } else {
        assert(a@.skip(i as int)[0] == a@[i as int]);
        assert(b@.skip(i as int)[0] == b@[i as int]);
        a[i] < b[i]
    }
}

fn before(ranks: &Vec<u8>, keys: &Vec<Vec<char>>, i: usize, j: usize) -> (r: bool)
    requires
        i < ranks.len(),
        j < ranks.len(),
        ranks.len() == keys.len(),
    ensures
        r == (if ranks@[i as int] != ranks@[j as int] {
            ranks@[i as int] < ranks@[j as int]
        } else if ranks@[i as int] == 2 && keys@[i as int]@ != keys@[j as int]@ {
            chars_lt(keys@[i as int]@, keys@[j as int]@)
        } else {
            i < j
        }),
{
    if ranks[i] != ranks[j] {
        ranks[i] < ranks[j]
    } else if ranks[i] == 2 && !crate::text::same_chars(&keys[i], &keys[j]) {
        chars_less(&keys[i], &keys[j])
    } else {
        i < j
    }
}

} // verus!

verus! {

/// The listing order puts `.` first and `..` second, and orders the other
/// names by their sort keys: along the order, ranks never decrease, and
/// among names other than `.` and `..` the sort keys never decrease.
pub proof fn lemma_listing_order_sorted(names: Seq<Seq<char>>, order: Seq<int>, k: int, l: int)
    requires
        is_listing_order(names, order),
        0 <= k < l < order.len(),
    ensures
        name_rank(names[order[k]]) <= name_rank(names[order[l]]),
        name_rank(names[order[k]]) == 2 && name_rank(names[order[l]]) == 2 ==> !chars_lt(
            sort_key(names[order[l]]),
            sort_key(names[order[k]]),
        ),
{
    assert(listed_before(names, order[k], order[l]));
    lemma_chars_lt_asymmetric(sort_key(names[order[k]]), sort_key(names[order[l]]));
    lemma_chars_lt_irreflexive(sort_key(names[order[k]]));
}

/// Names with equal sort keys keep the order in which they came.
pub proof fn lemma_listing_order_stable(names: Seq<Seq<char>>, order: Seq<int>, k: int, l: int)
    requires
        is_listing_order(names, order),
        0 <= k < l < order.len(),
        name_rank(names[order[k]]) == name_rank(names[order[l]]),
        name_rank(names[order[k]]) < 2 || sort_key(names[order[k]]) == sort_key(names[order[l]]),
    ensures
        order[k] < order[l],
{
    assert(listed_before(names, order[k], order[l]));
}

} // verus!

verus! {

/// An ASCII name whose text (without leading dots) has no capital letter
/// is ordered by that text itself: lowercasing leaves it as it is.
pub proof fn lemma_sort_key_of_small_ascii(s: Seq<char>)
    requires
        all_ascii(trim_dots(s)),
        forall|i: int| 0 <= i < trim_dots(s).len() ==> !is_ascii_upper(#[trigger] trim_dots(s)[i]),
    ensures
        sort_key(s) == trim_dots(s),
{
    let t = trim_dots(s);
    assert(t.map_values(|c: char| ascii_lower(c)) =~= t);
}

/// In ASCII text, capital and small letters are ordered alike: the key
/// of each character of the text is that character with capital letters
/// made small, so `_` (and every other character between `Z` and `a`)
/// comes before every letter, whichever its case.
pub proof fn lemma_underscore_before_letters(a: Seq<char>, b: Seq<char>)
    requires
        all_ascii(trim_dots(a)),
        all_ascii(trim_dots(b)),
        trim_dots(a).len() > 0,
        trim_dots(b).len() > 0,
        trim_dots(a)[0] == '_',
        ('a' <= trim_dots(b)[0] <= 'z') || ('A' <= trim_dots(b)[0] <= 'Z'),
    ensures
        chars_lt(sort_key(a), sort_key(b)),
        name_rank(a) == 2 && name_rank(b) == 2 ==> forall|names: Seq<Seq<char>>, i: int, j: int|
            0 <= i < names.len() && 0 <= j < names.len() && names[i] == a && names[j] == b
                ==> #[trigger] listed_before(names, i, j),
{
    let ka = sort_key(a);
    let kb = sort_key(b);
    assert(ka[0] == '_');
    assert('a' <= kb[0] <= 'z');
    assert(ka.len() > 0 && kb.len() > 0);
}

} // verus!
