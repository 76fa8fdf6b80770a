//! The order in which a directory's entries are listed: by name, byte by
//! byte, hidden names left out, equal names in the order they were given.

use vstd::prelude::*;

verus! {

/// Lexicographic order on byte strings: the first differing byte decides, and
/// a string comes before every longer string that it begins.
pub open spec fn bytes_le(a: Seq<u8>, b: Seq<u8>) -> bool
    decreases a.len(),
{
    if a.len() == 0 {
        true
    } else if b.len() == 0 {
        false
    } else if a[0] != b[0] {
        a[0] < b[0]
    } else {
        bytes_le(a.drop_first(), b.drop_first())
    }
}

/// Every byte string is at most itself.
pub proof fn lemma_bytes_le_reflexive(a: Seq<u8>)
    ensures
        bytes_le(a, a),
    decreases a.len(),
{
    if a.len() > 0 {
        lemma_bytes_le_reflexive(a.drop_first());
    }
}

/// Any two byte strings are comparable.
pub proof fn lemma_bytes_le_total(a: Seq<u8>, b: Seq<u8>)
    ensures
        bytes_le(a, b) || bytes_le(b, a),
    decreases a.len(),
{
    if a.len() > 0 && b.len() > 0 && a[0] == b[0] {
        lemma_bytes_le_total(a.drop_first(), b.drop_first());
    }
}

/// The order is transitive.
pub proof fn lemma_bytes_le_transitive(a: Seq<u8>, b: Seq<u8>, c: Seq<u8>)
    requires
        bytes_le(a, b),
        bytes_le(b, c),
    ensures
        bytes_le(a, c),
    decreases a.len(),
{
    if a.len() > 0 && b.len() > 0 && c.len() > 0 && a[0] == b[0] && b[0] == c[0] {
        lemma_bytes_le_transitive(a.drop_first(), b.drop_first(), c.drop_first());
    }
}

/// Two byte strings that are each at most the other are the same string.
pub proof fn lemma_bytes_le_antisymmetric(a: Seq<u8>, b: Seq<u8>)
    requires
        bytes_le(a, b),
        bytes_le(b, a),
    ensures
        a == b,
    decreases a.len(),
{
    if a.len() == 0 || b.len() == 0 {
        assert(a =~= b);
    } else {
        lemma_bytes_le_antisymmetric(a.drop_first(), b.drop_first());
        assert(a =~= seq![a[0]] + a.drop_first());
        assert(b =~= seq![b[0]] + b.drop_first());
    }
}

/// Skipping a common prefix does not change how two byte strings compare.
proof fn lemma_bytes_le_skip(a: Seq<u8>, b: Seq<u8>, n: int)
    requires
        0 <= n <= a.len(),
        n <= b.len(),
        a.take(n) == b.take(n),
    ensures
        bytes_le(a, b) == bytes_le(a.skip(n), b.skip(n)),
    decreases n,
{
    if n == 0 {
        assert(a.skip(0) =~= a);
        assert(b.skip(0) =~= b);
    } else {
        assert(a[0] == a.take(n)[0]);
        assert(b[0] == b.take(n)[0]);
        assert(a.drop_first().take(n - 1) =~= a.take(n).drop_first());
        assert(b.drop_first().take(n - 1) =~= b.take(n).drop_first());
        lemma_bytes_le_skip(a.drop_first(), b.drop_first(), n - 1);
        assert(a.drop_first().skip(n - 1) =~= a.skip(n));
        assert(b.drop_first().skip(n - 1) =~= b.skip(n));
    }
}

/// Whether `a` sorts at or before `b`.
pub fn at_most(a: &[u8], b: &[u8]) -> (le: bool)
    ensures
        le == bytes_le(a@, b@),
{
    let mut i: usize = 0;
    while i < a.len() && i < b.len()
        invariant
            i <= a.len(),
            i <= b.len(),
            a@.take(i as int) == b@.take(i as int),
        decreases a.len() - i,
    {
        if a[i] != b[i] {
            proof {
                lemma_bytes_le_skip(a@, b@, i as int);
            }
            return a[i] < b[i];
        }
        assert(a@.take(i + 1) =~= a@.take(i as int).push(a@[i as int]));
        assert(b@.take(i + 1) =~= b@.take(i as int).push(b@[i as int]));
        i = i + 1;
    }
    proof {
        lemma_bytes_le_skip(a@, b@, i as int);
    }
    i == a.len()
}

/// A name is hidden when it begins with a dot.
pub open spec fn is_hidden(name: Seq<char>) -> bool {
    name.len() > 0 && name[0] == '.'
}

/// The bytes by which a name is ordered: its UTF-8 encoding.
pub open spec fn sort_key(name: Seq<char>) -> Seq<u8> {
    vstd::utf8::encode_utf8(name)
}

/// Whether entry `i` is listed before entry `j`: its name sorts first, or the
/// names are the same and `i` was given first.
pub open spec fn listed_before(names: Seq<Seq<char>>, i: int, j: int) -> bool {
    &&& bytes_le(sort_key(names[i]), sort_key(names[j]))
    &&& bytes_le(sort_key(names[j]), sort_key(names[i])) ==> i < j
}

/// How many of the entries in `order` do not sort after `key`.
pub open spec fn rank(names: Seq<Seq<char>>, order: Seq<usize>, key: Seq<u8>) -> nat
    decreases order.len(),
{
    if order.len() == 0 {
        0
    } else {
        rank(names, order.drop_last(), key) + if bytes_le(
            sort_key(names[order.last() as int]),
            key,
        ) {
            1nat
        } else {
            0nat
        }
    }
}

/// The listing order of the first `n` entries: the indices of those that are
/// not hidden, each placed behind every entry that does not sort after it.
pub open spec fn order_of_prefix(names: Seq<Seq<char>>, n: nat) -> Seq<usize>
    recommends
        n <= names.len(),
    decreases n,
{
    if n == 0 {
        Seq::empty()
    } else {
        let before = order_of_prefix(names, (n - 1) as nat);
        let last = (n - 1) as int;
        if is_hidden(names[last]) {
            before
        } else {
            before.insert(rank(names, before, sort_key(names[last])) as int, last as usize)
        }
    }
}

/// The listing order of a directory: the indices of the entries to show, in
/// the order in which to show them.
pub open spec fn display_order(names: Seq<Seq<char>>) -> Seq<usize> {
    order_of_prefix(names, names.len())
}

/// What makes `order` the listing order of the first `n` entries: it holds
/// only entries that are shown, it holds each of them, and each entry in it
/// is listed before all that follow.
pub open spec fn is_listing_order(names: Seq<Seq<char>>, n: nat, order: Seq<usize>) -> bool {
    &&& forall|k: int|
        0 <= k < order.len() ==> (#[trigger] order[k]) < n && !is_hidden(names[order[k] as int])
    &&& forall|i: int|
        0 <= i < n && !is_hidden(#[trigger] names[i]) ==> exists|k: int|
            0 <= k < order.len() && #[trigger] order[k] == i
    &&& forall|a: int, b: int|
        0 <= a < b < order.len() ==> listed_before(
            names,
            #[trigger] order[a] as int,
            #[trigger] order[b] as int,
        )
}

/// Where `order` is sorted, the entries that do not sort after `key` are
/// exactly its first `rank` entries.
proof fn lemma_rank_splits(names: Seq<Seq<char>>, order: Seq<usize>, key: Seq<u8>)
    requires
        forall|a: int, b: int|
            0 <= a < b < order.len() ==> bytes_le(
                sort_key(names[#[trigger] order[a] as int]),
                sort_key(names[#[trigger] order[b] as int]),
            ),
    ensures
        rank(names, order, key) <= order.len(),
        forall|k: int|
            0 <= k < rank(names, order, key) ==> bytes_le(
                sort_key(names[#[trigger] order[k] as int]),
                key,
            ),
        forall|k: int|
            rank(names, order, key) <= k < order.len() ==> !bytes_le(
                sort_key(names[#[trigger] order[k] as int]),
                key,
            ),
    decreases order.len(),
{
    if order.len() > 0 {
        let front = order.drop_last();
        let top = order.len() - 1;
        assert forall|a: int, b: int| 0 <= a < b < front.len() implies bytes_le(
            sort_key(names[#[trigger] front[a] as int]),
            sort_key(names[#[trigger] front[b] as int]),
        ) by {
            assert(front[a] == order[a] && front[b] == order[b]);
        }
        lemma_rank_splits(names, front, key);
        let r = rank(names, front, key);
        assert forall|k: int| 0 <= k < front.len() implies front[k] == order[k] by {}
        if bytes_le(sort_key(names[order[top] as int]), key) {
            if r < front.len() {
                assert(!bytes_le(sort_key(names[front[r as int] as int]), key));
                assert(front[r as int] == order[r as int]);
                lemma_bytes_le_transitive(
                    sort_key(names[order[r as int] as int]),
                    sort_key(names[order[top] as int]),
                    key,
                );
            }
            assert(r == front.len());
        }
    }
}

/// The listing order of the first `n` entries is what `is_listing_order`
/// describes.
pub proof fn lemma_order_of_prefix(names: Seq<Seq<char>>, n: nat)
    requires
        n <= names.len() <= usize::MAX,
    ensures
        is_listing_order(names, n, order_of_prefix(names, n)),
    decreases n,
{
    if n > 0 {
        let before = order_of_prefix(names, (n - 1) as nat);
        let last = (n - 1) as int;
        lemma_order_of_prefix(names, (n - 1) as nat);
        let order = order_of_prefix(names, n);
        if is_hidden(names[last]) {
            assert(order == before);
        } else {
            let key = sort_key(names[last]);
            let r = rank(names, before, key) as int;
            lemma_rank_splits(names, before, key);
            assert(order == before.insert(r, last as usize));
            assert forall|k: int| 0 <= k < order.len() implies (#[trigger] order[k]) < n
                && !is_hidden(names[order[k] as int]) by {
                if k < r {
                    assert(order[k] == before[k]);
                } else if k > r {
                    assert(order[k] == before[k - 1]);
                }
            }
            assert forall|i: int| 0 <= i < n && !is_hidden(#[trigger] names[i]) implies exists|
                k: int,
            |
                0 <= k < order.len() && #[trigger] order[k] == i by {
                if i == last {
                    assert(order[r] == i);
                } else {
                    let k0 = choose|k: int| 0 <= k < before.len() && #[trigger] before[k] == i;
                    if k0 < r {
                        assert(order[k0] == i);
                    } else {
                        assert(order[k0 + 1] == i);
                    }
                }
            }
            assert forall|a: int, b: int| 0 <= a < b < order.len() implies listed_before(
                names,
                #[trigger] order[a] as int,
                #[trigger] order[b] as int,
            ) by {
                let ia = if a < r {
                    a
                } else {
                    a - 1
                };
                let ib = if b < r {
                    b
                } else {
                    b - 1
                };
                if a == r {
                    assert(order[b] == before[ib]);
                    assert(!bytes_le(sort_key(names[before[ib] as int]), key));
                    lemma_bytes_le_total(sort_key(names[before[ib] as int]), key);
                } else if b == r {
                    assert(order[a] == before[ia]);
                    assert(bytes_le(sort_key(names[before[ia] as int]), key));
                    assert(before[ia] < last);
                } else {
                    assert(order[a] == before[ia]);
                    assert(order[b] == before[ib]);
                }
            }
        }
    }
}

/// The listing order holds each shown entry once, none that is hidden, and
/// is sorted by name with equal names in the order given.
pub proof fn lemma_display_order(names: Seq<Seq<char>>)
    requires
        names.len() <= usize::MAX,
    ensures
        is_listing_order(names, names.len(), display_order(names)),
{
    lemma_order_of_prefix(names, names.len());
}

/// Where `order` splits at `pos` into the entries that do not sort after
/// `key` and those that do, `pos` is the rank of `key`.
pub(crate) proof fn lemma_rank_at_split(names: Seq<Seq<char>>, order: Seq<usize>, key: Seq<u8>, pos: int)
    requires
        0 <= pos <= order.len(),
        forall|k: int|
            0 <= k < pos ==> bytes_le(sort_key(names[#[trigger] order[k] as int]), key),
        forall|k: int|
            pos <= k < order.len() ==> !bytes_le(sort_key(names[#[trigger] order[k] as int]), key),
    ensures
        rank(names, order, key) == pos,
    decreases order.len(),
{
    if order.len() > 0 {
        let front = order.drop_last();
        assert forall|k: int| 0 <= k < front.len() implies front[k] == order[k] by {}
        if pos == order.len() {
            lemma_rank_at_split(names, front, key, pos - 1);
        } else {
            lemma_rank_at_split(names, front, key, pos);
        }
    }
}

/// Two listing orders of the same entries agree on their first `k`
/// positions.
proof fn lemma_same_start(
    names: Seq<Seq<char>>,
    n: nat,
    a: Seq<usize>,
    b: Seq<usize>,
    k: int,
)
    requires
        is_listing_order(names, n, a),
        is_listing_order(names, n, b),
        0 <= k <= a.len(),
        k <= b.len(),
    ensures
        forall|j: int| 0 <= j < k ==> a[j] == b[j],
    decreases k,
{
    if k > 0 {
        lemma_same_start(names, n, a, b, k - 1);
        let x = a[k - 1];
        let y = b[k - 1];
        assert(!is_hidden(names[x as int]));
        assert(!is_hidden(names[y as int]));
        let p = choose|p: int| 0 <= p < b.len() && #[trigger] b[p] == x as int;
        let q = choose|q: int| 0 <= q < a.len() && #[trigger] a[q] == y as int;
        if p < k - 1 {
            assert(a[p] == b[p]);
            assert(listed_before(names, a[p] as int, a[k - 1] as int));
        }
        if q < k - 1 {
            assert(a[q] == b[q]);
            assert(listed_before(names, b[q] as int, b[k - 1] as int));
        }
        if p > k - 1 {
            assert(listed_before(names, b[k - 1] as int, b[p] as int));
        }
        if q > k - 1 {
            assert(listed_before(names, a[k - 1] as int, a[q] as int));
        }
    }
}

/// Every entry of one listing order stands in every other listing order of
/// the same entries, so neither is the longer one.
proof fn lemma_same_length(names: Seq<Seq<char>>, n: nat, a: Seq<usize>, b: Seq<usize>)
    requires
        is_listing_order(names, n, a),
        is_listing_order(names, n, b),
    ensures
        a.len() <= b.len(),
{
    if a.len() > b.len() {
        lemma_same_start(names, n, a, b, b.len() as int);
        let x = a[b.len() as int];
        assert(!is_hidden(names[x as int]));
        let p = choose|p: int| 0 <= p < b.len() && #[trigger] b[p] == x as int;
        assert(a[p] == b[p]);
        assert(listed_before(names, a[p] as int, a[b.len() as int] as int));
    }
}

/// The entries and the rule of listing leave no choice: there is one listing
/// order and no other.
pub proof fn lemma_listing_order_is_unique(
    names: Seq<Seq<char>>,
    n: nat,
    a: Seq<usize>,
    b: Seq<usize>,
)
    requires
        is_listing_order(names, n, a),
        is_listing_order(names, n, b),
    ensures
        a == b,
{
    lemma_same_length(names, n, a, b);
    lemma_same_length(names, n, b, a);
    lemma_same_start(names, n, a, b, a.len() as int);
    assert(a =~= b);
}

/// The rank of a key among listed entries reads no names but theirs.
proof fn lemma_rank_reads_listed_names(
    a: Seq<Seq<char>>,
    b: Seq<Seq<char>>,
    order: Seq<usize>,
    key: Seq<u8>,
)
    requires
        forall|k: int| 0 <= k < order.len() ==> a[#[trigger] order[k] as int] == b[order[k] as int],
    ensures
        rank(a, order, key) == rank(b, order, key),
    decreases order.len(),
{
    if order.len() > 0 {
        let front = order.drop_last();
        assert forall|k: int| 0 <= k < front.len() implies a[#[trigger] front[k] as int]
            == b[front[k] as int] by {
            assert(front[k] == order[k]);
        }
        lemma_rank_reads_listed_names(a, b, front, key);
        assert(a[order[order.len() - 1] as int] == b[order[order.len() - 1] as int]);
    }
}

/// The listing order of the first `n` entries reads no names but theirs:
/// what follows them in the directory does not move them.
pub proof fn lemma_order_reads_prefix(a: Seq<Seq<char>>, b: Seq<Seq<char>>, n: nat)
    requires
        n <= a.len() <= usize::MAX,
        n <= b.len(),
        forall|i: int| 0 <= i < n ==> a[i] == b[i],
    ensures
        order_of_prefix(a, n) == order_of_prefix(b, n),
    decreases n,
{
    if n > 0 {
        lemma_order_reads_prefix(a, b, (n - 1) as nat);
        lemma_order_of_prefix(a, (n - 1) as nat);
        let before = order_of_prefix(a, (n - 1) as nat);
        lemma_rank_reads_listed_names(a, b, before, sort_key(a[n - 1]));
    }
}

} // verus!
