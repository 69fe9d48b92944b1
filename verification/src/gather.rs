//! Indexed scatter/gather: results that were produced in an arbitrary
//! completion order, each tagged with the slot it belongs to, are placed
//! into a pre-sized buffer at their own slot and read back in slot order.
//!
//! This is the one mechanism behind both order-sensitive steps of the run:
//! concurrently fetched file contents and concurrently computed per-chunk
//! vectors must come out in their original list order, never in completion
//! order. The law at the bottom states that the gathered sequence does not
//! depend on the completion order at all.

use vstd::prelude::*;
use vstd::seq_lib::group_to_multiset_ensures;
use vstd::set_lib::lemma_int_range;
use vstd::set_lib::lemma_len_subset;
use vstd::set_lib::lemma_subset_equality;
use vstd::set_lib::set_int_range;

verus! {

/// Whether `pairs` is a complete result set for `n` slots: one pair per
/// slot, every tag within range, no tag twice.
pub open spec fn covers<T>(pairs: Seq<(usize, T)>, n: nat) -> bool {
    &&& pairs.len() == n
    &&& forall|j: int| 0 <= j < pairs.len() ==> (#[trigger] pairs[j]).0 < n
    &&& forall|j: int, k: int|
        0 <= j < k < pairs.len() ==> (#[trigger] pairs[j]).0 != (#[trigger] pairs[k]).0
}

/// The value that `pairs` carries for slot `i`.
pub open spec fn value_at<T>(pairs: Seq<(usize, T)>, i: int) -> T {
    let j = choose|j: int| 0 <= j < pairs.len() && pairs[j].0 == i;
    pairs[j].1
}

/// The in-order sequence that a complete result set describes.
pub open spec fn gathered<T>(pairs: Seq<(usize, T)>, n: nat) -> Seq<T> {
    Seq::new(n, |i: int| value_at(pairs, i))
}

/// The tags of a result set, as mathematical integers.
pub open spec fn tags_of<T>(pairs: Seq<(usize, T)>) -> Seq<int> {
    pairs.map_values(|p: (usize, T)| p.0 as int)
}

/// Whether some pair of the result set carries the tag `i`.
pub open spec fn slot_tagged<T>(pairs: Seq<(usize, T)>, i: int) -> bool {
    exists|j: int| 0 <= j < pairs.len() && (#[trigger] pairs[j]).0 == i
}

/// A complete result set tags every slot: its tags are exactly 0..n.
pub proof fn lemma_covers_surjective<T>(pairs: Seq<(usize, T)>, n: nat)
    requires
        covers(pairs, n),
    ensures
        forall|i: int| 0 <= i < n ==> #[trigger] slot_tagged(pairs, i),
{
    let tags = tags_of(pairs);
    assert(tags.no_duplicates());
    tags.unique_seq_to_set();
    let range = set_int_range(0, n as int);
    lemma_int_range(0, n as int);
    assert forall|t: int| tags.to_set().contains(t) implies range.contains(t) by {
        let j = choose|j: int| 0 <= j < tags.len() && tags[j] == t;
        assert(pairs[j].0 < n);
    }
    assert(tags.to_set().subset_of(range));
    lemma_subset_equality(tags.to_set(), range);
    assert forall|i: int| 0 <= i < n implies #[trigger] slot_tagged(pairs, i) by {
        assert(range.contains(i));
        assert(tags.to_set().contains(i));
        let j = choose|j: int| 0 <= j < tags.len() && tags[j] == i;
        assert(pairs[j].0 == i);
    }
}

/// In a complete result set the value at a pair's own tag is that pair's
/// value.
pub proof fn lemma_value_at<T>(pairs: Seq<(usize, T)>, n: nat, j: int)
    requires
        covers(pairs, n),
        0 <= j < pairs.len(),
    ensures
        value_at(pairs, pairs[j].0 as int) == pairs[j].1,
{
    let i = pairs[j].0 as int;
    let j2 = choose|j2: int| 0 <= j2 < pairs.len() && pairs[j2].0 == i;
    assert(pairs[j].0 == i);
    if j2 != j {
        if j2 < j {
            assert(pairs[j2].0 != pairs[j].0);
        } else {
            assert(pairs[j].0 != pairs[j2].0);
        }
    }
}

/// Places every tagged result into its own slot of a fresh buffer of `n`
/// slots and hands the buffer back in slot order. Returns `None` exactly
/// when the tagged results do not cover the `n` slots one-to-one.
#[verifier::loop_isolation(false)]
pub fn gather_by_index<T>(n: usize, pairs: Vec<(usize, T)>) -> (r: Option<Vec<T>>)
    ensures
        r is Some <==> covers(pairs@, n as nat),
        r matches Some(v) ==> v@ == gathered(pairs@, n as nat),
{
    let ghost all = pairs@;
    let mut buf: Vec<Option<T>> = Vec::new();
    let mut s: usize = 0;
    while s < n
        invariant
            0 <= s <= n,
            buf@.len() == s,
            forall|t: int| 0 <= t < s ==> buf@[t] is None,
        decreases n - s,
    {
        buf.push(None);
        s = s + 1;
    }
    let mut rem = pairs;
    proof {
        assert(rem@ =~= all.take(rem@.len() as int));
    }
    while rem.len() > 0
        invariant
            buf@.len() == n,
            rem@.len() <= all.len(),
            rem@ == all.take(rem@.len() as int),
            forall|j: int, k: int|
                rem@.len() <= j < k < all.len() ==> (#[trigger] all[j]).0 != (#[trigger] all[k]).0,
            forall|j: int|
                rem@.len() <= j < all.len() ==> (#[trigger] all[j]).0 < n && buf@[all[j].0 as int]
                    == Some(all[j].1),
            forall|t: int|
                0 <= t < n && buf@[t] is Some ==> exists|j: int|
                    rem@.len() <= j < all.len() && (#[trigger] all[j]).0 == t,
        decreases rem@.len(),
    {
        let ghost rem0 = rem@;
        let popped = rem.pop();
        let (i, v) = match popped {
            Some(p) => p,
            None => {
                return unreached();
            },
        };
        let ghost pos = rem@.len() as int;
        proof {
            assert(rem0[pos] == all.take(rem0.len() as int)[pos]);
            assert(all[pos] == rem0[pos]);
            assert(rem@ =~= all.take(pos));
            assert(all[pos] == (i, v));
        }
        if i >= n {
            proof {
                assert(all[pos].0 >= n);
                assert(!covers(all, n as nat));
            }
            return None;
        }
        if buf[i].is_some() {
            proof {
                let j = choose|j: int| rem0.len() <= j < all.len() && (#[trigger] all[j]).0 == i as int;
                assert(all[pos].0 == all[j].0);
                assert(!covers(all, n as nat));
            }
            return None;
        }
        let ghost buf0 = buf@;
        buf[i] = Some(v);
        proof {
            assert(buf@ == buf0.update(i as int, Some(all[pos].1)));
            assert forall|j: int|
                rem@.len() <= j < all.len() implies (#[trigger] all[j]).0 < n && buf@[all[j].0 as int]
                == Some(all[j].1) by {
                if j != pos {
                    assert(all[j].0 != all[pos].0);
                    assert(buf@[all[j].0 as int] == buf0[all[j].0 as int]);
                }
            }
        }
    }
    proof {
        assert(rem@.len() == 0);
    }
    // every slot must have been written exactly once
    let mut out: Vec<T> = Vec::new();
    let mut k: usize = 0;
    let ghost fullbuf = buf@;
    while k < n
        invariant
            0 <= k <= n,
            buf@ =~= fullbuf.skip(k as int),
            fullbuf.len() == n,
            out@.len() == k,
            forall|j: int, k2: int|
                0 <= j < k2 < all.len() ==> (#[trigger] all[j]).0 != (#[trigger] all[k2]).0,
            forall|j: int|
                0 <= j < all.len() ==> (#[trigger] all[j]).0 < n && fullbuf[all[j].0 as int] == Some(
                    all[j].1,
                ),
            forall|t: int|
                0 <= t < n && fullbuf[t] is Some ==> exists|j: int|
                    0 <= j < all.len() && (#[trigger] all[j]).0 == t,
            forall|t: int| 0 <= t < k ==> fullbuf[t] == Some(out@[t]),
        decreases n - k,
    {
        let ghost buf1 = buf@;
        let slot = buf.remove(0);
        proof {
            assert(buf@ =~= buf1.skip(1));
            assert(buf@ =~= fullbuf.skip(k as int + 1));
            assert(slot == fullbuf[k as int]);
        }
        match slot {
            Some(x) => {
                out.push(x);
            },
            None => {
                proof {
                    if covers(all, n as nat) {
                        lemma_covers_surjective(all, n as nat);
                        assert(slot_tagged(all, k as int));
                        let j = choose|j: int|
                            0 <= j < all.len() && (#[trigger] all[j]).0 == k as int;
                        assert(fullbuf[k as int] == Some(all[j].1));
                    }
                }
                return None;
            },
        }
        k = k + 1;
    }
    proof {
        // the set is complete: every slot filled, tags distinct and in range,
        // so there are exactly n results
        assert forall|t: int| 0 <= t < n implies fullbuf[t] is Some by {
            assert(fullbuf[t] == fullbuf.skip(0)[t]);
        }
        let tags = tags_of(all);
        assert(tags.no_duplicates());
        tags.unique_seq_to_set();
        let range = set_int_range(0, n as int);
        lemma_int_range(0, n as int);
        assert forall|t: int| tags.to_set().contains(t) implies range.contains(t) by {
            let j = choose|j: int| 0 <= j < tags.len() && tags[j] == t;
            assert(all[j].0 < n);
        }
        lemma_len_subset(tags.to_set(), range);
        assert(all.len() <= n);
        assert forall|t: int| 0 <= t < n implies tags.to_set().contains(t) by {
            assert(fullbuf[t] is Some);
            let j = choose|j: int| 0 <= j < all.len() && (#[trigger] all[j]).0 == t;
            assert(tags[j] == t);
            assert(tags.contains(t));
        }
        lemma_len_subset(range, tags.to_set());
        assert(all.len() == n);
        assert(covers(all, n as nat));
        lemma_covers_surjective(all, n as nat);
        assert forall|t: int| 0 <= t < n implies out@[t] == value_at(all, t) by {
            assert(slot_tagged(all, t));
            let j = choose|j: int| 0 <= j < all.len() && (#[trigger] all[j]).0 == t;
            lemma_value_at(all, n as nat, j);
            assert(fullbuf[t] == Some(all[j].1));
        }
        assert(out@ =~= gathered(all, n as nat));
    }
    Some(out)
}

/// The gathered sequence is independent of completion order: two result
/// sets that hold the same tagged results, in whatever order each of them
/// arrived, cover the same slots and describe the same in-order sequence.
pub proof fn lemma_gather_order_independent<T>(a: Seq<(usize, T)>, b: Seq<(usize, T)>, n: nat)
    requires
        a.to_multiset() == b.to_multiset(),
    ensures
        covers(a, n) == covers(b, n),
        covers(a, n) ==> gathered(a, n) == gathered(b, n),
{
    broadcast use group_to_multiset_ensures;

    if covers(a, n) {
        lemma_cover_transfer(a, b, n);
    }
    if covers(b, n) {
        lemma_cover_transfer(b, a, n);
    }
    if covers(a, n) {
        assert forall|i: int| 0 <= i < n implies value_at(a, i) == value_at(b, i) by {
            lemma_covers_surjective(a, n);
            assert(slot_tagged(a, i));
            let ja = choose|j: int| 0 <= j < a.len() && (#[trigger] a[j]).0 == i;
            lemma_value_at(a, n, ja);
            assert(a.contains(a[ja]));
            assert(a.to_multiset().count(a[ja]) > 0);
            assert(b.to_multiset().count(a[ja]) > 0);
            assert(b.contains(a[ja]));
            let jb = choose|j: int| 0 <= j < b.len() && b[j] == a[ja];
            lemma_value_at(b, n, jb);
        }
        assert(gathered(a, n) =~= gathered(b, n));
    }
}

/// Covering carries over to any reordering of the same results.
proof fn lemma_cover_transfer<T>(a: Seq<(usize, T)>, b: Seq<(usize, T)>, n: nat)
    requires
        a.to_multiset() == b.to_multiset(),
        covers(a, n),
    ensures
        covers(b, n),
{
    broadcast use group_to_multiset_ensures;

    assert(a.len() == a.to_multiset().len());
    assert(b.len() == b.to_multiset().len());
    assert forall|j: int| 0 <= j < b.len() implies (#[trigger] b[j]).0 < n by {
        assert(b.contains(b[j]));
        assert(b.to_multiset().count(b[j]) > 0);
        assert(a.to_multiset().count(b[j]) > 0);
        assert(a.contains(b[j]));
        let k = choose|k: int| 0 <= k < a.len() && a[k] == b[j];
        assert(a[k].0 < n);
    }
    assert forall|j: int, k: int|
        0 <= j < k < b.len() implies (#[trigger] b[j]).0 != (#[trigger] b[k]).0 by {
        if b[j] == b[k] {
            lemma_two_positions_count(b, j, k);
            assert(a.to_multiset().count(b[j]) >= 2);
            lemma_count_two_positions(a, b[j]);
            assert(false);
        } else {
            assert(b.contains(b[j]));
            assert(b.contains(b[k]));
            assert(b.to_multiset().count(b[j]) > 0);
            assert(b.to_multiset().count(b[k]) > 0);
            assert(a.to_multiset().count(b[j]) > 0);
            assert(a.to_multiset().count(b[k]) > 0);
            assert(a.contains(b[j]));
            assert(a.contains(b[k]));
            let ja = choose|x: int| 0 <= x < a.len() && a[x] == b[j];
            let ka = choose|x: int| 0 <= x < a.len() && a[x] == b[k];
            if b[j].0 == b[k].0 {
                assert(ja != ka);
                if ja < ka {
                    assert(a[ja].0 != a[ka].0);
                } else {
                    assert(a[ka].0 != a[ja].0);
                }
                assert(false);
            }
        }
    }
}

/// An element sitting at two distinct positions counts at least twice.
proof fn lemma_two_positions_count<T>(s: Seq<T>, j: int, k: int)
    requires
        0 <= j < k < s.len(),
        s[j] == s[k],
    ensures
        s.to_multiset().count(s[j]) >= 2,
{
    broadcast use group_to_multiset_ensures;

    let without = s.remove(k);
    assert(s.to_multiset() == without.to_multiset().insert(s[k]));
    assert(without[j] == s[j]);
    assert(without.contains(s[j]));
    assert(without.to_multiset().count(s[j]) > 0);
}

/// An element counting at least twice sits at two distinct positions.
proof fn lemma_count_two_positions<T>(s: Seq<T>, x: T)
    requires
        s.to_multiset().count(x) >= 2,
    ensures
        exists|j: int, k: int| 0 <= j < k < s.len() && s[j] == x && s[k] == x,
{
    broadcast use group_to_multiset_ensures;

    assert(s.contains(x));
    let k = choose|k: int| 0 <= k < s.len() && s[k] == x;
    let without = s.remove(k);
    assert(s.to_multiset() == without.to_multiset().insert(x));
    assert(without.to_multiset().count(x) >= 1);
    assert(without.contains(x));
    let j0 = choose|j: int| 0 <= j < without.len() && without[j] == x;
    if j0 < k {
        assert(s[j0] == without[j0]);
        assert(0 <= j0 < k < s.len() && s[j0] == x && s[k] == x);
    } else {
        assert(s[j0 + 1] == without[j0]);
        assert(0 <= k < j0 + 1 < s.len() && s[k] == x && s[j0 + 1] == x);
    }
}

} // verus!
