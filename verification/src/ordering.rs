//! The order of a mailbox index: the keys run from the newest entry to the
//! oldest, and a new key lands behind every entry that is newer.

use vstd::prelude::*;

verus! {

/// The position at which an entry of time `ts` lands in `order`, looking
/// from position `from` on: that of the first entry that is not newer than
/// `ts`, and the end where every entry is newer.
pub open spec fn landing(order: Seq<u32>, times: Map<u32, u128>, ts: u128, from: int) -> int
    decreases order.len() - from,
{
    if 0 <= from < order.len() && times[order[from]] > ts {
        landing(order, times, ts, from + 1)
    } else {
        from
    }
}

/// `order` with `key` put where an entry of time `ts` lands.
pub open spec fn placed(order: Seq<u32>, times: Map<u32, u128>, key: u32, ts: u128) -> Seq<u32> {
    order.insert(landing(order, times, ts, 0), key)
}

/// The times along `order` never rise: it runs from newest to oldest.
pub open spec fn newest_first(order: Seq<u32>, times: Map<u32, u128>) -> bool {
    forall|i: int, j: int|
        0 <= i < j < order.len() ==> times[#[trigger] order[i]] >= times[#[trigger] order[j]]
}

/// Whether an entry of time `ts` is shown to a reader who has seen
/// everything up to `after`.
pub open spec fn is_after(ts: u128, after: Option<u128>) -> bool {
    match after {
        Some(seen) => ts > seen,
        None => true,
    }
}

/// `landing` skips over entries that are newer than `ts`.
pub proof fn lemma_landing_skip(order: Seq<u32>, times: Map<u32, u128>, ts: u128, upto: int)
    requires
        0 <= upto <= order.len(),
        forall|j: int| 0 <= j < upto ==> times[#[trigger] order[j]] > ts,
    ensures
        landing(order, times, ts, 0) == landing(order, times, ts, upto),
    decreases upto,
{
    if upto > 0 {
        lemma_landing_skip(order, times, ts, upto - 1);
        assert(times[order[upto - 1]] > ts);
    }
}

/// Taking one key out leaves the others, in their order.
pub proof fn lemma_remove_value(order: Seq<u32>, key: u32, at: int)
    requires
        order.no_duplicates(),
        0 <= at < order.len(),
        order[at] == key,
    ensures
        order.remove_value(key) == order.remove(at),
        !order.remove(at).contains(key),
        order.remove(at).no_duplicates(),
        forall|k: u32| k != key ==> (order.remove(at).contains(k) <==> order.contains(k)),
        forall|times: Map<u32, u128>| #[trigger]
            newest_first(order, times) ==> newest_first(order.remove(at), times),
{
    assert forall|times: Map<u32, u128>| #[trigger] newest_first(order, times) implies newest_first(
        order.remove(at),
        times,
    ) by {
        let rest = order.remove(at);
        assert forall|i: int, j: int| 0 <= i < j < rest.len() implies times[#[trigger] rest[i]]
            >= times[#[trigger] rest[j]] by {
            let i0 = if i < at { i } else { i + 1 };
            let j0 = if j < at { j } else { j + 1 };
            assert(rest[i] == order[i0]);
            assert(rest[j] == order[j0]);
        }
    }
    order.index_of_first_ensures(key);
    assert(order.contains(key));
    let rest = order.remove(at);
    assert forall|i: int| 0 <= i < rest.len() implies #[trigger] rest[i] != key by {
        if i < at {
            assert(rest[i] == order[i]);
        } else {
            assert(rest[i] == order[i + 1]);
        }
    }
    assert forall|i: int, j: int|
        0 <= i < rest.len() && 0 <= j < rest.len() && i != j implies rest[i] != rest[j] by {
        let i0 = if i < at { i } else { i + 1 };
        let j0 = if j < at { j } else { j + 1 };
        assert(rest[i] == order[i0]);
        assert(rest[j] == order[j0]);
    }
    assert forall|k: u32| k != key implies (rest.contains(k) <==> order.contains(k)) by {
        if rest.contains(k) {
            let i = choose|i: int| 0 <= i < rest.len() && rest[i] == k;
            let i0 = if i < at { i } else { i + 1 };
            assert(order[i0] == k);
        }
        if order.contains(k) {
            let i = choose|i: int| 0 <= i < order.len() && order[i] == k;
            let i1 = if i < at { i } else { i - 1 };
            assert(rest[i1] == k);
        }
    }
}

/// Where the key is not in the index, taking it out changes nothing.
pub proof fn lemma_remove_value_absent(order: Seq<u32>, key: u32)
    requires
        !order.contains(key),
    ensures
        order.remove_value(key) == order,
{
    order.index_of_first_ensures(key);
}

/// Putting a key where it lands keeps an index without doubles that runs
/// from newest to oldest in that state.
pub proof fn lemma_placed_wf(base: Seq<u32>, times: Map<u32, u128>, key: u32, ts: u128)
    requires
        base.no_duplicates(),
        !base.contains(key),
        newest_first(base, times),
    ensures
        0 <= landing(base, times, ts, 0) <= base.len(),
        placed(base, times, key, ts).no_duplicates(),
        newest_first(placed(base, times, key, ts), times.insert(key, ts)),
{
    lemma_landing_bounds(base, times, ts, 0);
    let p = landing(base, times, ts, 0);
    let out = placed(base, times, key, ts);
    let tmap = times.insert(key, ts);
    assert forall|i: int, j: int| 0 <= i < out.len() && 0 <= j < out.len() && i != j implies out[i]
        != out[j] by {
        let i0 = if i < p { i } else { i - 1 };
        let j0 = if j < p { j } else { j - 1 };
        if i != p {
            assert(out[i] == base[i0]);
            assert(base.contains(base[i0]));
        }
        if j != p {
            assert(out[j] == base[j0]);
            assert(base.contains(base[j0]));
        }
    }
    assert forall|i: int, j: int| 0 <= i < j < out.len() implies tmap[#[trigger] out[i]]
        >= tmap[#[trigger] out[j]] by {
        let i0 = if i < p { i } else { i - 1 };
        let j0 = if j < p { j } else { j - 1 };
        if i != p {
            assert(out[i] == base[i0]);
            assert(base.contains(base[i0]));
        }
        if j != p {
            assert(out[j] == base[j0]);
            assert(base.contains(base[j0]));
        }
        if i == p {
            // every entry from the landing position on is not newer than ts
            assert(times[base[p]] <= ts);
            if j0 > p {
                assert(times[base[p]] >= times[base[j0]]);
            }
        } else if j == p {
            assert(times[base[i0]] > ts);
        } else {
            assert(times[base[i0]] >= times[base[j0]]);
        }
    }
}

/// `landing` ends between `from` and the end, behind entries that are newer
/// than `ts` and before one that is not.
pub proof fn lemma_landing_bounds(order: Seq<u32>, times: Map<u32, u128>, ts: u128, from: int)
    requires
        0 <= from <= order.len(),
    ensures
        from <= landing(order, times, ts, from) <= order.len(),
        forall|j: int|
            from <= j < landing(order, times, ts, from) ==> times[#[trigger] order[j]] > ts,
        landing(order, times, ts, from) < order.len() ==> times[order[landing(
            order,
            times,
            ts,
            from,
        )]] <= ts,
    decreases order.len() - from,
{
    if from < order.len() && times[order[from]] > ts {
        lemma_landing_bounds(order, times, ts, from + 1);
    }
}

/// `landing` looks at the times of the keys in the index only.
pub proof fn lemma_landing_agree(
    order: Seq<u32>,
    t1: Map<u32, u128>,
    t2: Map<u32, u128>,
    ts: u128,
    from: int,
)
    requires
        0 <= from <= order.len(),
        forall|j: int| 0 <= j < order.len() ==> t1[#[trigger] order[j]] == t2[order[j]],
    ensures
        landing(order, t1, ts, from) == landing(order, t2, ts, from),
    decreases order.len() - from,
{
    if from < order.len() {
        assert(t1[order[from]] == t2[order[from]]);
        if t1[order[from]] > ts {
            lemma_landing_agree(order, t1, t2, ts, from + 1);
        }
    }
}

/// In an index that runs from newest to oldest, the entries newer than
/// `after` are the first `c` of it, for the `c` that is returned.
pub proof fn lemma_newer_prefix(order: Seq<u32>, times: Map<u32, u128>, after: Option<u128>) -> (c:
    int)
    requires
        newest_first(order, times),
    ensures
        0 <= c <= order.len(),
        order.filter(|k: u32| is_after(times[k], after)) == order.take(c),
        forall|j: int| 0 <= j < c ==> is_after(times[#[trigger] order[j]], after),
        c < order.len() ==> !is_after(times[order[c]], after),
    decreases order.len(),
{
    reveal(Seq::filter);
    let pred = |k: u32| is_after(times[k], after);
    if order.len() == 0 {
        assert(order.filter(pred) =~= order.take(0));
        0
    } else {
        let front = order.drop_last();
        let last = order.len() - 1;
        assert forall|i: int, j: int| 0 <= i < j < front.len() implies times[#[trigger] front[i]]
            >= times[#[trigger] front[j]] by {
            assert(front[i] == order[i]);
            assert(front[j] == order[j]);
        }
        let c0 = lemma_newer_prefix(front, times, after);
        assert(front.filter(pred) == front.take(c0));
        if c0 == front.len() && pred(order[last]) {
            assert(front.take(c0) =~= front);
            assert(order.filter(pred) =~= order.take(last + 1));
            assert forall|j: int| 0 <= j < last + 1 implies is_after(
                times[#[trigger] order[j]],
                after,
            ) by {
                if j < last {
                    assert(front[j] == order[j]);
                }
            }
            last + 1
        } else {
            if c0 < front.len() {
                assert(front[c0] == order[c0]);
                assert(times[order[c0]] >= times[order[last]]);
            }
            assert(!pred(order[last]));
            assert(order.filter(pred) =~= order.take(c0)) by {
                assert(front.take(c0) =~= order.take(c0));
            }
            assert forall|j: int| 0 <= j < c0 implies is_after(
                times[#[trigger] order[j]],
                after,
            ) by {
                assert(front[j] == order[j]);
            }
            c0
        }
    }
}

} // verus!
