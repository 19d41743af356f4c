use vstd::prelude::*;
use crate::poll::{ingested, key_of};
use crate::push::{compacted, is_plan, lists_keys};
use crate::record::Tweet;
use crate::state::{advanced_marker, marker_of, FetchCursor};
use crate::store::{in_scan, strictly_ascending, Direction};

verus! {

/// Position of the last record of `recs` stored under `k`, or -1.
pub open spec fn last_index(recs: Seq<Tweet>, k: u64) -> int
    decreases recs.len(),
{
    if recs.len() == 0 {
        -1
    } else if key_of(recs.last()) == k {
        recs.len() - 1
    } else {
        last_index(recs.drop_last(), k)
    }
}

proof fn lemma_last_index_bounds(recs: Seq<Tweet>, k: u64)
    ensures
        -1 <= last_index(recs, k) < recs.len(),
        last_index(recs, k) >= 0 ==> key_of(recs[last_index(recs, k)]) == k,
    decreases recs.len(),
{
    if recs.len() > 0 {
        lemma_last_index_bounds(recs.drop_last(), k);
    }
}

/// After ingesting `recs`, a key holds the last record stored under it, or
/// what it held before.
proof fn lemma_ingested_at(part: Map<u64, Tweet>, recs: Seq<Tweet>, k: u64)
    ensures
        ingested(part, recs).contains_key(k) == (last_index(recs, k) >= 0 || part.contains_key(k)),
        ingested(part, recs).contains_key(k) ==> ingested(part, recs)[k] == if last_index(recs, k) >= 0 {
            recs[last_index(recs, k)]
        } else {
            part[k]
        },
    decreases recs.len(),
{
    if recs.len() > 0 {
        lemma_ingested_at(part, recs.drop_last(), k);
        lemma_last_index_bounds(recs.drop_last(), k);
    }
}

/// Ingesting the same records again, as a re-poll does, changes nothing:
/// each id is stored once.
pub proof fn lemma_reingest_idempotent(part: Map<u64, Tweet>, recs: Seq<Tweet>)
    ensures
        ingested(ingested(part, recs), recs) == ingested(part, recs),
{
    let once = ingested(part, recs);
    let twice = ingested(once, recs);
    assert forall|k: u64| #[trigger] twice.contains_key(k) == once.contains_key(k) by {
        lemma_ingested_at(part, recs, k);
        lemma_ingested_at(once, recs, k);
    }
    assert forall|k: u64| #[trigger] twice.contains_key(k) implies twice[k] == once[k] by {
        lemma_ingested_at(part, recs, k);
        lemma_ingested_at(once, recs, k);
    }
    assert(twice =~= once);
}

/// The fetch cursor after the first pages of successive polls report the
/// creation times `seen`, starting from `start`.
pub open spec fn cursor_after(start: Option<FetchCursor>, seen: Seq<i64>) -> Option<FetchCursor>
    decreases seen.len(),
{
    if seen.len() == 0 {
        start
    } else {
        Some(FetchCursor::SinceMarker(advanced_marker(cursor_after(start, seen.drop_last()), seen.last())))
    }
}

/// Over any sequence of successful polls the since marker never moves back
/// in time.
pub proof fn lemma_marker_monotone(start: Option<FetchCursor>, seen: Seq<i64>, i: int, j: int)
    requires
        0 <= i <= j <= seen.len(),
        marker_of(cursor_after(start, seen.take(i))) is Some,
    ensures
        marker_of(cursor_after(start, seen.take(j))) is Some,
        marker_of(cursor_after(start, seen.take(i)))->0 <= marker_of(cursor_after(start, seen.take(j)))->0,
    decreases j - i,
{
    if j > i {
        lemma_marker_monotone(start, seen, i, j - 1);
        assert(seen.take(j).drop_last() =~= seen.take(j - 1));
    }
}

/// A drain hands out records in strictly ascending key order, so none twice.
pub proof fn lemma_delivery_order(plan: Seq<u64>, part: Map<u64, Tweet>, cursor: Option<u64>, i: int, j: int)
    requires
        is_plan(plan, part, cursor),
        0 <= i < j < plan.len(),
    ensures
        plan[i] < plan[j],
        part.contains_key(plan[i]),
        in_scan(plan[i], cursor, Direction::Forward),
{
    assert(plan.contains(plan[i]));
}

/// When delivery stops at key `k` and the next drain resumes from a cursor at
/// `k`, that drain starts with `k` itself and hands out no key before it: the
/// records already delivered are not sent again, and across the two runs keys
/// still go out in ascending order.
pub proof fn lemma_resume_at_failed(
    part: Map<u64, Tweet>,
    first: Seq<u64>,
    cursor: Option<u64>,
    pos: int,
    next: Seq<u64>,
)
    requires
        is_plan(first, part, cursor),
        0 <= pos < first.len(),
        is_plan(next, part, Some(first[pos])),
    ensures
        next.len() > 0,
        next[0] == first[pos],
        forall|x: int| 0 <= x < next.len() ==> next[x] >= first[pos],
        strictly_ascending(first.take(pos) + next),
{
    let k = first[pos];
    assert(first.contains(k));
    assert(next.contains(k));
    let at = choose|x: int| 0 <= x < next.len() && next[x] == k;
    assert forall|x: int| 0 <= x < next.len() implies next[x] >= k by {
        assert(next.contains(next[x]));
    }
    if at > 0 {
        assert(next[0] < next[at]);
    }
    let both = first.take(pos) + next;
    assert forall|a: int, b: int| 0 <= a < b < both.len() implies both[a] < both[b] by {
        if b < pos {
            assert(first[a] < first[b]);
        } else if a >= pos {
            assert(next[a - pos] < next[b - pos]);
        } else {
            assert(first[a] < first[pos]);
            assert(next[b - pos] >= k);
        }
    }
}

/// A completed drain deletes every record it delivered, and keeps every
/// record stored after it began, whatever its key.
pub proof fn lemma_compaction(
    part: Map<u64, Tweet>,
    plan: Seq<u64>,
    cursor: Option<u64>,
    known: Seq<u64>,
    later: Map<u64, Tweet>,
)
    requires
        is_plan(plan, part, cursor),
        lists_keys(known, part),
    ensures
        forall|x: int| 0 <= x < plan.len() ==> !compacted(later, known).contains_key(#[trigger] plan[x]),
        forall|k: u64| #[trigger] later.contains_key(k) && !part.contains_key(k) ==> compacted(
            later,
            known,
        ).contains_key(k) && compacted(later, known)[k] == later[k],
{
    assert forall|x: int| 0 <= x < plan.len() implies !compacted(later, known).contains_key(#[trigger] plan[x]) by {
        assert(plan.contains(plan[x]));
        assert(known.contains(plan[x]));
    }
    assert forall|k: u64| #[trigger] later.contains_key(k) && !part.contains_key(k) implies compacted(
        later,
        known,
    ).contains_key(k) by {
        if known.contains(k) {
            assert(part.contains_key(k));
        }
    }
}

/// After a drain stopped at its `pos`-th planned key, the next drain, which
/// resumes at that key, sends none of the records the first one delivered,
/// whatever was stored in between.
pub proof fn lemma_no_resend_after_failure(
    part: Map<u64, Tweet>,
    first: Seq<u64>,
    cursor: Option<u64>,
    pos: int,
    part2: Map<u64, Tweet>,
    next: Seq<u64>,
)
    requires
        is_plan(first, part, cursor),
        0 <= pos < first.len(),
        is_plan(next, part2, Some(first[pos])),
    ensures
        forall|i: int, j: int| 0 <= i < pos && 0 <= j < next.len() ==> first[i] != next[j],
{
    assert forall|i: int, j: int| 0 <= i < pos && 0 <= j < next.len() implies first[i] != next[j] by {
        assert(first[i] < first[pos]);
        assert(next.contains(next[j]));
    }
}

/// After a completed drain, the next drain (no cursor) sends none of the
/// records the first one delivered, unless one of them was stored again in
/// between.
pub proof fn lemma_no_resend_after_compaction(
    part: Map<u64, Tweet>,
    first: Seq<u64>,
    cursor: Option<u64>,
    known: Seq<u64>,
    later: Map<u64, Tweet>,
    part2: Map<u64, Tweet>,
    next: Seq<u64>,
)
    requires
        is_plan(first, part, cursor),
        lists_keys(known, part),
        forall|k: u64| #[trigger] part2.contains_key(k) && first.contains(k) ==> compacted(later, known).contains_key(k),
        is_plan(next, part2, None),
    ensures
        forall|i: int, j: int| 0 <= i < first.len() && 0 <= j < next.len() ==> first[i] != next[j],
{
    lemma_compaction(part, first, cursor, known, later);
    assert forall|i: int, j: int| 0 <= i < first.len() && 0 <= j < next.len() implies first[i] != next[j] by {
        assert(next.contains(next[j]));
        assert(first.contains(first[i]));
        assert(!compacted(later, known).contains_key(first[i]));
    }
}

} // verus!
