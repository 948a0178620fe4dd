//! The accrual engine: the sweep that shares the reward of a tier among its
//! open positions, slice by slice in the order of their end times, and the
//! pass that sweeps every tier up to a time and moves the checkpoint there.

use crate::error::{overflow, overflow_error, ContractError};
use crate::state::{
    nfts_view, Campaign, CampaignInfoView, CampaignView, LockupTerm, NftInfo, NftInfoView,
    UpdateCampaign,
};
use crate::utils::{checked_reward_in_time, slice_fits, slice_reward};
use vstd::prelude::*;
use vstd::relations::{sorted_by, total_ordering};
use vstd::seq_lib::lemma_sorted_unique;

verus! {

/// The order in which a tier is swept: by end time, and by key where two
/// positions end together. A pair is an end time and a key.
pub open spec fn pair_leq(a: (u64, u64), b: (u64, u64)) -> bool {
    a.0 < b.0 || (a.0 == b.0 && a.1 <= b.1)
}

/// [`pair_leq`] as a relation.
pub open spec fn pair_order() -> spec_fn((u64, u64), (u64, u64)) -> bool {
    |a: (u64, u64), b: (u64, u64)| pair_leq(a, b)
}

/// Whether a sweep of the tier with duration `value` reaches the position:
/// it is of that tier and its lockup has not ended.
pub open spec fn in_sweep(n: NftInfoView, value: u64) -> bool {
    !n.is_end_reward && n.lockup_term.value == value
}

/// End time and key of a position.
pub open spec fn pair_of(n: NftInfoView) -> (u64, u64) {
    (n.end_time, n.key)
}

/// The pairs of the positions that a sweep of the tier reaches, in ledger
/// order.
pub open spec fn open_pairs(nfts: Seq<NftInfoView>, value: u64) -> Seq<(u64, u64)>
    decreases nfts.len(),
{
    if nfts.len() == 0 {
        Seq::empty()
    } else {
        let rest = open_pairs(nfts.drop_last(), value);
        if in_sweep(nfts.last(), value) {
            rest.push(pair_of(nfts.last()))
        } else {
            rest
        }
    }
}

/// The pairs of the positions that a sweep of the tier reaches, in the order
/// of the sweep.
pub open spec fn tier_order(nfts: Seq<NftInfoView>, value: u64) -> Seq<(u64, u64)> {
    open_pairs(nfts, value).sort_by(pair_order())
}

/// The time `t` brought into the window from `from` to `to`.
pub open spec fn cut(t: u64, from: u64, to: u64) -> u64 {
    if t < from {
        from
    } else if t > to {
        to
    } else {
        t
    }
}

/// Length of the time slice that ends with the position of rank `r`: from
/// the end of the position before it, or from the start of the window, to
/// its own end, all within the window.
pub open spec fn slice_seconds(order: Seq<(u64, u64)>, r: int, from: u64, to: u64) -> int {
    if r == 0 {
        cut(order[r].0, from, to) - from
    } else {
        cut(order[r].0, from, to) - cut(order[r - 1].0, from, to)
    }
}

/// What each position still open receives for the slice of rank `r`: the
/// reward of the slice, shared among the positions from rank `r` on.
pub open spec fn slice_share(
    order: Seq<(u64, u64)>,
    r: int,
    from: u64,
    to: u64,
    reward_per_second: u128,
    percent: u128,
) -> int {
    slice_reward(
        slice_seconds(order, r, from, to),
        reward_per_second as int,
        percent as int,
        order.len() - r,
    )
}

/// Sum of the shares of the first `k` slices: what a sweep adds to the
/// position of rank `k - 1`.
pub open spec fn gain_upto(
    order: Seq<(u64, u64)>,
    k: int,
    from: u64,
    to: u64,
    reward_per_second: u128,
    percent: u128,
) -> int
    decreases k,
{
    if k <= 0 {
        0
    } else {
        gain_upto(order, k - 1, from, to, reward_per_second, percent) + slice_share(
            order,
            k - 1,
            from,
            to,
            reward_per_second,
            percent,
        )
    }
}

/// Rank of a position in the sweep of its tier.
pub open spec fn rank_of(order: Seq<(u64, u64)>, n: NftInfoView) -> int {
    order.index_of(pair_of(n))
}

/// What a sweep of its tier adds to the pending reward of a position.
pub open spec fn gain_of(
    order: Seq<(u64, u64)>,
    n: NftInfoView,
    from: u64,
    to: u64,
    reward_per_second: u128,
    percent: u128,
) -> int {
    gain_upto(order, rank_of(order, n) + 1, from, to, reward_per_second, percent)
}

/// A position after the sweep of its tier over the window from `from` to
/// `to`: its pending reward has grown by its gain, and its lockup has ended
/// if its end time lies in the window or before it.
pub open spec fn swept(
    order: Seq<(u64, u64)>,
    n: NftInfoView,
    from: u64,
    to: u64,
    reward_per_second: u128,
    percent: u128,
) -> NftInfoView {
    NftInfoView {
        pending_reward: (n.pending_reward + gain_of(
            order,
            n,
            from,
            to,
            reward_per_second,
            percent,
        )) as u128,
        is_end_reward: n.end_time <= to,
        ..n
    }
}

/// Whether the numbers of the slice of rank `r` fit: its products, and the
/// new pending reward of the position of that rank.
pub open spec fn step_fits(
    nfts: Seq<NftInfoView>,
    order: Seq<(u64, u64)>,
    r: int,
    from: u64,
    to: u64,
    reward_per_second: u128,
    percent: u128,
) -> bool {
    &&& slice_fits(slice_seconds(order, r, from, to), reward_per_second as int, percent as int)
    &&& nfts[order[r].1 - 1].pending_reward + gain_upto(
        order,
        r + 1,
        from,
        to,
        reward_per_second,
        percent,
    ) <= u128::MAX
}

/// Whether the numbers of a whole sweep of a tier fit.
pub open spec fn tier_fits(
    nfts: Seq<NftInfoView>,
    value: u64,
    from: u64,
    to: u64,
    reward_per_second: u128,
    percent: u128,
) -> bool {
    forall|r: int|
        0 <= r < tier_order(nfts, value).len() ==> #[trigger] step_fits(
            nfts,
            tier_order(nfts, value),
            r,
            from,
            to,
            reward_per_second,
            percent,
        )
}

/// The ledger after the sweep of one tier.
pub open spec fn swept_tier(
    nfts: Seq<NftInfoView>,
    term: LockupTerm,
    from: u64,
    to: u64,
    reward_per_second: u128,
) -> Seq<NftInfoView> {
    Seq::new(
        nfts.len(),
        |i: int|
            if in_sweep(nfts[i], term.value) {
                swept(
                    tier_order(nfts, term.value),
                    nfts[i],
                    from,
                    to,
                    reward_per_second,
                    term.percent,
                )
            } else {
                nfts[i]
            },
    )
}

/// Whether the ledger is keyed in sequence: the position at index `i` has
/// key `i + 1`.
pub open spec fn keyed(nfts: Seq<NftInfoView>) -> bool {
    &&& nfts.len() < u64::MAX
    &&& forall|i: int| 0 <= i < nfts.len() ==> (#[trigger] nfts[i]).key == i + 1
}

/// The order of the sweep is a total order.
pub proof fn lemma_pair_order_total()
    ensures
        total_ordering(pair_order()),
{
    let leq = pair_order();
    assert forall|a: (u64, u64), b: (u64, u64)| #[trigger] leq(a, b) && leq(b, a) implies a
        == b by {
        assert(a.0 == b.0 && a.1 == b.1);
    }
}

/// The pairs that a sweep reaches are those of the positions of the tier
/// whose lockup has not ended, each once.
pub proof fn lemma_open_pairs(nfts: Seq<NftInfoView>, value: u64)
    requires
        keyed(nfts),
    ensures
        open_pairs(nfts, value).len() <= nfts.len(),
        open_pairs(nfts, value).no_duplicates(),
        forall|x: (u64, u64)| #[trigger]
            open_pairs(nfts, value).contains(x) <==> (1 <= x.1 <= nfts.len() && in_sweep(
                nfts[x.1 - 1],
                value,
            ) && pair_of(nfts[x.1 - 1]) == x),
    decreases nfts.len(),
{
    if nfts.len() > 0 {
        let rest = nfts.drop_last();
        lemma_open_pairs(rest, value);
        let before = open_pairs(rest, value);
        let last = nfts.last();
        let all = open_pairs(nfts, value);
        assert forall|x: (u64, u64)| #[trigger]
            all.contains(x) <==> (1 <= x.1 <= nfts.len() && in_sweep(nfts[x.1 - 1], value)
                && pair_of(nfts[x.1 - 1]) == x) by {
            if 1 <= x.1 <= rest.len() {
                assert(rest[x.1 - 1] == nfts[x.1 - 1]);
            }
            if in_sweep(last, value) {
                assert(all == before.push(pair_of(last)));
                if all.contains(x) {
                    let i = choose|i: int| 0 <= i < all.len() && all[i] == x;
                    if i < before.len() {
                        assert(before[i] == x);
                        assert(before.contains(x));
                    }
                }
                if before.contains(x) {
                    let i = choose|i: int| 0 <= i < before.len() && before[i] == x;
                    assert(all[i] == x);
                }
                if x == pair_of(last) {
                    assert(all[before.len() as int] == x);
                }
            }
        }
        if in_sweep(last, value) {
            assert(!before.contains(pair_of(last)));
            assert forall|i: int, j: int|
                0 <= i < all.len() && 0 <= j < all.len() && i != j implies all[i] != all[j] by {
                if i < before.len() {
                    assert(before.contains(before[i]));
                }
                if j < before.len() {
                    assert(before.contains(before[j]));
                }
            }
        }
    }
}

/// The order of the sweep holds the pairs that the sweep reaches, each once,
/// in ascending order.
pub proof fn lemma_tier_order(nfts: Seq<NftInfoView>, value: u64)
    requires
        keyed(nfts),
    ensures
        tier_order(nfts, value).len() == open_pairs(nfts, value).len(),
        tier_order(nfts, value).len() <= nfts.len(),
        tier_order(nfts, value).no_duplicates(),
        sorted_by(tier_order(nfts, value), pair_order()),
        forall|x: (u64, u64)| #[trigger]
            tier_order(nfts, value).contains(x) <==> (1 <= x.1 <= nfts.len() && in_sweep(
                nfts[x.1 - 1],
                value,
            ) && pair_of(nfts[x.1 - 1]) == x),
        forall|i: int|
            0 <= i < nfts.len() && in_sweep(#[trigger] nfts[i], value) ==> {
                &&& 0 <= rank_of(tier_order(nfts, value), nfts[i]) < tier_order(nfts, value).len()
                &&& tier_order(nfts, value)[rank_of(tier_order(nfts, value), nfts[i])]
                    == pair_of(nfts[i])
            },
        forall|r: int|
            0 <= r < tier_order(nfts, value).len() ==> {
                let x = #[trigger] tier_order(nfts, value)[r];
                &&& 1 <= x.1 <= nfts.len()
                &&& in_sweep(nfts[x.1 - 1], value)
                &&& pair_of(nfts[x.1 - 1]) == x
                &&& rank_of(tier_order(nfts, value), nfts[x.1 - 1]) == r
            },
{
    broadcast use vstd::seq_lib::group_to_multiset_ensures;

    let pairs = open_pairs(nfts, value);
    let order = tier_order(nfts, value);
    lemma_pair_order_total();
    lemma_open_pairs(nfts, value);
    pairs.lemma_sort_by_ensures(pair_order());
    assert(order.to_multiset() =~= pairs.to_multiset());
    assert(order.len() == pairs.len()) by {
        assert(order.to_multiset().len() == pairs.to_multiset().len());
    }
    assert forall|x: (u64, u64)| #[trigger] order.contains(x) <==> pairs.contains(x) by {
        assert(order.to_multiset().count(x) == pairs.to_multiset().count(x));
    }
    pairs.lemma_multiset_has_no_duplicates();
    assert forall|x: (u64, u64)| order.to_multiset().contains(x) implies order.to_multiset().count(
        x,
    ) == 1 by {
        assert(pairs.to_multiset().contains(x));
    }
    order.lemma_multiset_has_no_duplicates_conv();
    assert forall|i: int| 0 <= i < nfts.len() && in_sweep(#[trigger] nfts[i], value) implies {
        &&& 0 <= rank_of(order, nfts[i]) < order.len()
        &&& order[rank_of(order, nfts[i])] == pair_of(nfts[i])
    } by {
        let x = pair_of(nfts[i]);
        assert(x.1 - 1 == i);
        assert(order.contains(x));
    }
    assert forall|r: int| 0 <= r < order.len() implies {
        let x = #[trigger] order[r];
        &&& 1 <= x.1 <= nfts.len()
        &&& in_sweep(nfts[x.1 - 1], value)
        &&& pair_of(nfts[x.1 - 1]) == x
        &&& rank_of(order, nfts[x.1 - 1]) == r
    } by {
        let x = order[r];
        assert(order.contains(x));
    }
}

/// The pairs of the positions that a sweep of the tier reaches, in ledger
/// order.
fn collect_pairs(nfts: &Vec<NftInfo>, value: u64) -> (pairs: Vec<(u64, u64)>)
    ensures
        pairs@ == open_pairs(nfts_view(nfts@), value),
{
    let ghost all = nfts_view(nfts@);
    let mut pairs: Vec<(u64, u64)> = Vec::new();
    let mut i: usize = 0;
    while i < nfts.len()
        invariant
            i <= nfts.len(),
            all == nfts_view(nfts@),
            pairs@ == open_pairs(all.subrange(0, i as int), value),
        decreases nfts.len() - i,
    {
        proof {
            assert(all.subrange(0, i + 1).drop_last() =~= all.subrange(0, i as int));
            assert(all.subrange(0, i + 1).last() == nfts@[i as int]@);
        }
        if !nfts[i].is_end_reward && nfts[i].lockup_term.value == value {
            pairs.push((nfts[i].end_time, nfts[i].key));
        }
        i += 1;
    }
    proof {
        assert(all.subrange(0, i as int) =~= all);
    }
    pairs
}

/// Sorts pairs into the order of the sweep.
pub(crate) fn sort_pairs(pairs: &Vec<(u64, u64)>) -> (sorted: Vec<(u64, u64)>)
    ensures
        sorted@ == pairs@.sort_by(pair_order()),
{
    broadcast use vstd::seq_lib::group_to_multiset_ensures;

    let mut sorted: Vec<(u64, u64)> = Vec::new();
    let mut i: usize = 0;
    while i < pairs.len()
        invariant
            i <= pairs.len(),
            sorted@.len() == i,
            sorted_by(sorted@, pair_order()),
            sorted@.to_multiset() == pairs@.subrange(0, i as int).to_multiset(),
        decreases pairs.len() - i,
    {
        let x: (u64, u64) = pairs[i];
        let mut at: usize = 0;
        while at < sorted.len() && (sorted[at].0 < x.0 || (sorted[at].0 == x.0 && sorted[at].1
            <= x.1))
            invariant
                at <= sorted.len(),
                forall|k: int| 0 <= k < at ==> pair_leq(#[trigger] sorted@[k], x),
            decreases sorted.len() - at,
        {
            at += 1;
        }
        let ghost before = sorted@;
        sorted.insert(at, x);
        proof {
            let leq = pair_order();
            assert forall|a: int, b: int| 0 <= a < b < sorted@.len() implies #[trigger] leq(
                sorted@[a],
                sorted@[b],
            ) by {
                if b < at {
                    assert(leq(before[a], before[b]));
                } else if b == at {
                    assert(pair_leq(before[a], x));
                } else if a < at {
                    assert(leq(before[a], before[b - 1]));
                } else if a == at {
                    assert(!pair_leq(before[at as int], x));
                    if b - 1 > at {
                        assert(leq(before[at as int], before[b - 1]));
                    }
                } else {
                    assert(leq(before[a - 1], before[b - 1]));
                }
            }
            assert(pairs@.subrange(0, i + 1) =~= pairs@.subrange(0, i as int).push(x));
            assert(sorted@ == before.insert(at as int, x));
            vstd::seq_lib::to_multiset_insert(before, at as int, x);
            vstd::seq_lib::to_multiset_build(pairs@.subrange(0, i as int), x);
        }
        i += 1;
    }
    proof {
        assert(pairs@.subrange(0, i as int) =~= pairs@);
        lemma_pair_order_total();
        pairs@.lemma_sort_by_ensures(pair_order());
        lemma_sorted_unique(sorted@, pairs@.sort_by(pair_order()), pair_order());
    }
    sorted
}

/// Whether `key` is the key of a position that the sweep of the tier
/// reaches and whose end time lies in the window or before it.
pub open spec fn ends_in_sweep(nfts: Seq<NftInfoView>, value: u64, to: u64, key: u64) -> bool {
    &&& 1 <= key <= nfts.len()
    &&& in_sweep(nfts[key - 1], value)
    &&& nfts[key - 1].end_time <= to
}

/// Sweeps one tier over the window from `from` to `to`: each position of
/// the tier whose lockup has not ended receives its share of every time
/// slice up to its end, and the keys of those that end are added to `ended`.
/// Fails when a number of the sweep does not fit.
pub(crate) fn sweep_tier(
    nfts: &mut Vec<NftInfo>,
    ended: &mut Vec<u64>,
    term: LockupTerm,
    reward_per_second: u128,
    from: u64,
    to: u64,
) -> (r: Result<(), ContractError>)
    requires
        keyed(nfts_view(old(nfts)@)),
        from <= to,
    ensures
        r.is_ok() <==> tier_fits(
            nfts_view(old(nfts)@),
            term.value,
            from,
            to,
            reward_per_second,
            term.percent,
        ),
        r matches Err(e) ==> e@ == overflow_error(),
        r.is_ok() ==> nfts_view(final(nfts)@) == swept_tier(
            nfts_view(old(nfts)@),
            term,
            from,
            to,
            reward_per_second,
        ),
        r.is_ok() ==> forall|k: u64| #[trigger]
            final(ended)@.contains(k) <==> (old(ended)@.contains(k) || ends_in_sweep(
                nfts_view(old(nfts)@),
                term.value,
                to,
                k,
            )),
{
    let ghost before = nfts_view(nfts@);
    let ghost ended_before = ended@;
    let pairs = collect_pairs(nfts, term.value);
    let order = sort_pairs(&pairs);
    let n: usize = order.len();
    let size: usize = nfts.len();
    proof {
        lemma_tier_order(before, term.value);
    }
    let mut cursor: u64 = from;
    let mut reward: u128 = 0;
    let mut j: usize = 0;
    while j < n
        invariant
            j <= n,
            n == order@.len(),
            from <= cursor <= to,
            keyed(before),
            order@ == tier_order(before, term.value),
            nfts@.len() == before.len(),
            size == before.len(),
            before == nfts_view(old(nfts)@),
            ended_before == old(ended)@,
            cursor == (if j == 0 {
                from
            } else {
                cut(order@[j - 1].0, from, to)
            }),
            reward == gain_upto(order@, j as int, from, to, reward_per_second, term.percent),
            forall|r: int|
                0 <= r < j ==> #[trigger] step_fits(
                    before,
                    order@,
                    r,
                    from,
                    to,
                    reward_per_second,
                    term.percent,
                ),
            forall|i: int|
                0 <= i < before.len() ==> (#[trigger] nfts@[i])@ == (if in_sweep(
                    before[i],
                    term.value,
                ) && rank_of(order@, before[i]) < j {
                    swept(order@, before[i], from, to, reward_per_second, term.percent)
                } else {
                    before[i]
                }),
            forall|k: u64| #[trigger]
                ended@.contains(k) <==> (ended_before.contains(k) || (ends_in_sweep(
                    before,
                    term.value,
                    to,
                    k,
                ) && rank_of(order@, before[k - 1]) < j)),
        decreases n - j,
    {
        proof {
            lemma_tier_order(before, term.value);
        }
        let x: (u64, u64) = order[j];
        proof {
            let y = tier_order(before, term.value)[j as int];
            assert(y == x);
            assert(1 <= y.1 <= before.len());
            assert(x.1 - 1 < size);
        }
        let at: usize = (x.1 - 1) as usize;
        let stop: u64 = if x.0 < from {
            from
        } else if x.0 > to {
            to
        } else {
            x.0
        };
        let count: u128 = (n - j) as u128;
        proof {
            assert(order@[j as int] == x);
            assert(pair_of(before[at as int]) == x);
            assert(rank_of(order@, before[at as int]) == j);
            assert(nfts@[at as int]@ == before[at as int]);
            if j > 0 {
                let leq = pair_order();
                assert(leq(order@[j - 1], order@[j as int]));
            }
            assert(stop - cursor == slice_seconds(order@, j as int, from, to));
        }
        let part: u128 = match checked_reward_in_time(
            cursor,
            stop,
            reward_per_second,
            term.percent,
            count,
        ) {
            Some(part) => part,
            None => {
                proof {
                    assert(!step_fits(
                        before,
                        tier_order(before, term.value),
                        j as int,
                        from,
                        to,
                        reward_per_second,
                        term.percent,
                    ));
                }
                return Err(overflow());
            },
        };
        assert(part == slice_share(order@, j as int, from, to, reward_per_second, term.percent));
        let total: u128 = match reward.checked_add(part) {
            Some(total) => total,
            None => {
                proof {
                    assert(!step_fits(
                        before,
                        tier_order(before, term.value),
                        j as int,
                        from,
                        to,
                        reward_per_second,
                        term.percent,
                    ));
                }
                return Err(overflow());
            },
        };
        let pending: u128 = match nfts[at].pending_reward.checked_add(total) {
            Some(pending) => pending,
            None => {
                proof {
                    assert(!step_fits(
                        before,
                        tier_order(before, term.value),
                        j as int,
                        from,
                        to,
                        reward_per_second,
                        term.percent,
                    ));
                }
                return Err(overflow());
            },
        };
        let ghost nfts_before = nfts@;
        let ghost ended_now = ended@;
        nfts[at].pending_reward = pending;
        if x.0 <= to {
            crate::ledger::mark_ended(nfts, ended, at);
        }
        proof {
            assert(nfts@[at as int]@ == swept(
                order@,
                before[at as int],
                from,
                to,
                reward_per_second,
                term.percent,
            ));
            assert forall|i: int| 0 <= i < before.len() implies (#[trigger] nfts@[i])@ == (
            if in_sweep(before[i], term.value) && rank_of(order@, before[i]) < j + 1 {
                swept(order@, before[i], from, to, reward_per_second, term.percent)
            } else {
                before[i]
            }) by {
                if i != at {
                    assert(nfts@[i] == nfts_before[i]);
                    if in_sweep(before[i], term.value) {
                        assert(order@[rank_of(order@, before[i])] == pair_of(before[i]));
                        assert(pair_of(before[i]).1 != x.1);
                    }
                }
            }
            assert forall|k: u64| #[trigger]
                ended@.contains(k) <==> (ended_before.contains(k) || (ends_in_sweep(
                    before,
                    term.value,
                    to,
                    k,
                ) && rank_of(order@, before[k - 1]) < j + 1)) by {
                if x.0 <= to {
                    assert(ended@ == ended_now.push(x.1));
                    if ended@.contains(k) {
                        let i = choose|i: int| 0 <= i < ended@.len() && ended@[i] == k;
                        if i < ended_now.len() {
                            assert(ended_now[i] == k);
                            assert(ended_now.contains(k));
                        }
                    }
                    if ended_now.contains(k) {
                        let i = choose|i: int| 0 <= i < ended_now.len() && ended_now[i] == k;
                        assert(ended@[i] == k);
                    }
                    if k == x.1 {
                        assert(ended@[ended_now.len() as int] == k);
                    }
                }
                if ends_in_sweep(before, term.value, to, k) && k != x.1 {
                    assert(order@[rank_of(order@, before[k - 1])] == pair_of(before[k - 1]));
                }
            }
        }
        reward = total;
        cursor = stop;
        j += 1;
    }
    proof {
        lemma_tier_order(before, term.value);
        assert(nfts_view(nfts@) =~= swept_tier(before, term, from, to, reward_per_second));
    }
    Ok(())
}

/// The tier that a lockup duration selects: the first of the table with
/// that duration.
pub open spec fn term_for(terms: Seq<LockupTerm>, value: u64) -> Option<LockupTerm>
    decreases terms.len(),
{
    if terms.len() == 0 {
        None
    } else {
        match term_for(terms.drop_last(), value) {
            Some(term) => Some(term),
            None => if terms.last().value == value {
                Some(terms.last())
            } else {
                None
            },
        }
    }
}

/// The tier that `value` selects is a tier of that duration.
pub proof fn lemma_term_for(terms: Seq<LockupTerm>, value: u64)
    ensures
        term_for(terms, value) matches Some(term) ==> term.value == value && terms.contains(term),
        term_for(terms, value).is_none() ==> forall|t: int|
            0 <= t < terms.len() ==> (#[trigger] terms[t]).value != value,
    decreases terms.len(),
{
    if terms.len() > 0 {
        lemma_term_for(terms.drop_last(), value);
        match term_for(terms.drop_last(), value) {
            Some(term) => {
                let t = choose|t: int|
                    0 <= t < terms.drop_last().len() && terms.drop_last()[t] == term;
                assert(terms[t] == term);
            },
            None => {
                if terms.last().value == value {
                    assert(terms[terms.len() - 1] == terms.last());
                } else {
                    assert forall|t: int| 0 <= t < terms.len() implies (#[trigger] terms[t]).value
                        != value by {
                        if t < terms.len() - 1 {
                            assert(terms.drop_last()[t] == terms[t]);
                        }
                    }
                }
            },
        }
    }
}

/// Looks a lockup duration up among the first `upto` tiers of the table.
pub fn find_term(terms: &Vec<LockupTerm>, upto: usize, value: u64) -> (r: Option<LockupTerm>)
    requires
        upto <= terms.len(),
    ensures
        r == term_for(terms@.subrange(0, upto as int), value),
{
    let mut t: usize = 0;
    while t < upto
        invariant
            t <= upto <= terms.len(),
            term_for(terms@.subrange(0, t as int), value).is_none(),
        decreases upto - t,
    {
        proof {
            assert(terms@.subrange(0, t + 1).drop_last() =~= terms@.subrange(0, t as int));
        }
        if terms[t].value == value {
            proof {
                lemma_term_prefix(terms@, t + 1, upto as int, value);
            }
            return Some(terms[t]);
        }
        t += 1;
    }
    None
}

/// A tier found among the first `a` tiers is the tier found among the
/// first `b`, for `a <= b`.
pub proof fn lemma_term_prefix(terms: Seq<LockupTerm>, a: int, b: int, value: u64)
    requires
        0 <= a <= b <= terms.len(),
        term_for(terms.subrange(0, a), value).is_some(),
    ensures
        term_for(terms.subrange(0, b), value) == term_for(terms.subrange(0, a), value),
    decreases b - a,
{
    if a < b {
        lemma_term_prefix(terms, a, b - 1, value);
        assert(terms.subrange(0, b).drop_last() =~= terms.subrange(0, b - 1));
    }
}

/// A position after a pass over the window from `from` to `to`: swept with
/// its tier if its lockup had not ended and the table has its tier,
/// unchanged otherwise.
pub open spec fn accrued_nft(
    nfts: Seq<NftInfoView>,
    terms: Seq<LockupTerm>,
    n: NftInfoView,
    from: u64,
    to: u64,
    reward_per_second: u128,
) -> NftInfoView {
    match term_for(terms, n.lockup_term.value) {
        Some(term) => if n.is_end_reward {
            n
        } else {
            swept(tier_order(nfts, term.value), n, from, to, reward_per_second, term.percent)
        },
        None => n,
    }
}

/// The ledger after a pass over the window from `from` to `to`.
pub open spec fn accrued_nfts(
    nfts: Seq<NftInfoView>,
    terms: Seq<LockupTerm>,
    from: u64,
    to: u64,
    reward_per_second: u128,
) -> Seq<NftInfoView> {
    Seq::new(nfts.len(), |i: int| accrued_nft(nfts, terms, nfts[i], from, to, reward_per_second))
}

/// Whether tier `t` is the first of the table with its duration.
pub open spec fn leads(terms: Seq<LockupTerm>, t: int) -> bool {
    term_for(terms.subrange(0, t), terms[t].value).is_none()
}

/// Whether the numbers of a whole pass fit: those of the sweep of every
/// tier that is the first with its duration.
pub open spec fn pass_fits(
    nfts: Seq<NftInfoView>,
    terms: Seq<LockupTerm>,
    from: u64,
    to: u64,
    reward_per_second: u128,
) -> bool {
    forall|t: int|
        0 <= t < terms.len() && #[trigger] leads(terms, t) ==> tier_fits(
            nfts,
            terms[t].value,
            from,
            to,
            reward_per_second,
            terms[t].percent,
        )
}

/// The time up to which a pass at `now` shares rewards out: `now`, but not
/// beyond the end of the campaign.
pub open spec fn effective_now(now: u64, end_time: u64) -> u64 {
    if now < end_time {
        now
    } else {
        end_time
    }
}

impl CampaignView {
    /// Whether a pass at `now` has anything to do: its time lies after the
    /// time up to which rewards have been shared out.
    pub open spec fn accrual_due(self, now: u64) -> bool {
        self.info.time_calc_nft < effective_now(now, self.info.end_time)
    }

    /// Whether the numbers of a pass at `now` fit.
    pub open spec fn accrual_fits(self, now: u64) -> bool {
        self.accrual_due(now) ==> pass_fits(
            self.nfts,
            self.info.lockup_term,
            self.info.time_calc_nft,
            effective_now(now, self.info.end_time),
            self.info.reward_per_second,
        )
    }

    /// The campaign after a pass at `now`.
    pub open spec fn accrued(self, now: u64) -> CampaignView {
        if self.accrual_due(now) {
            let to = effective_now(now, self.info.end_time);
            let nfts = accrued_nfts(
                self.nfts,
                self.info.lockup_term,
                self.info.time_calc_nft,
                to,
                self.info.reward_per_second,
            );
            CampaignView {
                info: CampaignInfoView {
                    time_calc_nft: to,
                    end_calc_nft: Set::new(
                        |k: u64| 1 <= k <= nfts.len() && nfts[k - 1].is_end_reward,
                    ),
                    ..self.info
                },
                nfts,
                stakers: self.stakers,
            }
        } else {
            self
        }
    }
}

/// Sweeps in the same ledger reach the same positions when the ledgers
/// agree on the positions of the tier and on every duration.
pub proof fn lemma_open_pairs_agree(a: Seq<NftInfoView>, b: Seq<NftInfoView>, value: u64)
    requires
        a.len() == b.len(),
        forall|i: int|
            0 <= i < a.len() ==> (#[trigger] a[i]).lockup_term.value == b[i].lockup_term.value,
        forall|i: int|
            0 <= i < a.len() && (#[trigger] a[i]).lockup_term.value == value ==> a[i] == b[i],
    ensures
        open_pairs(a, value) == open_pairs(b, value),
    decreases a.len(),
{
    if a.len() > 0 {
        assert(a.drop_last().len() == b.drop_last().len());
        assert forall|i: int| 0 <= i < a.drop_last().len() implies (#[trigger] a.drop_last()[i])
            == a[i] && b.drop_last()[i] == b[i] by {}
        lemma_open_pairs_agree(a.drop_last(), b.drop_last(), value);
        assert(a.last() == a[a.len() - 1]);
        assert(b.last() == b[a.len() - 1]);
    }
}

/// Runs a pass at `now` in place. When it fails the campaign is left as
/// far as the pass had come.
pub(crate) fn run_pass(campaign: &mut Campaign, now: u64) -> (r: Result<(), ContractError>)
    requires
        old(campaign)@.wf(),
    ensures
        r.is_ok() <==> old(campaign)@.accrual_fits(now),
        r matches Err(e) ==> e@ == overflow_error(),
        r.is_ok() ==> final(campaign)@ == old(campaign)@.accrued(now),
        r.is_ok() ==> final(campaign)@.wf(),
{
    let to: u64 = if now < campaign.info.end_time {
        now
    } else {
        campaign.info.end_time
    };
    if to <= campaign.info.time_calc_nft {
        return Ok(());
    }
    let from: u64 = campaign.info.time_calc_nft;
    let reward_per_second: u128 = campaign.info.reward_per_second;
    let ghost start = campaign@;
    let ghost terms = campaign.info.lockup_term@;
    let count: usize = campaign.info.lockup_term.len();
    let mut t: usize = 0;
    proof {
        assert forall|k: u64| #[trigger]
            campaign.info.end_calc_nft@.contains(k) <==> (1 <= k <= start.nfts.len()
                && campaign.nfts@[k - 1].is_end_reward) by {
            assert(start.info.end_calc_nft.contains(k)
                <==> campaign.info.end_calc_nft@.contains(k));
            if 1 <= k <= start.nfts.len() {
                assert(start.nfts[k - 1] == campaign.nfts@[k - 1]@);
            }
        }
        assert(terms.subrange(0, 0) =~= Seq::<LockupTerm>::empty());
    }
    while t < count
        invariant
            t <= count,
            count == terms.len(),
            from < to,
            start == old(campaign)@,
            start.wf(),
            terms == start.info.lockup_term,
            from == start.info.time_calc_nft,
            to == effective_now(now, start.info.end_time),
            reward_per_second == start.info.reward_per_second,
            campaign.info.lockup_term@ == terms,
            campaign@.stakers == start.stakers,
            campaign@.info == (CampaignInfoView {
                end_calc_nft: campaign@.info.end_calc_nft,
                ..start.info
            }),
            campaign.nfts@.len() == start.nfts.len(),
            forall|u: int|
                0 <= u < t && #[trigger] leads(terms, u) ==> tier_fits(
                    start.nfts,
                    terms[u].value,
                    from,
                    to,
                    reward_per_second,
                    terms[u].percent,
                ),
            forall|i: int|
                0 <= i < start.nfts.len() ==> (#[trigger] campaign.nfts@[i])@ == accrued_nft(
                    start.nfts,
                    terms.subrange(0, t as int),
                    start.nfts[i],
                    from,
                    to,
                    reward_per_second,
                ),
            forall|k: u64| #[trigger]
                campaign.info.end_calc_nft@.contains(k) <==> (1 <= k <= start.nfts.len()
                    && campaign.nfts@[k - 1].is_end_reward),
        decreases count - t,
    {
        let term: LockupTerm = campaign.info.lockup_term[t];
        let earlier = find_term(&campaign.info.lockup_term, t, term.value);
        let ghost cur = nfts_view(campaign.nfts@);
        let ghost ended = campaign.info.end_calc_nft@;
        proof {
            assert(terms.subrange(0, t + 1).drop_last() =~= terms.subrange(0, t as int));
            assert(terms.subrange(0, t + 1).last() == term);
            assert(keyed(cur)) by {
                assert forall|i: int| 0 <= i < cur.len() implies (#[trigger] cur[i]).key == i
                    + 1 by {
                    assert(campaign.nfts@[i]@.key == start.nfts[i].key);
                }
            }
        }
        if earlier.is_none() {
            proof {
                assert forall|i: int| 0 <= i < cur.len() implies (
                #[trigger] cur[i]).lockup_term.value == start.nfts[i].lockup_term.value by {
                    assert(campaign.nfts@[i]@ == cur[i]);
                }
                assert forall|i: int|
                    0 <= i < cur.len() && (#[trigger] cur[i]).lockup_term.value
                        == term.value implies cur[i] == start.nfts[i] by {
                    assert(campaign.nfts@[i]@ == cur[i]);
                }
                lemma_open_pairs_agree(cur, start.nfts, term.value);
                lemma_tier_order(start.nfts, term.value);
                let order = tier_order(start.nfts, term.value);
                assert(tier_order(cur, term.value) == order);
                assert forall|r: int| 0 <= r < order.len() implies #[trigger] step_fits(
                    cur,
                    order,
                    r,
                    from,
                    to,
                    reward_per_second,
                    term.percent,
                ) == step_fits(
                    start.nfts,
                    order,
                    r,
                    from,
                    to,
                    reward_per_second,
                    term.percent,
                ) by {
                    let x = order[r];
                    assert(campaign.nfts@[x.1 - 1]@ == cur[x.1 - 1]);
                    assert(cur[x.1 - 1] == start.nfts[x.1 - 1]);
                }
                if tier_fits(cur, term.value, from, to, reward_per_second, term.percent) {
                    assert forall|r: int| 0 <= r < order.len() implies #[trigger] step_fits(
                        start.nfts,
                        order,
                        r,
                        from,
                        to,
                        reward_per_second,
                        term.percent,
                    ) by {
                        assert(step_fits(cur, order, r, from, to, reward_per_second, term.percent));
                    }
                }
                if tier_fits(start.nfts, term.value, from, to, reward_per_second, term.percent) {
                    assert forall|r: int| 0 <= r < order.len() implies #[trigger] step_fits(
                        cur,
                        order,
                        r,
                        from,
                        to,
                        reward_per_second,
                        term.percent,
                    ) by {
                        assert(step_fits(
                            start.nfts,
                            order,
                            r,
                            from,
                            to,
                            reward_per_second,
                            term.percent,
                        ));
                    }
                }
            }
            match sweep_tier(
                &mut campaign.nfts,
                &mut campaign.info.end_calc_nft,
                term,
                reward_per_second,
                from,
                to,
            ) {
                Ok(()) => {},
                Err(e) => {
                    proof {
                        assert(leads(terms, t as int));
                    }
                    return Err(e);
                },
            }
            proof {
                let after = nfts_view(campaign.nfts@);
                assert(after == swept_tier(cur, term, from, to, reward_per_second));
                assert(after.len() == cur.len());
                assert(campaign.nfts@.len() == cur.len());
                assert forall|i: int| 0 <= i < start.nfts.len() implies (
                #[trigger] campaign.nfts@[i])@ == accrued_nft(
                    start.nfts,
                    terms.subrange(0, t + 1),
                    start.nfts[i],
                    from,
                    to,
                    reward_per_second,
                ) by {
                    assert(campaign.nfts@[i]@ == after[i]);
                    lemma_term_for(terms.subrange(0, t as int), start.nfts[i].lockup_term.value);
                }
                assert forall|k: u64| #[trigger]
                    campaign.info.end_calc_nft@.contains(k) <==> (1 <= k <= start.nfts.len()
                        && campaign.nfts@[k - 1].is_end_reward) by {
                    if 1 <= k <= start.nfts.len() {
                        assert(campaign.nfts@[k - 1]@ == after[k - 1]);
                        assert(cur[k - 1].is_end_reward <==> ended.contains(k));
                    }
                }
                assert(leads(terms, t as int));
            }
        } else {
            proof {
                assert(!leads(terms, t as int));
                assert forall|i: int| 0 <= i < start.nfts.len() implies (
                #[trigger] campaign.nfts@[i])@ == accrued_nft(
                    start.nfts,
                    terms.subrange(0, t + 1),
                    start.nfts[i],
                    from,
                    to,
                    reward_per_second,
                ) by {
                    lemma_term_for(terms.subrange(0, t as int), term.value);
                }
            }
        }
        t += 1;
    }
    campaign.info.update(UpdateCampaign::UpdateTimeCalc(to));
    proof {
        assert(terms.subrange(0, t as int) =~= terms);
        let goal = start.accrued(now);
        assert(campaign@.nfts =~= goal.nfts);
        assert forall|k: u64|
            campaign@.info.end_calc_nft.contains(k) <==> goal.info.end_calc_nft.contains(k) by {
            assert(campaign@.info.end_calc_nft.contains(k)
                <==> campaign.info.end_calc_nft@.contains(k));
            if 1 <= k <= start.nfts.len() {
                assert(campaign.nfts@[k - 1]@ == goal.nfts[k - 1]);
            }
        }
        assert(campaign@.info.end_calc_nft =~= goal.info.end_calc_nft);
        assert(campaign@.info == goal.info);
        assert(pass_fits(start.nfts, terms, from, to, reward_per_second));
    }
    Ok(())
}

/// Brings the rewards of the campaign up to `now`, or up to the end of the
/// campaign where `now` lies after it: every tier is swept over the time
/// since the last pass. Nothing happens where that time is empty. Fails,
/// and leaves the campaign unchanged, when a number of the pass does not
/// fit.
pub fn accrue(campaign: &mut Campaign, now: u64) -> (r: Result<(), ContractError>)
    requires
        old(campaign)@.wf(),
    ensures
        final(campaign)@.wf(),
        match r {
            Ok(()) => old(campaign)@.accrual_fits(now)
                && final(campaign)@ == old(campaign)@.accrued(now),
            Err(e) => !old(campaign)@.accrual_fits(now) && e@ == overflow_error()
                && final(campaign)@ == old(campaign)@,
        },
{
    let mut work = campaign.duplicate();
    match run_pass(&mut work, now) {
        Err(e) => Err(e),
        Ok(()) => {
            *campaign = work;
            Ok(())
        },
    }
}

} // verus!
