//! Where the reward goes: a pass hands out no more than the reward of its
//! window and holds back less than one unit for each share, every call
//! keeps the books of a campaign in order, and a withdrawal settles them.

use crate::accrual::{
    accrued_nfts, cut, effective_now, gain_of, gain_upto, in_sweep, keyed, leads,
    lemma_open_pairs_agree, lemma_term_for, lemma_tier_order, pair_of, pair_order, pass_fits,
    rank_of, slice_seconds, slice_share, step_fits, swept, swept_tier, tier_fits, tier_order,
};
use crate::contract::{instantiated, payout};
use crate::msg::{CampaignInfoUpdateView, EnvView, InstantiateMsgView, MessageInfoView};
use crate::rewards::{index_folded, index_pending, total_debt, total_pending};
use crate::staking::owner_reported;
use crate::state::{
    lemma_staker_at, staker_at, CampaignView, LockupTerm, NftInfoView, NftStakeView, StakerView,
    UnStakeNftView,
};
use crate::utils::slice_reward;
use vstd::prelude::*;
use vstd::relations::sorted_by;

verus! {

/// The reward of a tier for the whole window of a sweep: `percent`
/// hundredths of the reward rate for every second, rounded down.
pub open spec fn tier_budget(from: u64, to: u64, reward_per_second: u128, percent: u128) -> int {
    slice_reward(to - from, reward_per_second as int, percent as int, 1)
}

/// Sum of what the positions of the first `k` ranks receive from a sweep.
pub open spec fn ranks_gain(
    order: Seq<(u64, u64)>,
    k: int,
    from: u64,
    to: u64,
    reward_per_second: u128,
    percent: u128,
) -> int
    decreases k,
{
    if k <= 0 {
        0
    } else {
        ranks_gain(order, k - 1, from, to, reward_per_second, percent) + gain_upto(
            order,
            k,
            from,
            to,
            reward_per_second,
            percent,
        )
    }
}

/// The end of the slice of rank `k - 1`, or the start of the window for
/// `k = 0`.
pub open spec fn reached(order: Seq<(u64, u64)>, k: int, from: u64, to: u64) -> int {
    if k <= 0 {
        from as int
    } else {
        cut(order[k - 1].0, from, to) as int
    }
}

/// The slices of a sweep follow one another within the window.
proof fn lemma_reached(order: Seq<(u64, u64)>, k: int, from: u64, to: u64)
    requires
        sorted_by(order, pair_order()),
        from <= to,
        0 <= k < order.len(),
    ensures
        from <= reached(order, k, from, to) <= reached(order, k + 1, from, to) <= to,
        slice_seconds(order, k, from, to) == reached(order, k + 1, from, to) - reached(
            order,
            k,
            from,
            to,
        ),
{
    if k > 0 {
        let leq = pair_order();
        assert(leq(order[k - 1], order[k]));
    }
}

/// No share of a slice is negative.
proof fn lemma_share_floor(
    order: Seq<(u64, u64)>,
    k: int,
    from: u64,
    to: u64,
    reward_per_second: u128,
    percent: u128,
)
    requires
        sorted_by(order, pair_order()),
        from <= to,
        0 <= k < order.len(),
    ensures
        0 <= slice_share(order, k, from, to, reward_per_second, percent),
{
    lemma_reached(order, k, from, to);
    let seconds = slice_seconds(order, k, from, to);
    let rate = reward_per_second as int;
    let pct = percent as int;
    let count = order.len() - k;
    assert(seconds * rate * pct >= 0) by (nonlinear_arith)
        requires
            seconds >= 0,
            rate >= 0,
            pct >= 0,
    ;
    assert(((seconds * rate * pct) / 100) / count >= 0) by (nonlinear_arith)
        requires
            seconds * rate * pct >= 0,
            count > 0,
    ;
}

/// No position loses by a sweep.
pub proof fn lemma_gain_floor(
    order: Seq<(u64, u64)>,
    k: int,
    from: u64,
    to: u64,
    reward_per_second: u128,
    percent: u128,
)
    requires
        sorted_by(order, pair_order()),
        from <= to,
        0 <= k <= order.len(),
    ensures
        0 <= gain_upto(order, k, from, to, reward_per_second, percent),
    decreases k,
{
    if k > 0 {
        lemma_gain_floor(order, k - 1, from, to, reward_per_second, percent);
        lemma_share_floor(order, k - 1, from, to, reward_per_second, percent);
    }
}

/// What the first `k` slices of a sweep hand out, to the positions that
/// have ended with them and to those still open, is no more than the
/// reward of the tier for the time of those slices.
proof fn lemma_slices_bounded(
    order: Seq<(u64, u64)>,
    k: int,
    from: u64,
    to: u64,
    reward_per_second: u128,
    percent: u128,
)
    requires
        sorted_by(order, pair_order()),
        from <= to,
        0 <= k <= order.len(),
    ensures
        0 <= ranks_gain(order, k, from, to, reward_per_second, percent),
        ranks_gain(order, k, from, to, reward_per_second, percent) + (order.len() - k) * gain_upto(
            order,
            k,
            from,
            to,
            reward_per_second,
            percent,
        ) <= ((reached(order, k, from, to) - from) * (reward_per_second as int) * (percent as int))
            / 100,
    decreases k,
{
    let rate = reward_per_second as int;
    let pct = percent as int;
    let n = order.len() as int;
    if k <= 0 {
        assert((order.len() - 0) * 0 == 0) by (nonlinear_arith);
        assert((0 * rate * pct) / 100 == 0) by (nonlinear_arith);
    } else {
        let j = k - 1;
        lemma_slices_bounded(order, j, from, to, reward_per_second, percent);
        lemma_reached(order, j, from, to);
        lemma_gain_floor(order, k, from, to, reward_per_second, percent);
        lemma_gain_floor(order, j, from, to, reward_per_second, percent);
        lemma_share_floor(order, j, from, to, reward_per_second, percent);
        let before = ranks_gain(order, j, from, to, reward_per_second, percent);
        let gained = gain_upto(order, j, from, to, reward_per_second, percent);
        let share = slice_share(order, j, from, to, reward_per_second, percent);
        let seconds = slice_seconds(order, j, from, to);
        let done = reached(order, j, from, to) - from;
        let whole = seconds * rate * pct;
        let count = n - j;
        assert(share == (whole / 100) / count);
        assert(whole >= 0) by (nonlinear_arith)
            requires
                whole == seconds * rate * pct,
                seconds >= 0,
                rate >= 0,
                pct >= 0,
        ;
        // the positions still open each receive the share of the slice
        assert(count * share <= whole / 100) by (nonlinear_arith)
            requires
                share == (whole / 100) / count,
                count > 0,
                whole >= 0,
        ;
        assert((n - k) * (gained + share) + (gained + share) == count * gained + count * share)
            by (nonlinear_arith)
            requires
                count == n - k + 1,
        ;
        let earlier = done * rate * pct;
        assert(earlier >= 0) by (nonlinear_arith)
            requires
                earlier == done * rate * pct,
                done >= 0,
                rate >= 0,
                pct >= 0,
        ;
        assert((done + seconds) * rate * pct == earlier + whole) by (nonlinear_arith)
            requires
                earlier == done * rate * pct,
                whole == seconds * rate * pct,
        ;
        assert(earlier / 100 + whole / 100 <= (earlier + whole) / 100) by (nonlinear_arith)
            requires
                earlier >= 0,
                whole >= 0,
        ;
        assert(reached(order, k, from, to) - from == done + seconds);
    }
}

/// What a sweep hands out to all positions of a tier is no more than the
/// reward of the tier for the window: rounding only holds reward back.
pub proof fn lemma_sweep_bounded(
    order: Seq<(u64, u64)>,
    from: u64,
    to: u64,
    reward_per_second: u128,
    percent: u128,
)
    requires
        sorted_by(order, pair_order()),
        from <= to,
    ensures
        0 <= ranks_gain(order, order.len() as int, from, to, reward_per_second, percent)
            <= tier_budget(from, to, reward_per_second, percent),
{
    let rate = reward_per_second as int;
    let pct = percent as int;
    let n = order.len() as int;
    lemma_slices_bounded(order, n, from, to, reward_per_second, percent);
    let done = reached(order, n, from, to) - from;
    if n > 0 {
        lemma_reached(order, n - 1, from, to);
    }
    assert((n - n) * gain_upto(order, n, from, to, reward_per_second, percent) == 0)
        by (nonlinear_arith);
    assert((done * rate * pct) / 100 <= ((to - from) * rate * pct) / 100) by (nonlinear_arith)
        requires
            0 <= done <= to - from,
            rate >= 0,
            pct >= 0,
    ;
    assert((((to - from) * rate * pct) / 100) / 1 == ((to - from) * rate * pct) / 100);
}

/// Number of the shares into which the first `k` slices of a sweep of `n`
/// positions are divided: the slice of rank `q` among `n - q` positions.
pub open spec fn divisions(n: int, k: int) -> int
    decreases k,
{
    if k <= 0 {
        0
    } else {
        divisions(n, k - 1) + (n - (k - 1))
    }
}

/// What the first `k` slices of a sweep hand out, to the positions that
/// have ended with them and to those still open, falls short of the reward
/// of the tier for the time of those slices by less than one unit for each
/// share.
proof fn lemma_slices_floor(
    order: Seq<(u64, u64)>,
    k: int,
    from: u64,
    to: u64,
    reward_per_second: u128,
    percent: u128,
)
    requires
        sorted_by(order, pair_order()),
        from <= to,
        0 <= k <= order.len(),
    ensures
        0 <= divisions(order.len() as int, k),
        ranks_gain(order, k, from, to, reward_per_second, percent) + (order.len() - k) * gain_upto(
            order,
            k,
            from,
            to,
            reward_per_second,
            percent,
        ) >= ((reached(order, k, from, to) - from) * (reward_per_second as int) * (percent as int))
            / 100 - divisions(order.len() as int, k),
    decreases k,
{
    let rate = reward_per_second as int;
    let pct = percent as int;
    let n = order.len() as int;
    if k <= 0 {
        assert((order.len() - 0) * 0 == 0) by (nonlinear_arith);
        assert((0 * rate * pct) / 100 == 0) by (nonlinear_arith);
    } else {
        let j = k - 1;
        lemma_slices_floor(order, j, from, to, reward_per_second, percent);
        lemma_reached(order, j, from, to);
        let gained = gain_upto(order, j, from, to, reward_per_second, percent);
        let share = slice_share(order, j, from, to, reward_per_second, percent);
        let seconds = slice_seconds(order, j, from, to);
        let done = reached(order, j, from, to) - from;
        let whole = seconds * rate * pct;
        let count = n - j;
        assert(share == (whole / 100) / count);
        assert(whole >= 0) by (nonlinear_arith)
            requires
                whole == seconds * rate * pct,
                seconds >= 0,
                rate >= 0,
                pct >= 0,
        ;
        assert(count * share >= whole / 100 - (count - 1)) by (nonlinear_arith)
            requires
                share == (whole / 100) / count,
                count > 0,
                whole >= 0,
        ;
        assert((n - k) * (gained + share) + (gained + share) == count * gained + count * share)
            by (nonlinear_arith)
            requires
                count == n - k + 1,
        ;
        let earlier = done * rate * pct;
        assert(earlier >= 0) by (nonlinear_arith)
            requires
                earlier == done * rate * pct,
                done >= 0,
                rate >= 0,
                pct >= 0,
        ;
        assert((done + seconds) * rate * pct == earlier + whole) by (nonlinear_arith)
            requires
                earlier == done * rate * pct,
                whole == seconds * rate * pct,
        ;
        assert(earlier / 100 + whole / 100 >= (earlier + whole) / 100 - 1) by (nonlinear_arith)
            requires
                earlier >= 0,
                whole >= 0,
        ;
        assert(reached(order, k, from, to) - from == done + seconds);
    }
}

/// The reward of a tier for the time that a sweep covers: from the start
/// of the window to the end of the last position.
pub open spec fn swept_budget(
    order: Seq<(u64, u64)>,
    from: u64,
    to: u64,
    reward_per_second: u128,
    percent: u128,
) -> int {
    slice_reward(
        reached(order, order.len() as int, from, to) - from,
        reward_per_second as int,
        percent as int,
        1,
    )
}

/// What a sweep hands out to all positions of a tier falls short of the
/// reward of the tier for the time covered by less than one unit for each
/// share.
pub proof fn lemma_sweep_floor(
    order: Seq<(u64, u64)>,
    from: u64,
    to: u64,
    reward_per_second: u128,
    percent: u128,
)
    requires
        sorted_by(order, pair_order()),
        from <= to,
    ensures
        ranks_gain(order, order.len() as int, from, to, reward_per_second, percent)
            >= swept_budget(order, from, to, reward_per_second, percent) - divisions(
            order.len() as int,
            order.len() as int,
        ),
{
    let n = order.len() as int;
    let rate = reward_per_second as int;
    let pct = percent as int;
    lemma_slices_floor(order, n, from, to, reward_per_second, percent);
    let done = reached(order, n, from, to) - from;
    assert((n - n) * gain_upto(order, n, from, to, reward_per_second, percent) == 0)
        by (nonlinear_arith);
    assert(((done * rate * pct) / 100) / 1 == (done * rate * pct) / 100);
}

/// The ledger while a tier is swept: the positions of the first `j` ranks
/// have been swept, the others not yet.
pub open spec fn partly_swept(
    nfts: Seq<NftInfoView>,
    term: LockupTerm,
    j: int,
    from: u64,
    to: u64,
    reward_per_second: u128,
) -> Seq<NftInfoView> {
    Seq::new(
        nfts.len(),
        |i: int|
            if in_sweep(nfts[i], term.value) && rank_of(tier_order(nfts, term.value), nfts[i])
                < j {
                swept(
                    tier_order(nfts, term.value),
                    nfts[i],
                    from,
                    to,
                    reward_per_second,
                    term.percent,
                )
            } else {
                nfts[i]
            },
    )
}

/// Replacing one position changes the sum of the pending rewards by the
/// difference of its pending reward.
pub proof fn lemma_total_pending_update(nfts: Seq<NftInfoView>, i: int, n: NftInfoView)
    requires
        0 <= i < nfts.len(),
    ensures
        total_pending(nfts.update(i, n)) == total_pending(nfts) - nfts[i].pending_reward
            + n.pending_reward,
    decreases nfts.len(),
{
    let after = nfts.update(i, n);
    if i == nfts.len() - 1 {
        assert(after.drop_last() =~= nfts.drop_last());
    } else {
        lemma_total_pending_update(nfts.drop_last(), i, n);
        assert(after.drop_last() =~= nfts.drop_last().update(i, n));
    }
}

/// While a tier is swept, the pending rewards of the ledger have grown by
/// what the positions swept so far have received.
proof fn lemma_partly_swept(
    nfts: Seq<NftInfoView>,
    term: LockupTerm,
    j: int,
    from: u64,
    to: u64,
    reward_per_second: u128,
)
    requires
        keyed(nfts),
        from <= to,
        tier_fits(nfts, term.value, from, to, reward_per_second, term.percent),
        0 <= j <= tier_order(nfts, term.value).len(),
    ensures
        total_pending(partly_swept(nfts, term, j, from, to, reward_per_second)) == total_pending(
            nfts,
        ) + ranks_gain(tier_order(nfts, term.value), j, from, to, reward_per_second, term.percent),
    decreases j,
{
    let order = tier_order(nfts, term.value);
    lemma_tier_order(nfts, term.value);
    if j == 0 {
        assert(partly_swept(nfts, term, 0, from, to, reward_per_second) =~= nfts);
    } else {
        let r = j - 1;
        lemma_partly_swept(nfts, term, r, from, to, reward_per_second);
        let before = partly_swept(nfts, term, r, from, to, reward_per_second);
        let after = partly_swept(nfts, term, j, from, to, reward_per_second);
        let x = order[r];
        let at = x.1 - 1;
        let new = swept(order, nfts[at], from, to, reward_per_second, term.percent);
        assert(rank_of(order, nfts[at]) == r);
        assert(before[at] == nfts[at]);
        assert forall|i: int| 0 <= i < nfts.len() implies after[i] == before.update(at, new)[i] by {
            if i != at && in_sweep(nfts[i], term.value) {
                assert(order[rank_of(order, nfts[i])] == pair_of(nfts[i]));
                assert(pair_of(nfts[i]).1 != x.1);
            }
        }
        assert(after =~= before.update(at, new));
        lemma_total_pending_update(before, at, new);
        lemma_gain_floor(order, j, from, to, reward_per_second, term.percent);
        assert(step_fits(nfts, order, r, from, to, reward_per_second, term.percent));
        assert(gain_of(order, nfts[at], from, to, reward_per_second, term.percent) == gain_upto(
            order,
            j,
            from,
            to,
            reward_per_second,
            term.percent,
        ));
    }
}

/// The least that the sweep of a tier adds to the pending rewards of the
/// ledger: the reward of the tier for the time that the sweep covers, less
/// one unit for each share into which a slice is divided.
pub open spec fn tier_floor(
    nfts: Seq<NftInfoView>,
    term: LockupTerm,
    from: u64,
    to: u64,
    reward_per_second: u128,
) -> int {
    let order = tier_order(nfts, term.value);
    swept_budget(order, from, to, reward_per_second, term.percent) - divisions(
        order.len() as int,
        order.len() as int,
    )
}

/// What the sweep of a tier adds to the pending rewards of the ledger is
/// not negative, no more than the reward of the tier for the window, and
/// no less than that reward for the time covered, but for the rounding; a
/// tier without an open position adds nothing.
pub proof fn lemma_tier_bounded(
    nfts: Seq<NftInfoView>,
    term: LockupTerm,
    from: u64,
    to: u64,
    reward_per_second: u128,
)
    requires
        keyed(nfts),
        from <= to,
        tier_fits(nfts, term.value, from, to, reward_per_second, term.percent),
    ensures
        total_pending(nfts) <= total_pending(swept_tier(nfts, term, from, to, reward_per_second))
            <= total_pending(nfts) + tier_budget(from, to, reward_per_second, term.percent),
        total_pending(swept_tier(nfts, term, from, to, reward_per_second)) >= total_pending(nfts)
            + tier_floor(nfts, term, from, to, reward_per_second),
        tier_order(nfts, term.value).len() == 0 ==> total_pending(
            swept_tier(nfts, term, from, to, reward_per_second),
        ) == total_pending(nfts),
{
    let order = tier_order(nfts, term.value);
    let n = order.len() as int;
    lemma_tier_order(nfts, term.value);
    lemma_sweep_floor(order, from, to, reward_per_second, term.percent);
    lemma_partly_swept(nfts, term, n, from, to, reward_per_second);
    assert(partly_swept(nfts, term, n, from, to, reward_per_second) =~= swept_tier(
        nfts,
        term,
        from,
        to,
        reward_per_second,
    ));
    lemma_sweep_bounded(order, from, to, reward_per_second, term.percent);
}

/// The reward of the first `k` tiers of the table for the window of a
/// pass, each tier counted where it is the first with its duration.
pub open spec fn pass_budget(
    terms: Seq<LockupTerm>,
    k: int,
    from: u64,
    to: u64,
    reward_per_second: u128,
) -> int
    decreases k,
{
    if k <= 0 {
        0
    } else {
        pass_budget(terms, k - 1, from, to, reward_per_second) + if leads(terms, k - 1) {
            tier_budget(from, to, reward_per_second, terms[k - 1].percent)
        } else {
            0
        }
    }
}

/// Whether the tier with duration `value` has an open position: one of
/// that duration whose lockup has not ended.
pub open spec fn has_open(nfts: Seq<NftInfoView>, value: u64) -> bool {
    exists|i: int| 0 <= i < nfts.len() && in_sweep(#[trigger] nfts[i], value)
}

/// The sweep of a tier without an open position reaches nothing.
pub proof fn lemma_no_open(nfts: Seq<NftInfoView>, value: u64)
    requires
        keyed(nfts),
        !has_open(nfts, value),
    ensures
        tier_order(nfts, value).len() == 0,
{
    lemma_tier_order(nfts, value);
    let order = tier_order(nfts, value);
    if order.len() > 0 {
        let x = order[0];
        assert(in_sweep(nfts[x.1 - 1], value));
    }
}

/// The reward of a tier for a window is not negative.
pub proof fn lemma_tier_budget_floor(from: u64, to: u64, reward_per_second: u128, percent: u128)
    requires
        from <= to,
    ensures
        0 <= tier_budget(from, to, reward_per_second, percent),
{
    let seconds = to - from;
    let rate = reward_per_second as int;
    let pct = percent as int;
    assert((seconds * rate * pct) / 100 >= 0) by (nonlinear_arith)
        requires
            seconds >= 0,
            rate >= 0,
            pct >= 0,
    ;
    assert(((seconds * rate * pct) / 100) / 1 == (seconds * rate * pct) / 100);
}

/// The reward, for the window of a pass, of those of the first `k` tiers of
/// the table that have an open position, each tier counted where it is the
/// first with its duration.
pub open spec fn open_budget(
    nfts: Seq<NftInfoView>,
    terms: Seq<LockupTerm>,
    k: int,
    from: u64,
    to: u64,
    reward_per_second: u128,
) -> int
    decreases k,
{
    if k <= 0 {
        0
    } else {
        open_budget(nfts, terms, k - 1, from, to, reward_per_second) + if leads(terms, k - 1)
            && has_open(nfts, terms[k - 1].value) {
            tier_budget(from, to, reward_per_second, terms[k - 1].percent)
        } else {
            0
        }
    }
}

/// The reward, for the window of a pass, of those of the first `k` tiers of
/// the table that have an open position, every such tier counted.
pub open spec fn tiers_budget(
    nfts: Seq<NftInfoView>,
    terms: Seq<LockupTerm>,
    k: int,
    from: u64,
    to: u64,
    reward_per_second: u128,
) -> int
    decreases k,
{
    if k <= 0 {
        0
    } else {
        tiers_budget(nfts, terms, k - 1, from, to, reward_per_second) + if has_open(
            nfts,
            terms[k - 1].value,
        ) {
            tier_budget(from, to, reward_per_second, terms[k - 1].percent)
        } else {
            0
        }
    }
}

/// The reward of the tiers that have an open position is not negative, and
/// no more than that of all tiers; counting a duration once gives no more
/// than counting every tier.
pub proof fn lemma_open_budget(
    nfts: Seq<NftInfoView>,
    terms: Seq<LockupTerm>,
    k: int,
    from: u64,
    to: u64,
    reward_per_second: u128,
)
    requires
        from <= to,
        0 <= k <= terms.len(),
    ensures
        0 <= open_budget(nfts, terms, k, from, to, reward_per_second) <= pass_budget(
            terms,
            k,
            from,
            to,
            reward_per_second,
        ),
        open_budget(nfts, terms, k, from, to, reward_per_second) <= tiers_budget(
            nfts,
            terms,
            k,
            from,
            to,
            reward_per_second,
        ),
    decreases k,
{
    if k > 0 {
        lemma_open_budget(nfts, terms, k - 1, from, to, reward_per_second);
        lemma_tier_budget_floor(from, to, reward_per_second, terms[k - 1].percent);
    }
}

/// The least that the first `k` tiers of a pass add to the pending rewards
/// of the ledger.
pub open spec fn pass_floor(
    nfts: Seq<NftInfoView>,
    terms: Seq<LockupTerm>,
    k: int,
    from: u64,
    to: u64,
    reward_per_second: u128,
) -> int
    decreases k,
{
    if k <= 0 {
        0
    } else {
        pass_floor(nfts, terms, k - 1, from, to, reward_per_second) + if leads(terms, k - 1) {
            tier_floor(nfts, terms[k - 1], from, to, reward_per_second)
        } else {
            0
        }
    }
}

/// The ledger after the first `t` tiers of the table have been swept.
pub open spec fn swept_upto(
    nfts: Seq<NftInfoView>,
    terms: Seq<LockupTerm>,
    t: int,
    from: u64,
    to: u64,
    reward_per_second: u128,
) -> Seq<NftInfoView> {
    accrued_nfts(nfts, terms.subrange(0, t), from, to, reward_per_second)
}

/// Sweeping one more tier of the table sweeps it in the ledger as the
/// tiers before have left it, where it is the first with its duration, and
/// does nothing otherwise; what the tiers before have left fits if the
/// whole pass fits.
proof fn lemma_swept_upto_step(
    nfts: Seq<NftInfoView>,
    terms: Seq<LockupTerm>,
    t: int,
    from: u64,
    to: u64,
    reward_per_second: u128,
)
    requires
        keyed(nfts),
        0 <= t < terms.len(),
    ensures
        keyed(swept_upto(nfts, terms, t, from, to, reward_per_second)),
        !leads(terms, t) ==> swept_upto(nfts, terms, t + 1, from, to, reward_per_second)
            == swept_upto(nfts, terms, t, from, to, reward_per_second),
        leads(terms, t) ==> swept_upto(nfts, terms, t + 1, from, to, reward_per_second)
            == swept_tier(
            swept_upto(nfts, terms, t, from, to, reward_per_second),
            terms[t],
            from,
            to,
            reward_per_second,
        ),
        leads(terms, t) ==> (tier_fits(
            swept_upto(nfts, terms, t, from, to, reward_per_second),
            terms[t].value,
            from,
            to,
            reward_per_second,
            terms[t].percent,
        ) <==> tier_fits(nfts, terms[t].value, from, to, reward_per_second, terms[t].percent)),
        leads(terms, t) ==> tier_order(
            swept_upto(nfts, terms, t, from, to, reward_per_second),
            terms[t].value,
        ) == tier_order(nfts, terms[t].value),
{
    let before = swept_upto(nfts, terms, t, from, to, reward_per_second);
    let after = swept_upto(nfts, terms, t + 1, from, to, reward_per_second);
    let term = terms[t];
    let head = terms.subrange(0, t);
    assert(terms.subrange(0, t + 1).drop_last() =~= head);
    assert(terms.subrange(0, t + 1).last() == term);
    lemma_term_for(head, term.value);
    if leads(terms, t) {
        assert forall|i: int| 0 <= i < nfts.len() && (#[trigger] before[i]).lockup_term.value
            == term.value implies before[i] == nfts[i] by {}
        lemma_open_pairs_agree(before, nfts, term.value);
        let order = tier_order(nfts, term.value);
        assert(tier_order(before, term.value) == order);
        lemma_tier_order(nfts, term.value);
        assert forall|i: int| 0 <= i < nfts.len() implies after[i] == swept_tier(
            before,
            term,
            from,
            to,
            reward_per_second,
        )[i] by {
            lemma_term_for(head, nfts[i].lockup_term.value);
        }
        assert(after =~= swept_tier(before, term, from, to, reward_per_second));
        assert forall|r: int| 0 <= r < order.len() implies #[trigger] step_fits(
            before,
            order,
            r,
            from,
            to,
            reward_per_second,
            term.percent,
        ) == step_fits(nfts, order, r, from, to, reward_per_second, term.percent) by {
            let x = order[r];
            assert(before[x.1 - 1] == nfts[x.1 - 1]);
        }
        if tier_fits(before, term.value, from, to, reward_per_second, term.percent) {
            assert forall|r: int| 0 <= r < order.len() implies #[trigger] step_fits(
                nfts,
                order,
                r,
                from,
                to,
                reward_per_second,
                term.percent,
            ) by {
                assert(step_fits(before, order, r, from, to, reward_per_second, term.percent));
            }
        }
        if tier_fits(nfts, term.value, from, to, reward_per_second, term.percent) {
            assert forall|r: int| 0 <= r < order.len() implies #[trigger] step_fits(
                before,
                order,
                r,
                from,
                to,
                reward_per_second,
                term.percent,
            ) by {
                assert(step_fits(nfts, order, r, from, to, reward_per_second, term.percent));
            }
        }
    } else {
        assert forall|i: int| 0 <= i < nfts.len() implies after[i] == before[i] by {
            lemma_term_for(head, nfts[i].lockup_term.value);
        }
        assert(after =~= before);
    }
}

/// What the first `t` tiers of a pass add to the pending rewards of the
/// ledger is not negative and no more than the reward, for the window, of
/// those of them that have an open position.
pub proof fn lemma_pass_bounded(
    nfts: Seq<NftInfoView>,
    terms: Seq<LockupTerm>,
    t: int,
    from: u64,
    to: u64,
    reward_per_second: u128,
)
    requires
        keyed(nfts),
        from <= to,
        pass_fits(nfts, terms, from, to, reward_per_second),
        0 <= t <= terms.len(),
    ensures
        total_pending(nfts) <= total_pending(
            swept_upto(nfts, terms, t, from, to, reward_per_second),
        ) <= total_pending(nfts) + pass_budget(terms, t, from, to, reward_per_second),
        total_pending(swept_upto(nfts, terms, t, from, to, reward_per_second)) >= total_pending(
            nfts,
        ) + pass_floor(nfts, terms, t, from, to, reward_per_second),
        total_pending(swept_upto(nfts, terms, t, from, to, reward_per_second)) <= total_pending(
            nfts,
        ) + open_budget(nfts, terms, t, from, to, reward_per_second),
    decreases t,
{
    if t == 0 {
        assert(terms.subrange(0, 0) =~= Seq::<LockupTerm>::empty());
        assert(swept_upto(nfts, terms, 0, from, to, reward_per_second) =~= nfts);
    } else {
        lemma_pass_bounded(nfts, terms, t - 1, from, to, reward_per_second);
        lemma_swept_upto_step(nfts, terms, t - 1, from, to, reward_per_second);
        if leads(terms, t - 1) {
            if !has_open(nfts, terms[t - 1].value) {
                lemma_no_open(nfts, terms[t - 1].value);
            }
            lemma_tier_bounded(
                swept_upto(nfts, terms, t - 1, from, to, reward_per_second),
                terms[t - 1],
                from,
                to,
                reward_per_second,
            );
        }
    }
}

/// Sum of the percentages of the first `k` tiers of the table, each tier
/// counted where it is the first with its duration.
pub open spec fn leading_percent(terms: Seq<LockupTerm>, k: int) -> int
    decreases k,
{
    if k <= 0 {
        0
    } else {
        leading_percent(terms, k - 1) + if leads(terms, k - 1) {
            terms[k - 1].percent as int
        } else {
            0
        }
    }
}

/// The reward of the tiers for a window is no more than their share of
/// the reward rate for every second of it.
pub proof fn lemma_budget_bounded(
    terms: Seq<LockupTerm>,
    k: int,
    from: u64,
    to: u64,
    reward_per_second: u128,
)
    requires
        from <= to,
        0 <= k <= terms.len(),
    ensures
        0 <= leading_percent(terms, k),
        0 <= pass_budget(terms, k, from, to, reward_per_second) <= ((to - from) * (
        reward_per_second as int) * leading_percent(terms, k)) / 100,
    decreases k,
{
    let seconds = to - from;
    let rate = reward_per_second as int;
    if k <= 0 {
        assert((seconds * rate * 0) / 100 == 0) by (nonlinear_arith);
    } else {
        lemma_budget_bounded(terms, k - 1, from, to, reward_per_second);
        let sum = leading_percent(terms, k - 1);
        let pct = terms[k - 1].percent as int;
        let part = seconds * rate * sum;
        let more = seconds * rate * pct;
        assert(part >= 0 && more >= 0 && seconds * rate * (sum + pct) == part + more)
            by (nonlinear_arith)
            requires
                part == seconds * rate * sum,
                more == seconds * rate * pct,
                seconds >= 0,
                rate >= 0,
                sum >= 0,
                pct >= 0,
        ;
        assert(part / 100 + more / 100 <= (part + more) / 100 && more / 100 >= 0)
            by (nonlinear_arith)
            requires
                part >= 0,
                more >= 0,
        ;
        assert((more / 100) / 1 == more / 100);
    }
}

/// A pass adds to what the campaign owes no more than the reward, for the
/// window of the pass, of its tiers that have an open position, and takes
/// nothing away: rounding only holds reward back. Where the percentages
/// of the tiers come to no more than a hundred, that is no more than the
/// reward rate for every second of the window. And what rounding holds
/// back is less than one unit for each share into which a slice of a tier
/// is divided.
pub proof fn law_pass_bounded(c: CampaignView, now: u64)
    requires
        keyed(c.nfts),
        c.accrual_due(now),
        c.accrual_fits(now),
    ensures
        c.owed() <= c.accrued(now).owed() <= c.owed() + pass_budget(
            c.info.lockup_term,
            c.info.lockup_term.len() as int,
            c.info.time_calc_nft,
            effective_now(now, c.info.end_time),
            c.info.reward_per_second,
        ),
        leading_percent(c.info.lockup_term, c.info.lockup_term.len() as int) <= 100
            ==> c.accrued(now).owed() <= c.owed() + (effective_now(now, c.info.end_time)
            - c.info.time_calc_nft) * c.info.reward_per_second,
        c.accrued(now).owed() >= c.owed() + pass_floor(
            c.nfts,
            c.info.lockup_term,
            c.info.lockup_term.len() as int,
            c.info.time_calc_nft,
            effective_now(now, c.info.end_time),
            c.info.reward_per_second,
        ),
        c.accrued(now).owed() <= c.owed() + open_budget(
            c.nfts,
            c.info.lockup_term,
            c.info.lockup_term.len() as int,
            c.info.time_calc_nft,
            effective_now(now, c.info.end_time),
            c.info.reward_per_second,
        ),
        c.accrued(now).owed() <= c.owed() + tiers_budget(
            c.nfts,
            c.info.lockup_term,
            c.info.lockup_term.len() as int,
            c.info.time_calc_nft,
            effective_now(now, c.info.end_time),
            c.info.reward_per_second,
        ),
{
    let terms = c.info.lockup_term;
    let from = c.info.time_calc_nft;
    let to = effective_now(now, c.info.end_time);
    let rate = c.info.reward_per_second;
    lemma_pass_bounded(c.nfts, terms, terms.len() as int, from, to, rate);
    lemma_open_budget(c.nfts, terms, terms.len() as int, from, to, rate);
    assert(terms.subrange(0, terms.len() as int) =~= terms);
    lemma_budget_bounded(terms, terms.len() as int, from, to, rate);
    let sum = leading_percent(terms, terms.len() as int);
    if sum <= 100 {
        let whole = (to - from) * (rate as int);
        assert((whole * sum) / 100 <= whole) by (nonlinear_arith)
            requires
                0 <= sum <= 100,
                whole >= 0,
        ;
        assert(whole >= 0) by (nonlinear_arith)
            requires
                whole == (to - from) * (rate as int),
                to - from >= 0,
                rate >= 0,
        ;
    }
}

/// What the campaign owes at `now`, had the rewards been brought up to
/// then, is no less than what it owes as it stands, and no more than that
/// and the reward, for the time since the last pass, of the tiers that have
/// an open position.
pub proof fn law_owed_at_bounded(c: CampaignView, now: u64)
    requires
        keyed(c.nfts),
        c.info.time_calc_nft <= effective_now(now, c.info.end_time),
    ensures
        c.owed_at(now) matches Ok(owed) ==> {
            &&& c.owed() <= owed
            &&& owed <= c.owed() + open_budget(
                c.nfts,
                c.info.lockup_term,
                c.info.lockup_term.len() as int,
                c.info.time_calc_nft,
                effective_now(now, c.info.end_time),
                c.info.reward_per_second,
            )
            &&& owed <= c.owed() + tiers_budget(
                c.nfts,
                c.info.lockup_term,
                c.info.lockup_term.len() as int,
                c.info.time_calc_nft,
                effective_now(now, c.info.end_time),
                c.info.reward_per_second,
            )
        },
{
    let terms = c.info.lockup_term;
    let from = c.info.time_calc_nft;
    let to = effective_now(now, c.info.end_time);
    if c.owed_at(now).is_ok() {
        lemma_owed_floor(c);
        lemma_owed_floor(c.accrued(now));
        if c.accrual_due(now) {
            law_pass_bounded(c, now);
        } else {
            lemma_open_budget(
                c.nfts,
                terms,
                terms.len() as int,
                from,
                to,
                c.info.reward_per_second,
            );
        }
    }
}

/// Replacing one account changes the sum of the claimable rewards by the
/// difference of its claimable reward.
pub proof fn lemma_total_debt_update(stakers: Seq<StakerView>, i: int, s: StakerView)
    requires
        0 <= i < stakers.len(),
    ensures
        total_debt(stakers.update(i, s)) == total_debt(stakers) - stakers[i].info.reward_debt
            + s.info.reward_debt,
    decreases stakers.len(),
{
    let after = stakers.update(i, s);
    if i == stakers.len() - 1 {
        assert(after.drop_last() =~= stakers.drop_last());
    } else {
        lemma_total_debt_update(stakers.drop_last(), i, s);
        assert(after.drop_last() =~= stakers.drop_last().update(i, s));
    }
}

/// The pending rewards taken out of the positions under an index are what
/// the ledger has lost.
pub proof fn lemma_folded_total(nfts: Seq<NftInfoView>, keys: Seq<u64>)
    ensures
        total_pending(index_folded(nfts, keys)) + index_pending(nfts, keys) == total_pending(nfts),
    decreases nfts.len(),
{
    if nfts.len() > 0 {
        lemma_folded_total(nfts.drop_last(), keys);
        assert(index_folded(nfts, keys).drop_last() =~= index_folded(nfts.drop_last(), keys));
    }
}

/// A new position with nothing pending, and a new account with nothing to
/// claim, leave what the campaign owes as it is.
proof fn lemma_total_push(
    nfts: Seq<NftInfoView>,
    n: NftInfoView,
    stakers: Seq<StakerView>,
    s: StakerView,
)
    ensures
        total_pending(nfts.push(n)) == total_pending(nfts) + n.pending_reward,
        total_debt(stakers.push(s)) == total_debt(stakers) + s.info.reward_debt,
{
    assert(nfts.push(n).drop_last() =~= nfts);
    assert(stakers.push(s).drop_last() =~= stakers);
}

impl CampaignView {
    /// What has left the campaign for its owner: the reward added that is
    /// neither held nor claimed.
    pub open spec fn paid_out(self) -> int {
        self.info.total_reward - self.info.total_reward_claimed
            - self.info.reward_token_info.amount
    }

    /// Length of the campaign.
    pub open spec fn length(self) -> int {
        self.info.end_time - self.info.start_time
    }

    /// The time of the campaign for which rewards have been shared out.
    pub open spec fn time_gone(self) -> int {
        if self.info.time_calc_nft < self.info.start_time {
            0
        } else if self.info.time_calc_nft > self.info.end_time {
            self.length()
        } else {
            self.info.time_calc_nft - self.info.start_time
        }
    }

    /// The time of the campaign for which rewards are still to be shared
    /// out.
    pub open spec fn time_left(self) -> int {
        self.length() - self.time_gone()
    }

    /// The campaign holds what it owes and what it may still come to owe:
    /// the reward rate for every second that is left.
    pub open spec fn backed(self) -> bool {
        self.owed() + self.info.reward_per_second * self.time_left()
            <= self.info.reward_token_info.amount
    }

    /// The books of the campaign are in order: the ledger is keyed in
    /// sequence, the campaign starts before it ends, and the percentages of
    /// its tiers come to no more than a hundred; nothing is held or claimed
    /// that was not added, and the campaign holds what it owes; the reward
    /// rate for the whole campaign is no more than the reward added; what
    /// was shared out, owed or claimed, is no more than the part of the
    /// reward added that falls to the time gone; the owner was paid only
    /// after the end; and positions exist only where reward was added and
    /// rewards have been shared out up to the start.
    pub open spec fn sound(self) -> bool {
        &&& keyed(self.nfts)
        &&& self.info.start_time < self.info.end_time
        &&& leading_percent(self.info.lockup_term, self.info.lockup_term.len() as int) <= 100
        &&& self.paid_out() >= 0
        &&& self.owed() <= self.info.reward_token_info.amount
        &&& self.info.reward_per_second * self.length() <= self.info.total_reward
        &&& (self.owed() + self.info.total_reward_claimed) * self.length()
            <= self.info.total_reward * self.time_gone()
        &&& (self.paid_out() > 0 ==> self.time_left() == 0)
        &&& (self.nfts.len() > 0 ==> self.info.total_reward > 0 && self.info.time_calc_nft
            >= self.info.start_time)
    }
}

/// A campaign owes nothing negative.
pub proof fn lemma_owed_floor(c: CampaignView)
    ensures
        0 <= total_pending(c.nfts),
        0 <= total_debt(c.stakers),
        0 <= c.owed(),
{
    crate::rewards::lemma_total_pending_grows(c.nfts, 0, c.nfts.len() as int);
    crate::rewards::lemma_total_debt_grows(c.stakers, 0, c.stakers.len() as int);
    assert(c.nfts.subrange(0, c.nfts.len() as int) =~= c.nfts);
    assert(c.stakers.subrange(0, c.stakers.len() as int) =~= c.stakers);
}

/// A campaign whose books are in order is backed: the reward added is the
/// reward claimed, the reward paid to the owner and the reward held, and
/// the reward held covers what is owed and what the time left may add to
/// it.
pub proof fn law_sound_is_backed(c: CampaignView)
    requires
        c.sound(),
    ensures
        c.info.total_reward == c.info.total_reward_claimed + c.paid_out()
            + c.info.reward_token_info.amount,
        c.backed(),
{
    let rate = c.info.reward_per_second as int;
    let left = c.time_left();
    if c.paid_out() > 0 {
        assert(rate * 0 == 0) by (nonlinear_arith);
    } else {
        let length = c.length();
        let gone = c.time_gone();
        let total = c.info.total_reward as int;
        let shared = c.owed() + c.info.total_reward_claimed;
        assert(shared + rate * left <= total) by (nonlinear_arith)
            requires
                shared * length <= total * gone,
                rate * length <= total,
                left == length - gone,
                0 <= gone <= length,
                length > 0,
                rate >= 0,
        ;
    }
}

/// A fresh campaign whose tiers take no more than a hundred percent has
/// its books in order.
pub proof fn law_fresh_campaign_sound(msg: InstantiateMsgView)
    requires
        leading_percent(msg.lockup_term, msg.lockup_term.len() as int) <= 100,
    ensures
        instantiated(msg) matches Ok(c) ==> c.sound() && c.owed() == 0 && c.paid_out() == 0,
{
    if let Ok(c) = instantiated(msg) {
        assert(0 * c.length() == 0) by (nonlinear_arith);
        assert(0 * c.time_gone() == 0) by (nonlinear_arith);
    }
}

/// A pass keeps the books in order: what it shares out falls to the time
/// that has passed. Nothing leaves the campaign.
pub proof fn law_pass_keeps_sound(c: CampaignView, now: u64)
    requires
        c.sound(),
        c.accrual_fits(now),
    ensures
        c.accrued(now).sound(),
        c.accrued(now).paid_out() == c.paid_out(),
        c.accrued(now).owed() >= c.owed(),
{
    if c.accrual_due(now) {
        let after = c.accrued(now);
        let rate = c.info.reward_per_second as int;
        let length = c.length();
        let total = c.info.total_reward as int;
        let claimed = c.info.total_reward_claimed as int;
        law_pass_bounded(c, now);
        assert(after.stakers == c.stakers);
        assert(c.paid_out() == 0);
        if c.nfts.len() == 0 {
            assert(after.nfts =~= c.nfts);
            assert(total * c.time_gone() <= total * after.time_gone()) by (nonlinear_arith)
                requires
                    c.time_gone() <= after.time_gone(),
                    total >= 0,
            ;
        } else {
            let passed = effective_now(now, c.info.end_time) - c.info.time_calc_nft;
            assert(after.time_gone() == c.time_gone() + passed);
            assert((after.owed() + claimed) * length <= total * after.time_gone())
                by (nonlinear_arith)
                requires
                    after.owed() <= c.owed() + passed * rate,
                    (c.owed() + claimed) * length <= total * c.time_gone(),
                    rate * length <= total,
                    after.time_gone() == c.time_gone() + passed,
                    passed >= 0,
                    length > 0,
            ;
        }
        assert(after.owed() + claimed <= total) by (nonlinear_arith)
            requires
                (after.owed() + claimed) * length <= total * after.time_gone(),
                0 <= after.time_gone() <= length,
                length > 0,
                total >= 0,
        ;
    }
}

/// Adding to the reward keeps the books in order; what is owed stays, and
/// nothing leaves the campaign.
pub proof fn law_fund_keeps_sound(
    c: CampaignView,
    env: EnvView,
    info: MessageInfoView,
    amount: u128,
    balance: Option<u128>,
)
    requires
        c.sound(),
    ensures
        c.reward_added(env, info, amount, balance) matches Ok(after) ==> {
            &&& after.0.sound()
            &&& after.0.owed() == c.owed()
            &&& after.0.paid_out() == c.paid_out()
            &&& after.0.info.total_reward == c.info.total_reward + amount
            &&& after.0.info.reward_token_info.amount == c.info.reward_token_info.amount + amount
        },
{
    if let Ok(after) = c.reward_added(env, info, amount, balance) {
        let held = after.0.info.reward_token_info.amount as int;
        let length = c.length();
        let rate = after.0.info.reward_per_second as int;
        let gone = c.time_gone();
        let shared = c.owed() + c.info.total_reward_claimed;
        assert(rate == held / length);
        assert(rate * length <= held) by (nonlinear_arith)
            requires
                rate == held / length,
                length > 0,
                held >= 0,
        ;
        assert(shared * length <= (c.info.total_reward + amount) * gone) by (nonlinear_arith)
            requires
                shared * length <= c.info.total_reward * gone,
                gone >= 0,
                amount >= 0,
        ;
    }
}

/// A change of the configuration that leaves the percentages of the tiers
/// at no more than a hundred keeps the books in order.
pub proof fn law_update_keeps_sound(
    c: CampaignView,
    env: EnvView,
    info: MessageInfoView,
    update: CampaignInfoUpdateView,
)
    requires
        c.sound(),
        leading_percent(
            c.patched(update).lockup_term,
            c.patched(update).lockup_term.len() as int,
        ) <= 100,
    ensures
        c.updated(env, info, update) matches Ok(after) ==> after.0.sound() && after.0.owed()
            == c.owed() && after.0.paid_out() == c.paid_out(),
{
    if let Ok(after) = c.updated(env, info, update) {
        lemma_owed_floor(c);
        let rate = c.info.reward_per_second as int;
        let shared = c.owed() + c.info.total_reward_claimed;
        assert(0 * c.time_gone() == 0) by (nonlinear_arith);
        assert(rate == 0 && shared == 0) by (nonlinear_arith)
            requires
                rate * c.length() <= 0,
                shared * c.length() <= 0,
                c.length() > 0,
                rate >= 0,
                shared >= 0,
        ;
        assert(0 * after.0.length() == 0) by (nonlinear_arith);
        assert(0 * after.0.time_gone() == 0) by (nonlinear_arith);
    }
}

/// Staking one NFT in a campaign that has started keeps the books in
/// order; the new position is owed nothing.
proof fn lemma_staked_one_sound(
    c: CampaignView,
    env: EnvView,
    sender: Seq<char>,
    nft: NftStakeView,
    owner: Option<Seq<char>>,
)
    requires
        c.sound(),
        c.info.start_time <= env.time < c.info.end_time,
        c.info.reward_per_second != 0,
    ensures
        c.staked_one(env, sender, nft, owner) matches Ok(after) ==> {
            &&& after.0.sound()
            &&& after.0.owed() == c.accrued(env.time).owed()
            &&& after.0.paid_out() == c.paid_out()
            &&& after.0.info == c.accrued(env.time).info
        },
{
    if let Ok(after) = c.staked_one(env, sender, nft, owner) {
        let now = c.accrued(env.time);
        law_pass_keeps_sound(c, env.time);
        let position = after.0.nfts.last();
        lemma_staker_at(now.stakers, sender);
        match staker_at(now.stakers, sender) {
            Some(i) => {
                lemma_total_debt_update(now.stakers, i, after.0.stakers[i]);
                lemma_total_push(now.nfts, position, now.stakers, now.stakers[i]);
            },
            None => {
                lemma_total_push(now.nfts, position, now.stakers, after.0.stakers.last());
            },
        }
        assert(c.info.reward_per_second * c.length() > 0) by (nonlinear_arith)
            requires
                c.info.reward_per_second > 0,
                c.length() > 0,
        ;
    }
}

/// Staking keeps the books in order, and nothing leaves the campaign.
pub proof fn law_stake_keeps_sound(
    c: CampaignView,
    env: EnvView,
    info: MessageInfoView,
    nfts: Seq<NftStakeView>,
    owners: Seq<Option<Seq<char>>>,
)
    requires
        c.sound(),
    ensures
        c.staked(env, info, nfts, owners) matches Ok(after) ==> after.0.sound()
            && after.0.paid_out() == c.paid_out(),
{
    if c.staked(env, info, nfts, owners).is_ok() {
        lemma_staked_upto_sound(c, env, info.sender, nfts, owners, nfts.len() as int);
    }
}

proof fn lemma_staked_upto_sound(
    c: CampaignView,
    env: EnvView,
    sender: Seq<char>,
    nfts: Seq<NftStakeView>,
    owners: Seq<Option<Seq<char>>>,
    k: int,
)
    requires
        c.sound(),
        c.info.start_time <= env.time < c.info.end_time,
        c.info.reward_per_second != 0,
    ensures
        c.staked_upto(env, sender, nfts, owners, k) matches Ok(after) ==> {
            &&& after.0.sound()
            &&& after.0.paid_out() == c.paid_out()
            &&& after.0.info.start_time == c.info.start_time
            &&& after.0.info.end_time == c.info.end_time
            &&& after.0.info.reward_per_second == c.info.reward_per_second
        },
    decreases k,
{
    if k > 0 {
        lemma_staked_upto_sound(c, env, sender, nfts, owners, k - 1);
        if let Ok(before) = c.staked_upto(env, sender, nfts, owners, k - 1) {
            lemma_staked_one_sound(
                before.0,
                env,
                sender,
                nfts[k - 1],
                owner_reported(owners, k - 1),
            );
        }
    }
}

/// Taking one NFT back keeps the books in order and leaves what the
/// campaign owes as it is: the pending reward of the position becomes
/// claimable.
proof fn lemma_unstaked_one_sound(
    c: CampaignView,
    env: EnvView,
    nft: UnStakeNftView,
    holder: Option<Seq<char>>,
)
    requires
        c.sound(),
    ensures
        c.unstaked_one(env, nft, holder) matches Ok(after) ==> {
            &&& after.0.sound()
            &&& after.0.owed() == c.owed()
            &&& after.0.info == c.info
        },
{
    if let Ok(after) = c.unstaked_one(env, nft, holder) {
        let at = nft.nft_key - 1;
        let position = c.nfts[at];
        lemma_staker_at(c.stakers, position.owner_nft);
        let s = staker_at(c.stakers, position.owner_nft)->Some_0;
        assert(after.0.stakers =~= c.stakers.update(s, after.0.stakers[s]));
        lemma_total_pending_update(c.nfts, at, after.0.nfts[at]);
        lemma_total_debt_update(c.stakers, s, after.0.stakers[s]);
    }
}

proof fn lemma_unstaked_upto_sound(
    c: CampaignView,
    env: EnvView,
    nfts: Seq<UnStakeNftView>,
    holders: Seq<Option<Seq<char>>>,
    k: int,
)
    requires
        c.sound(),
    ensures
        c.unstaked_upto(env, nfts, holders, k) matches Ok(after) ==> {
            &&& after.0.sound()
            &&& after.0.owed() == c.owed()
            &&& after.0.info == c.info
        },
    decreases k,
{
    if k > 0 {
        lemma_unstaked_upto_sound(c, env, nfts, holders, k - 1);
        if let Ok(before) = c.unstaked_upto(env, nfts, holders, k - 1) {
            lemma_unstaked_one_sound(before.0, env, nfts[k - 1], owner_reported(holders, k - 1));
        }
    }
}

/// Taking NFTs back keeps the books in order: beyond the pass that comes
/// first, what the campaign owes stays as it is, and nothing leaves the
/// campaign.
pub proof fn law_unstake_keeps_sound(
    c: CampaignView,
    env: EnvView,
    nfts: Seq<UnStakeNftView>,
    holders: Seq<Option<Seq<char>>>,
)
    requires
        c.sound(),
    ensures
        c.unstaked(env, nfts, holders) matches Ok(after) ==> {
            &&& after.0.sound()
            &&& after.0.owed() == c.accrued(env.time).owed()
            &&& after.0.paid_out() == c.paid_out()
        },
{
    if c.unstaked(env, nfts, holders).is_ok() {
        law_pass_keeps_sound(c, env.time);
        lemma_unstaked_upto_sound(c.accrued(env.time), env, nfts, holders, nfts.len() as int);
    }
}

/// A claim keeps the books in order: beyond the pass that comes first,
/// what the campaign owes and what it holds go down by the amount, what
/// was claimed goes up by it, and nothing leaves for the owner.
pub proof fn law_claim_keeps_sound(
    c: CampaignView,
    env: EnvView,
    info: MessageInfoView,
    amount: u128,
    balance: Option<u128>,
)
    requires
        c.sound(),
    ensures
        c.claimed(env, info, amount, balance) matches Ok(after) ==> {
            &&& after.0.sound()
            &&& after.0.owed() + amount == c.accrued(env.time).owed()
            &&& after.0.info.reward_token_info.amount + amount == c.info.reward_token_info.amount
            &&& after.0.info.total_reward_claimed == c.info.total_reward_claimed + amount
            &&& after.0.paid_out() == c.paid_out()
        },
{
    if let Ok(after) = c.claimed(env, info, amount, balance) {
        let now = c.accrued(env.time);
        law_pass_keeps_sound(c, env.time);
        lemma_staker_at(c.stakers, info.sender);
        let s = staker_at(c.stakers, info.sender)->Some_0;
        let keys = now.stakers[s].info.nft_keys;
        lemma_folded_total(now.nfts, keys);
        lemma_total_debt_update(now.stakers, s, after.0.stakers[s]);
        assert(after.0.time_gone() == now.time_gone());
        assert(keyed(after.0.nfts));
        assert(after.0.owed() + after.0.info.total_reward_claimed == now.owed()
            + now.info.total_reward_claimed);
    }
}

/// Withdrawing the remaining reward settles the books: afterwards the
/// campaign holds exactly what it owes, so that the reward added is the
/// reward claimed, the reward paid to the owner and the reward owed; and
/// what the owner is paid is what the campaign held beyond what it owed.
pub proof fn law_withdraw_settles(
    c: CampaignView,
    env: EnvView,
    info: MessageInfoView,
    balance: Option<u128>,
)
    requires
        c.sound(),
    ensures
        c.withdrawn(env, info, balance) matches Ok(after) ==> {
            &&& after.0.sound()
            &&& after.0.owed() == c.accrued(env.time).owed()
            &&& after.0.info.reward_token_info.amount == after.0.owed()
            &&& after.0.info.total_reward == after.0.info.total_reward_claimed
                + after.0.paid_out() + after.0.owed()
            &&& after.1 == seq![
                payout(
                    c.info.reward_token_info.info,
                    c.info.owner,
                    (after.0.paid_out() - c.paid_out()) as u128,
                ),
            ]
        },
{
    if let Ok(after) = c.withdrawn(env, info, balance) {
        let now = c.accrued(env.time);
        law_pass_keeps_sound(c, env.time);
        lemma_owed_floor(now);
        assert(after.0.time_left() == 0);
        assert(after.0.owed() == now.owed());
        assert(after.0.paid_out() - c.paid_out() == now.info.reward_token_info.amount - now.owed());
        assert(after.1 =~= seq![
            payout(
                c.info.reward_token_info.info,
                c.info.owner,
                (after.0.paid_out() - c.paid_out()) as u128,
            ),
        ]);
    }
}

} // verus!
