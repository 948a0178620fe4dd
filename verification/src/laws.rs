//! What holds of every campaign: the checkpoint only moves forward, a pass
//! can be replayed, a tier shares its reward equally, a position is taken
//! back once and only after its end, and a claim moves exactly its amount.

use crate::accrual::{
    cut, effective_now, gain_of, gain_upto, in_sweep, leads, lemma_term_for, lemma_tier_order,
    open_pairs, pair_of, pair_order, rank_of, slice_seconds, slice_share, step_fits, term_for,
    tier_fits, tier_order,
};
use crate::error::ContractErrorView;
use crate::msg::{CampaignInfoUpdateView, EnvView, MessageInfoView};
use crate::rewards::index_pending;
use crate::staking::{lemma_unstaked_error, owner_reported};
use crate::state::{staker_at, CampaignView, LockupTerm, NftInfoView, NftStakeView, UnStakeNftView};
use crate::utils::slice_reward;
use vstd::relations::sorted_by;
use vstd::prelude::*;

verus! {

/// A pass never moves the time up to which rewards are shared out
/// backwards, shares rewards out to no time after the end of the campaign,
/// and keeps that time within the campaign if it was.
pub proof fn law_pass_moves_forward(c: CampaignView, now: u64)
    ensures
        c.accrued(now).info.time_calc_nft >= c.info.time_calc_nft,
        effective_now(now, c.info.end_time) <= c.info.end_time,
        c.info.time_calc_nft <= c.info.end_time ==> c.accrued(now).info.time_calc_nft
            <= c.info.end_time,
{
}

/// Adding to the reward leaves the time up to which rewards are shared out
/// where it was, and the end of the campaign.
pub proof fn law_fund_keeps_checkpoint(
    c: CampaignView,
    env: EnvView,
    info: MessageInfoView,
    amount: u128,
    balance: Option<u128>,
)
    ensures
        c.reward_added(env, info, amount, balance) matches Ok(after) ==> after.0.info.time_calc_nft
            == c.info.time_calc_nft && after.0.info.end_time == c.info.end_time,
{
}

/// A change of the configuration leaves the time up to which rewards are
/// shared out where it was.
pub proof fn law_update_keeps_checkpoint(
    c: CampaignView,
    env: EnvView,
    info: MessageInfoView,
    update: CampaignInfoUpdateView,
)
    ensures
        c.updated(env, info, update) matches Ok(after) ==> after.0.info.time_calc_nft
            == c.info.time_calc_nft,
{
}

/// Staking never moves the time up to which rewards are shared out
/// backwards, nor beyond the end of the campaign.
pub proof fn law_stake_moves_forward(
    c: CampaignView,
    env: EnvView,
    info: MessageInfoView,
    nfts: Seq<NftStakeView>,
    owners: Seq<Option<Seq<char>>>,
)
    ensures
        c.staked(env, info, nfts, owners) matches Ok(after) ==> {
            &&& after.0.info.time_calc_nft >= c.info.time_calc_nft
            &&& after.0.info.end_time == c.info.end_time
            &&& c.info.time_calc_nft <= c.info.end_time ==> after.0.info.time_calc_nft
                <= c.info.end_time
        },
{
    lemma_staked_upto_moves_forward(c, env, info.sender, nfts, owners, nfts.len() as int);
}

proof fn lemma_staked_upto_moves_forward(
    c: CampaignView,
    env: EnvView,
    sender: Seq<char>,
    nfts: Seq<NftStakeView>,
    owners: Seq<Option<Seq<char>>>,
    k: int,
)
    ensures
        c.staked_upto(env, sender, nfts, owners, k) matches Ok(after) ==> {
            &&& after.0.info.time_calc_nft >= c.info.time_calc_nft
            &&& after.0.info.end_time == c.info.end_time
            &&& c.info.time_calc_nft <= c.info.end_time ==> after.0.info.time_calc_nft
                <= c.info.end_time
        },
    decreases k,
{
    if k > 0 {
        lemma_staked_upto_moves_forward(c, env, sender, nfts, owners, k - 1);
    }
}

/// Taking NFTs back never moves the time up to which rewards are shared
/// out backwards, nor beyond the end of the campaign.
pub proof fn law_unstake_moves_forward(
    c: CampaignView,
    env: EnvView,
    nfts: Seq<UnStakeNftView>,
    holders: Seq<Option<Seq<char>>>,
)
    ensures
        c.unstaked(env, nfts, holders) matches Ok(after) ==> {
            &&& after.0.info.time_calc_nft >= c.info.time_calc_nft
            &&& after.0.info.end_time == c.info.end_time
            &&& c.info.time_calc_nft <= c.info.end_time ==> after.0.info.time_calc_nft
                <= c.info.end_time
        },
{
    lemma_unstaked_upto_keeps_info(c.accrued(env.time), env, nfts, holders, nfts.len() as int);
}

proof fn lemma_unstaked_upto_keeps_info(
    c: CampaignView,
    env: EnvView,
    nfts: Seq<UnStakeNftView>,
    holders: Seq<Option<Seq<char>>>,
    k: int,
)
    ensures
        c.unstaked_upto(env, nfts, holders, k) matches Ok(after) ==> after.0.info == c.info,
    decreases k,
{
    if k > 0 {
        lemma_unstaked_upto_keeps_info(c, env, nfts, holders, k - 1);
    }
}

/// A claim never moves the time up to which rewards are shared out
/// backwards, nor beyond the end of the campaign.
pub proof fn law_claim_moves_forward(
    c: CampaignView,
    env: EnvView,
    info: MessageInfoView,
    amount: u128,
    balance: Option<u128>,
)
    ensures
        c.claimed(env, info, amount, balance) matches Ok(after) ==> {
            &&& after.0.info.time_calc_nft >= c.info.time_calc_nft
            &&& after.0.info.end_time == c.info.end_time
            &&& c.info.time_calc_nft <= c.info.end_time ==> after.0.info.time_calc_nft
                <= c.info.end_time
        },
{
}

/// Withdrawing the remaining reward never moves the time up to which
/// rewards are shared out backwards, nor beyond the end of the campaign.
pub proof fn law_withdraw_moves_forward(
    c: CampaignView,
    env: EnvView,
    info: MessageInfoView,
    balance: Option<u128>,
)
    ensures
        c.withdrawn(env, info, balance) matches Ok(after) ==> {
            &&& after.0.info.time_calc_nft >= c.info.time_calc_nft
            &&& after.0.info.end_time == c.info.end_time
            &&& c.info.time_calc_nft <= c.info.end_time ==> after.0.info.time_calc_nft
                <= c.info.end_time
        },
{
}

/// A pass that is run again at the same time, or at an earlier one, changes
/// nothing and cannot fail.
pub proof fn law_replay_changes_nothing(c: CampaignView, now: u64, again: u64)
    requires
        again <= now,
    ensures
        c.accrued(now).accrual_fits(again),
        c.accrued(now).accrued(again) == c.accrued(now),
{
}

/// The tier that a duration selects stands in the table at a place where
/// it is the first with its duration.
pub proof fn lemma_term_leads(terms: Seq<LockupTerm>, value: u64) -> (t: int)
    requires
        term_for(terms, value).is_some(),
    ensures
        0 <= t < terms.len(),
        leads(terms, t),
        term_for(terms, value) == Some(terms[t]),
        terms[t].value == value,
    decreases terms.len(),
{
    let rest = terms.drop_last();
    match term_for(rest, value) {
        Some(term) => {
            let t = lemma_term_leads(rest, value);
            assert(rest.subrange(0, t) =~= terms.subrange(0, t));
            t
        },
        None => {
            let t = terms.len() - 1;
            assert(terms.subrange(0, t) =~= rest);
            t
        },
    }
}

/// Number of the positions of the tier with duration `value` whose lockup
/// has not ended.
pub open spec fn open_in_tier(nfts: Seq<NftInfoView>, value: u64) -> nat {
    open_pairs(nfts, value).len()
}

/// While no position of a tier ends, the sum of the first slices of a sweep
/// is the share of one position in the reward of the whole window.
proof fn lemma_gain_without_end(
    order: Seq<(u64, u64)>,
    k: int,
    from: u64,
    to: u64,
    reward_per_second: u128,
    percent: u128,
)
    requires
        from <= to,
        1 <= k <= order.len(),
        forall|r: int| 0 <= r < order.len() ==> (#[trigger] order[r]).0 > to,
    ensures
        gain_upto(order, k, from, to, reward_per_second, percent) == slice_reward(
            to - from,
            reward_per_second as int,
            percent as int,
            order.len() as int,
        ),
    decreases k,
{
    if k > 1 {
        lemma_gain_without_end(order, k - 1, from, to, reward_per_second, percent);
        assert(order[k - 1].0 > to && order[k - 2].0 > to);
        assert(slice_seconds(order, k - 1, from, to) == 0);
        assert(0 * (reward_per_second as int) * (percent as int) == 0) by (nonlinear_arith);
        assert(slice_share(order, k - 1, from, to, reward_per_second, percent) == 0);
    } else {
        assert(order[0].0 > to);
        assert(gain_upto(order, 0, from, to, reward_per_second, percent) == 0);
    }
}

/// While the positions of a tier stay the same over the time of a pass,
/// none ending before the pass has come to its end, each of them receives
/// the reward of that time for the tier, `percent` hundredths of the
/// reward rate, divided by their number.
pub proof fn law_pro_rata(c: CampaignView, now: u64, i: int, term: LockupTerm)
    requires
        c.wf(),
        c.accrual_due(now),
        c.accrual_fits(now),
        0 <= i < c.nfts.len(),
        !c.nfts[i].is_end_reward,
        term_for(c.info.lockup_term, c.nfts[i].lockup_term.value) == Some(term),
        forall|j: int|
            0 <= j < c.nfts.len() && in_sweep(#[trigger] c.nfts[j], term.value)
                ==> c.nfts[j].end_time > effective_now(now, c.info.end_time),
    ensures
        c.accrued(now).nfts[i].pending_reward == c.nfts[i].pending_reward + slice_reward(
            effective_now(now, c.info.end_time) - c.info.time_calc_nft,
            c.info.reward_per_second as int,
            term.percent as int,
            open_in_tier(c.nfts, term.value) as int,
        ),
        !c.accrued(now).nfts[i].is_end_reward,
{
    let from = c.info.time_calc_nft;
    let to = effective_now(now, c.info.end_time);
    let rate = c.info.reward_per_second;
    let terms = c.info.lockup_term;
    let value = c.nfts[i].lockup_term.value;
    let t = lemma_term_leads(terms, value);
    lemma_term_for(terms, value);
    lemma_tier_order(c.nfts, term.value);
    let order = tier_order(c.nfts, term.value);
    let r = rank_of(order, c.nfts[i]);
    assert(in_sweep(c.nfts[i], term.value));
    assert(order[r] == pair_of(c.nfts[i]));
    assert forall|q: int| 0 <= q < order.len() implies (#[trigger] order[q]).0 > to by {
        let x = order[q];
        assert(in_sweep(c.nfts[x.1 - 1], term.value));
    }
    lemma_gain_without_end(order, r + 1, from, to, rate, term.percent);
    assert(tier_fits(c.nfts, terms[t].value, from, to, rate, terms[t].percent));
    assert(step_fits(c.nfts, order, r, from, to, rate, term.percent));
}

/// A position whose lockup has ended receives nothing from a pass.
pub proof fn law_ended_receives_nothing(c: CampaignView, now: u64, i: int)
    requires
        0 <= i < c.nfts.len(),
        c.nfts[i].is_end_reward,
    ensures
        c.accrued(now).nfts[i] == c.nfts[i],
{
}

/// A position whose lockup ends within the window of a sweep receives what
/// it would receive if the window ended with its lockup: nothing for the
/// time after its end.
pub proof fn law_gain_stops_at_end(
    nfts: Seq<NftInfoView>,
    i: int,
    from: u64,
    to: u64,
    reward_per_second: u128,
    percent: u128,
)
    requires
        crate::accrual::keyed(nfts),
        0 <= i < nfts.len(),
        !nfts[i].is_end_reward,
        from <= nfts[i].end_time <= to,
    ensures
        gain_of(
            tier_order(nfts, nfts[i].lockup_term.value),
            nfts[i],
            from,
            to,
            reward_per_second,
            percent,
        ) == gain_of(
            tier_order(nfts, nfts[i].lockup_term.value),
            nfts[i],
            from,
            nfts[i].end_time,
            reward_per_second,
            percent,
        ),
{
    let value = nfts[i].lockup_term.value;
    lemma_tier_order(nfts, value);
    let order = tier_order(nfts, value);
    assert(in_sweep(nfts[i], value));
    let r = rank_of(order, nfts[i]);
    lemma_gain_same_upto(order, r + 1, r, from, to, nfts[i].end_time, reward_per_second, percent);
}

proof fn lemma_gain_same_upto(
    order: Seq<(u64, u64)>,
    k: int,
    r: int,
    from: u64,
    to: u64,
    end: u64,
    reward_per_second: u128,
    percent: u128,
)
    requires
        sorted_by(order, pair_order()),
        0 <= r < order.len(),
        0 <= k <= r + 1,
        order[r].0 == end,
        from <= end <= to,
    ensures
        gain_upto(order, k, from, to, reward_per_second, percent) == gain_upto(
            order,
            k,
            from,
            end,
            reward_per_second,
            percent,
        ),
    decreases k,
{
    if k > 0 {
        lemma_gain_same_upto(order, k - 1, r, from, to, end, reward_per_second, percent);
        let leq = pair_order();
        if k - 1 < r {
            assert(leq(order[k - 1], order[r]));
        }
        if k - 1 > 0 {
            assert(leq(order[k - 2], order[r]));
        }
        assert(cut(order[k - 1].0, from, to) == cut(order[k - 1].0, from, end));
        assert(slice_seconds(order, k - 1, from, to) == slice_seconds(order, k - 1, from, end));
    }
}

/// A position cannot be taken back before rewards have been shared out up
/// to its end time: a call that begins with such a position is refused as
/// untimely.
pub proof fn law_unstake_waits(
    c: CampaignView,
    env: EnvView,
    nfts: Seq<UnStakeNftView>,
    holders: Seq<Option<Seq<char>>>,
)
    requires
        c.wf(),
        c.accrual_fits(env.time),
        nfts.len() >= 1,
        c.has_key(nfts[0].nft_key),
        c.nfts[nfts[0].nft_key - 1].end_time > c.accrued(env.time).info.time_calc_nft,
    ensures
        c.unstaked(env, nfts, holders) == Err::<
            (CampaignView, Seq<crate::msg::MessageView>),
            ContractErrorView,
        >(ContractErrorView::InvalidTimeToUnStake),
{
    let now = c.accrued(env.time);
    let p = c.nfts[nfts[0].nft_key - 1];
    assert(!p.is_end_reward);
    assert(!now.nfts[nfts[0].nft_key - 1].is_end_reward);
    assert(now.unstaked_upto(env, nfts, holders, 0).is_ok());
    assert(now.unstaked_one(env, nfts[0], owner_reported(holders, 0)).is_err());
    assert(now.unstaked_upto(env, nfts, holders, 1).is_err());
    lemma_unstaked_error(now, env, nfts, holders, 1, nfts.len() as int);
}

/// A position is taken back once: after it has been, every call that
/// begins with it is refused as untimely.
pub proof fn law_unstake_once(
    c: CampaignView,
    env: EnvView,
    nft: UnStakeNftView,
    holder: Option<Seq<char>>,
    later: EnvView,
    nfts: Seq<UnStakeNftView>,
    holders: Seq<Option<Seq<char>>>,
)
    requires
        c.unstaked_one(env, nft, holder).is_ok(),
        nfts.len() >= 1,
        nfts[0].nft_key == nft.nft_key,
        c.unstaked_one(env, nft, holder)->Ok_0.0.accrual_fits(later.time),
    ensures
        c.unstaked_one(env, nft, holder)->Ok_0.0.unstaked(later, nfts, holders) == Err::<
            (CampaignView, Seq<crate::msg::MessageView>),
            ContractErrorView,
        >(ContractErrorView::InvalidTimeToUnStake),
{
    let after = c.unstaked_one(env, nft, holder)->Ok_0.0;
    let now = after.accrued(later.time);
    assert(after.nfts[nft.nft_key - 1].is_unstake);
    assert(now.nfts[nft.nft_key - 1].is_unstake);
    assert(now.unstaked_upto(later, nfts, holders, 0).is_ok());
    assert(now.unstaked_one(later, nfts[0], owner_reported(holders, 0)).is_err());
    assert(now.unstaked_upto(later, nfts, holders, 1).is_err());
    lemma_unstaked_error(now, later, nfts, holders, 1, nfts.len() as int);
}

/// What a staker could claim at `now`: the claimable reward of the account
/// and the pending rewards of its staked positions, with the rewards
/// brought up to `now`.
pub open spec fn claimable(c: CampaignView, now: u64, s: int) -> int {
    let account = c.accrued(now).stakers[s].info;
    account.reward_debt + index_pending(c.accrued(now).nfts, account.nft_keys)
}

/// A claim of no more than can be claimed takes exactly its amount out of
/// the claimable reward and adds exactly its amount to the reward claimed;
/// a claim of more is refused.
pub proof fn law_claim_exact(
    c: CampaignView,
    env: EnvView,
    info: MessageInfoView,
    amount: u128,
    balance: Option<u128>,
    s: int,
)
    requires
        staker_at(c.stakers, info.sender) == Some(s),
        c.accrual_fits(env.time),
        claimable(c, env.time, s) <= u128::MAX,
    ensures
        amount > claimable(c, env.time, s) ==> c.claimed(env, info, amount, balance) == Err::<
            (CampaignView, Seq<crate::msg::MessageView>),
            ContractErrorView,
        >(ContractErrorView::InsufficientBalance),
        c.claimed(env, info, amount, balance) matches Ok(after) ==> {
            &&& amount <= claimable(c, env.time, s)
            &&& after.0.stakers[s].info.reward_debt == claimable(c, env.time, s) - amount
            &&& after.0.stakers[s].info.reward_claimed == c.stakers[s].info.reward_claimed
                + amount
            &&& after.0.info.total_reward_claimed == c.info.total_reward_claimed + amount
        },
{
    crate::state::lemma_staker_at(c.stakers, info.sender);
}

/// How far a position has come: its lockup runs, has ended, or the NFT was
/// taken back.
pub open spec fn stage(n: NftInfoView) -> nat {
    if n.is_unstake {
        2
    } else if n.is_end_reward {
        1
    } else {
        0
    }
}

/// Whether every position of `before` is still a position of `after`, under
/// its key, for its owner and with its times, and has not gone back a
/// stage.
pub open spec fn moved_on(before: CampaignView, after: CampaignView) -> bool {
    &&& before.nfts.len() <= after.nfts.len()
    &&& forall|i: int|
        0 <= i < before.nfts.len() ==> {
            &&& stage(before.nfts[i]) <= stage(#[trigger] after.nfts[i])
            &&& after.nfts[i].key == before.nfts[i].key
            &&& after.nfts[i].token_id == before.nfts[i].token_id
            &&& after.nfts[i].owner_nft == before.nfts[i].owner_nft
            &&& after.nfts[i].lockup_term == before.nfts[i].lockup_term
            &&& after.nfts[i].start_time == before.nfts[i].start_time
            &&& after.nfts[i].end_time == before.nfts[i].end_time
        }
}

/// No step of a position is taken back by a pass.
pub proof fn law_pass_moves_positions_on(c: CampaignView, now: u64)
    ensures
        moved_on(c, c.accrued(now)),
{
}

/// No step of a position is taken back by staking.
pub proof fn law_stake_moves_positions_on(
    c: CampaignView,
    env: EnvView,
    info: MessageInfoView,
    nfts: Seq<NftStakeView>,
    owners: Seq<Option<Seq<char>>>,
)
    ensures
        c.staked(env, info, nfts, owners) matches Ok(after) ==> moved_on(c, after.0),
{
    lemma_staked_upto_moves_on(c, env, info.sender, nfts, owners, nfts.len() as int);
}

proof fn lemma_staked_upto_moves_on(
    c: CampaignView,
    env: EnvView,
    sender: Seq<char>,
    nfts: Seq<NftStakeView>,
    owners: Seq<Option<Seq<char>>>,
    k: int,
)
    ensures
        c.staked_upto(env, sender, nfts, owners, k) matches Ok(after) ==> moved_on(c, after.0),
    decreases k,
{
    if k > 0 {
        lemma_staked_upto_moves_on(c, env, sender, nfts, owners, k - 1);
        if let Ok(before) = c.staked_upto(env, sender, nfts, owners, k - 1) {
            if let Ok(after) = before.0.staked_one(
                env,
                sender,
                nfts[k - 1],
                owner_reported(owners, k - 1),
            ) {
                let now = before.0.accrued(env.time);
                assert(moved_on(before.0, now));
                assert forall|i: int| 0 <= i < now.nfts.len() implies after.0.nfts[i]
                    == now.nfts[i] by {}
                assert(moved_on(c, after.0));
            }
        }
    }
}

/// No step of a position is taken back by taking NFTs back.
pub proof fn law_unstake_moves_positions_on(
    c: CampaignView,
    env: EnvView,
    nfts: Seq<UnStakeNftView>,
    holders: Seq<Option<Seq<char>>>,
)
    ensures
        c.unstaked(env, nfts, holders) matches Ok(after) ==> moved_on(c, after.0),
{
    lemma_unstaked_upto_moves_on(c.accrued(env.time), env, nfts, holders, nfts.len() as int);
}

proof fn lemma_unstaked_upto_moves_on(
    c: CampaignView,
    env: EnvView,
    nfts: Seq<UnStakeNftView>,
    holders: Seq<Option<Seq<char>>>,
    k: int,
)
    ensures
        c.unstaked_upto(env, nfts, holders, k) matches Ok(after) ==> moved_on(c, after.0),
    decreases k,
{
    if k > 0 {
        lemma_unstaked_upto_moves_on(c, env, nfts, holders, k - 1);
    }
}

/// No step of a position is taken back by a claim or by a withdrawal.
pub proof fn law_payout_moves_positions_on(
    c: CampaignView,
    env: EnvView,
    info: MessageInfoView,
    amount: u128,
    balance: Option<u128>,
)
    ensures
        c.claimed(env, info, amount, balance) matches Ok(after) ==> moved_on(c, after.0),
        c.withdrawn(env, info, balance) matches Ok(after) ==> moved_on(c, after.0),
{
}

} // verus!
