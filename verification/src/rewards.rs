//! Claiming rewards and withdrawing what is left after the campaign.

use crate::accrual::run_pass;
use crate::contract::{not_covered, not_covered_error, payout, payout_message, Outcome};
use crate::error::{overflow, overflow_error, ContractError, ContractErrorView};
use crate::msg::{
    action_attr, amount_attr, tell_action, tell_amount, tell_text, text_attr, Attribute,
    AttributeView, Env, EnvView, Message, MessageInfo, MessageInfoView, MessageView, Response,
};
use crate::state::{
    contains_key, find_staker, nfts_view, staker_at, stakers_view, AssetTokenInfoView, Campaign,
    CampaignInfoView, CampaignView, NftInfo, NftInfoView, Staker, StakerRewardAssetInfoView,
    StakerView, TokenInfo, TokenInfoView,
};
use vstd::prelude::*;

verus! {

/// Whether a position is staked under one of `keys`: its key is among them
/// and it was not taken back.
pub open spec fn in_index(keys: Seq<u64>, n: NftInfoView) -> bool {
    keys.contains(n.key) && !n.is_unstake
}

/// Sum of the pending rewards of the positions staked under `keys`.
pub open spec fn index_pending(nfts: Seq<NftInfoView>, keys: Seq<u64>) -> int
    decreases nfts.len(),
{
    if nfts.len() == 0 {
        0
    } else {
        index_pending(nfts.drop_last(), keys) + if in_index(keys, nfts.last()) {
            nfts.last().pending_reward as int
        } else {
            0
        }
    }
}

/// The ledger after the pending rewards of the positions staked under
/// `keys` have been taken out.
pub open spec fn index_folded(nfts: Seq<NftInfoView>, keys: Seq<u64>) -> Seq<NftInfoView> {
    Seq::new(
        nfts.len(),
        |i: int|
            if in_index(keys, nfts[i]) {
                NftInfoView { pending_reward: 0, ..nfts[i] }
            } else {
                nfts[i]
            },
    )
}

/// Sum of the pending rewards of all positions.
pub open spec fn total_pending(nfts: Seq<NftInfoView>) -> int
    decreases nfts.len(),
{
    if nfts.len() == 0 {
        0
    } else {
        total_pending(nfts.drop_last()) + nfts.last().pending_reward
    }
}

/// Sum of the claimable rewards of all stakers.
pub open spec fn total_debt(stakers: Seq<StakerView>) -> int
    decreases stakers.len(),
{
    if stakers.len() == 0 {
        0
    } else {
        total_debt(stakers.drop_last()) + stakers.last().info.reward_debt
    }
}

/// The pending rewards under an index in a part of the ledger are no more
/// than those in a longer part.
pub proof fn lemma_index_pending_grows(nfts: Seq<NftInfoView>, keys: Seq<u64>, a: int, b: int)
    requires
        0 <= a <= b <= nfts.len(),
    ensures
        0 <= index_pending(nfts.subrange(0, a), keys) <= index_pending(nfts.subrange(0, b), keys),
    decreases b - a,
{
    if a < b {
        lemma_index_pending_grows(nfts, keys, a, b - 1);
        assert(nfts.subrange(0, b).drop_last() =~= nfts.subrange(0, b - 1));
    } else {
        lemma_index_pending_floor(nfts.subrange(0, a), keys);
    }
}

/// The pending rewards under an index are not negative.
pub proof fn lemma_index_pending_floor(nfts: Seq<NftInfoView>, keys: Seq<u64>)
    ensures
        0 <= index_pending(nfts, keys),
    decreases nfts.len(),
{
    if nfts.len() > 0 {
        lemma_index_pending_floor(nfts.drop_last(), keys);
    }
}

/// The pending rewards of a part of the ledger are no more than those of a
/// longer part.
pub proof fn lemma_total_pending_grows(nfts: Seq<NftInfoView>, a: int, b: int)
    requires
        0 <= a <= b <= nfts.len(),
    ensures
        0 <= total_pending(nfts.subrange(0, a)) <= total_pending(nfts.subrange(0, b)),
    decreases b - a, a,
{
    if a < b {
        lemma_total_pending_grows(nfts, a, b - 1);
        assert(nfts.subrange(0, b).drop_last() =~= nfts.subrange(0, b - 1));
    } else if a > 0 {
        lemma_total_pending_grows(nfts, a - 1, a - 1);
        assert(nfts.subrange(0, a).drop_last() =~= nfts.subrange(0, a - 1));
    }
}

/// The claimable rewards of a part of the accounts are no more than those
/// of a longer part.
pub proof fn lemma_total_debt_grows(stakers: Seq<StakerView>, a: int, b: int)
    requires
        0 <= a <= b <= stakers.len(),
    ensures
        0 <= total_debt(stakers.subrange(0, a)) <= total_debt(stakers.subrange(0, b)),
    decreases b - a, a,
{
    if a < b {
        lemma_total_debt_grows(stakers, a, b - 1);
        assert(stakers.subrange(0, b).drop_last() =~= stakers.subrange(0, b - 1));
    } else if a > 0 {
        lemma_total_debt_grows(stakers, a - 1, a - 1);
        assert(stakers.subrange(0, a).drop_last() =~= stakers.subrange(0, a - 1));
    }
}

/// The key under which a response names the reward token: a token of a
/// contract by its address, a native token by its denomination.
pub open spec fn token_key(token: TokenInfoView) -> Seq<char> {
    match token {
        TokenInfoView::Token { .. } => "reward_token_info"@,
        TokenInfoView::NativeToken { .. } => "denom"@,
    }
}

/// The attribute that names the reward token.
fn tell_token(token: &TokenInfo) -> (a: Attribute)
    ensures
        a@ == text_attr(token_key(token@), token@.text()),
{
    match token {
        TokenInfo::Token { contract_addr } => tell_text("reward_token_info", contract_addr),
        TokenInfo::NativeToken { denom } => tell_text("denom", denom),
    }
}

impl CampaignView {
    /// What a claim of `amount` tells.
    pub open spec fn claimed_told(self, amount: u128) -> Seq<AttributeView> {
        seq![
            action_attr("claim_reward"@),
            text_attr("owner"@, self.info.owner),
            text_attr(
                token_key(self.info.reward_token_info.info),
                self.info.reward_token_info.info.text(),
            ),
            amount_attr("reward_claim_amount"@, amount),
        ]
    }

    /// What a withdrawal of `amount` tells.
    pub open spec fn withdrawn_told(self, amount: u128) -> Seq<AttributeView> {
        seq![
            action_attr("withdraw_reward"@),
            text_attr("owner"@, self.info.owner),
            text_attr(
                token_key(self.info.reward_token_info.info),
                self.info.reward_token_info.info.text(),
            ),
            amount_attr("withdraw_reward_amount"@, amount),
        ]
    }

    /// Whether a payment of `amount` out of the campaign is covered by the
    /// `balance` that was reported for the campaign, where one was.
    pub open spec fn payout_covered(amount: u128, balance: Option<u128>) -> bool {
        balance matches Some(b) && b >= amount
    }

    /// What a claim of `amount` comes to. The sender must have an account.
    /// The rewards are brought up to the time of the call, and the pending
    /// rewards of the sender's staked positions join the sender's claimable
    /// reward. The amount must not exceed that reward, nor the reward that
    /// the campaign holds, and the payment must be covered. Then the amount
    /// leaves the claimable reward and the reward held, joins the rewards
    /// claimed, and is paid to the sender.
    pub open spec fn claimed(
        self,
        env: EnvView,
        info: MessageInfoView,
        amount: u128,
        balance: Option<u128>,
    ) -> Outcome {
        match staker_at(self.stakers, info.sender) {
            None => Err(ContractErrorView::InvalidClaim),
            Some(s) => if !self.accrual_fits(env.time) {
                Err(overflow_error())
            } else {
                let now = self.accrued(env.time);
                let account = now.stakers[s].info;
                let debt = account.reward_debt + index_pending(now.nfts, account.nft_keys);
                let token = now.info.reward_token_info;
                if debt > u128::MAX {
                    Err(overflow_error())
                } else if amount > debt {
                    Err(ContractErrorView::InsufficientBalance)
                } else if !Self::payout_covered(amount, balance) {
                    Err(not_covered(token.info))
                } else if account.reward_claimed + amount > u128::MAX
                    || now.info.total_reward_claimed + amount > u128::MAX {
                    Err(overflow_error())
                } else if token.amount < amount {
                    Err(ContractErrorView::InsufficientBalance)
                } else {
                    Ok(
                        (
                            CampaignView {
                                info: CampaignInfoView {
                                    reward_token_info: AssetTokenInfoView {
                                        amount: (token.amount - amount) as u128,
                                        ..token
                                    },
                                    total_reward_claimed: (now.info.total_reward_claimed
                                        + amount) as u128,
                                    ..now.info
                                },
                                nfts: index_folded(now.nfts, account.nft_keys),
                                stakers: now.stakers.update(
                                    s,
                                    StakerView {
                                        info: StakerRewardAssetInfoView {
                                            reward_debt: (debt - amount) as u128,
                                            reward_claimed: (account.reward_claimed
                                                + amount) as u128,
                                            ..account
                                        },
                                        ..now.stakers[s]
                                    },
                                ),
                            },
                            seq![payout(token.info, info.sender, amount)],
                        ),
                    )
                }
            },
        }
    }

    /// What the campaign owes: the pending rewards of all positions and the
    /// claimable rewards of all stakers.
    pub open spec fn owed(self) -> int {
        total_pending(self.nfts) + total_debt(self.stakers)
    }

    /// What withdrawing the remaining reward comes to. Only the owner may
    /// withdraw, and only once the campaign has ended. The rewards are
    /// brought up to the end of the campaign; what the campaign holds beyond
    /// what it owes is paid to the owner, if the campaign holds that much
    /// and the payment is covered.
    pub open spec fn withdrawn(
        self,
        env: EnvView,
        info: MessageInfoView,
        balance: Option<u128>,
    ) -> Outcome {
        if info.sender != self.info.owner {
            Err(ContractErrorView::Unauthorized)
        } else if self.info.end_time > env.time {
            Err(ContractErrorView::InvalidTimeToWithdrawReward)
        } else if !self.accrual_fits(env.time) {
            Err(overflow_error())
        } else {
            let now = self.accrued(env.time);
            let token = now.info.reward_token_info;
            if token.amount < now.owed() {
                Err(ContractErrorView::InsufficientBalance)
            } else if !Self::payout_covered((token.amount - now.owed()) as u128, balance) {
                Err(not_covered(token.info))
            } else {
                Ok(
                    (
                        CampaignView {
                            info: CampaignInfoView {
                                reward_token_info: AssetTokenInfoView {
                                    amount: now.owed() as u128,
                                    ..token
                                },
                                ..now.info
                            },
                            ..now
                        },
                        seq![
                            payout(
                                token.info,
                                self.info.owner,
                                (token.amount - now.owed()) as u128,
                            ),
                        ],
                    ),
                )
            }
        }
    }
}

/// Takes the pending rewards of the positions staked under `keys` out of
/// the ledger and returns their sum added to `debt`, or nothing where that
/// does not fit; the ledger is then left as far as the work had come.
fn fold_pending(nfts: &mut Vec<NftInfo>, keys: &Vec<u64>, debt: u128) -> (r: Option<u128>)
    ensures
        final(nfts)@.len() == old(nfts)@.len(),
        match r {
            Some(sum) => sum == debt + index_pending(nfts_view(old(nfts)@), keys@) && nfts_view(
                final(nfts)@,
            ) == index_folded(nfts_view(old(nfts)@), keys@),
            None => debt + index_pending(nfts_view(old(nfts)@), keys@) > u128::MAX,
        },
{
    let ghost before = nfts_view(nfts@);
    let mut sum: u128 = debt;
    let mut i: usize = 0;
    while i < nfts.len()
        invariant
            i <= nfts.len(),
            nfts@.len() == before.len(),
            before == nfts_view(old(nfts)@),
            sum == debt + index_pending(before.subrange(0, i as int), keys@),
            forall|j: int|
                0 <= j < before.len() ==> (#[trigger] nfts@[j])@ == (if j < i && in_index(
                    keys@,
                    before[j],
                ) {
                    NftInfoView { pending_reward: 0, ..before[j] }
                } else {
                    before[j]
                }),
        decreases nfts.len() - i,
    {
        proof {
            assert(before.subrange(0, i + 1).drop_last() =~= before.subrange(0, i as int));
            assert(before.subrange(0, i + 1).last() == before[i as int]);
            assert(nfts@[i as int]@ == before[i as int]);
        }
        if !nfts[i].is_unstake && contains_key(keys, nfts[i].key) {
            sum = match sum.checked_add(nfts[i].pending_reward) {
                Some(sum) => sum,
                None => {
                    proof {
                        lemma_index_pending_grows(before, keys@, i + 1, before.len() as int);
                        assert(before.subrange(0, before.len() as int) =~= before);
                    }
                    return None;
                },
            };
            nfts[i].pending_reward = 0;
        }
        i += 1;
    }
    proof {
        assert(before.subrange(0, i as int) =~= before);
        assert(nfts_view(nfts@) =~= index_folded(before, keys@));
    }
    Some(sum)
}

/// Pays `amount` of the rewards of the sender out. `balance` is what the
/// reward token reports as the balance of the campaign, `None` where it
/// could not be asked.
pub fn execute_claim_reward(
    deps: &mut Campaign,
    env: &Env,
    info: &MessageInfo,
    amount: u128,
    balance: Option<u128>,
) -> (r: Result<Response, ContractError>)
    requires
        old(deps)@.wf(),
    ensures
        final(deps)@.wf(),
        match r {
            Ok(response) => old(deps)@.claimed(env@, info@, amount, balance) == Ok::<
                (CampaignView, Seq<MessageView>),
                ContractErrorView,
            >((final(deps)@, response@.messages))
                && response@.attributes == old(deps)@.claimed_told(amount),
            Err(e) => old(deps)@.claimed(env@, info@, amount, balance) == Err::<
                (CampaignView, Seq<MessageView>),
                ContractErrorView,
            >(e@) && final(deps)@ == old(deps)@,
        },
{
    let s: usize = match find_staker(&deps.stakers, &info.sender) {
        Some(s) => s,
        None => {
            return Err(ContractError::InvalidClaim {  });
        },
    };
    let mut work = deps.duplicate();
    match run_pass(&mut work, env.time) {
        Err(e) => {
            return Err(e);
        },
        Ok(()) => {},
    }
    let ghost now = work@;
    let debt: u128 = match fold_pending(
        &mut work.nfts,
        &work.stakers[s].info.nft_keys,
        work.stakers[s].info.reward_debt,
    ) {
        Some(debt) => debt,
        None => {
            return Err(overflow());
        },
    };
    if amount > debt {
        return Err(ContractError::InsufficientBalance {  });
    }
    let covered = match balance {
        Some(b) => b >= amount,
        None => false,
    };
    if !covered {
        return Err(not_covered_error(&work.info.reward_token_info.info));
    }
    let claimed: u128 = match work.stakers[s].info.reward_claimed.checked_add(amount) {
        Some(claimed) => claimed,
        None => {
            return Err(overflow());
        },
    };
    let total_claimed: u128 = match work.info.total_reward_claimed.checked_add(amount) {
        Some(total) => total,
        None => {
            return Err(overflow());
        },
    };
    if work.info.reward_token_info.amount < amount {
        return Err(ContractError::InsufficientBalance {  });
    }
    let message = payout_message(&work.info.reward_token_info.info, &info.sender, amount);
    work.stakers[s].info.reward_debt = debt - amount;
    work.stakers[s].info.reward_claimed = claimed;
    work.info.reward_token_info.amount = work.info.reward_token_info.amount - amount;
    work.info.total_reward_claimed = total_claimed;
    let mut messages: Vec<Message> = Vec::new();
    messages.push(message);
    let mut attributes: Vec<Attribute> = Vec::new();
    attributes.push(tell_action("claim_reward"));
    attributes.push(tell_text("owner", &work.info.owner));
    attributes.push(tell_token(&work.info.reward_token_info.info));
    attributes.push(tell_amount("reward_claim_amount", amount));
    let response = Response { messages, attributes };
    proof {
        assert(response@.attributes =~= old(deps)@.claimed_told(amount));
        let goal = old(deps)@.claimed(env@, info@, amount, balance);
        assert(goal.is_ok());
        assert(response@.messages =~= goal->Ok_0.1);
        assert(work@.stakers =~= goal->Ok_0.0.stakers);
        assert(work@.nfts =~= goal->Ok_0.0.nfts);
        assert(work@.info == goal->Ok_0.0.info);
        assert(work@.wf()) by {
            let c = work@;
            assert forall|k: u64| #[trigger]
                c.info.end_calc_nft.contains(k) <==> (c.has_key(k) && c.nfts[k
                    - 1].is_end_reward) by {
                if now.has_key(k) {
                    assert(c.nfts[k - 1].is_end_reward == now.nfts[k - 1].is_end_reward);
                }
            }
            assert forall|t: int, j: int|
                0 <= t < c.stakers.len() && 0 <= j < c.stakers[t].info.nft_keys.len()
                    implies c.has_key(#[trigger] c.stakers[t].info.nft_keys[j]) by {
                assert(now.has_key(now.stakers[t].info.nft_keys[j]));
            }
        }
    }
    *deps = work;
    Ok(response)
}

/// Sum of the pending rewards of all positions, or nothing where it does
/// not fit.
pub(crate) fn sum_pending(nfts: &Vec<NftInfo>) -> (r: Option<u128>)
    ensures
        match r {
            Some(sum) => sum == total_pending(nfts_view(nfts@)),
            None => total_pending(nfts_view(nfts@)) > u128::MAX,
        },
{
    let ghost all = nfts_view(nfts@);
    let mut sum: u128 = 0;
    let mut i: usize = 0;
    while i < nfts.len()
        invariant
            i <= nfts.len(),
            all == nfts_view(nfts@),
            sum == total_pending(all.subrange(0, i as int)),
        decreases nfts.len() - i,
    {
        proof {
            assert(all.subrange(0, i + 1).drop_last() =~= all.subrange(0, i as int));
            assert(all.subrange(0, i + 1).last() == nfts@[i as int]@);
        }
        sum = match sum.checked_add(nfts[i].pending_reward) {
            Some(sum) => sum,
            None => {
                proof {
                    lemma_total_pending_grows(all, i + 1, all.len() as int);
                    assert(all.subrange(0, all.len() as int) =~= all);
                }
                return None;
            },
        };
        i += 1;
    }
    proof {
        assert(all.subrange(0, i as int) =~= all);
    }
    Some(sum)
}

/// Sum of the claimable rewards of all stakers, or nothing where it does
/// not fit.
fn sum_debt(stakers: &Vec<Staker>) -> (r: Option<u128>)
    ensures
        match r {
            Some(sum) => sum == total_debt(stakers_view(stakers@)),
            None => total_debt(stakers_view(stakers@)) > u128::MAX,
        },
{
    let ghost all = stakers_view(stakers@);
    let mut sum: u128 = 0;
    let mut i: usize = 0;
    while i < stakers.len()
        invariant
            i <= stakers.len(),
            all == stakers_view(stakers@),
            sum == total_debt(all.subrange(0, i as int)),
        decreases stakers.len() - i,
    {
        proof {
            assert(all.subrange(0, i + 1).drop_last() =~= all.subrange(0, i as int));
            assert(all.subrange(0, i + 1).last() == stakers@[i as int]@);
        }
        sum = match sum.checked_add(stakers[i].info.reward_debt) {
            Some(sum) => sum,
            None => {
                proof {
                    lemma_total_debt_grows(all, i + 1, all.len() as int);
                    assert(all.subrange(0, all.len() as int) =~= all);
                }
                return None;
            },
        };
        i += 1;
    }
    proof {
        assert(all.subrange(0, i as int) =~= all);
    }
    Some(sum)
}

/// What the campaign owes, or nothing where it does not fit.
pub fn total_owed(campaign: &Campaign) -> (r: Option<u128>)
    ensures
        match r {
            Some(sum) => sum == campaign@.owed(),
            None => campaign@.owed() > u128::MAX,
        },
{
    proof {
        lemma_total_pending_grows(campaign@.nfts, 0, 0);
        lemma_total_debt_grows(campaign@.stakers, 0, 0);
        lemma_total_pending_grows(campaign@.nfts, 0, campaign@.nfts.len() as int);
        lemma_total_debt_grows(campaign@.stakers, 0, campaign@.stakers.len() as int);
        assert(campaign@.nfts.subrange(0, campaign@.nfts.len() as int) =~= campaign@.nfts);
        assert(campaign@.stakers.subrange(0, campaign@.stakers.len() as int)
            =~= campaign@.stakers);
    }
    match sum_pending(&campaign.nfts) {
        None => None,
        Some(pending) => match sum_debt(&campaign.stakers) {
            None => None,
            Some(debt) => pending.checked_add(debt),
        },
    }
}

/// Pays the reward that the campaign holds beyond what it owes to the
/// owner, after the campaign has ended. `balance` is what the reward token
/// reports as the balance of the campaign, `None` where it could not be
/// asked.
pub fn execute_withdraw_reward(
    deps: &mut Campaign,
    env: &Env,
    info: &MessageInfo,
    balance: Option<u128>,
) -> (r: Result<Response, ContractError>)
    requires
        old(deps)@.wf(),
    ensures
        final(deps)@.wf(),
        match r {
            Ok(response) => old(deps)@.withdrawn(env@, info@, balance) == Ok::<
                (CampaignView, Seq<MessageView>),
                ContractErrorView,
            >((final(deps)@, response@.messages))
                && response@.attributes == old(deps)@.withdrawn_told(
                (old(deps)@.info.reward_token_info.amount
                    - final(deps)@.info.reward_token_info.amount) as u128,
            ),
            Err(e) => old(deps)@.withdrawn(env@, info@, balance) == Err::<
                (CampaignView, Seq<MessageView>),
                ContractErrorView,
            >(e@) && final(deps)@ == old(deps)@,
        },
{
    if !(info.sender == deps.info.owner) {
        return Err(ContractError::Unauthorized {  });
    }
    if deps.info.end_time > env.time {
        return Err(ContractError::InvalidTimeToWithdrawReward {  });
    }
    let mut work = deps.duplicate();
    match run_pass(&mut work, env.time) {
        Err(e) => {
            return Err(e);
        },
        Ok(()) => {},
    }
    let owed: u128 = match total_owed(&work) {
        Some(owed) => owed,
        None => {
            return Err(ContractError::InsufficientBalance {  });
        },
    };
    if work.info.reward_token_info.amount < owed {
        return Err(ContractError::InsufficientBalance {  });
    }
    let rest: u128 = work.info.reward_token_info.amount - owed;
    let covered = match balance {
        Some(b) => b >= rest,
        None => false,
    };
    if !covered {
        return Err(not_covered_error(&work.info.reward_token_info.info));
    }
    let message = payout_message(&work.info.reward_token_info.info, &work.info.owner, rest);
    work.info.reward_token_info.amount = owed;
    let mut messages: Vec<Message> = Vec::new();
    messages.push(message);
    let mut attributes: Vec<Attribute> = Vec::new();
    attributes.push(tell_action("withdraw_reward"));
    attributes.push(tell_text("owner", &work.info.owner));
    attributes.push(tell_token(&work.info.reward_token_info.info));
    attributes.push(tell_amount("withdraw_reward_amount", rest));
    let response = Response { messages, attributes };
    proof {
        assert(response@.attributes =~= old(deps)@.withdrawn_told(rest));
        let goal = old(deps)@.withdrawn(env@, info@, balance);
        assert(goal.is_ok());
        assert(response@.messages =~= goal->Ok_0.1);
    }
    *deps = work;
    Ok(response)
}

} // verus!
