//! Staking NFTs and taking them back.

use crate::accrual::{find_term, run_pass, term_for};
use crate::contract::Outcome;
use crate::error::{
    overflow, overflow_error, ContractError, ContractErrorView, StdError, StdErrorView,
};
use crate::ledger::{create, lemma_without_key, remove_from_owner, without_key};
use crate::msg::{
    action_attr, messages_view, tell_action, tell_text, text_attr, text_view, AttrValue,
    AttrValueView, Attribute, AttributeView, Env, EnvView, Message, MessageInfo, MessageInfoView,
    MessageView, Response,
};
use crate::state::{
    copy_stakes, copy_unstakes, find_staker, staker_at, stakes_view, unstakes_view, Campaign,
    CampaignView, LockupTerm, NftInfo, NftInfoView, NftStake, NftStakeView, StakerRewardAssetInfo,
    StakerRewardAssetInfoView, StakerView, UnStakeNft, UnStakeNftView,
};
use vstd::prelude::*;

verus! {

/// Values of the owners that the collection reported, one for each NFT of a
/// call; `None` stands for a question that failed.
pub open spec fn owners_view(owners: Seq<Option<String>>) -> Seq<Option<Seq<char>>> {
    owners.map_values(|o: Option<String>| text_view(o))
}

/// The owner reported for the NFT at place `i` of a call; none where the
/// list of owners is too short.
pub open spec fn owner_reported(owners: Seq<Option<Seq<char>>>, i: int) -> Option<Seq<char>> {
    if 0 <= i < owners.len() {
        owners[i]
    } else {
        None
    }
}

impl CampaignView {
    /// Number of positions in the index of `owner`.
    pub open spec fn held_by(self, owner: Seq<char>) -> nat {
        match staker_at(self.stakers, owner) {
            Some(i) => self.stakers[i].info.nft_keys.len(),
            None => 0,
        }
    }

    /// What staking one NFT comes to. The collection must have reported the
    /// sender as its owner, the sender's limit must leave room, and the
    /// duration must select a tier of positive length. Then the rewards
    /// are brought up to the time of the call, and a position that starts
    /// then is created for the sender; the NFT moves to the campaign.
    pub open spec fn staked_one(
        self,
        env: EnvView,
        sender: Seq<char>,
        nft: NftStakeView,
        owner: Option<Seq<char>>,
    ) -> Result<(CampaignView, MessageView), ContractErrorView> {
        if owner != Some(sender) {
            Err(ContractErrorView::NotOwner { token_id: nft.token_id })
        } else if self.info.limit_per_staker > 0 && self.held_by(sender) + 1
            > self.info.limit_per_staker {
            Err(ContractErrorView::LimitPerStake)
        } else {
            match term_for(self.info.lockup_term, nft.lockup_term) {
                None => Err(ContractErrorView::InvalidLockupTerm),
                Some(term) => if term.value == 0 {
                    Err(ContractErrorView::InvalidLockupTerm)
                } else if !self.accrual_fits(env.time) {
                    Err(overflow_error())
                } else {
                    match self.accrued(env.time).created(sender, nft.token_id, term, env.time) {
                        None => Err(overflow_error()),
                        Some(after) => Ok(
                            (
                                after,
                                MessageView::NftTransfer {
                                    collection: self.info.allowed_collection,
                                    recipient: env.contract_address,
                                    token_id: nft.token_id,
                                },
                            ),
                        ),
                    }
                },
            }
        }
    }

    /// What staking the first `k` NFTs of a call comes to, one after the
    /// other; the first that is refused refuses the call.
    pub open spec fn staked_upto(
        self,
        env: EnvView,
        sender: Seq<char>,
        nfts: Seq<NftStakeView>,
        owners: Seq<Option<Seq<char>>>,
        k: int,
    ) -> Outcome
        decreases k,
    {
        if k <= 0 {
            Ok((self, Seq::empty()))
        } else {
            match self.staked_upto(env, sender, nfts, owners, k - 1) {
                Err(e) => Err(e),
                Ok((before, messages)) => match before.staked_one(
                    env,
                    sender,
                    nfts[k - 1],
                    owner_reported(owners, k - 1),
                ) {
                    Err(e) => Err(e),
                    Ok((after, message)) => Ok((after, messages.push(message))),
                },
            }
        }
    }

    /// What a call to stake tells.
    pub open spec fn staked_told(
        self,
        info: MessageInfoView,
        nfts: Seq<NftStakeView>,
    ) -> Seq<AttributeView> {
        seq![
            action_attr("stake_nft"@),
            text_attr("owner"@, info.sender),
            text_attr("allowed_collection"@, self.info.allowed_collection),
            AttributeView { key: "nfts"@, value: AttrValueView::Stakes(nfts) },
        ]
    }

    /// What a call to take NFTs back tells.
    pub open spec fn unstaked_told(
        self,
        info: MessageInfoView,
        nfts: Seq<UnStakeNftView>,
    ) -> Seq<AttributeView> {
        seq![
            action_attr("unstake_nft"@),
            text_attr("owner"@, info.sender),
            text_attr("allowed_collection"@, self.info.allowed_collection),
            AttributeView { key: "nfts"@, value: AttrValueView::Unstakes(nfts) },
        ]
    }

    /// What a call to stake comes to. The campaign must be running and have
    /// a reward rate; then the NFTs are staked one after the other.
    pub open spec fn staked(
        self,
        env: EnvView,
        info: MessageInfoView,
        nfts: Seq<NftStakeView>,
        owners: Seq<Option<Seq<char>>>,
    ) -> Outcome {
        if !(self.info.start_time <= env.time < self.info.end_time) || self.info.reward_per_second
            == 0 {
            Err(ContractErrorView::InvalidTimeToStakeNft)
        } else {
            self.staked_upto(env, info.sender, nfts, owners, nfts.len() as int)
        }
    }
}

/// A call that is refused at one of its first `a` NFTs is refused with the
/// same error whatever follows.
pub proof fn lemma_staked_error(
    c: CampaignView,
    env: EnvView,
    sender: Seq<char>,
    nfts: Seq<NftStakeView>,
    owners: Seq<Option<Seq<char>>>,
    a: int,
    b: int,
)
    requires
        0 <= a <= b,
        c.staked_upto(env, sender, nfts, owners, a).is_err(),
    ensures
        c.staked_upto(env, sender, nfts, owners, b) == c.staked_upto(env, sender, nfts, owners, a),
    decreases b - a,
{
    if a < b {
        lemma_staked_error(c, env, sender, nfts, owners, a, b - 1);
    }
}

/// Stakes one NFT. When it fails the campaign is left as far as the step
/// had come.
fn stake_one(
    work: &mut Campaign,
    env: &Env,
    sender: &String,
    nft: &NftStake,
    owner: Option<&String>,
) -> (r: Result<Message, ContractError>)
    requires
        old(work)@.wf(),
    ensures
        match r {
            Ok(message) => old(work)@.staked_one(
                env@,
                sender@,
                nft@,
                match owner {
                    Some(o) => Some(o@),
                    None => None,
                },
            ) == Ok::<(CampaignView, MessageView), ContractErrorView>((final(work)@, message@))
                && final(work)@.wf(),
            Err(e) => old(work)@.staked_one(
                env@,
                sender@,
                nft@,
                match owner {
                    Some(o) => Some(o@),
                    None => None,
                },
            ) == Err::<(CampaignView, MessageView), ContractErrorView>(e@),
        },
{
    let owned = match owner {
        Some(o) => *o == *sender,
        None => false,
    };
    if !owned {
        return Err(ContractError::NotOwner { token_id: nft.token_id.clone() });
    }
    let held: usize = match find_staker(&work.stakers, sender) {
        Some(i) => work.stakers[i].info.nft_keys.len(),
        None => 0,
    };
    if work.info.limit_per_staker > 0 && (held as u64) >= work.info.limit_per_staker {
        return Err(ContractError::LimitPerStake {  });
    }
    proof {
        assert(work.info.lockup_term@.subrange(0, work.info.lockup_term@.len() as int)
            =~= work.info.lockup_term@);
    }
    let term: LockupTerm = match find_term(
        &work.info.lockup_term,
        work.info.lockup_term.len(),
        nft.lockup_term,
    ) {
        Some(term) => term,
        None => {
            return Err(ContractError::InvalidLockupTerm {  });
        },
    };
    if term.value == 0 {
        return Err(ContractError::InvalidLockupTerm {  });
    }
    let message = Message::NftTransfer {
        collection: work.info.allowed_collection.clone(),
        recipient: env.contract_address.clone(),
        token_id: nft.token_id.clone(),
    };
    match run_pass(work, env.time) {
        Err(e) => {
            return Err(e);
        },
        Ok(()) => {},
    }
    let ghost now = work@;
    match create(work, sender, &nft.token_id, term, env.time) {
        Some(_) => {},
        None => {
            return Err(overflow());
        },
    }
    proof {
        assert(now == old(work)@.accrued(env.time));
        assert(now.nfts.len() == old(work)@.nfts.len());
    }
    Ok(message)
}

/// Stakes NFTs for the sender, each for its lockup duration. `owners` holds
/// what the collection reported as the owner of each NFT of `nfts`, in the
/// same order, `None` where it could not be asked.
pub fn execute_stake_nft(
    deps: &mut Campaign,
    env: &Env,
    info: &MessageInfo,
    nfts: &Vec<NftStake>,
    owners: &Vec<Option<String>>,
) -> (r: Result<Response, ContractError>)
    requires
        old(deps)@.wf(),
    ensures
        final(deps)@.wf(),
        match r {
            Ok(response) => old(deps)@.staked(
                env@,
                info@,
                stakes_view(nfts@),
                owners_view(owners@),
            ) == Ok::<(CampaignView, Seq<MessageView>), ContractErrorView>(
                (final(deps)@, response@.messages),
            ) && response@.attributes == old(deps)@.staked_told(info@, stakes_view(nfts@)),
            Err(e) => old(deps)@.staked(env@, info@, stakes_view(nfts@), owners_view(owners@))
                == Err::<(CampaignView, Seq<MessageView>), ContractErrorView>(e@) && final(deps)@
                == old(deps)@,
        },
{
    if !(deps.info.start_time <= env.time && env.time < deps.info.end_time)
        || deps.info.reward_per_second == 0 {
        return Err(ContractError::InvalidTimeToStakeNft {  });
    }
    let ghost start = deps@;
    let ghost wanted = stakes_view(nfts@);
    let ghost reported = owners_view(owners@);
    let mut work = deps.duplicate();
    let mut messages: Vec<Message> = Vec::new();
    let mut i: usize = 0;
    proof {
        assert(messages_view(messages@) =~= Seq::<MessageView>::empty());
    }
    while i < nfts.len()
        invariant
            i <= nfts.len(),
            work@.wf(),
            start == old(deps)@,
            deps@ == start,
            start.wf(),
            start.info.start_time <= env.time < start.info.end_time,
            start.info.reward_per_second != 0,
            wanted == stakes_view(nfts@),
            reported == owners_view(owners@),
            start.staked_upto(env@, info.sender@, wanted, reported, i as int) == Ok::<
                (CampaignView, Seq<MessageView>),
                ContractErrorView,
            >((work@, messages_view(messages@))),
        decreases nfts.len() - i,
    {
        let owner: Option<&String> = if i < owners.len() {
            owners[i].as_ref()
        } else {
            None
        };
        match stake_one(&mut work, env, &info.sender, &nfts[i], owner) {
            Err(e) => {
                proof {
                    assert(start.staked_upto(env@, info.sender@, wanted, reported, i + 1).is_err());
                    lemma_staked_error(
                        start,
                        env@,
                        info.sender@,
                        wanted,
                        reported,
                        i + 1,
                        nfts.len() as int,
                    );
                }
                return Err(e);
            },
            Ok(message) => {
                let ghost sent = messages_view(messages@);
                messages.push(message);
                proof {
                    assert(messages_view(messages@) =~= sent.push(message@));
                }
            },
        }
        i += 1;
    }
    let mut attributes: Vec<Attribute> = Vec::new();
    attributes.push(tell_action("stake_nft"));
    attributes.push(tell_text("owner", &info.sender));
    attributes.push(tell_text("allowed_collection", &deps.info.allowed_collection));
    attributes.push(
        Attribute { key: "nfts".to_owned(), value: AttrValue::Stakes(copy_stakes(nfts)) },
    );
    let response = Response { messages, attributes };
    proof {
        assert(response@.attributes =~= start.staked_told(info@, wanted));
    }
    *deps = work;
    Ok(response)
}

/// Kind of the record of a position.
pub open spec fn position_kind() -> Seq<char> {
    "NftInfo"@
}

/// Kind of the record of a staker's account.
pub open spec fn account_kind() -> Seq<char> {
    "StakerRewardAssetInfo"@
}

/// The error for a record of kind `kind` that does not exist.
pub open spec fn not_found(kind: Seq<char>) -> ContractErrorView {
    ContractErrorView::Std(StdErrorView::NotFound { kind })
}

impl CampaignView {
    /// What taking one NFT back comes to. The key must name a position whose
    /// lockup has ended and that was not taken back before, the collection
    /// must have reported the campaign as the holder of the NFT, and the
    /// owner of the position must have an account. Then the pending reward
    /// of the position moves to the owner's claimable reward, the key leaves
    /// the owner's index, and the NFT moves to the owner.
    pub open spec fn unstaked_one(
        self,
        env: EnvView,
        nft: UnStakeNftView,
        holder: Option<Seq<char>>,
    ) -> Result<(CampaignView, MessageView), ContractErrorView> {
        if !self.has_key(nft.nft_key) {
            Err(not_found(position_kind()))
        } else {
            let position = self.nfts[nft.nft_key - 1];
            if !position.is_end_reward || position.is_unstake {
                Err(ContractErrorView::InvalidTimeToUnStake)
            } else if holder != Some(env.contract_address) {
                Err(ContractErrorView::NotOwner { token_id: nft.token_id })
            } else {
                match staker_at(self.stakers, position.owner_nft) {
                    None => Err(not_found(account_kind())),
                    Some(s) => if self.stakers[s].info.reward_debt + position.pending_reward
                        > u128::MAX {
                        Err(overflow_error())
                    } else {
                        let left = self.removed_from_owner(position.owner_nft, nft.nft_key);
                        Ok(
                            (
                                CampaignView {
                                    nfts: self.nfts.update(
                                        nft.nft_key - 1,
                                        NftInfoView {
                                            pending_reward: 0,
                                            is_unstake: true,
                                            ..position
                                        },
                                    ),
                                    stakers: left.stakers.update(
                                        s,
                                        StakerView {
                                            info: StakerRewardAssetInfoView {
                                                reward_debt: (self.stakers[s].info.reward_debt
                                                    + position.pending_reward) as u128,
                                                ..left.stakers[s].info
                                            },
                                            ..left.stakers[s]
                                        },
                                    ),
                                    ..self
                                },
                                MessageView::NftTransfer {
                                    collection: self.info.allowed_collection,
                                    recipient: position.owner_nft,
                                    token_id: nft.token_id,
                                },
                            ),
                        )
                    },
                }
            }
        }
    }

    /// What taking the first `k` NFTs of a call back comes to, one after the
    /// other; the first that is refused refuses the call.
    pub open spec fn unstaked_upto(
        self,
        env: EnvView,
        nfts: Seq<UnStakeNftView>,
        holders: Seq<Option<Seq<char>>>,
        k: int,
    ) -> Outcome
        decreases k,
    {
        if k <= 0 {
            Ok((self, Seq::empty()))
        } else {
            match self.unstaked_upto(env, nfts, holders, k - 1) {
                Err(e) => Err(e),
                Ok((before, messages)) => match before.unstaked_one(
                    env,
                    nfts[k - 1],
                    owner_reported(holders, k - 1),
                ) {
                    Err(e) => Err(e),
                    Ok((after, message)) => Ok((after, messages.push(message))),
                },
            }
        }
    }

    /// What a call to take NFTs back comes to: the rewards are brought up to
    /// the time of the call, then the NFTs are taken back one after the
    /// other.
    pub open spec fn unstaked(
        self,
        env: EnvView,
        nfts: Seq<UnStakeNftView>,
        holders: Seq<Option<Seq<char>>>,
    ) -> Outcome {
        if !self.accrual_fits(env.time) {
            Err(overflow_error())
        } else {
            self.accrued(env.time).unstaked_upto(env, nfts, holders, nfts.len() as int)
        }
    }
}

/// A call that is refused at one of its first `a` NFTs is refused with the
/// same error whatever follows.
pub proof fn lemma_unstaked_error(
    c: CampaignView,
    env: EnvView,
    nfts: Seq<UnStakeNftView>,
    holders: Seq<Option<Seq<char>>>,
    a: int,
    b: int,
)
    requires
        0 <= a <= b,
        c.unstaked_upto(env, nfts, holders, a).is_err(),
    ensures
        c.unstaked_upto(env, nfts, holders, b) == c.unstaked_upto(env, nfts, holders, a),
    decreases b - a,
{
    if a < b {
        lemma_unstaked_error(c, env, nfts, holders, a, b - 1);
    }
}

/// Takes one NFT back. When it fails the campaign is unchanged.
fn unstake_one(work: &mut Campaign, env: &Env, nft: &UnStakeNft, holder: Option<&String>) -> (r:
    Result<Message, ContractError>)
    requires
        old(work)@.wf(),
    ensures
        match r {
            Ok(message) => old(work)@.unstaked_one(
                env@,
                nft@,
                match holder {
                    Some(o) => Some(o@),
                    None => None,
                },
            ) == Ok::<(CampaignView, MessageView), ContractErrorView>((final(work)@, message@))
                && final(work)@.wf(),
            Err(e) => old(work)@.unstaked_one(
                env@,
                nft@,
                match holder {
                    Some(o) => Some(o@),
                    None => None,
                },
            ) == Err::<(CampaignView, MessageView), ContractErrorView>(e@),
        },
{
    if nft.nft_key < 1 || nft.nft_key > work.nfts.len() as u64 {
        return Err(ContractError::Std(StdError::NotFound { kind: "NftInfo".to_owned() }));
    }
    let at: usize = (nft.nft_key - 1) as usize;
    if !work.nfts[at].is_end_reward || work.nfts[at].is_unstake {
        return Err(ContractError::InvalidTimeToUnStake {  });
    }
    let held = match holder {
        Some(o) => *o == env.contract_address,
        None => false,
    };
    if !held {
        return Err(ContractError::NotOwner { token_id: nft.token_id.clone() });
    }
    let s: usize = match find_staker(&work.stakers, &work.nfts[at].owner_nft) {
        Some(s) => s,
        None => {
            return Err(
                ContractError::Std(
                    StdError::NotFound { kind: "StakerRewardAssetInfo".to_owned() },
                ),
            );
        },
    };
    let debt: u128 = match work.stakers[s].info.reward_debt.checked_add(
        work.nfts[at].pending_reward,
    ) {
        Some(debt) => debt,
        None => {
            return Err(overflow());
        },
    };
    let message = Message::NftTransfer {
        collection: work.info.allowed_collection.clone(),
        recipient: work.nfts[at].owner_nft.clone(),
        token_id: nft.token_id.clone(),
    };
    let ghost before = work@;
    let owner = work.nfts[at].owner_nft.clone();
    remove_from_owner(work, &owner, nft.nft_key);
    proof {
        assert(staker_at(before.stakers, owner@) == Some(s as int));
        assert(work@.stakers.len() == before.stakers.len());
        assert(work.stakers@.len() == work@.stakers.len());
    }
    let ghost mid = work@;
    work.stakers[s].info.reward_debt = debt;
    work.nfts[at].pending_reward = 0;
    work.nfts[at].is_unstake = true;
    proof {
        let position = before.nfts[at as int];
        assert(work@.nfts =~= before.nfts.update(
            at as int,
            NftInfoView { pending_reward: 0, is_unstake: true, ..position },
        ));
        assert(mid == before.removed_from_owner(owner@, nft.nft_key));
        assert(mid.stakers[s as int].info.nft_keys == without_key(
            before.stakers[s as int].info.nft_keys,
            nft.nft_key,
        ));
        assert forall|i: int| 0 <= i < before.stakers.len() && i != s implies work@.stakers[i]
            == before.stakers[i] by {
            assert(work@.stakers[i] == mid.stakers[i]);
        }
        let goal = before.unstaked_one(
            env@,
            nft@,
            match holder {
                Some(o) => Some(o@),
                None => None,
            },
        );
        assert(goal.is_ok());
        assert(work@.stakers =~= goal->Ok_0.0.stakers);
        assert(work@.info == before.info);
        assert(work@.wf()) by {
            let c = work@;
            lemma_without_key(before.stakers[s as int].info.nft_keys, nft.nft_key);
            assert forall|k: u64| #[trigger]
                c.info.end_calc_nft.contains(k) <==> (c.has_key(k) && c.nfts[k
                    - 1].is_end_reward) by {
                if before.has_key(k) {
                    assert(c.nfts[k - 1].is_end_reward == before.nfts[k - 1].is_end_reward);
                }
            }
            assert forall|t: int, j: int|
                0 <= t < c.stakers.len() && 0 <= j < c.stakers[t].info.nft_keys.len()
                    implies c.has_key(#[trigger] c.stakers[t].info.nft_keys[j]) by {
                if t == s {
                    let x = c.stakers[t].info.nft_keys[j];
                    assert(c.stakers[t].info.nft_keys.contains(x));
                    assert(before.stakers[t].info.nft_keys.contains(x));
                    let i = choose|i: int|
                        0 <= i < before.stakers[t].info.nft_keys.len()
                            && before.stakers[t].info.nft_keys[i] == x;
                    assert(before.has_key(before.stakers[t].info.nft_keys[i]));
                } else {
                    assert(before.has_key(before.stakers[t].info.nft_keys[j]));
                }
            }
        }
    }
    Ok(message)
}

/// Takes staked NFTs back once their lockup has ended; each goes to the
/// owner of its position, whoever makes the call. `holders` holds what the
/// collection reported as the owner of each NFT of `nfts`, in the same
/// order, `None` where it could not be asked.
pub fn execute_unstake_nft(
    deps: &mut Campaign,
    env: &Env,
    info: &MessageInfo,
    nfts: &Vec<UnStakeNft>,
    holders: &Vec<Option<String>>,
) -> (r: Result<Response, ContractError>)
    requires
        old(deps)@.wf(),
    ensures
        final(deps)@.wf(),
        match r {
            Ok(response) => old(deps)@.unstaked(env@, unstakes_view(nfts@), owners_view(holders@))
                == Ok::<(CampaignView, Seq<MessageView>), ContractErrorView>(
                (final(deps)@, response@.messages),
            ) && response@.attributes == old(deps)@.unstaked_told(info@, unstakes_view(nfts@)),
            Err(e) => old(deps)@.unstaked(env@, unstakes_view(nfts@), owners_view(holders@))
                == Err::<(CampaignView, Seq<MessageView>), ContractErrorView>(e@) && final(deps)@
                == old(deps)@,
        },
{
    let ghost wanted = unstakes_view(nfts@);
    let ghost reported = owners_view(holders@);
    let mut work = deps.duplicate();
    match run_pass(&mut work, env.time) {
        Err(e) => {
            return Err(e);
        },
        Ok(()) => {},
    }
    let ghost start = work@;
    let mut messages: Vec<Message> = Vec::new();
    let mut i: usize = 0;
    proof {
        assert(messages_view(messages@) =~= Seq::<MessageView>::empty());
    }
    while i < nfts.len()
        invariant
            i <= nfts.len(),
            work@.wf(),
            deps@ == old(deps)@,
            deps@.wf(),
            deps@.accrual_fits(env.time),
            start == deps@.accrued(env.time),
            wanted == unstakes_view(nfts@),
            reported == owners_view(holders@),
            start.unstaked_upto(env@, wanted, reported, i as int) == Ok::<
                (CampaignView, Seq<MessageView>),
                ContractErrorView,
            >((work@, messages_view(messages@))),
        decreases nfts.len() - i,
    {
        let holder: Option<&String> = if i < holders.len() {
            holders[i].as_ref()
        } else {
            None
        };
        match unstake_one(&mut work, env, &nfts[i], holder) {
            Err(e) => {
                proof {
                    assert(start.unstaked_upto(env@, wanted, reported, i + 1).is_err());
                    lemma_unstaked_error(start, env@, wanted, reported, i + 1, nfts.len() as int);
                }
                return Err(e);
            },
            Ok(message) => {
                let ghost sent = messages_view(messages@);
                messages.push(message);
                proof {
                    assert(messages_view(messages@) =~= sent.push(message@));
                }
            },
        }
        i += 1;
    }
    let mut attributes: Vec<Attribute> = Vec::new();
    attributes.push(tell_action("unstake_nft"));
    attributes.push(tell_text("owner", &info.sender));
    attributes.push(tell_text("allowed_collection", &deps.info.allowed_collection));
    attributes.push(
        Attribute { key: "nfts".to_owned(), value: AttrValue::Unstakes(copy_unstakes(nfts)) },
    );
    let response = Response { messages, attributes };
    proof {
        assert(response@.attributes =~= deps@.unstaked_told(info@, wanted));
    }
    *deps = work;
    Ok(response)
}

} // verus!
