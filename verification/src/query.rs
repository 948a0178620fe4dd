//! Questions about a campaign; none of them changes it.

use crate::accrual::{
    find_term, keyed, leads, lemma_pair_order_total, pair_of, pair_order, run_pass, sort_pairs,
};
use crate::error::{overflow, overflow_error, ContractError, ContractErrorView, StdError};
use crate::msg::Env;
use crate::rewards::{sum_pending, total_owed, total_pending};
use crate::staking::{not_found, position_kind};
use crate::state::{
    contains_key, copy_terms, find_staker, nfts_view, staker_at, Campaign, CampaignInfoResult,
    CampaignInfoResultView, CampaignView, LockupTerm, NftInfo, NftInfoView, StakedInfoResult,
    StakedInfoResultView,
};
use vstd::prelude::*;

verus! {

/// Number of positions whose lockup has not ended.
pub open spec fn open_count(nfts: Seq<NftInfoView>) -> nat
    decreases nfts.len(),
{
    if nfts.len() == 0 {
        0
    } else {
        open_count(nfts.drop_last()) + if nfts.last().is_end_reward {
            0nat
        } else {
            1nat
        }
    }
}

/// The pairs of the positions of the tier with duration `value` whose keys
/// are among `keys`, in ledger order.
pub open spec fn index_pairs(nfts: Seq<NftInfoView>, keys: Seq<u64>, value: u64) -> Seq<(u64, u64)>
    decreases nfts.len(),
{
    if nfts.len() == 0 {
        Seq::empty()
    } else {
        let rest = index_pairs(nfts.drop_last(), keys, value);
        if nfts.last().lockup_term.value == value && keys.contains(nfts.last().key) {
            rest.push(pair_of(nfts.last()))
        } else {
            rest
        }
    }
}

/// The positions that `pairs` name, in their order.
pub open spec fn positions_of(nfts: Seq<NftInfoView>, pairs: Seq<(u64, u64)>) -> Seq<NftInfoView> {
    Seq::new(pairs.len(), |i: int| nfts[pairs[i].1 - 1])
}

/// The positions of the tier with duration `value` whose keys are among
/// `keys`, in the order of the sweep of the tier.
pub open spec fn tier_listing(nfts: Seq<NftInfoView>, keys: Seq<u64>, value: u64) -> Seq<
    NftInfoView,
> {
    positions_of(nfts, index_pairs(nfts, keys, value).sort_by(pair_order()))
}

/// The positions with a key among `keys` of the first `k` tiers of the
/// table, tier by tier, each tier where it is the first with its duration.
pub open spec fn index_positions(
    nfts: Seq<NftInfoView>,
    keys: Seq<u64>,
    terms: Seq<LockupTerm>,
    k: int,
) -> Seq<NftInfoView>
    decreases k,
{
    if k <= 0 {
        Seq::empty()
    } else {
        index_positions(nfts, keys, terms, k - 1) + if leads(terms, k - 1) {
            tier_listing(nfts, keys, terms[k - 1].value)
        } else {
            Seq::empty()
        }
    }
}

/// The pairs of the positions under an index name positions of the ledger.
pub proof fn lemma_index_pairs(nfts: Seq<NftInfoView>, keys: Seq<u64>, value: u64)
    requires
        keyed(nfts),
    ensures
        forall|x: (u64, u64)| #[trigger]
            index_pairs(nfts, keys, value).contains(x) ==> 1 <= x.1 <= nfts.len(),
    decreases nfts.len(),
{
    if nfts.len() > 0 {
        let rest = nfts.drop_last();
        lemma_index_pairs(rest, keys, value);
        let before = index_pairs(rest, keys, value);
        let all = index_pairs(nfts, keys, value);
        assert forall|x: (u64, u64)| #[trigger] all.contains(x) implies 1 <= x.1 <= nfts.len() by {
            let i = choose|i: int| 0 <= i < all.len() && all[i] == x;
            if i < before.len() {
                assert(before[i] == x);
                assert(before.contains(x));
            } else {
                assert(x == pair_of(nfts.last()));
                assert(nfts[nfts.len() - 1].key == nfts.len());
            }
        }
    }
}

/// The page of the ledger that starts after key `start_after` and reaches
/// over at most `limit` keys.
pub open spec fn page(nfts: Seq<NftInfoView>, start_after: int, limit: int) -> Seq<NftInfoView> {
    if 0 <= start_after < nfts.len() && limit >= 0 {
        if start_after + limit < nfts.len() {
            nfts.subrange(start_after, start_after + limit)
        } else {
            nfts.subrange(start_after, nfts.len() as int)
        }
    } else {
        Seq::empty()
    }
}

/// The positions of `nfts` that belong to `owner`, or all of them where no
/// owner is asked for, in their order.
pub open spec fn owned_by(nfts: Seq<NftInfoView>, owner: Option<Seq<char>>) -> Seq<NftInfoView>
    decreases nfts.len(),
{
    if nfts.len() == 0 {
        Seq::empty()
    } else {
        let rest = owned_by(nfts.drop_last(), owner);
        if owner matches Some(o) && nfts.last().owner_nft != o {
            rest
        } else {
            rest.push(nfts.last())
        }
    }
}

impl CampaignView {
    /// The configuration and the totals of the campaign.
    pub open spec fn summary(self) -> CampaignInfoResultView {
        CampaignInfoResultView {
            owner: self.info.owner,
            campaign_name: self.info.campaign_name,
            campaign_image: self.info.campaign_image,
            campaign_description: self.info.campaign_description,
            total_nft_staked: open_count(self.nfts) as u64,
            total_reward_claimed: self.info.total_reward_claimed,
            total_reward: self.info.total_reward,
            limit_per_staker: self.info.limit_per_staker,
            reward_token_info: self.info.reward_token_info,
            allowed_collection: self.info.allowed_collection,
            lockup_term: self.info.lockup_term,
            reward_per_second: self.info.reward_per_second,
            start_time: self.info.start_time,
            end_time: self.info.end_time,
        }
    }

    /// What a staker holds at `now`, had the rewards been brought up to
    /// then: the staked positions whose tier is in the table, with their
    /// pending rewards, and the pending rewards of those positions added to
    /// the claimable reward. An address without an account holds nothing.
    pub open spec fn staker_summary(self, now: u64, owner: Seq<char>) -> Result<
        StakedInfoResultView,
        ContractErrorView,
    > {
        match staker_at(self.stakers, owner) {
            None => Ok(
                StakedInfoResultView { nfts: Seq::empty(), reward_debt: 0, reward_claimed: 0 },
            ),
            Some(s) => if !self.accrual_fits(now) {
                Err(overflow_error())
            } else {
                let account = self.stakers[s].info;
                let listed = index_positions(
                    self.accrued(now).nfts,
                    account.nft_keys,
                    self.info.lockup_term,
                    self.info.lockup_term.len() as int,
                );
                let debt = account.reward_debt + total_pending(listed);
                if debt > u128::MAX {
                    Err(overflow_error())
                } else {
                    Ok(
                        StakedInfoResultView {
                            nfts: listed,
                            reward_debt: debt as u128,
                            reward_claimed: account.reward_claimed,
                        },
                    )
                }
            },
        }
    }

    /// What the campaign owes at `now`, had the rewards been brought up to
    /// then.
    pub open spec fn owed_at(self, now: u64) -> Result<u128, ContractErrorView> {
        if !self.accrual_fits(now) || self.accrued(now).owed() > u128::MAX {
            Err(overflow_error())
        } else {
            Ok(self.accrued(now).owed() as u128)
        }
    }
}

/// The configuration and the totals of the campaign.
pub fn query_campaign_info(deps: &Campaign) -> (r: CampaignInfoResult)
    requires
        deps@.wf(),
    ensures
        r@ == deps@.summary(),
{
    let ghost all = deps@.nfts;
    let mut staked: u64 = 0;
    let mut i: usize = 0;
    while i < deps.nfts.len()
        invariant
            i <= deps.nfts.len(),
            all == nfts_view(deps.nfts@),
            all.len() < u64::MAX,
            staked == open_count(all.subrange(0, i as int)),
            staked <= i,
        decreases deps.nfts.len() - i,
    {
        proof {
            assert(all.subrange(0, i + 1).drop_last() =~= all.subrange(0, i as int));
            assert(all.subrange(0, i + 1).last() == deps.nfts@[i as int]@);
        }
        if !deps.nfts[i].is_end_reward {
            staked += 1;
        }
        i += 1;
    }
    proof {
        assert(all.subrange(0, i as int) =~= all);
    }
    CampaignInfoResult {
        owner: deps.info.owner.clone(),
        campaign_name: deps.info.campaign_name.clone(),
        campaign_image: deps.info.campaign_image.clone(),
        campaign_description: deps.info.campaign_description.clone(),
        total_nft_staked: staked,
        total_reward_claimed: deps.info.total_reward_claimed,
        total_reward: deps.info.total_reward,
        limit_per_staker: deps.info.limit_per_staker,
        reward_token_info: deps.info.reward_token_info.duplicate(),
        allowed_collection: deps.info.allowed_collection.clone(),
        lockup_term: copy_terms(&deps.info.lockup_term),
        reward_per_second: deps.info.reward_per_second,
        start_time: deps.info.start_time,
        end_time: deps.info.end_time,
    }
}

/// The position with key `nft_id`.
pub fn query_nft_info(deps: &Campaign, nft_id: u64) -> (r: Result<NftInfo, ContractError>)
    ensures
        match r {
            Ok(nft) => deps@.has_key(nft_id) && nft@ == deps@.nfts[nft_id - 1],
            Err(e) => !deps@.has_key(nft_id) && e@ == not_found(position_kind()),
        },
{
    if nft_id < 1 || nft_id > deps.nfts.len() as u64 {
        return Err(ContractError::Std(StdError::NotFound { kind: "NftInfo".to_owned() }));
    }
    Ok(deps.nfts[(nft_id - 1) as usize].duplicate())
}

/// What `owner` holds at the time of the call, with the rewards as they
/// would be if they were brought up to then; the campaign is not changed.
pub fn query_staker_info(deps: &Campaign, env: &Env, owner: &String) -> (r: Result<
    StakedInfoResult,
    ContractError,
>)
    requires
        deps@.wf(),
    ensures
        match r {
            Ok(held) => deps@.staker_summary(env.time, owner@) == Ok::<
                StakedInfoResultView,
                ContractErrorView,
            >(held@),
            Err(e) => deps@.staker_summary(env.time, owner@) == Err::<
                StakedInfoResultView,
                ContractErrorView,
            >(e@),
        },
{
    let s: usize = match find_staker(&deps.stakers, owner) {
        Some(s) => s,
        None => {
            let held = StakedInfoResult { nfts: Vec::new(), reward_debt: 0, reward_claimed: 0 };
            proof {
                assert(held@.nfts =~= Seq::<NftInfoView>::empty());
            }
            return Ok(held);
        },
    };
    let mut work = deps.duplicate();
    match run_pass(&mut work, env.time) {
        Err(e) => {
            return Err(e);
        },
        Ok(()) => {},
    }
    let nfts = list_index(&work.nfts, &work.stakers[s].info.nft_keys, &work.info.lockup_term);
    let pending: u128 = match sum_pending(&nfts) {
        Some(pending) => pending,
        None => {
            return Err(overflow());
        },
    };
    let debt: u128 = match work.stakers[s].info.reward_debt.checked_add(pending) {
        Some(debt) => debt,
        None => {
            return Err(overflow());
        },
    };
    Ok(
        StakedInfoResult {
            nfts,
            reward_debt: debt,
            reward_claimed: work.stakers[s].info.reward_claimed,
        },
    )
}

/// The pairs of the positions of the tier with duration `value` whose keys
/// are among `keys`, in ledger order.
fn collect_index_pairs(nfts: &Vec<NftInfo>, keys: &Vec<u64>, value: u64) -> (pairs: Vec<(u64, u64)>)
    ensures
        pairs@ == index_pairs(nfts_view(nfts@), keys@, value),
{
    let ghost all = nfts_view(nfts@);
    let mut pairs: Vec<(u64, u64)> = Vec::new();
    let mut i: usize = 0;
    while i < nfts.len()
        invariant
            i <= nfts.len(),
            all == nfts_view(nfts@),
            pairs@ == index_pairs(all.subrange(0, i as int), keys@, value),
        decreases nfts.len() - i,
    {
        proof {
            assert(all.subrange(0, i + 1).drop_last() =~= all.subrange(0, i as int));
            assert(all.subrange(0, i + 1).last() == nfts@[i as int]@);
        }
        if nfts[i].lockup_term.value == value && contains_key(keys, nfts[i].key) {
            pairs.push((nfts[i].end_time, nfts[i].key));
        }
        i += 1;
    }
    proof {
        assert(all.subrange(0, i as int) =~= all);
    }
    pairs
}

/// The positions with a key among `keys`, tier by tier in the order of the
/// table, and within a tier by end time and key.
pub fn list_index(nfts: &Vec<NftInfo>, keys: &Vec<u64>, terms: &Vec<LockupTerm>) -> (out: Vec<
    NftInfo,
>)
    requires
        keyed(nfts_view(nfts@)),
    ensures
        nfts_view(out@) == index_positions(
            nfts_view(nfts@),
            keys@,
            terms@,
            terms@.len() as int,
        ),
{
    let ghost all = nfts_view(nfts@);
    let size: usize = nfts.len();
    let mut out: Vec<NftInfo> = Vec::new();
    let mut t: usize = 0;
    proof {
        assert(nfts_view(out@) =~= Seq::<NftInfoView>::empty());
    }
    while t < terms.len()
        invariant
            t <= terms.len(),
            size == all.len(),
            all == nfts_view(nfts@),
            keyed(all),
            nfts_view(out@) == index_positions(all, keys@, terms@, t as int),
        decreases terms.len() - t,
    {
        let value: u64 = terms[t].value;
        if find_term(terms, t, value).is_none() {
            let pairs = collect_index_pairs(nfts, keys, value);
            let sorted = sort_pairs(&pairs);
            let ghost listed = nfts_view(out@);
            proof {
                lemma_index_pairs(all, keys@, value);
                lemma_pair_order_total();
                pairs@.lemma_sort_by_ensures(pair_order());
            }
            let mut j: usize = 0;
            while j < sorted.len()
                invariant
                    j <= sorted.len(),
                    size == all.len(),
                    all == nfts_view(nfts@),
                    keyed(all),
                    forall|x: (u64, u64)| #[trigger] sorted@.contains(x) ==> 1 <= x.1 <= all.len(),
                    nfts_view(out@) == listed + positions_of(all, sorted@).subrange(0, j as int),
                decreases sorted.len() - j,
            {
                let key: u64 = sorted[j].1;
                proof {
                    assert(sorted@.contains(sorted@[j as int]));
                    assert(1 <= key <= size);
                }
                let ghost so_far = nfts_view(out@);
                out.push(nfts[(key - 1) as usize].duplicate());
                proof {
                    assert(((key - 1) as usize) as int == key - 1);
                    assert(all[key - 1] == nfts@[key - 1]@);
                    assert(nfts_view(out@) =~= so_far.push(all[key - 1]));
                    assert(positions_of(all, sorted@).subrange(0, j + 1) =~= positions_of(
                        all,
                        sorted@,
                    ).subrange(0, j as int).push(all[key - 1]));
                    assert(nfts_view(out@) =~= listed + positions_of(all, sorted@).subrange(
                        0,
                        j + 1,
                    ));
                }
                j += 1;
            }
            proof {
                assert(positions_of(all, sorted@).subrange(0, j as int) =~= positions_of(
                    all,
                    sorted@,
                ));
                assert(leads(terms@, t as int));
            }
        } else {
            proof {
                assert(!leads(terms@, t as int));
                assert(nfts_view(out@) + Seq::<NftInfoView>::empty() =~= nfts_view(out@));
            }
        }
        t += 1;
    }
    out
}

/// The positions with the keys after `start_after`, at most `limit` keys
/// on, that belong to `owner`; without a limit the keys up to the last,
/// without an owner the positions of all.
pub fn query_staker_nfts(
    deps: &Campaign,
    start_after: Option<u64>,
    limit: Option<u32>,
    owner: Option<&String>,
) -> (r: Vec<NftInfo>)
    ensures
        nfts_view(r@) == owned_by(
            page(
                deps@.nfts,
                match start_after {
                    Some(k) => k as int,
                    None => 0,
                },
                match limit {
                    Some(l) => l as int,
                    None => deps@.nfts.len() as int,
                },
            ),
            match owner {
                Some(o) => Some(o@),
                None => None,
            },
        ),
{
    let count: usize = deps.nfts.len();
    let first: u64 = match start_after {
        Some(k) => k,
        None => 0,
    };
    let mut out: Vec<NftInfo> = Vec::new();
    proof {
        assert(nfts_view(out@) =~= Seq::<NftInfoView>::empty());
    }
    if first >= count as u64 {
        return out;
    }
    let from: usize = first as usize;
    let room: usize = count - from;
    let to: usize = match limit {
        Some(l) => if (l as usize) < room {
            from + l as usize
        } else {
            count
        },
        None => count,
    };
    let ghost all = deps@.nfts;
    let ghost who: Option<Seq<char>> = match owner {
        Some(o) => Some(o@),
        None => None,
    };
    let ghost window = all.subrange(from as int, to as int);
    let mut i: usize = from;
    while i < to
        invariant
            from <= i <= to <= count,
            count == deps.nfts.len(),
            all == nfts_view(deps.nfts@),
            window == all.subrange(from as int, to as int),
            who == (match owner {
                Some(o) => Some(o@),
                None => None,
            }),
            nfts_view(out@) == owned_by(window.subrange(0, i - from), who),
        decreases to - i,
    {
        proof {
            assert(window.subrange(0, i + 1 - from).drop_last() =~= window.subrange(0, i - from));
            assert(window.subrange(0, i + 1 - from).last() == deps.nfts@[i as int]@);
        }
        let wanted = match owner {
            Some(o) => deps.nfts[i].owner_nft == *o,
            None => true,
        };
        if wanted {
            let ghost listed = nfts_view(out@);
            out.push(deps.nfts[i].duplicate());
            proof {
                assert(nfts_view(out@) =~= listed.push(deps.nfts@[i as int]@));
            }
        }
        i += 1;
    }
    proof {
        assert(window.subrange(0, to - from) =~= window);
    }
    out
}

/// What the campaign owes at the time of the call, with the rewards as
/// they would be if they were brought up to then; the campaign is not
/// changed.
pub fn query_total_pending_reward(deps: &Campaign, env: &Env) -> (r: Result<u128, ContractError>)
    requires
        deps@.wf(),
    ensures
        match r {
            Ok(owed) => deps@.owed_at(env.time) == Ok::<u128, ContractErrorView>(owed),
            Err(e) => deps@.owed_at(env.time) == Err::<u128, ContractErrorView>(e@),
        },
{
    let mut work = deps.duplicate();
    match run_pass(&mut work, env.time) {
        Err(e) => {
            return Err(e);
        },
        Ok(()) => {},
    }
    match total_owed(&work) {
        Some(owed) => Ok(owed),
        None => Err(overflow()),
    }
}

} // verus!
