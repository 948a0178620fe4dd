//! The ledger of positions and the stakers' indexes of keys: creating a
//! position, marking its lockup as ended, and taking its key out of its
//! owner's index.

use crate::state::{
    find_staker, lemma_staker_at, staker_at, stakers_view, Campaign, CampaignInfoView, CampaignView,
    LockupTerm, NftInfo, NftInfoView, Staker, StakerRewardAssetInfo, StakerRewardAssetInfoView,
    StakerView,
};
use vstd::prelude::*;

verus! {

/// The accounts after `key` has joined the index of `owner`, whose account
/// is created where there was none.
pub open spec fn with_key(stakers: Seq<StakerView>, owner: Seq<char>, key: u64) -> Seq<StakerView> {
    match staker_at(stakers, owner) {
        Some(i) => stakers.update(
            i,
            StakerView {
                info: StakerRewardAssetInfoView {
                    nft_keys: stakers[i].info.nft_keys.push(key),
                    ..stakers[i].info
                },
                ..stakers[i]
            },
        ),
        None => stakers.push(
            StakerView {
                owner,
                info: StakerRewardAssetInfoView {
                    nft_keys: seq![key],
                    reward_debt: 0,
                    reward_claimed: 0,
                },
            },
        ),
    }
}

/// Adds `key` to the index of `owner`, whose account is created where
/// there was none.
pub(crate) fn add_key(stakers: &mut Vec<Staker>, owner: &String, key: u64)
    ensures
        stakers_view(final(stakers)@) == with_key(stakers_view(old(stakers)@), owner@, key),
{
    match find_staker(stakers, owner) {
        Some(i) => {
            stakers[i].info.nft_keys.push(key);
            proof {
                assert(stakers_view(stakers@) =~= with_key(
                    stakers_view(old(stakers)@),
                    owner@,
                    key,
                ));
            }
        },
        None => {
            let mut nft_keys: Vec<u64> = Vec::new();
            nft_keys.push(key);
            stakers.push(
                Staker {
                    owner: owner.clone(),
                    info: StakerRewardAssetInfo { nft_keys, reward_debt: 0, reward_claimed: 0 },
                },
            );
            proof {
                assert(nft_keys@ =~= seq![key]);
                assert(stakers_view(stakers@) =~= with_key(
                    stakers_view(old(stakers)@),
                    owner@,
                    key,
                ));
            }
        },
    }
}

/// The keys of an index without `key`, in their order.
pub open spec fn without_key(keys: Seq<u64>, key: u64) -> Seq<u64>
    decreases keys.len(),
{
    if keys.len() == 0 {
        keys
    } else {
        let rest = without_key(keys.drop_last(), key);
        if keys.last() != key {
            rest.push(keys.last())
        } else {
            rest
        }
    }
}

/// What is left of an index without `key` are its other keys.
pub proof fn lemma_without_key(keys: Seq<u64>, key: u64)
    ensures
        without_key(keys, key).len() <= keys.len(),
        forall|x: u64| #[trigger]
            without_key(keys, key).contains(x) <==> (keys.contains(x) && x != key),
    decreases keys.len(),
{
    if keys.len() > 0 {
        let rest = keys.drop_last();
        lemma_without_key(rest, key);
        let left = without_key(rest, key);
        let all = without_key(keys, key);
        assert forall|x: u64| #[trigger] all.contains(x) <==> (keys.contains(x) && x != key) by {
            if keys.contains(x) {
                let i = choose|i: int| 0 <= i < keys.len() && keys[i] == x;
                if i < rest.len() {
                    assert(rest[i] == x);
                    assert(rest.contains(x));
                }
            }
            if rest.contains(x) {
                let i = choose|i: int| 0 <= i < rest.len() && rest[i] == x;
                assert(keys[i] == x);
            }
            if keys.last() != key {
                assert(all == left.push(keys.last()));
                if all.contains(x) {
                    let i = choose|i: int| 0 <= i < all.len() && all[i] == x;
                    if i < left.len() {
                        assert(left[i] == x);
                        assert(left.contains(x));
                    } else {
                        assert(keys[keys.len() - 1] == x);
                    }
                }
                if left.contains(x) {
                    let i = choose|i: int| 0 <= i < left.len() && left[i] == x;
                    assert(all[i] == x);
                }
                if x == keys.last() {
                    assert(all[left.len() as int] == x);
                }
            }
        }
    }
}

/// The keys of an index without `key`, in their order.
pub(crate) fn remove_key(keys: &Vec<u64>, key: u64) -> (left: Vec<u64>)
    ensures
        left@ == without_key(keys@, key),
{
    let mut left: Vec<u64> = Vec::new();
    let mut i: usize = 0;
    while i < keys.len()
        invariant
            i <= keys.len(),
            left@ == without_key(keys@.subrange(0, i as int), key),
        decreases keys.len() - i,
    {
        proof {
            assert(keys@.subrange(0, i + 1).drop_last() =~= keys@.subrange(0, i as int));
        }
        if keys[i] != key {
            left.push(keys[i]);
        }
        i += 1;
    }
    proof {
        assert(keys@.subrange(0, i as int) =~= keys@);
    }
    left
}

impl CampaignView {
    /// The campaign after a position has been created for `owner`: it
    /// joins the ledger under the next key, starts at `now` and ends after
    /// the duration of `term`, with nothing pending, and its key joins the
    /// index of `owner`. Nothing where the end time or the key does not
    /// fit.
    pub open spec fn created(
        self,
        owner: Seq<char>,
        token_id: Seq<char>,
        term: LockupTerm,
        now: u64,
    ) -> Option<CampaignView> {
        if now + term.value > u64::MAX || self.nfts.len() + 1 >= u64::MAX {
            None
        } else {
            let key = (self.nfts.len() + 1) as u64;
            Some(
                CampaignView {
                    nfts: self.nfts.push(
                        NftInfoView {
                            key,
                            token_id,
                            owner_nft: owner,
                            pending_reward: 0,
                            lockup_term: term,
                            is_end_reward: false,
                            is_unstake: false,
                            start_time: now,
                            end_time: (now + term.value) as u64,
                        },
                    ),
                    stakers: with_key(self.stakers, owner, key),
                    ..self
                },
            )
        }
    }

    /// The campaign after the lockup of the position with `key` has been
    /// marked as ended.
    pub open spec fn finalized(self, key: u64) -> CampaignView {
        CampaignView {
            info: CampaignInfoView {
                end_calc_nft: self.info.end_calc_nft.insert(key),
                ..self.info
            },
            nfts: self.nfts.update(
                key - 1,
                NftInfoView { is_end_reward: true, ..self.nfts[key - 1] },
            ),
            ..self
        }
    }

    /// The campaign after `key` has left the index of `owner`; the record
    /// of the position stays.
    pub open spec fn removed_from_owner(self, owner: Seq<char>, key: u64) -> CampaignView {
        match staker_at(self.stakers, owner) {
            Some(i) => CampaignView {
                stakers: self.stakers.update(
                    i,
                    StakerView {
                        info: StakerRewardAssetInfoView {
                            nft_keys: without_key(self.stakers[i].info.nft_keys, key),
                            ..self.stakers[i].info
                        },
                        ..self.stakers[i]
                    },
                ),
                ..self
            },
            None => self,
        }
    }
}

/// Creates a position for `owner` and returns its key, or nothing, with the
/// campaign unchanged, where the end time or the key does not fit.
pub fn create(
    campaign: &mut Campaign,
    owner: &String,
    token_id: &String,
    term: LockupTerm,
    now: u64,
) -> (key: Option<u64>)
    requires
        old(campaign)@.wf(),
    ensures
        final(campaign)@.wf(),
        match key {
            Some(k) => k == old(campaign)@.nfts.len() + 1 && old(campaign)@.created(
                owner@,
                token_id@,
                term,
                now,
            ) == Some(final(campaign)@),
            None => old(campaign)@.created(owner@, token_id@, term, now).is_none()
                && final(campaign)@ == old(campaign)@,
        },
{
    let end_time: u64 = match now.checked_add(term.value) {
        Some(t) => t,
        None => {
            return None;
        },
    };
    if campaign.nfts.len() as u64 >= u64::MAX - 1 {
        return None;
    }
    let key: u64 = campaign.nfts.len() as u64 + 1;
    let ghost before = campaign@;
    campaign.nfts.push(
        NftInfo {
            key,
            token_id: token_id.clone(),
            owner_nft: owner.clone(),
            pending_reward: 0,
            lockup_term: term,
            is_end_reward: false,
            is_unstake: false,
            start_time: now,
            end_time,
        },
    );
    add_key(&mut campaign.stakers, owner, key);
    proof {
        lemma_staker_at(before.stakers, owner@);
        assert(campaign@.nfts =~= before.created(owner@, token_id@, term, now)->Some_0.nfts);
        assert(campaign@.info == before.info);
        assert(campaign@.wf()) by {
            let c = campaign@;
            assert forall|k: u64| #[trigger]
                c.info.end_calc_nft.contains(k) <==> (c.has_key(k) && c.nfts[k
                    - 1].is_end_reward) by {
                if before.has_key(k) {
                    assert(c.nfts[k - 1] == before.nfts[k - 1]);
                }
            }
            assert forall|s: int, j: int|
                0 <= s < c.stakers.len() && 0 <= j < c.stakers[s].info.nft_keys.len()
                    implies c.has_key(#[trigger] c.stakers[s].info.nft_keys[j]) by {
                match staker_at(before.stakers, owner@) {
                    Some(i) => {
                        if s == i {
                            if j < before.stakers[i].info.nft_keys.len() {
                                assert(before.has_key(before.stakers[s].info.nft_keys[j]));
                            }
                        } else {
                            assert(before.has_key(before.stakers[s].info.nft_keys[j]));
                        }
                    },
                    None => {
                        if s < before.stakers.len() {
                            assert(before.has_key(before.stakers[s].info.nft_keys[j]));
                        }
                    },
                }
            }
        }
    }
    Some(key)
}

/// Marks the lockup of the position at index `at` as ended and adds its key
/// to the keys of the ended positions.
pub(crate) fn mark_ended(nfts: &mut Vec<NftInfo>, ended: &mut Vec<u64>, at: usize)
    requires
        at < old(nfts).len(),
    ensures
        final(nfts)@.len() == old(nfts)@.len(),
        forall|i: int| 0 <= i < old(nfts)@.len() && i != at ==> final(nfts)@[i] == old(nfts)@[i],
        final(nfts)@[at as int]@ == (NftInfoView { is_end_reward: true, ..old(nfts)@[at as int]@ }),
        final(ended)@ == old(ended)@.push(old(nfts)@[at as int].key),
{
    nfts[at].is_end_reward = true;
    ended.push(nfts[at].key);
}

/// Marks the lockup of the position with `key` as ended, once rewards have
/// been shared out up to its end time. Where it is marked already, nothing
/// changes.
pub fn finalize(campaign: &mut Campaign, key: u64)
    requires
        old(campaign)@.wf(),
        old(campaign)@.has_key(key),
        old(campaign)@.nfts[key - 1].end_time <= old(campaign)@.info.time_calc_nft,
    ensures
        final(campaign)@ == old(campaign)@.finalized(key),
        final(campaign)@.wf(),
        old(campaign)@.nfts[key - 1].is_end_reward ==> final(campaign)@ == old(campaign)@,
{
    let at: usize = (key - 1) as usize;
    let ghost before = campaign@;
    let ghost ended = campaign.info.end_calc_nft@;
    if !campaign.nfts[at].is_end_reward {
        mark_ended(&mut campaign.nfts, &mut campaign.info.end_calc_nft, at);
        proof {
            assert(before == old(campaign)@);
            assert(at as int == key - 1);
            assert(campaign.nfts@.len() == before.nfts.len());
            assert forall|i: int| 0 <= i < before.nfts.len() implies campaign@.nfts[i]
                == before.finalized(key).nfts[i] by {
                assert(campaign@.nfts[i] == campaign.nfts@[i]@);
                assert(before.nfts[i] == old(campaign).nfts@[i]@);
                if i == at as int {
                    assert(campaign.nfts@[i]@ == (NftInfoView {
                        is_end_reward: true,
                        ..old(campaign).nfts@[i]@
                    }));
                } else {
                    assert(campaign.nfts@[i] == old(campaign).nfts@[i]);
                }
            }
            assert(campaign@.nfts =~= before.finalized(key).nfts);
            assert(before.nfts[at as int].key == key);
            assert forall|k: u64|
                campaign@.info.end_calc_nft.contains(k) <==> before.finalized(
                    key,
                ).info.end_calc_nft.contains(k) by {
                let now = campaign.info.end_calc_nft@;
                assert(now == ended.push(key));
                if now.contains(k) {
                    let i = choose|i: int| 0 <= i < now.len() && now[i] == k;
                    if i < ended.len() {
                        assert(ended[i] == k);
                        assert(ended.contains(k));
                    }
                }
                if ended.contains(k) {
                    let i = choose|i: int| 0 <= i < ended.len() && ended[i] == k;
                    assert(now[i] == k);
                }
                if k == key {
                    assert(now[ended.len() as int] == k);
                }
            }
            assert(campaign@.info.end_calc_nft =~= before.finalized(key).info.end_calc_nft);
            assert(campaign@.wf()) by {
                let c = campaign@;
                assert forall|k: u64| #[trigger]
                    c.info.end_calc_nft.contains(k) <==> (c.has_key(k) && c.nfts[k
                        - 1].is_end_reward) by {
                    if before.has_key(k) && k != key {
                        assert(c.nfts[k - 1] == before.nfts[k - 1]);
                    }
                }
                assert forall|s: int, j: int|
                    0 <= s < c.stakers.len() && 0 <= j < c.stakers[s].info.nft_keys.len()
                        implies c.has_key(#[trigger] c.stakers[s].info.nft_keys[j]) by {
                    assert(before.has_key(before.stakers[s].info.nft_keys[j]));
                }
            }
        }
    } else {
        proof {
            assert(before.info.end_calc_nft.contains(key));
            assert(before.info.end_calc_nft.insert(key) =~= before.info.end_calc_nft);
            assert(before.finalized(key).nfts =~= before.nfts);
        }
    }
}

/// Removes `key` from the index of `owner`; the record of the position
/// stays. Nothing changes where `owner` has no account.
pub fn remove_from_owner(campaign: &mut Campaign, owner: &String, key: u64)
    requires
        old(campaign)@.wf(),
    ensures
        final(campaign)@ == old(campaign)@.removed_from_owner(owner@, key),
        final(campaign)@.wf(),
{
    let ghost before = campaign@;
    match find_staker(&campaign.stakers, owner) {
        Some(s) => {
            let left = remove_key(&campaign.stakers[s].info.nft_keys, key);
            campaign.stakers[s].info.nft_keys = left;
            proof {
                assert(campaign@.stakers =~= before.removed_from_owner(owner@, key).stakers);
                assert(campaign@.nfts == before.nfts);
                assert(campaign@.info == before.info);
                lemma_without_key(before.stakers[s as int].info.nft_keys, key);
                assert(campaign@.wf()) by {
                    let c = campaign@;
                    assert forall|t: int, j: int|
                        0 <= t < c.stakers.len() && 0 <= j < c.stakers[t].info.nft_keys.len()
                            implies c.has_key(#[trigger] c.stakers[t].info.nft_keys[j]) by {
                        if t == s {
                            let x = c.stakers[t].info.nft_keys[j];
                            assert(c.stakers[t].info.nft_keys.contains(x));
                            assert(before.stakers[t].info.nft_keys.contains(x));
                            let i = choose|i: int|
                                0 <= i < before.stakers[t].info.nft_keys.len()
                                    && before.stakers[t].info.nft_keys[i] == x;
                            assert(before.has_key(before.stakers[t].info.nft_keys[i]));
                        } else {
                            assert(before.has_key(before.stakers[t].info.nft_keys[j]));
                        }
                    }
                }
            }
        },
        None => {},
    }
}

} // verus!
