//! What a campaign keeps, and the mathematical values that the contracts
//! speak of.

use vstd::prelude::*;

verus! {

/// The token in which a campaign pays its reward.
#[derive(Clone, Debug, PartialEq, Eq)]
pub enum TokenInfo {
    Token { contract_addr: String },
    NativeToken { denom: String },
}

/// Mathematical value of a [`TokenInfo`].
pub enum TokenInfoView {
    Token { contract_addr: Seq<char> },
    NativeToken { denom: Seq<char> },
}

impl View for TokenInfo {
    type V = TokenInfoView;

    open spec fn view(&self) -> TokenInfoView {
        match *self {
            TokenInfo::Token { contract_addr } => TokenInfoView::Token {
                contract_addr: contract_addr@,
            },
            TokenInfo::NativeToken { denom } => TokenInfoView::NativeToken { denom: denom@ },
        }
    }
}

impl TokenInfoView {
    /// The contract address or the denomination that names the token.
    pub open spec fn text(self) -> Seq<char> {
        match self {
            TokenInfoView::Token { contract_addr } => contract_addr,
            TokenInfoView::NativeToken { denom } => denom,
        }
    }
}

impl TokenInfo {
    /// The contract address or the denomination that names the token.
    pub fn text(&self) -> (s: String)
        ensures
            s@ == self@.text(),
    {
        match self {
            TokenInfo::Token { contract_addr } => contract_addr.clone(),
            TokenInfo::NativeToken { denom } => denom.clone(),
        }
    }

    /// A copy with the same value.
    pub fn duplicate(&self) -> (r: TokenInfo)
        ensures
            r@ == self@,
    {
        match self {
            TokenInfo::Token { contract_addr } => TokenInfo::Token {
                contract_addr: contract_addr.clone(),
            },
            TokenInfo::NativeToken { denom } => TokenInfo::NativeToken { denom: denom.clone() },
        }
    }
}

/// A reward token together with the amount of it that the campaign holds.
#[derive(Clone, Debug, PartialEq, Eq)]
pub struct AssetTokenInfo {
    pub info: TokenInfo,
    pub amount: u128,
}

/// Mathematical value of an [`AssetTokenInfo`].
pub struct AssetTokenInfoView {
    pub info: TokenInfoView,
    pub amount: u128,
}

impl View for AssetTokenInfo {
    type V = AssetTokenInfoView;

    open spec fn view(&self) -> AssetTokenInfoView {
        AssetTokenInfoView { info: self.info@, amount: self.amount }
    }
}

impl AssetTokenInfo {
    /// A copy with the same value.
    pub fn duplicate(&self) -> (r: AssetTokenInfo)
        ensures
            r@ == self@,
    {
        AssetTokenInfo { info: self.info.duplicate(), amount: self.amount }
    }
}

/// One lockup tier: a staking duration in seconds and the percentage of the
/// campaign's reward rate that the positions of the tier share.
#[derive(Clone, Copy, Debug, PartialEq, Eq)]
pub struct LockupTerm {
    pub value: u64,
    pub percent: u128,
}

/// The configuration and the running totals of a campaign.
#[derive(Clone, Debug, PartialEq, Eq)]
pub struct CampaignInfo {
    pub owner: String,
    pub campaign_name: String,
    pub campaign_image: String,
    pub campaign_description: String,
    pub total_reward_claimed: u128,
    pub total_reward: u128,
    pub limit_per_staker: u64,
    pub reward_token_info: AssetTokenInfo,
    pub allowed_collection: String,
    pub lockup_term: Vec<LockupTerm>,
    pub reward_per_second: u128,
    /// Keys of the positions whose reward no longer grows.
    pub end_calc_nft: Vec<u64>,
    /// The time up to which rewards have been shared out.
    pub time_calc_nft: u64,
    pub start_time: u64,
    pub end_time: u64,
}

/// Mathematical value of a [`CampaignInfo`].
pub struct CampaignInfoView {
    pub owner: Seq<char>,
    pub campaign_name: Seq<char>,
    pub campaign_image: Seq<char>,
    pub campaign_description: Seq<char>,
    pub total_reward_claimed: u128,
    pub total_reward: u128,
    pub limit_per_staker: u64,
    pub reward_token_info: AssetTokenInfoView,
    pub allowed_collection: Seq<char>,
    pub lockup_term: Seq<LockupTerm>,
    pub reward_per_second: u128,
    pub end_calc_nft: Set<u64>,
    pub time_calc_nft: u64,
    pub start_time: u64,
    pub end_time: u64,
}

impl View for CampaignInfo {
    type V = CampaignInfoView;

    open spec fn view(&self) -> CampaignInfoView {
        CampaignInfoView {
            owner: self.owner@,
            campaign_name: self.campaign_name@,
            campaign_image: self.campaign_image@,
            campaign_description: self.campaign_description@,
            total_reward_claimed: self.total_reward_claimed,
            total_reward: self.total_reward,
            limit_per_staker: self.limit_per_staker,
            reward_token_info: self.reward_token_info@,
            allowed_collection: self.allowed_collection@,
            lockup_term: self.lockup_term@,
            reward_per_second: self.reward_per_second,
            end_calc_nft: self.end_calc_nft@.to_set(),
            time_calc_nft: self.time_calc_nft,
            start_time: self.start_time,
            end_time: self.end_time,
        }
    }
}

/// A change to the running state of a campaign.
#[derive(Clone, Copy, Debug, PartialEq, Eq)]
pub enum UpdateCampaign {
    /// Move the time up to which rewards have been shared out.
    UpdateTimeCalc(u64),
}

impl CampaignInfo {
    /// Applies `action` to the campaign.
    pub fn update(&mut self, action: UpdateCampaign)
        ensures
            final(self)@ == match action {
                UpdateCampaign::UpdateTimeCalc(new_time) => (CampaignInfoView {
                    time_calc_nft: new_time,
                    ..old(self)@
                }),
            },
    {
        match action {
            UpdateCampaign::UpdateTimeCalc(new_time) => {
                self.time_calc_nft = new_time;
            },
        }
    }

    /// A copy with the same value.
    pub fn duplicate(&self) -> (r: CampaignInfo)
        ensures
            r@ == self@,
    {
        CampaignInfo {
            owner: self.owner.clone(),
            campaign_name: self.campaign_name.clone(),
            campaign_image: self.campaign_image.clone(),
            campaign_description: self.campaign_description.clone(),
            total_reward_claimed: self.total_reward_claimed,
            total_reward: self.total_reward,
            limit_per_staker: self.limit_per_staker,
            reward_token_info: self.reward_token_info.duplicate(),
            allowed_collection: self.allowed_collection.clone(),
            lockup_term: copy_terms(&self.lockup_term),
            reward_per_second: self.reward_per_second,
            end_calc_nft: copy_keys(&self.end_calc_nft),
            time_calc_nft: self.time_calc_nft,
            start_time: self.start_time,
            end_time: self.end_time,
        }
    }
}

/// A copy of a list of lockup tiers.
pub fn copy_terms(terms: &Vec<LockupTerm>) -> (r: Vec<LockupTerm>)
    ensures
        r@ == terms@,
{
    let mut out: Vec<LockupTerm> = Vec::new();
    let mut i: usize = 0;
    while i < terms.len()
        invariant
            i <= terms.len(),
            out@ == terms@.subrange(0, i as int),
        decreases terms.len() - i,
    {
        out.push(terms[i]);
        assert(out@ =~= terms@.subrange(0, i + 1));
        i += 1;
    }
    assert(out@ =~= terms@);
    out
}

/// A copy of a list of position keys.
pub fn copy_keys(keys: &Vec<u64>) -> (r: Vec<u64>)
    ensures
        r@ == keys@,
{
    let mut out: Vec<u64> = Vec::new();
    let mut i: usize = 0;
    while i < keys.len()
        invariant
            i <= keys.len(),
            out@ == keys@.subrange(0, i as int),
        decreases keys.len() - i,
    {
        out.push(keys[i]);
        assert(out@ =~= keys@.subrange(0, i + 1));
        i += 1;
    }
    assert(out@ =~= keys@);
    out
}

/// What a staker owns in a campaign: the keys of the staked positions, the
/// reward that can be claimed, and the reward already claimed.
#[derive(Clone, Debug, PartialEq, Eq)]
pub struct StakerRewardAssetInfo {
    pub nft_keys: Vec<u64>,
    pub reward_debt: u128,
    pub reward_claimed: u128,
}

/// Mathematical value of a [`StakerRewardAssetInfo`].
pub struct StakerRewardAssetInfoView {
    pub nft_keys: Seq<u64>,
    pub reward_debt: u128,
    pub reward_claimed: u128,
}

impl View for StakerRewardAssetInfo {
    type V = StakerRewardAssetInfoView;

    open spec fn view(&self) -> StakerRewardAssetInfoView {
        StakerRewardAssetInfoView {
            nft_keys: self.nft_keys@,
            reward_debt: self.reward_debt,
            reward_claimed: self.reward_claimed,
        }
    }
}

impl StakerRewardAssetInfo {
    /// A copy with the same value.
    pub fn duplicate(&self) -> (r: StakerRewardAssetInfo)
        ensures
            r@ == self@,
    {
        StakerRewardAssetInfo {
            nft_keys: copy_keys(&self.nft_keys),
            reward_debt: self.reward_debt,
            reward_claimed: self.reward_claimed,
        }
    }
}

/// The account of one staker, under the staker's address.
#[derive(Clone, Debug, PartialEq, Eq)]
pub struct Staker {
    pub owner: String,
    pub info: StakerRewardAssetInfo,
}

/// Mathematical value of a [`Staker`].
pub struct StakerView {
    pub owner: Seq<char>,
    pub info: StakerRewardAssetInfoView,
}

impl View for Staker {
    type V = StakerView;

    open spec fn view(&self) -> StakerView {
        StakerView { owner: self.owner@, info: self.info@ }
    }
}

impl Staker {
    /// A copy with the same value.
    pub fn duplicate(&self) -> (r: Staker)
        ensures
            r@ == self@,
    {
        Staker { owner: self.owner.clone(), info: self.info.duplicate() }
    }
}

/// The record of one staked NFT.
#[derive(Clone, Debug, PartialEq, Eq)]
pub struct NftInfo {
    pub key: u64,
    pub token_id: String,
    pub owner_nft: String,
    pub pending_reward: u128,
    pub lockup_term: LockupTerm,
    /// The lockup has ended: the reward of the position no longer grows.
    pub is_end_reward: bool,
    pub is_unstake: bool,
    pub start_time: u64,
    pub end_time: u64,
}

/// Mathematical value of an [`NftInfo`].
pub struct NftInfoView {
    pub key: u64,
    pub token_id: Seq<char>,
    pub owner_nft: Seq<char>,
    pub pending_reward: u128,
    pub lockup_term: LockupTerm,
    pub is_end_reward: bool,
    pub is_unstake: bool,
    pub start_time: u64,
    pub end_time: u64,
}

impl View for NftInfo {
    type V = NftInfoView;

    open spec fn view(&self) -> NftInfoView {
        NftInfoView {
            key: self.key,
            token_id: self.token_id@,
            owner_nft: self.owner_nft@,
            pending_reward: self.pending_reward,
            lockup_term: self.lockup_term,
            is_end_reward: self.is_end_reward,
            is_unstake: self.is_unstake,
            start_time: self.start_time,
            end_time: self.end_time,
        }
    }
}

impl NftInfo {
    /// A copy with the same value.
    pub fn duplicate(&self) -> (r: NftInfo)
        ensures
            r@ == self@,
    {
        NftInfo {
            key: self.key,
            token_id: self.token_id.clone(),
            owner_nft: self.owner_nft.clone(),
            pending_reward: self.pending_reward,
            lockup_term: self.lockup_term,
            is_end_reward: self.is_end_reward,
            is_unstake: self.is_unstake,
            start_time: self.start_time,
            end_time: self.end_time,
        }
    }
}

/// A request to stake one NFT for a lockup duration.
#[derive(Clone, Debug, PartialEq, Eq)]
pub struct NftStake {
    pub token_id: String,
    pub lockup_term: u64,
}

/// Mathematical value of an [`NftStake`].
pub struct NftStakeView {
    pub token_id: Seq<char>,
    pub lockup_term: u64,
}

impl View for NftStake {
    type V = NftStakeView;

    open spec fn view(&self) -> NftStakeView {
        NftStakeView { token_id: self.token_id@, lockup_term: self.lockup_term }
    }
}

/// Values of a list of requests to stake.
pub open spec fn stakes_view(nfts: Seq<NftStake>) -> Seq<NftStakeView> {
    nfts.map_values(|n: NftStake| n@)
}

/// A request to take one staked NFT back.
#[derive(Clone, Debug, PartialEq, Eq)]
pub struct UnStakeNft {
    pub token_id: String,
    pub nft_key: u64,
}

/// Mathematical value of an [`UnStakeNft`].
pub struct UnStakeNftView {
    pub token_id: Seq<char>,
    pub nft_key: u64,
}

impl View for UnStakeNft {
    type V = UnStakeNftView;

    open spec fn view(&self) -> UnStakeNftView {
        UnStakeNftView { token_id: self.token_id@, nft_key: self.nft_key }
    }
}

/// Values of a list of requests to take NFTs back.
pub open spec fn unstakes_view(nfts: Seq<UnStakeNft>) -> Seq<UnStakeNftView> {
    nfts.map_values(|n: UnStakeNft| n@)
}

/// A copy of a list of requests to stake.
pub fn copy_stakes(nfts: &Vec<NftStake>) -> (r: Vec<NftStake>)
    ensures
        stakes_view(r@) == stakes_view(nfts@),
{
    let mut out: Vec<NftStake> = Vec::new();
    let mut i: usize = 0;
    while i < nfts.len()
        invariant
            i <= nfts.len(),
            out@.len() == i,
            forall|k: int| 0 <= k < i ==> (#[trigger] out@[k])@ == nfts@[k]@,
        decreases nfts.len() - i,
    {
        out.push(NftStake { token_id: nfts[i].token_id.clone(), lockup_term: nfts[i].lockup_term });
        i += 1;
    }
    assert(stakes_view(out@) =~= stakes_view(nfts@));
    out
}

/// A copy of a list of requests to take NFTs back.
pub fn copy_unstakes(nfts: &Vec<UnStakeNft>) -> (r: Vec<UnStakeNft>)
    ensures
        unstakes_view(r@) == unstakes_view(nfts@),
{
    let mut out: Vec<UnStakeNft> = Vec::new();
    let mut i: usize = 0;
    while i < nfts.len()
        invariant
            i <= nfts.len(),
            out@.len() == i,
            forall|k: int| 0 <= k < i ==> (#[trigger] out@[k])@ == nfts@[k]@,
        decreases nfts.len() - i,
    {
        out.push(UnStakeNft { token_id: nfts[i].token_id.clone(), nft_key: nfts[i].nft_key });
        i += 1;
    }
    assert(unstakes_view(out@) =~= unstakes_view(nfts@));
    out
}

/// The account of `owner` among `stakers`: the index of the first account
/// under that address.
pub open spec fn staker_at(stakers: Seq<StakerView>, owner: Seq<char>) -> Option<int>
    decreases stakers.len(),
{
    if stakers.len() == 0 {
        None
    } else {
        match staker_at(stakers.drop_last(), owner) {
            Some(i) => Some(i),
            None => if stakers.last().owner == owner {
                Some(stakers.len() - 1)
            } else {
                None
            },
        }
    }
}

/// The account found is an account of the owner, and where none is found
/// the owner has none.
pub proof fn lemma_staker_at(stakers: Seq<StakerView>, owner: Seq<char>)
    ensures
        staker_at(stakers, owner) matches Some(i) ==> 0 <= i < stakers.len() && stakers[i].owner
            == owner,
        staker_at(stakers, owner).is_none() ==> forall|i: int|
            0 <= i < stakers.len() ==> (#[trigger] stakers[i]).owner != owner,
    decreases stakers.len(),
{
    if stakers.len() > 0 {
        lemma_staker_at(stakers.drop_last(), owner);
        if staker_at(stakers.drop_last(), owner).is_none() && stakers.last().owner != owner {
            assert forall|i: int| 0 <= i < stakers.len() implies (#[trigger] stakers[i]).owner
                != owner by {
                if i < stakers.len() - 1 {
                    assert(stakers.drop_last()[i] == stakers[i]);
                }
            }
        }
    }
}

/// An account found among the first `a` accounts is the account found
/// among the first `b`, for `a <= b`.
pub proof fn lemma_staker_prefix(stakers: Seq<StakerView>, a: int, b: int, owner: Seq<char>)
    requires
        0 <= a <= b <= stakers.len(),
        staker_at(stakers.subrange(0, a), owner).is_some(),
    ensures
        staker_at(stakers.subrange(0, b), owner) == staker_at(stakers.subrange(0, a), owner),
    decreases b - a,
{
    if a < b {
        lemma_staker_prefix(stakers, a, b - 1, owner);
        assert(stakers.subrange(0, b).drop_last() =~= stakers.subrange(0, b - 1));
    }
}

/// Finds the account of `owner`.
pub fn find_staker(stakers: &Vec<Staker>, owner: &String) -> (r: Option<usize>)
    ensures
        match r {
            Some(i) => staker_at(stakers_view(stakers@), owner@) == Some(i as int) && i
                < stakers.len() && stakers@[i as int].owner@ == owner@,
            None => staker_at(stakers_view(stakers@), owner@).is_none(),
        },
{
    let ghost all = stakers_view(stakers@);
    let mut i: usize = 0;
    while i < stakers.len()
        invariant
            i <= stakers.len(),
            all == stakers_view(stakers@),
            staker_at(all.subrange(0, i as int), owner@).is_none(),
        decreases stakers.len() - i,
    {
        proof {
            assert(all.subrange(0, i + 1).drop_last() =~= all.subrange(0, i as int));
            assert(all.subrange(0, i + 1).last() == stakers@[i as int]@);
        }
        if stakers[i].owner == *owner {
            proof {
                lemma_staker_prefix(all, i + 1, all.len() as int, owner@);
                assert(all.subrange(0, all.len() as int) =~= all);
            }
            return Some(i);
        }
        i += 1;
    }
    proof {
        assert(all.subrange(0, i as int) =~= all);
    }
    None
}

/// Values of a list of positions.
pub open spec fn nfts_view(nfts: Seq<NftInfo>) -> Seq<NftInfoView> {
    nfts.map_values(|n: NftInfo| n@)
}

/// Values of a list of staker accounts.
pub open spec fn stakers_view(stakers: Seq<Staker>) -> Seq<StakerView> {
    stakers.map_values(|s: Staker| s@)
}

/// Everything a campaign keeps: its configuration, the ledger of positions
/// (the position with key `k` stands at index `k - 1`), and the stakers'
/// accounts.
#[derive(Clone, Debug, PartialEq, Eq)]
pub struct Campaign {
    pub info: CampaignInfo,
    pub nfts: Vec<NftInfo>,
    pub stakers: Vec<Staker>,
}

/// Mathematical value of a [`Campaign`].
pub struct CampaignView {
    pub info: CampaignInfoView,
    pub nfts: Seq<NftInfoView>,
    pub stakers: Seq<StakerView>,
}

impl View for Campaign {
    type V = CampaignView;

    open spec fn view(&self) -> CampaignView {
        CampaignView {
            info: self.info@,
            nfts: nfts_view(self.nfts@),
            stakers: stakers_view(self.stakers@),
        }
    }
}

impl CampaignView {
    /// Whether `key` names a position of the ledger.
    pub open spec fn has_key(self, key: u64) -> bool {
        1 <= key <= self.nfts.len()
    }

    /// The state is consistent:
    /// the campaign has a positive length, the ledger is keyed in sequence,
    /// a position that was taken back had ended, a position has ended only
    /// if rewards have been shared out up to its end time, the list of
    /// ended keys holds exactly the keys of the ended positions, and every
    /// key in a staker's index names a position.
    pub open spec fn wf(self) -> bool {
        &&& self.info.start_time < self.info.end_time
        &&& self.nfts.len() < u64::MAX
        &&& forall|i: int| 0 <= i < self.nfts.len() ==> (#[trigger] self.nfts[i]).key == i + 1
        &&& forall|i: int|
            0 <= i < self.nfts.len() && (#[trigger] self.nfts[i]).is_unstake
                ==> self.nfts[i].is_end_reward
        &&& forall|i: int|
            0 <= i < self.nfts.len() && (#[trigger] self.nfts[i]).is_end_reward
                ==> self.nfts[i].end_time <= self.info.time_calc_nft
        &&& forall|k: u64| #[trigger]
            self.info.end_calc_nft.contains(k) <==> (self.has_key(k) && self.nfts[k
                - 1].is_end_reward)
        &&& forall|s: int, j: int|
            0 <= s < self.stakers.len() && 0 <= j < self.stakers[s].info.nft_keys.len()
                ==> self.has_key(#[trigger] self.stakers[s].info.nft_keys[j])
    }
}

/// Whether `key` is among `keys`.
pub fn contains_key(keys: &Vec<u64>, key: u64) -> (r: bool)
    ensures
        r == keys@.contains(key),
{
    let mut i: usize = 0;
    while i < keys.len()
        invariant
            i <= keys.len(),
            forall|j: int| 0 <= j < i ==> keys@[j] != key,
        decreases keys.len() - i,
    {
        if keys[i] == key {
            return true;
        }
        i += 1;
    }
    false
}

impl Campaign {
    /// Whether the state is consistent.
    pub fn is_consistent(&self) -> (ok: bool)
        ensures
            ok == self@.wf(),
    {
        let ghost c = self@;
        if self.info.start_time >= self.info.end_time {
            return false;
        }
        let count: usize = self.nfts.len();
        if count as u64 >= u64::MAX {
            return false;
        }
        let mut i: usize = 0;
        while i < count
            invariant
                i <= count,
                count == self.nfts.len(),
                count < u64::MAX,
                c == self@,
                forall|j: int| 0 <= j < i ==> (#[trigger] c.nfts[j]).key == j + 1,
                forall|j: int|
                    0 <= j < i && (#[trigger] c.nfts[j]).is_unstake ==> c.nfts[j].is_end_reward,
                forall|j: int|
                    0 <= j < i && (#[trigger] c.nfts[j]).is_end_reward ==> c.nfts[j].end_time
                        <= c.info.time_calc_nft && self.info.end_calc_nft@.contains(c.nfts[j].key),
            decreases count - i,
        {
            let nft = &self.nfts[i];
            proof {
                assert(c.nfts[i as int] == nft@);
            }
            if nft.key != i as u64 + 1 {
                return false;
            }
            if nft.is_unstake && !nft.is_end_reward {
                return false;
            }
            if nft.is_end_reward {
                if nft.end_time > self.info.time_calc_nft {
                    return false;
                }
                if !contains_key(&self.info.end_calc_nft, nft.key) {
                    proof {
                        assert(c.has_key(nft.key));
                        assert(!c.info.end_calc_nft.contains(nft.key));
                    }
                    return false;
                }
            }
            i += 1;
        }
        let mut e: usize = 0;
        while e < self.info.end_calc_nft.len()
            invariant
                e <= self.info.end_calc_nft.len(),
                count == self.nfts.len(),
                c == self@,
                forall|j: int|
                    0 <= j < e ==> c.has_key(#[trigger] self.info.end_calc_nft@[j])
                        && c.nfts[self.info.end_calc_nft@[j] - 1].is_end_reward,
            decreases self.info.end_calc_nft.len() - e,
        {
            let key: u64 = self.info.end_calc_nft[e];
            if key < 1 || key > count as u64 || !self.nfts[(key - 1) as usize].is_end_reward {
                proof {
                    assert(self.info.end_calc_nft@.contains(key));
                    assert(c.info.end_calc_nft.contains(key));
                    if c.has_key(key) {
                        assert(c.nfts[key - 1] == self.nfts@[key - 1]@);
                    }
                }
                return false;
            }
            proof {
                assert(c.nfts[key - 1] == self.nfts@[key - 1]@);
            }
            e += 1;
        }
        let mut s: usize = 0;
        while s < self.stakers.len()
            invariant
                s <= self.stakers.len(),
                count == self.nfts.len(),
                c == self@,
                forall|t: int, j: int|
                    0 <= t < s && 0 <= j < c.stakers[t].info.nft_keys.len() ==> c.has_key(
                        #[trigger] c.stakers[t].info.nft_keys[j],
                    ),
            decreases self.stakers.len() - s,
        {
            let keys = &self.stakers[s].info.nft_keys;
            proof {
                assert(c.stakers[s as int] == self.stakers@[s as int]@);
            }
            let mut j: usize = 0;
            while j < keys.len()
                invariant
                    j <= keys.len(),
                    s < self.stakers.len(),
                    count == self.nfts.len(),
                    c == self@,
                    keys@ == c.stakers[s as int].info.nft_keys,
                    forall|k: int| 0 <= k < j ==> c.has_key(#[trigger] keys@[k]),
                decreases keys.len() - j,
            {
                if keys[j] < 1 || keys[j] > count as u64 {
                    proof {
                        assert(!c.has_key(c.stakers[s as int].info.nft_keys[j as int]));
                    }
                    return false;
                }
                j += 1;
            }
            s += 1;
        }
        proof {
            assert forall|k: u64| #[trigger]
                c.info.end_calc_nft.contains(k) <==> (c.has_key(k) && c.nfts[k
                    - 1].is_end_reward) by {
                if c.info.end_calc_nft.contains(k) {
                    assert(self.info.end_calc_nft@.contains(k));
                    let j = choose|j: int|
                        0 <= j < self.info.end_calc_nft@.len() && self.info.end_calc_nft@[j] == k;
                    assert(c.has_key(self.info.end_calc_nft@[j]));
                }
                if c.has_key(k) && c.nfts[k - 1].is_end_reward {
                    assert(c.nfts[k - 1].key == k);
                    assert(self.info.end_calc_nft@.contains(c.nfts[k - 1].key));
                }
            }
        }
        true
    }

    /// A copy with the same value.
    pub fn duplicate(&self) -> (r: Campaign)
        ensures
            r@ == self@,
    {
        let mut nfts: Vec<NftInfo> = Vec::new();
        let mut i: usize = 0;
        while i < self.nfts.len()
            invariant
                i <= self.nfts.len(),
                nfts@.len() == i,
                forall|k: int| 0 <= k < i ==> (#[trigger] nfts@[k])@ == self.nfts@[k]@,
            decreases self.nfts.len() - i,
        {
            nfts.push(self.nfts[i].duplicate());
            i += 1;
        }
        assert(nfts_view(nfts@) =~= nfts_view(self.nfts@));
        let mut stakers: Vec<Staker> = Vec::new();
        let mut j: usize = 0;
        while j < self.stakers.len()
            invariant
                j <= self.stakers.len(),
                stakers@.len() == j,
                forall|k: int| 0 <= k < j ==> (#[trigger] stakers@[k])@ == self.stakers@[k]@,
            decreases self.stakers.len() - j,
        {
            stakers.push(self.stakers[j].duplicate());
            j += 1;
        }
        assert(stakers_view(stakers@) =~= stakers_view(self.stakers@));
        Campaign { info: self.info.duplicate(), nfts, stakers }
    }
}

/// The answer to a question about the campaign: its configuration and its
/// totals.
#[derive(Clone, Debug, PartialEq, Eq)]
pub struct CampaignInfoResult {
    pub owner: String,
    pub campaign_name: String,
    pub campaign_image: String,
    pub campaign_description: String,
    /// Number of positions whose lockup has not ended.
    pub total_nft_staked: u64,
    pub total_reward_claimed: u128,
    pub total_reward: u128,
    pub limit_per_staker: u64,
    pub reward_token_info: AssetTokenInfo,
    pub allowed_collection: String,
    pub lockup_term: Vec<LockupTerm>,
    pub reward_per_second: u128,
    pub start_time: u64,
    pub end_time: u64,
}

/// Mathematical value of a [`CampaignInfoResult`].
pub struct CampaignInfoResultView {
    pub owner: Seq<char>,
    pub campaign_name: Seq<char>,
    pub campaign_image: Seq<char>,
    pub campaign_description: Seq<char>,
    pub total_nft_staked: u64,
    pub total_reward_claimed: u128,
    pub total_reward: u128,
    pub limit_per_staker: u64,
    pub reward_token_info: AssetTokenInfoView,
    pub allowed_collection: Seq<char>,
    pub lockup_term: Seq<LockupTerm>,
    pub reward_per_second: u128,
    pub start_time: u64,
    pub end_time: u64,
}

impl View for CampaignInfoResult {
    type V = CampaignInfoResultView;

    open spec fn view(&self) -> CampaignInfoResultView {
        CampaignInfoResultView {
            owner: self.owner@,
            campaign_name: self.campaign_name@,
            campaign_image: self.campaign_image@,
            campaign_description: self.campaign_description@,
            total_nft_staked: self.total_nft_staked,
            total_reward_claimed: self.total_reward_claimed,
            total_reward: self.total_reward,
            limit_per_staker: self.limit_per_staker,
            reward_token_info: self.reward_token_info@,
            allowed_collection: self.allowed_collection@,
            lockup_term: self.lockup_term@,
            reward_per_second: self.reward_per_second,
            start_time: self.start_time,
            end_time: self.end_time,
        }
    }
}

/// The answer to a question about a staker: the staked positions, the
/// reward that could be claimed now, and the reward already claimed.
#[derive(Clone, Debug, PartialEq, Eq)]
pub struct StakedInfoResult {
    pub nfts: Vec<NftInfo>,
    pub reward_debt: u128,
    pub reward_claimed: u128,
}

/// Mathematical value of a [`StakedInfoResult`].
pub struct StakedInfoResultView {
    pub nfts: Seq<NftInfoView>,
    pub reward_debt: u128,
    pub reward_claimed: u128,
}

impl View for StakedInfoResult {
    type V = StakedInfoResultView;

    open spec fn view(&self) -> StakedInfoResultView {
        StakedInfoResultView {
            nfts: nfts_view(self.nfts@),
            reward_debt: self.reward_debt,
            reward_claimed: self.reward_claimed,
        }
    }
}

} // verus!
