use nft_campaign::accrual::accrue;
use nft_campaign::contract::{
    execute_add_reward_token, execute_update_campaign, instantiate, MAX_TIME_VALID,
};
use nft_campaign::error::{ContractError, StdError};
use nft_campaign::factory;
use nft_campaign::msg::{
    AttrValue, Attribute, CampaignInfoUpdate, Coin, Env, InstantiateMsg, Message, MessageInfo,
    Response,
};
use nft_campaign::query::{
    query_campaign_info, query_nft_info, query_staker_info, query_staker_nfts,
    query_total_pending_reward,
};
use nft_campaign::rewards::{execute_claim_reward, execute_withdraw_reward, total_owed};
use nft_campaign::staking::{execute_stake_nft, execute_unstake_nft};
use nft_campaign::state::{
    find_staker, AssetTokenInfo, Campaign, LockupTerm, NftInfo, NftStake, TokenInfo, UnStakeNft,
    UpdateCampaign,
};
use nft_campaign::utils::{calc_reward_in_time, checked_reward_in_time, count_unique_values};

const OWNER: &str = "owner";
const ALICE: &str = "alice";
const BOB: &str = "bob";
const TOKEN: &str = "token";
const DENOM: &str = "ucoin";
const COLLECTION: &str = "collection";
const CAMPAIGN: &str = "campaign";
const START: u64 = 1_000;
const END: u64 = 2_000;

fn at(time: u64) -> Env {
    Env { time, contract_address: CAMPAIGN.to_string() }
}

fn from(name: &str) -> MessageInfo {
    MessageInfo { sender: name.to_string(), funds: vec![] }
}

fn with_coins(name: &str, denom: &str, amount: u128) -> MessageInfo {
    MessageInfo {
        sender: name.to_string(),
        funds: vec![
            Coin { denom: "other".to_string(), amount: u128::MAX },
            Coin { denom: denom.to_string(), amount },
        ],
    }
}

fn config(token: TokenInfo, terms: Vec<LockupTerm>, limit_per_staker: u64) -> InstantiateMsg {
    InstantiateMsg {
        owner: OWNER.to_string(),
        campaign_name: "name".to_string(),
        campaign_image: "image".to_string(),
        campaign_description: "description".to_string(),
        limit_per_staker,
        reward_token_info: AssetTokenInfo { info: token, amount: 7 },
        allowed_collection: COLLECTION.to_string(),
        lockup_term: terms,
        start_time: START,
        end_time: END,
    }
}

fn cw20() -> TokenInfo {
    TokenInfo::Token { contract_addr: TOKEN.to_string() }
}

fn native() -> TokenInfo {
    TokenInfo::NativeToken { denom: DENOM.to_string() }
}

fn tiers() -> Vec<LockupTerm> {
    vec![LockupTerm { value: 100, percent: 50 }, LockupTerm { value: 300, percent: 20 }]
}

/// A campaign from 1000 to 2000 that pays 1000 per second.
fn funded() -> Campaign {
    let mut campaign = instantiate(config(cw20(), tiers(), 0)).unwrap().0;
    execute_add_reward_token(&mut campaign, &at(START - 1), &from(OWNER), 1_000_000, Some(1_000_000))
        .unwrap();
    campaign
}

fn stake(campaign: &mut Campaign, who: &str, now: u64, token_id: &str, term: u64) {
    execute_stake_nft(
        campaign,
        &at(now),
        &from(who),
        &vec![NftStake { token_id: token_id.to_string(), lockup_term: term }],
        &vec![Some(who.to_string())],
    )
    .unwrap();
}

fn unstake(
    campaign: &mut Campaign,
    now: u64,
    token_id: &str,
    key: u64,
) -> Result<Response, ContractError> {
    execute_unstake_nft(
        campaign,
        &at(now),
        &from(BOB),
        &vec![UnStakeNft { token_id: token_id.to_string(), nft_key: key }],
        &vec![Some(CAMPAIGN.to_string())],
    )
}

fn pending(campaign: &Campaign) -> Vec<u128> {
    campaign.nfts.iter().map(|n| n.pending_reward).collect()
}

fn ended(campaign: &Campaign) -> Vec<bool> {
    campaign.nfts.iter().map(|n| n.is_end_reward).collect()
}

fn generic(text: &str) -> ContractError {
    ContractError::Std(StdError::GenericErr { msg: text.to_string() })
}

fn overflow() -> ContractError {
    ContractError::Std(StdError::Overflow {})
}

// ---------------------------------------------------------------- formulas

#[test]
fn reward_in_time_is_exact() {
    assert_eq!(calc_reward_in_time(0, 10, 300, 30, 1), 900);
    assert_eq!(calc_reward_in_time(10, 20, 10_000, 30, 3), 10_000);
    // 10 * 7 * 33 = 2310, then 23, then 5: both divisions round down
    assert_eq!(calc_reward_in_time(0, 10, 7, 33, 4), 5);
    assert_eq!(calc_reward_in_time(5, 5, 1_000, 100, 1), 0);
    assert_eq!(calc_reward_in_time(0, 1, u128::MAX, 1, 1), u128::MAX / 100);
}

#[test]
fn checked_reward_in_time_refuses_what_does_not_fit() {
    assert_eq!(checked_reward_in_time(0, 10, 300, 30, 1), Some(900));
    assert_eq!(checked_reward_in_time(10, 0, 300, 30, 1), None);
    assert_eq!(checked_reward_in_time(0, 10, 300, 30, 0), None);
    assert_eq!(checked_reward_in_time(0, 2, u128::MAX, 0, 1), None);
    assert_eq!(checked_reward_in_time(0, 1, u128::MAX, 2, 1), None);
    assert_eq!(checked_reward_in_time(0, 1, u128::MAX, 1, 2), Some(u128::MAX / 100 / 2));
}

#[test]
fn single_position_alone_earns_the_whole_tier() {
    // one tier of 10 seconds and 30 percent, 300 per second
    let mut campaign =
        instantiate(config(cw20(), vec![LockupTerm { value: 10, percent: 30 }], 0)).unwrap().0;
    execute_add_reward_token(&mut campaign, &at(0), &from(OWNER), 300_000, Some(300_000)).unwrap();
    assert_eq!(campaign.info.reward_per_second, 300);
    stake(&mut campaign, ALICE, 1_500, "x", 10);
    assert_eq!(accrue(&mut campaign, 1_510), Ok(()));
    assert_eq!(pending(&campaign), vec![900]);
    assert_eq!(ended(&campaign), vec![true]);
    assert_eq!(campaign.info.end_calc_nft, vec![1]);
    // nothing more after its end
    assert_eq!(accrue(&mut campaign, 1_900), Ok(()));
    assert_eq!(pending(&campaign), vec![900]);
}

#[test]
fn reward_rate_rounds_down() {
    let mut campaign = instantiate(config(cw20(), tiers(), 0)).unwrap().0;
    // the amount of the configuration is not taken over
    assert_eq!(campaign.info.reward_token_info.amount, 0);
    execute_add_reward_token(&mut campaign, &at(0), &from(OWNER), 1_000_999, Some(1_000_999))
        .unwrap();
    assert_eq!(campaign.info.reward_per_second, 1_000);
    assert_eq!(campaign.info.reward_token_info.amount, 1_000_999);
    assert_eq!(campaign.info.total_reward, 1_000_999);
    // a second payment before the start joins the first
    execute_add_reward_token(&mut campaign, &at(START - 1), &from(OWNER), 1, Some(1)).unwrap();
    assert_eq!(campaign.info.reward_per_second, 1_001);
    assert_eq!(campaign.info.total_reward, 1_001_000);
}

// ------------------------------------------------------------ accrual pass

#[test]
fn positions_of_a_tier_share_equally() {
    let mut campaign = funded();
    stake(&mut campaign, ALICE, 1_100, "a", 100);
    stake(&mut campaign, ALICE, 1_100, "b", 100);
    stake(&mut campaign, BOB, 1_100, "c", 100);
    assert_eq!(accrue(&mut campaign, 1_150), Ok(()));
    // 50 s * 1000 * 50 / 100 = 25000, by 3
    assert_eq!(pending(&campaign), vec![8_333, 8_333, 8_333]);
    assert_eq!(ended(&campaign), vec![false, false, false]);
    assert_eq!(campaign.info.time_calc_nft, 1_150);
}

#[test]
fn positions_that_end_together_end_alike() {
    let mut campaign = funded();
    stake(&mut campaign, ALICE, 1_100, "a", 100);
    stake(&mut campaign, ALICE, 1_100, "b", 100);
    stake(&mut campaign, BOB, 1_100, "c", 100);
    assert_eq!(accrue(&mut campaign, 1_250), Ok(()));
    // 100 s * 1000 * 50 / 100 = 50000, by 3, and nothing after the end
    assert_eq!(pending(&campaign), vec![16_666, 16_666, 16_666]);
    assert_eq!(ended(&campaign), vec![true, true, true]);
    let mut keys = campaign.info.end_calc_nft.clone();
    keys.sort();
    assert_eq!(keys, vec![1, 2, 3]);
}

#[test]
fn sweep_follows_end_times_not_keys() {
    let mut campaign = instantiate(config(
        cw20(),
        vec![LockupTerm { value: 100, percent: 100 }],
        0,
    ))
    .unwrap().0;
    execute_add_reward_token(&mut campaign, &at(0), &from(OWNER), 1_000_000, Some(1_000_000))
        .unwrap();
    stake(&mut campaign, ALICE, 1_200, "late", 100);
    // the clock of the second call is behind the first
    stake(&mut campaign, BOB, 1_150, "early", 100);
    assert_eq!(campaign.info.time_calc_nft, 1_200);
    assert_eq!(accrue(&mut campaign, 1_400), Ok(()));
    // key 2 ends at 1250: 50 s * 1000 / 2; key 1 ends at 1300: that and 50 s * 1000 alone
    assert_eq!(pending(&campaign), vec![75_000, 25_000]);
    assert_eq!(ended(&campaign), vec![true, true]);
}

#[test]
fn tiers_are_swept_apart() {
    let mut campaign = funded();
    stake(&mut campaign, ALICE, 1_000, "a", 100);
    stake(&mut campaign, ALICE, 1_000, "b", 300);
    stake(&mut campaign, BOB, 1_040, "c", 100);
    // at 1040 key 1 has been alone in its tier for 40 s, key 2 in its own
    assert_eq!(pending(&campaign), vec![20_000, 8_000, 0]);
    assert_eq!(accrue(&mut campaign, 1_120), Ok(()));
    // tier 100: 60 s shared by two, then key 1 ends at 1100 and key 3 has 20 s alone
    // tier 300: 80 s * 1000 * 20 / 100
    assert_eq!(pending(&campaign), vec![20_000 + 15_000, 8_000 + 16_000, 15_000 + 10_000]);
    assert_eq!(ended(&campaign), vec![true, false, false]);
    assert_eq!(query_campaign_info(&campaign).total_nft_staked, 2);
}

#[test]
fn an_empty_tier_is_skipped() {
    let mut campaign = funded();
    assert_eq!(accrue(&mut campaign, 1_500), Ok(()));
    assert_eq!(campaign.info.time_calc_nft, 1_500);
    assert!(campaign.nfts.is_empty());
    stake(&mut campaign, ALICE, 1_600, "a", 300);
    assert_eq!(accrue(&mut campaign, 1_700), Ok(()));
    assert_eq!(pending(&campaign), vec![20_000]);
}

#[test]
fn a_repeated_duration_selects_the_first_tier() {
    let mut campaign = instantiate(config(
        cw20(),
        vec![
            LockupTerm { value: 100, percent: 50 },
            LockupTerm { value: 100, percent: 10 },
        ],
        0,
    ))
    .unwrap().0;
    execute_add_reward_token(&mut campaign, &at(0), &from(OWNER), 1_000_000, Some(1_000_000))
        .unwrap();
    stake(&mut campaign, ALICE, 1_100, "a", 100);
    assert_eq!(campaign.nfts[0].lockup_term, LockupTerm { value: 100, percent: 50 });
    assert_eq!(accrue(&mut campaign, 1_110), Ok(()));
    assert_eq!(pending(&campaign), vec![5_000]);
}

#[test]
fn checkpoint_never_goes_back() {
    let mut campaign = funded();
    stake(&mut campaign, ALICE, 1_100, "a", 100);
    assert_eq!(campaign.info.time_calc_nft, 1_100);
    assert_eq!(accrue(&mut campaign, 1_150), Ok(()));
    assert_eq!(campaign.info.time_calc_nft, 1_150);
    let before = campaign.clone();
    assert_eq!(accrue(&mut campaign, 1_120), Ok(()));
    assert_eq!(campaign, before);
    // a later call may come with an earlier clock
    stake(&mut campaign, BOB, 1_130, "b", 300);
    assert_eq!(campaign.info.time_calc_nft, 1_150);
    // and no pass goes beyond the end of the campaign
    assert_eq!(accrue(&mut campaign, 5_000), Ok(()));
    assert_eq!(campaign.info.time_calc_nft, END);
    assert_eq!(accrue(&mut campaign, 9_000), Ok(()));
    assert_eq!(campaign.info.time_calc_nft, END);
}

#[test]
fn a_pass_run_twice_changes_nothing() {
    let mut campaign = funded();
    stake(&mut campaign, ALICE, 1_100, "a", 100);
    stake(&mut campaign, BOB, 1_130, "b", 100);
    assert_eq!(accrue(&mut campaign, 1_210), Ok(()));
    let once = campaign.clone();
    assert_eq!(accrue(&mut campaign, 1_210), Ok(()));
    assert_eq!(campaign, once);
    // key 1: 30 s alone, then 70 s shared; key 2: 70 s shared, then 10 s alone
    assert_eq!(pending(&campaign), vec![15_000 + 17_500, 17_500 + 5_000]);
}

#[test]
fn a_position_beyond_the_campaign_earns_up_to_its_end() {
    let mut campaign = funded();
    stake(&mut campaign, ALICE, 1_900, "a", 300);
    assert_eq!(accrue(&mut campaign, 3_000), Ok(()));
    // 100 s * 1000 * 20 / 100; the lockup has not ended
    assert_eq!(pending(&campaign), vec![20_000]);
    assert_eq!(ended(&campaign), vec![false]);
    assert_eq!(unstake(&mut campaign, 3_000, "a", 1), Err(ContractError::InvalidTimeToUnStake {}));
}

#[test]
fn a_pass_that_does_not_fit_is_refused() {
    let mut campaign = instantiate(InstantiateMsg {
        start_time: 10,
        end_time: 11,
        ..config(cw20(), vec![LockupTerm { value: 5, percent: 100 }], 0)
    })
    .unwrap().0;
    execute_add_reward_token(&mut campaign, &at(0), &from(OWNER), u128::MAX, Some(u128::MAX))
        .unwrap();
    assert_eq!(campaign.info.reward_per_second, u128::MAX);
    stake(&mut campaign, ALICE, 10, "a", 5);
    let before = campaign.clone();
    assert_eq!(accrue(&mut campaign, 11), Err(overflow()));
    assert_eq!(campaign, before);
    assert_eq!(query_total_pending_reward(&campaign, &at(11)), Err(overflow()));
    assert_eq!(query_staker_info(&campaign, &at(11), &ALICE.to_string()), Err(overflow()));
    assert_eq!(unstake(&mut campaign, 11, "a", 1), Err(overflow()));
    assert_eq!(
        execute_claim_reward(&mut campaign, &at(11), &from(ALICE), 0, Some(0)),
        Err(overflow())
    );
    assert_eq!(
        execute_withdraw_reward(&mut campaign, &at(11), &from(OWNER), Some(0)),
        Err(overflow())
    );
    assert_eq!(campaign, before);
    // a second payment does not fit either
    assert_eq!(
        execute_add_reward_token(&mut campaign, &at(0), &from(OWNER), 1, Some(1)),
        Err(overflow())
    );
}

#[test]
fn update_time_calc_sets_the_checkpoint() {
    let mut campaign = funded();
    campaign.info.update(UpdateCampaign::UpdateTimeCalc(1_234));
    assert_eq!(campaign.info.time_calc_nft, 1_234);
    assert_eq!(campaign.info.total_reward, 1_000_000);
}

// ------------------------------------------------------------------- fund

#[test]
fn only_the_owner_adds_reward() {
    let mut campaign = instantiate(config(cw20(), tiers(), 0)).unwrap().0;
    let before = campaign.clone();
    assert_eq!(
        execute_add_reward_token(&mut campaign, &at(0), &from(ALICE), 10, Some(10)),
        Err(ContractError::Unauthorized {})
    );
    assert_eq!(campaign, before);
}

#[test]
fn reward_is_not_added_once_the_campaign_runs() {
    let mut campaign = funded();
    let before = campaign.clone();
    assert_eq!(
        execute_add_reward_token(&mut campaign, &at(START), &from(OWNER), 10, Some(10)),
        Err(ContractError::InvalidTimeToAddReward {})
    );
    assert_eq!(campaign, before);
    // without a rate the campaign still takes reward after its start
    let mut late = instantiate(config(cw20(), tiers(), 0)).unwrap().0;
    assert!(
        execute_add_reward_token(&mut late, &at(START + 5), &from(OWNER), 2_000, Some(2_000))
            .is_ok()
    );
    assert_eq!(late.info.reward_per_second, 2);
}

#[test]
fn a_token_payment_needs_the_balance() {
    let mut campaign = instantiate(config(cw20(), tiers(), 0)).unwrap().0;
    assert_eq!(
        execute_add_reward_token(&mut campaign, &at(0), &from(OWNER), 10, Some(9)),
        Err(ContractError::InsufficientBalance {})
    );
    assert_eq!(
        execute_add_reward_token(&mut campaign, &at(0), &from(OWNER), 10, None),
        Err(ContractError::InsufficientBalance {})
    );
    assert_eq!(campaign.info.total_reward, 0);
}

#[test]
fn a_native_payment_needs_the_coins() {
    let mut campaign = instantiate(config(native(), tiers(), 0)).unwrap().0;
    assert_eq!(
        execute_add_reward_token(&mut campaign, &at(0), &from(OWNER), 10, Some(1_000)),
        Err(ContractError::InvalidFunds {})
    );
    assert_eq!(
        execute_add_reward_token(&mut campaign, &at(0), &with_coins(OWNER, DENOM, 9), 10, None),
        Err(ContractError::InvalidFunds {})
    );
    assert_eq!(
        execute_add_reward_token(&mut campaign, &at(0), &with_coins(OWNER, "ucoins", 10), 10, None),
        Err(ContractError::InvalidFunds {})
    );
    // only the first coin of the denomination counts
    let twice = MessageInfo {
        sender: OWNER.to_string(),
        funds: vec![
            Coin { denom: DENOM.to_string(), amount: 1 },
            Coin { denom: DENOM.to_string(), amount: 100 },
        ],
    };
    assert_eq!(
        execute_add_reward_token(&mut campaign, &at(0), &twice, 10, None),
        Err(ContractError::InvalidFunds {})
    );
    assert_eq!(campaign.info.total_reward, 0);
    let response =
        execute_add_reward_token(&mut campaign, &at(0), &with_coins(OWNER, DENOM, 5_000), 5_000, None)
            .unwrap();
    assert!(response.messages.is_empty());
    assert_eq!(campaign.info.reward_token_info.amount, 5_000);
    assert_eq!(campaign.info.reward_per_second, 5);
}

// ------------------------------------------------------------------ stake

#[test]
fn staking_needs_a_running_campaign_with_a_rate() {
    let mut campaign = funded();
    let one = vec![NftStake { token_id: "a".to_string(), lockup_term: 100 }];
    let mine = vec![Some(ALICE.to_string())];
    let before = campaign.clone();
    for time in [START - 1, END, END + 1] {
        assert_eq!(
            execute_stake_nft(&mut campaign, &at(time), &from(ALICE), &one, &mine),
            Err(ContractError::InvalidTimeToStakeNft {})
        );
    }
    assert_eq!(campaign, before);
    // the first second of the campaign is open
    assert!(execute_stake_nft(&mut campaign, &at(START), &from(ALICE), &one, &mine).is_ok());
    let mut unfunded = instantiate(config(cw20(), tiers(), 0)).unwrap().0;
    assert_eq!(
        execute_stake_nft(&mut unfunded, &at(START + 1), &from(ALICE), &one, &mine),
        Err(ContractError::InvalidTimeToStakeNft {})
    );
}

#[test]
fn staking_needs_the_owner_of_the_nft() {
    let mut campaign = funded();
    let one = vec![NftStake { token_id: "a".to_string(), lockup_term: 100 }];
    let before = campaign.clone();
    for owners in [vec![Some(BOB.to_string())], vec![None], vec![]] {
        assert_eq!(
            execute_stake_nft(&mut campaign, &at(1_100), &from(ALICE), &one, &owners),
            Err(ContractError::NotOwner { token_id: "a".to_string() })
        );
    }
    assert_eq!(campaign, before);
}

#[test]
fn staking_needs_a_tier_of_positive_length() {
    let mut campaign = instantiate(config(
        cw20(),
        vec![LockupTerm { value: 0, percent: 10 }, LockupTerm { value: 100, percent: 50 }],
        0,
    ))
    .unwrap().0;
    execute_add_reward_token(&mut campaign, &at(0), &from(OWNER), 1_000_000, Some(1_000_000))
        .unwrap();
    let mine = vec![Some(ALICE.to_string())];
    for term in [0, 99, 101] {
        assert_eq!(
            execute_stake_nft(
                &mut campaign,
                &at(1_100),
                &from(ALICE),
                &vec![NftStake { token_id: "a".to_string(), lockup_term: term }],
                &mine
            ),
            Err(ContractError::InvalidLockupTerm {})
        );
    }
    let mut empty = instantiate(config(cw20(), vec![], 0)).unwrap().0;
    execute_add_reward_token(&mut empty, &at(0), &from(OWNER), 1_000_000, Some(1_000_000)).unwrap();
    assert_eq!(
        execute_stake_nft(
            &mut empty,
            &at(1_100),
            &from(ALICE),
            &vec![NftStake { token_id: "a".to_string(), lockup_term: 100 }],
            &mine
        ),
        Err(ContractError::InvalidLockupTerm {})
    );
}

#[test]
fn staking_stops_at_the_limit() {
    let mut campaign = instantiate(config(cw20(), tiers(), 2)).unwrap().0;
    execute_add_reward_token(&mut campaign, &at(0), &from(OWNER), 1_000_000, Some(1_000_000))
        .unwrap();
    let three = vec![
        NftStake { token_id: "a".to_string(), lockup_term: 100 },
        NftStake { token_id: "b".to_string(), lockup_term: 300 },
        NftStake { token_id: "c".to_string(), lockup_term: 100 },
    ];
    let mine = vec![Some(ALICE.to_string()); 3];
    let before = campaign.clone();
    assert_eq!(
        execute_stake_nft(&mut campaign, &at(1_100), &from(ALICE), &three, &mine),
        Err(ContractError::LimitPerStake {})
    );
    // nothing of the refused call stays
    assert_eq!(campaign, before);
    let two = three[..2].to_vec();
    let response = execute_stake_nft(&mut campaign, &at(1_100), &from(ALICE), &two, &mine).unwrap();
    assert_eq!(response.messages.len(), 2);
    assert_eq!(campaign.nfts.len(), 2);
    assert_eq!(campaign.nfts[1].key, 2);
    assert_eq!(campaign.nfts[1].token_id, "b");
    assert_eq!(campaign.nfts[1].owner_nft, ALICE);
    assert_eq!(campaign.nfts[1].end_time, 1_400);
    let account = find_staker(&campaign.stakers, &ALICE.to_string()).unwrap();
    assert_eq!(campaign.stakers[account].info.nft_keys, vec![1, 2]);
    assert_eq!(
        execute_stake_nft(&mut campaign, &at(1_100), &from(ALICE), &three[2..].to_vec(), &mine),
        Err(ContractError::LimitPerStake {})
    );
    // the limit is each staker's own
    stake(&mut campaign, BOB, 1_100, "d", 100);
    assert_eq!(campaign.nfts.len(), 3);
}

#[test]
fn a_failing_nft_refuses_the_whole_call() {
    let mut campaign = funded();
    let two = vec![
        NftStake { token_id: "a".to_string(), lockup_term: 100 },
        NftStake { token_id: "b".to_string(), lockup_term: 77 },
    ];
    let before = campaign.clone();
    assert_eq!(
        execute_stake_nft(
            &mut campaign,
            &at(1_100),
            &from(ALICE),
            &two,
            &vec![Some(ALICE.to_string()), Some(ALICE.to_string())]
        ),
        Err(ContractError::InvalidLockupTerm {})
    );
    assert_eq!(campaign, before);
    // the owner is asked before the tier
    assert_eq!(
        execute_stake_nft(
            &mut campaign,
            &at(1_100),
            &from(ALICE),
            &two,
            &vec![Some(ALICE.to_string()), Some(BOB.to_string())]
        ),
        Err(ContractError::NotOwner { token_id: "b".to_string() })
    );
    assert_eq!(
        execute_stake_nft(
            &mut campaign,
            &at(u64::MAX),
            &from(ALICE),
            &two,
            &vec![Some(ALICE.to_string())]
        ),
        Err(ContractError::InvalidTimeToStakeNft {})
    );
}

#[test]
fn an_end_time_that_does_not_fit_is_refused() {
    let mut campaign = instantiate(InstantiateMsg {
        start_time: u64::MAX - 10,
        end_time: u64::MAX,
        ..config(cw20(), vec![LockupTerm { value: 100, percent: 50 }], 0)
    })
    .unwrap().0;
    execute_add_reward_token(&mut campaign, &at(0), &from(OWNER), 1_000, Some(1_000)).unwrap();
    assert_eq!(
        execute_stake_nft(
            &mut campaign,
            &at(u64::MAX - 5),
            &from(ALICE),
            &vec![NftStake { token_id: "a".to_string(), lockup_term: 100 }],
            &vec![Some(ALICE.to_string())]
        ),
        Err(overflow())
    );
    assert_eq!(campaign.info.time_calc_nft, 0);
}

// ---------------------------------------------------------------- unstake

#[test]
fn unstake_waits_for_the_end_and_happens_once() {
    let mut campaign = funded();
    stake(&mut campaign, ALICE, 1_100, "a", 100);
    stake(&mut campaign, BOB, 1_100, "b", 100);
    let before = campaign.clone();
    assert_eq!(unstake(&mut campaign, 1_199, "a", 1), Err(ContractError::InvalidTimeToUnStake {}));
    assert_eq!(campaign, before);
    let response = unstake(&mut campaign, 1_200, "a", 1).unwrap();
    assert_eq!(
        response.messages,
        vec![Message::NftTransfer {
            collection: COLLECTION.to_string(),
            recipient: ALICE.to_string(),
            token_id: "a".to_string(),
        }]
    );
    assert_eq!(pending(&campaign), vec![0, 25_000]);
    assert!(campaign.nfts[0].is_unstake);
    assert!(!campaign.nfts[1].is_unstake);
    let alice = find_staker(&campaign.stakers, &ALICE.to_string()).unwrap();
    assert_eq!(campaign.stakers[alice].info.reward_debt, 25_000);
    assert!(campaign.stakers[alice].info.nft_keys.is_empty());
    let bob = find_staker(&campaign.stakers, &BOB.to_string()).unwrap();
    assert_eq!(campaign.stakers[bob].info.nft_keys, vec![2]);
    assert_eq!(campaign.stakers[bob].info.reward_debt, 0);
    // the second attempt fails, now and later
    let after = campaign.clone();
    assert_eq!(unstake(&mut campaign, 1_200, "a", 1), Err(ContractError::InvalidTimeToUnStake {}));
    assert_eq!(unstake(&mut campaign, 1_900, "a", 1), Err(ContractError::InvalidTimeToUnStake {}));
    assert_eq!(campaign, after);
}

#[test]
fn unstake_needs_the_position_and_the_custody() {
    let mut campaign = funded();
    stake(&mut campaign, ALICE, 1_100, "a", 100);
    let before = campaign.clone();
    for key in [0, 2, u64::MAX] {
        assert_eq!(
            unstake(&mut campaign, 1_300, "a", key),
            Err(ContractError::Std(StdError::NotFound { kind: "NftInfo".to_string() }))
        );
    }
    let one = vec![UnStakeNft { token_id: "a".to_string(), nft_key: 1 }];
    for holders in [vec![Some(ALICE.to_string())], vec![None], vec![]] {
        assert_eq!(
            execute_unstake_nft(&mut campaign, &at(1_300), &from(ALICE), &one, &holders),
            Err(ContractError::NotOwner { token_id: "a".to_string() })
        );
    }
    assert_eq!(campaign, before);
    // an account that has gone missing is reported
    let mut orphan = campaign.clone();
    orphan.stakers.clear();
    assert_eq!(
        unstake(&mut orphan, 1_300, "a", 1),
        Err(ContractError::Std(StdError::NotFound { kind: "StakerRewardAssetInfo".to_string() }))
    );
    // a claimable reward that does not fit is refused
    let mut full = campaign.clone();
    full.stakers[0].info.reward_debt = u128::MAX;
    assert_eq!(unstake(&mut full, 1_300, "a", 1), Err(overflow()));
}

#[test]
fn unstake_takes_a_batch_in_order() {
    let mut campaign = funded();
    stake(&mut campaign, ALICE, 1_100, "a", 100);
    stake(&mut campaign, ALICE, 1_100, "b", 100);
    stake(&mut campaign, ALICE, 1_100, "c", 300);
    let all = vec![
        UnStakeNft { token_id: "b".to_string(), nft_key: 2 },
        UnStakeNft { token_id: "a".to_string(), nft_key: 1 },
        UnStakeNft { token_id: "c".to_string(), nft_key: 3 },
    ];
    let held = vec![Some(CAMPAIGN.to_string()); 3];
    let before = campaign.clone();
    assert_eq!(
        execute_unstake_nft(&mut campaign, &at(1_250), &from(ALICE), &all, &held),
        Err(ContractError::InvalidTimeToUnStake {})
    );
    assert_eq!(campaign, before);
    let response =
        execute_unstake_nft(&mut campaign, &at(1_250), &from(ALICE), &all[..2].to_vec(), &held)
            .unwrap();
    assert_eq!(response.messages.len(), 2);
    assert_eq!(campaign.stakers[0].info.nft_keys, vec![3]);
    assert_eq!(campaign.stakers[0].info.reward_debt, 50_000);
    assert_eq!(pending(&campaign), vec![0, 0, 30_000]);
    assert_eq!(campaign.info.time_calc_nft, 1_250);
}

// ------------------------------------------------------------------ claim

#[test]
fn a_claim_moves_exactly_its_amount() {
    let mut campaign = funded();
    stake(&mut campaign, ALICE, 1_100, "a", 100);
    stake(&mut campaign, BOB, 1_100, "b", 100);
    let response =
        execute_claim_reward(&mut campaign, &at(1_140), &from(ALICE), 4_000, Some(1_000_000))
            .unwrap();
    assert_eq!(
        response.messages,
        vec![Message::TokenTransfer {
            contract_addr: TOKEN.to_string(),
            recipient: ALICE.to_string(),
            amount: 4_000,
        }]
    );
    let alice = find_staker(&campaign.stakers, &ALICE.to_string()).unwrap();
    // 40 s * 1000 * 50 / 100 / 2 = 10000 were pending
    assert_eq!(campaign.stakers[alice].info.reward_debt, 6_000);
    assert_eq!(campaign.stakers[alice].info.reward_claimed, 4_000);
    assert_eq!(campaign.info.total_reward_claimed, 4_000);
    assert_eq!(campaign.info.reward_token_info.amount, 996_000);
    assert_eq!(campaign.info.total_reward, 1_000_000);
    // the pending reward of the claimer's positions has joined the claimable reward
    assert_eq!(pending(&campaign), vec![0, 10_000]);
    assert_eq!(query_total_pending_reward(&campaign, &at(1_140)), Ok(16_000));
}

#[test]
fn a_claim_of_too_much_changes_nothing() {
    let mut campaign = funded();
    stake(&mut campaign, ALICE, 1_100, "a", 100);
    let before = campaign.clone();
    assert_eq!(
        execute_claim_reward(&mut campaign, &at(1_140), &from(ALICE), 20_001, Some(1_000_000)),
        Err(ContractError::InsufficientBalance {})
    );
    assert_eq!(campaign, before);
    assert_eq!(
        execute_claim_reward(&mut campaign, &at(1_140), &from(ALICE), 20_000, Some(19_999)),
        Err(ContractError::InsufficientBalance {})
    );
    assert_eq!(
        execute_claim_reward(&mut campaign, &at(1_140), &from(ALICE), 20_000, None),
        Err(ContractError::InsufficientBalance {})
    );
    assert_eq!(campaign, before);
    assert!(
        execute_claim_reward(&mut campaign, &at(1_140), &from(ALICE), 20_000, Some(20_000)).is_ok()
    );
    assert_eq!(campaign.stakers[0].info.reward_debt, 0);
    assert_eq!(campaign.stakers[0].info.reward_claimed, 20_000);
}

#[test]
fn only_a_staker_claims() {
    let mut campaign = funded();
    stake(&mut campaign, ALICE, 1_100, "a", 100);
    let before = campaign.clone();
    assert_eq!(
        execute_claim_reward(&mut campaign, &at(1_140), &from(BOB), 0, Some(1_000_000)),
        Err(ContractError::InvalidClaim {})
    );
    assert_eq!(campaign, before);
}

#[test]
fn a_claim_does_not_take_more_than_the_campaign_holds() {
    let mut campaign = funded();
    stake(&mut campaign, ALICE, 1_100, "a", 100);
    campaign.info.reward_token_info.amount = 10;
    let before = campaign.clone();
    assert_eq!(
        execute_claim_reward(&mut campaign, &at(1_140), &from(ALICE), 11, Some(1_000_000)),
        Err(ContractError::InsufficientBalance {})
    );
    assert_eq!(campaign, before);
    campaign.info.total_reward_claimed = u128::MAX;
    assert_eq!(
        execute_claim_reward(&mut campaign, &at(1_140), &from(ALICE), 1, Some(1_000_000)),
        Err(overflow())
    );
}

#[test]
fn a_native_reward_is_sent_by_the_bank() {
    let mut campaign = instantiate(config(native(), tiers(), 0)).unwrap().0;
    execute_add_reward_token(
        &mut campaign,
        &at(0),
        &with_coins(OWNER, DENOM, 1_000_000),
        1_000_000,
        None,
    )
    .unwrap();
    stake(&mut campaign, ALICE, 1_100, "a", 100);
    assert_eq!(
        execute_claim_reward(&mut campaign, &at(1_200), &from(ALICE), 50_000, Some(49_999)),
        Err(ContractError::InvalidFunds {})
    );
    let response =
        execute_claim_reward(&mut campaign, &at(1_200), &from(ALICE), 50_000, Some(50_000))
            .unwrap();
    assert_eq!(
        response.messages,
        vec![Message::BankSend {
            denom: DENOM.to_string(),
            recipient: ALICE.to_string(),
            amount: 50_000,
        }]
    );
    assert_eq!(
        execute_withdraw_reward(&mut campaign, &at(END), &from(OWNER), None),
        Err(ContractError::InvalidFunds {})
    );
    let response =
        execute_withdraw_reward(&mut campaign, &at(END), &from(OWNER), Some(950_000)).unwrap();
    assert_eq!(
        response.messages,
        vec![Message::BankSend {
            denom: DENOM.to_string(),
            recipient: OWNER.to_string(),
            amount: 950_000,
        }]
    );
}

// --------------------------------------------------------------- withdraw

#[test]
fn the_owner_withdraws_what_is_not_owed() {
    let mut campaign = funded();
    stake(&mut campaign, ALICE, 1_100, "a", 100);
    stake(&mut campaign, ALICE, 1_100, "b", 100);
    stake(&mut campaign, BOB, 1_100, "c", 100);
    execute_claim_reward(&mut campaign, &at(1_250), &from(BOB), 6_666, Some(1_000_000)).unwrap();
    unstake(&mut campaign, 1_300, "a", 1).unwrap();
    let before = campaign.clone();
    assert_eq!(
        execute_withdraw_reward(&mut campaign, &at(END), &from(ALICE), Some(1_000_000)),
        Err(ContractError::Unauthorized {})
    );
    assert_eq!(
        execute_withdraw_reward(&mut campaign, &at(END - 1), &from(OWNER), Some(1_000_000)),
        Err(ContractError::InvalidTimeToWithdrawReward {})
    );
    assert_eq!(
        execute_withdraw_reward(&mut campaign, &at(END), &from(OWNER), Some(950_001)),
        Err(ContractError::InsufficientBalance {})
    );
    assert_eq!(campaign, before);
    // owed: 16666 pending (b), 16666 claimable (alice), 10000 claimable (bob)
    assert_eq!(total_owed(&campaign), Some(43_332));
    let response =
        execute_withdraw_reward(&mut campaign, &at(END + 7), &from(OWNER), Some(993_334)).unwrap();
    assert_eq!(
        response.messages,
        vec![Message::TokenTransfer {
            contract_addr: TOKEN.to_string(),
            recipient: OWNER.to_string(),
            amount: 950_002,
        }]
    );
    // what was funded is what was claimed, withdrawn and is still owed
    assert_eq!(campaign.info.reward_token_info.amount, 43_332);
    assert_eq!(campaign.info.total_reward, 6_666 + 950_002 + 43_332);
    assert_eq!(campaign.info.time_calc_nft, END);
    // a second withdrawal finds nothing
    let response =
        execute_withdraw_reward(&mut campaign, &at(END + 8), &from(OWNER), Some(43_332)).unwrap();
    assert_eq!(
        response.messages,
        vec![Message::TokenTransfer {
            contract_addr: TOKEN.to_string(),
            recipient: OWNER.to_string(),
            amount: 0,
        }]
    );
}

#[test]
fn a_campaign_that_owes_more_than_it_holds_pays_nothing_out() {
    let mut campaign = funded();
    stake(&mut campaign, ALICE, 1_100, "a", 100);
    accrue(&mut campaign, END).unwrap();
    campaign.info.reward_token_info.amount = 49_999;
    let before = campaign.clone();
    assert_eq!(
        execute_withdraw_reward(&mut campaign, &at(END), &from(OWNER), Some(1_000_000)),
        Err(ContractError::InsufficientBalance {})
    );
    campaign.stakers[0].info.reward_debt = u128::MAX;
    assert_eq!(
        execute_withdraw_reward(&mut campaign, &at(END), &from(OWNER), Some(1_000_000)),
        Err(ContractError::InsufficientBalance {})
    );
    assert_eq!(total_owed(&campaign), None);
    campaign.stakers[0].info.reward_debt = 0;
    assert_eq!(campaign, before);
}

// ----------------------------------------------------------------- update

fn no_change() -> CampaignInfoUpdate {
    CampaignInfoUpdate {
        campaign_name: None,
        campaign_image: None,
        campaign_description: None,
        start_time: None,
        end_time: None,
        limit_per_staker: None,
        lockup_term: None,
    }
}

#[test]
fn an_update_replaces_what_is_given() {
    let mut campaign = instantiate(config(cw20(), tiers(), 3)).unwrap().0;
    let before = campaign.clone();
    assert!(execute_update_campaign(&mut campaign, &at(START), &from(OWNER), no_change()).is_ok());
    assert_eq!(campaign, before);
    let response = execute_update_campaign(
        &mut campaign,
        &at(500),
        &from(OWNER),
        CampaignInfoUpdate {
            campaign_name: Some("new name".to_string()),
            campaign_image: Some("new image".to_string()),
            campaign_description: Some("new description".to_string()),
            start_time: Some(600),
            end_time: Some(700),
            limit_per_staker: Some(9),
            lockup_term: Some(vec![LockupTerm { value: 5, percent: 1 }]),
        },
    )
    .unwrap();
    assert!(response.messages.is_empty());
    assert_eq!(campaign.info.campaign_name, "new name");
    assert_eq!(campaign.info.campaign_image, "new image");
    assert_eq!(campaign.info.campaign_description, "new description");
    assert_eq!(campaign.info.start_time, 600);
    assert_eq!(campaign.info.end_time, 700);
    assert_eq!(campaign.info.limit_per_staker, 9);
    assert_eq!(campaign.info.lockup_term, vec![LockupTerm { value: 5, percent: 1 }]);
    assert_eq!(campaign.info.owner, OWNER);
}

#[test]
fn an_update_is_checked() {
    let mut campaign = instantiate(config(cw20(), tiers(), 3)).unwrap().0;
    let before = campaign.clone();
    assert_eq!(
        execute_update_campaign(&mut campaign, &at(0), &from(ALICE), no_change()),
        Err(ContractError::Unauthorized {})
    );
    assert_eq!(
        execute_update_campaign(
            &mut campaign,
            &at(0),
            &from(OWNER),
            CampaignInfoUpdate { end_time: Some(START + MAX_TIME_VALID + 1), ..no_change() }
        ),
        Err(ContractError::LimitStartDate {})
    );
    assert!(execute_update_campaign(
        &mut campaign.clone(),
        &at(0),
        &from(OWNER),
        CampaignInfoUpdate { end_time: Some(START + MAX_TIME_VALID), ..no_change() }
    )
    .is_ok());
    assert_eq!(
        execute_update_campaign(
            &mut campaign,
            &at(0),
            &from(OWNER),
            CampaignInfoUpdate { campaign_name: Some("n".repeat(101)), ..no_change() }
        ),
        Err(ContractError::LimitCharacter {})
    );
    assert!(execute_update_campaign(
        &mut campaign.clone(),
        &at(0),
        &from(OWNER),
        CampaignInfoUpdate { campaign_name: Some("n".repeat(100)), ..no_change() }
    )
    .is_ok());
    // the length is counted in bytes
    assert_eq!(
        execute_update_campaign(
            &mut campaign,
            &at(0),
            &from(OWNER),
            CampaignInfoUpdate { campaign_name: Some("é".repeat(51)), ..no_change() }
        ),
        Err(ContractError::LimitCharacter {})
    );
    assert_eq!(
        execute_update_campaign(
            &mut campaign,
            &at(0),
            &from(OWNER),
            CampaignInfoUpdate { campaign_description: Some("d".repeat(501)), ..no_change() }
        ),
        Err(ContractError::LimitCharacter {})
    );
    for end in [START, START - 1] {
        assert_eq!(
            execute_update_campaign(
                &mut campaign,
                &at(0),
                &from(OWNER),
                CampaignInfoUpdate { end_time: Some(end), ..no_change() }
            ),
            Err(generic("## Start time is greater than end time ##"))
        );
    }
    assert_eq!(
        execute_update_campaign(&mut campaign, &at(START + 1), &from(OWNER), no_change()),
        Err(generic("## Current time is greater than start time ##"))
    );
    assert_eq!(campaign, before);
    let mut paid = funded();
    assert_eq!(
        execute_update_campaign(&mut paid, &at(0), &from(OWNER), no_change()),
        Err(ContractError::InvalidTimeToUpdate {})
    );
}

#[test]
fn a_campaign_must_start_before_it_ends() {
    for (start, end) in [(5, 5), (6, 5), (u64::MAX, 0)] {
        assert_eq!(
            instantiate(InstantiateMsg {
                start_time: start,
                end_time: end,
                ..config(cw20(), tiers(), 0)
            }),
            Err(generic("## Start time is greater than end time ##"))
        );
    }
    assert!(instantiate(InstantiateMsg {
        start_time: 0,
        end_time: MAX_TIME_VALID,
        ..config(cw20(), tiers(), 0)
    })
    .is_ok());
    assert_eq!(
        instantiate(InstantiateMsg {
            start_time: 0,
            end_time: u64::MAX,
            ..config(cw20(), tiers(), 0)
        }),
        Err(ContractError::LimitStartDate {})
    );
}

// ------------------------------------------------------------- attributes

fn text(key: &str, value: &str) -> Attribute {
    Attribute { key: key.to_string(), value: AttrValue::Text(value.to_string()) }
}

fn number(key: &str, value: u64) -> Attribute {
    Attribute { key: key.to_string(), value: AttrValue::Number(value) }
}

fn amount(key: &str, value: u128) -> Attribute {
    Attribute { key: key.to_string(), value: AttrValue::Amount(value) }
}

#[test]
fn a_response_tells_what_was_done() {
    let (mut campaign, response) = instantiate(config(cw20(), tiers(), 4)).unwrap();
    assert!(response.messages.is_empty());
    assert_eq!(
        response.attributes,
        vec![
            text("action", "instantiate"),
            text("owner", OWNER),
            text("campaign_name", "name"),
            text("campaign_image", "image"),
            text("campaign_description", "description"),
            number("limit_per_staker", 4),
            text("reward_token_info", TOKEN),
            text("allowed_collection", COLLECTION),
            Attribute { key: "lockup_term".to_string(), value: AttrValue::Terms(tiers()) },
            number("start_time", START),
            number("end_time", END),
        ]
    );
    let response = execute_update_campaign(
        &mut campaign,
        &at(0),
        &from(OWNER),
        CampaignInfoUpdate { limit_per_staker: Some(0), end_time: Some(END + 1), ..no_change() },
    )
    .unwrap();
    assert_eq!(
        response.attributes,
        vec![
            text("action", "update_campaign"),
            text("owner", OWNER),
            text("campaign_name", "name"),
            text("campaign_image", "image"),
            text("campaign_description", "description"),
            number("limit_per_staker", 0),
            Attribute {
                key: "reward_token_info".to_string(),
                value: AttrValue::Asset(AssetTokenInfo { info: cw20(), amount: 0 }),
            },
            text("allowed_collection", COLLECTION),
            Attribute { key: "lockup_term".to_string(), value: AttrValue::Terms(tiers()) },
            number("start_time", START),
            number("end_time", END + 1),
        ]
    );
    let response =
        execute_add_reward_token(&mut campaign, &at(0), &from(OWNER), 1_001_000, Some(1_001_000))
            .unwrap();
    assert_eq!(
        response.attributes,
        vec![
            text("action", "add_reward_token"),
            text("owner", OWNER),
            text("reward_token_info", TOKEN),
            amount("reward_token_amount", 1_001_000),
        ]
    );
    let wanted = vec![NftStake { token_id: "a".to_string(), lockup_term: 100 }];
    let response = execute_stake_nft(
        &mut campaign,
        &at(1_100),
        &from(ALICE),
        &wanted,
        &vec![Some(ALICE.to_string())],
    )
    .unwrap();
    assert_eq!(
        response.attributes,
        vec![
            text("action", "stake_nft"),
            text("owner", ALICE),
            text("allowed_collection", COLLECTION),
            Attribute { key: "nfts".to_string(), value: AttrValue::Stakes(wanted) },
        ]
    );
    let response =
        execute_claim_reward(&mut campaign, &at(1_150), &from(ALICE), 5, Some(5)).unwrap();
    assert_eq!(
        response.attributes,
        vec![
            text("action", "claim_reward"),
            text("owner", OWNER),
            text("reward_token_info", TOKEN),
            amount("reward_claim_amount", 5),
        ]
    );
    let back = vec![UnStakeNft { token_id: "a".to_string(), nft_key: 1 }];
    let response = execute_unstake_nft(
        &mut campaign,
        &at(1_200),
        &from(BOB),
        &back,
        &vec![Some(CAMPAIGN.to_string())],
    )
    .unwrap();
    assert_eq!(
        response.attributes,
        vec![
            text("action", "unstake_nft"),
            text("owner", BOB),
            text("allowed_collection", COLLECTION),
            Attribute { key: "nfts".to_string(), value: AttrValue::Unstakes(back) },
        ]
    );
    let response =
        execute_withdraw_reward(&mut campaign, &at(END + 1), &from(OWNER), Some(u128::MAX))
            .unwrap();
    assert_eq!(
        response.attributes,
        vec![
            text("action", "withdraw_reward"),
            text("owner", OWNER),
            text("reward_token_info", TOKEN),
            amount("withdraw_reward_amount", 1_001_000 - 50_000),
        ]
    );
    // a native token is named by its denomination
    let mut coins = instantiate(config(native(), tiers(), 0)).unwrap().0;
    execute_add_reward_token(&mut coins, &at(0), &with_coins(OWNER, DENOM, 9_000), 9_000, None)
        .unwrap();
    stake(&mut coins, ALICE, 1_100, "a", 100);
    let response =
        execute_claim_reward(&mut coins, &at(1_150), &from(ALICE), 0, Some(0)).unwrap();
    assert_eq!(response.attributes[2], text("denom", DENOM));
    let response =
        execute_withdraw_reward(&mut coins, &at(END), &from(OWNER), Some(9_000)).unwrap();
    assert_eq!(response.attributes[2], text("denom", DENOM));
    assert_eq!(response.attributes[3], amount("withdraw_reward_amount", 9_000 - 450));
}

// ---------------------------------------------------------------- queries

#[test]
fn a_token_is_named_by_its_address_or_denomination() {
    assert_eq!(cw20().text(), TOKEN);
    assert_eq!(native().text(), DENOM);
}

#[test]
fn a_position_is_found_by_its_key() {
    let mut campaign = funded();
    stake(&mut campaign, ALICE, 1_100, "a", 100);
    assert_eq!(query_nft_info(&campaign, 1), Ok(campaign.nfts[0].clone()));
    for key in [0, 2] {
        assert_eq!(
            query_nft_info(&campaign, key),
            Err(ContractError::Std(StdError::NotFound { kind: "NftInfo".to_string() }))
        );
    }
}

#[test]
fn a_staker_summary_does_not_change_the_campaign() {
    let mut campaign = funded();
    stake(&mut campaign, ALICE, 1_100, "a", 100);
    stake(&mut campaign, BOB, 1_100, "b", 100);
    stake(&mut campaign, ALICE, 1_100, "c", 300);
    unstake(&mut campaign, 1_200, "a", 1).unwrap();
    let before = campaign.clone();
    let held = query_staker_info(&campaign, &at(1_300), &ALICE.to_string()).unwrap();
    assert_eq!(campaign, before);
    // key 1 was taken back: 25000 are claimable; key 3 has earned 200 s * 1000 * 20 / 100
    assert_eq!(held.reward_debt, 25_000 + 40_000);
    assert_eq!(held.reward_claimed, 0);
    assert_eq!(held.nfts.len(), 1);
    assert_eq!(held.nfts[0].key, 3);
    assert_eq!(held.nfts[0].pending_reward, 40_000);
    let nobody = query_staker_info(&campaign, &at(1_300), &"carol".to_string()).unwrap();
    assert!(nobody.nfts.is_empty());
    assert_eq!((nobody.reward_debt, nobody.reward_claimed), (0, 0));
    assert_eq!(query_total_pending_reward(&campaign, &at(1_300)), Ok(25_000 + 25_000 + 40_000));
}

#[test]
fn a_staker_summary_lists_tier_by_tier() {
    let mut campaign = funded();
    stake(&mut campaign, ALICE, 1_100, "a", 300);
    stake(&mut campaign, ALICE, 1_120, "b", 100);
    stake(&mut campaign, BOB, 1_120, "c", 100);
    // the clock of this call is behind: the position ends before that of key 2
    stake(&mut campaign, ALICE, 1_110, "d", 100);
    stake(&mut campaign, ALICE, 1_130, "e", 300);
    let held = query_staker_info(&campaign, &at(1_215), &ALICE.to_string()).unwrap();
    let keys: Vec<u64> = held.nfts.iter().map(|n| n.key).collect();
    // the tier of 100 seconds comes first in the table; within a tier the end times decide
    assert_eq!(keys, vec![4, 2, 1, 5]);
    let flags: Vec<bool> = held.nfts.iter().map(|n| n.is_end_reward).collect();
    assert_eq!(flags, vec![true, false, false, false]);
    let sum: u128 = held.nfts.iter().map(|n| n.pending_reward).sum();
    assert_eq!(held.reward_debt, sum);
}

#[test]
fn a_staker_summary_adds_what_it_lists() {
    let mut campaign = funded();
    stake(&mut campaign, ALICE, 1_100, "a", 100);
    stake(&mut campaign, ALICE, 1_100, "b", 300);
    accrue(&mut campaign, 1_110).unwrap();
    assert_eq!(pending(&campaign), vec![5_000, 2_000]);
    campaign.stakers[0].info.reward_debt = 7;
    // the tier of the first position leaves the table
    campaign.info.lockup_term = vec![LockupTerm { value: 300, percent: 20 }];
    assert!(campaign.is_consistent());
    let held = query_staker_info(&campaign, &at(1_110), &ALICE.to_string()).unwrap();
    let keys: Vec<u64> = held.nfts.iter().map(|n| n.key).collect();
    assert_eq!(keys, vec![2]);
    assert_eq!(held.reward_debt, 7 + 2_000);
    // with no tier left nothing is listed and nothing is added
    campaign.info.lockup_term = vec![];
    let held = query_staker_info(&campaign, &at(1_500), &ALICE.to_string()).unwrap();
    assert!(held.nfts.is_empty());
    assert_eq!(held.reward_debt, 7);
    assert_eq!(held.reward_claimed, 0);
    // a listed position counts whether or not it was taken back
    campaign.info.lockup_term = tiers();
    campaign.nfts[0].is_end_reward = true;
    campaign.nfts[0].is_unstake = true;
    campaign.info.end_calc_nft = vec![1];
    campaign.info.time_calc_nft = 1_200;
    assert!(campaign.is_consistent());
    let held = query_staker_info(&campaign, &at(1_110), &ALICE.to_string()).unwrap();
    let keys: Vec<u64> = held.nfts.iter().map(|n| n.key).collect();
    assert_eq!(keys, vec![1, 2]);
    assert_eq!(held.reward_debt, 7 + 5_000 + 2_000);
    // a sum that does not fit is refused
    campaign.stakers[0].info.reward_debt = u128::MAX - 6_999;
    assert_eq!(query_staker_info(&campaign, &at(1_110), &ALICE.to_string()), Err(overflow()));
}

#[test]
fn positions_are_listed_in_pages() {
    let mut campaign = funded();
    for (who, id) in [(ALICE, "a"), (BOB, "b"), (ALICE, "c"), (BOB, "d"), (ALICE, "e")] {
        stake(&mut campaign, who, 1_100, id, 100);
    }
    let keys = |nfts: Vec<NftInfo>| nfts.iter().map(|n| n.key).collect::<Vec<u64>>();
    assert_eq!(keys(query_staker_nfts(&campaign, None, None, None)), vec![1, 2, 3, 4, 5]);
    assert_eq!(keys(query_staker_nfts(&campaign, Some(2), None, None)), vec![3, 4, 5]);
    assert_eq!(keys(query_staker_nfts(&campaign, Some(1), Some(2), None)), vec![2, 3]);
    assert_eq!(keys(query_staker_nfts(&campaign, None, Some(0), None)), Vec::<u64>::new());
    assert_eq!(keys(query_staker_nfts(&campaign, Some(5), None, None)), Vec::<u64>::new());
    assert_eq!(keys(query_staker_nfts(&campaign, Some(4), Some(u32::MAX), None)), vec![5]);
    let alice = ALICE.to_string();
    assert_eq!(keys(query_staker_nfts(&campaign, None, None, Some(&alice))), vec![1, 3, 5]);
    // the owner is picked out of the page
    assert_eq!(keys(query_staker_nfts(&campaign, Some(1), Some(3), Some(&alice))), vec![3]);
}

#[test]
fn different_token_ids_are_counted_once() {
    let nft = |id: &str| NftInfo {
        key: 1,
        token_id: id.to_string(),
        owner_nft: ALICE.to_string(),
        pending_reward: 0,
        lockup_term: LockupTerm { value: 1, percent: 1 },
        is_end_reward: false,
        is_unstake: false,
        start_time: 0,
        end_time: 1,
    };
    assert_eq!(count_unique_values(vec![]), 0);
    assert_eq!(count_unique_values(vec![nft("a")]), 1);
    assert_eq!(count_unique_values(vec![nft("a"), nft("b"), nft("a"), nft("c"), nft("b")]), 3);
}

// ---------------------------------------------------------------- factory

fn deployed(address: &str) -> Vec<u8> {
    let mut data: Vec<u8> = vec![0x0a, address.len() as u8];
    data.extend_from_slice(address.as_bytes());
    data
}

#[test]
fn only_the_owner_changes_the_factory() {
    let mut state = factory::instantiate(
        &from(OWNER),
        factory::InstantiateMsg { campaign_code_id: 4, allow_create_for_all: false },
    );
    let before = state.clone();
    assert_eq!(
        factory::execute_update_config(&mut state, &from(ALICE), Some(ALICE.to_string()), None, None),
        Err(ContractError::Unauthorized {})
    );
    assert_eq!(state, before);
    assert_eq!(factory::execute_update_config(&mut state, &from(OWNER), None, None, None), Ok(()));
    assert_eq!(state, before);
    assert_eq!(
        factory::execute_update_config(
            &mut state,
            &from(OWNER),
            Some(ALICE.to_string()),
            Some(5),
            Some(true)
        ),
        Ok(())
    );
    let answer = factory::query_config(&state);
    assert_eq!((answer.owner.as_str(), answer.campaign_code_id), (ALICE, 5));
    assert!(state.config.allow_create_for_all);
}

#[test]
fn who_may_create_a_campaign() {
    let mut state = factory::instantiate(
        &from(OWNER),
        factory::InstantiateMsg { campaign_code_id: 4, allow_create_for_all: false },
    );
    let wanted = || factory::CreateCampaign {
        owner: ALICE.to_string(),
        campaign_name: "name".to_string(),
        campaign_image: "image".to_string(),
        campaign_description: "description".to_string(),
        start_time: START,
        end_time: END,
        limit_per_staker: 1,
        reward_token_info: AssetTokenInfo { info: native(), amount: 0 },
        allowed_collection: COLLECTION.to_string(),
        lockup_term: tiers(),
    };
    let env = Env { time: 0, contract_address: "factory".to_string() };
    assert_eq!(
        factory::execute_create_campaign(&state, &env, &from(ALICE), wanted()),
        Err(ContractError::Unauthorized {})
    );
    state.config.allow_create_for_all = true;
    let order = factory::execute_create_campaign(&state, &env, &from(ALICE), wanted()).unwrap();
    assert_eq!(order.code_id, 4);
    assert_eq!(order.admin, "factory");
    assert_eq!(order.label, "pair");
    assert_eq!(order.msg.owner, ALICE);
    assert_eq!(order.msg.lockup_term, tiers());
    assert_eq!((order.msg.start_time, order.msg.end_time), (START, END));
}

#[test]
fn a_reply_records_the_address_it_carries() {
    let mut state = factory::instantiate(
        &from(OWNER),
        factory::InstantiateMsg { campaign_code_id: 4, allow_create_for_all: false },
    );
    let summary = query_campaign_info(&funded());
    let refused = Err(generic("no contract address in the reply"));
    for result in [
        Err("out of gas".to_string()),
        Ok(None),
        // another field than the address
        Ok(Some(vec![0x12, 0x01, 0x41])),
        // a length that the data does not hold
        Ok(Some(vec![0x0a, 0x05, 0x41])),
    ] {
        assert_eq!(factory::reply(&factory::Reply { id: 1, result }), refused);
    }
    for (key, address) in [(1, "wasm1first"), (2, "wasm1second"), (3, "wasm1third")] {
        let read = factory::reply(&factory::Reply { id: 1, result: Ok(Some(deployed(address))) });
        assert_eq!(read, Ok(address.to_string()));
        assert_eq!(factory::record_campaign(&mut state, read.unwrap(), &summary), Ok(key));
    }
    assert_eq!(factory::query_addr_campaigns(&state), vec!["wasm1first", "wasm1second", "wasm1third"]);
    assert_eq!(factory::query_campaign_info(&state, 2).unwrap().campaign_addr, "wasm1second");
    assert_eq!(factory::query_campaign_info(&state, 2).unwrap().owner, OWNER);
    for key in [0, 4] {
        assert_eq!(
            factory::query_campaign_info(&state, key),
            Err(ContractError::Std(StdError::NotFound { kind: "FactoryCampaign".to_string() }))
        );
    }
    let addresses = |page: Vec<factory::FactoryCampaign>| {
        page.iter().map(|c| c.campaign_addr.clone()).collect::<Vec<String>>()
    };
    assert_eq!(addresses(factory::query_campaigns(&state, Some(1), Some(1))), vec!["wasm1second"]);
    assert_eq!(addresses(factory::query_campaigns(&state, Some(3), None)), Vec::<String>::new());
    assert_eq!(factory::query_campaigns(&state, None, None).len(), 3);
}
