use nft_campaign::contract::{execute_add_reward_token, instantiate};
use nft_campaign::error::ContractError;
use nft_campaign::factory;
use nft_campaign::factory::{CreateCampaign, FactoryCampaign, Reply};
use nft_campaign::msg::{Env, InstantiateMsg, Message, MessageInfo};
use nft_campaign::query::{
    query_campaign_info, query_nft_info, query_staker_info, query_total_pending_reward,
};
use nft_campaign::rewards::execute_claim_reward;
use nft_campaign::staking::execute_stake_nft;
use nft_campaign::state::{
    AssetTokenInfo, Campaign, CampaignInfoResult, LockupTerm, NftInfo, NftStake, StakedInfoResult,
    TokenInfo,
};

const MOCK_1000_TOKEN_AMOUNT: u128 = 1_000_000;
const ADMIN: &str = "admin";
const FACTORY: &str = "contract0";
const TOKEN: &str = "contract1";
const COLLECTION: &str = "contract2";
const CAMPAIGN: &str = "contract3";
const GENESIS: u64 = 1_571_797_419;

fn env_at(time: u64, contract: &str) -> Env {
    Env { time, contract_address: contract.to_string() }
}

fn sender(name: &str) -> MessageInfo {
    MessageInfo { sender: name.to_string(), funds: vec![] }
}

fn position(
    key: u64,
    pending_reward: u128,
    value: u64,
    percent: u128,
    is_end_reward: bool,
    start_time: u64,
) -> NftInfo {
    NftInfo {
        key,
        token_id: key.to_string(),
        owner_nft: ADMIN.to_string(),
        pending_reward,
        lockup_term: LockupTerm { value, percent },
        is_end_reward,
        is_unstake: false,
        start_time,
        end_time: start_time + value,
    }
}

fn stake(campaign: &mut Campaign, now: u64, token_id: &str, lockup_term: u64) {
    let response = execute_stake_nft(
        campaign,
        &env_at(now, CAMPAIGN),
        &sender(ADMIN),
        &vec![NftStake { token_id: token_id.to_string(), lockup_term }],
        &vec![Some(ADMIN.to_string())],
    );
    assert!(response.is_ok());
    assert_eq!(
        response.unwrap().messages,
        vec![Message::NftTransfer {
            collection: COLLECTION.to_string(),
            recipient: CAMPAIGN.to_string(),
            token_id: token_id.to_string(),
        }]
    );
}

fn get_init_msg(
    owner: &str,
    campaign_name: &str,
    campaign_description: &str,
    start_time: u64,
    end_time: u64,
) -> InstantiateMsg {
    InstantiateMsg {
        owner: owner.to_string(),
        campaign_name: campaign_name.to_string(),
        campaign_image: "".to_string(),
        campaign_description: campaign_description.to_string(),
        limit_per_staker: 0,
        reward_token_info: AssetTokenInfo {
            info: TokenInfo::Token { contract_addr: "token_contract_address".to_string() },
            amount: 0,
        },
        allowed_collection: "nft_collection_contract_address".to_string(),
        lockup_term: vec![LockupTerm { value: 0, percent: 0 }],
        start_time,
        end_time,
    }
}

#[test]
fn proper_operation() {
    let token_info = TokenInfo::Token { contract_addr: TOKEN.to_string() };
    let current_block_time = GENESIS;

    // the factory, owned by ADMIN
    let mut factory_state = factory::instantiate(
        &sender(ADMIN),
        factory::InstantiateMsg { campaign_code_id: 2, allow_create_for_all: false },
    );

    // create campaign contract by factory contract
    let lockup_term =
        vec![LockupTerm { value: 10, percent: 30 }, LockupTerm { value: 30, percent: 70 }];
    let order = factory::execute_create_campaign(
        &factory_state,
        &env_at(current_block_time, FACTORY),
        &sender(ADMIN),
        CreateCampaign {
            owner: ADMIN.to_string(),
            campaign_name: "campaign name".to_string(),
            campaign_image: "campaign name".to_string(),
            campaign_description: "campaign name".to_string(),
            start_time: current_block_time + 10,
            end_time: current_block_time + 110,
            limit_per_staker: 5,
            reward_token_info: AssetTokenInfo { info: token_info.clone(), amount: 0 },
            allowed_collection: COLLECTION.to_string(),
            lockup_term: lockup_term.clone(),
        },
    );
    assert!(order.is_ok());
    let order = order.unwrap();
    assert_eq!(order.code_id, 2);
    assert_eq!(order.admin, FACTORY);
    let (mut campaign, response) = instantiate(order.msg).unwrap();
    assert_eq!(response.attributes.len(), 11);

    // the chain reports the address of the new contract
    let mut data: Vec<u8> = vec![0x0a, CAMPAIGN.len() as u8];
    data.extend_from_slice(CAMPAIGN.as_bytes());
    let address = factory::reply(&Reply { id: 1, result: Ok(Some(data)) });
    assert_eq!(address, Ok(CAMPAIGN.to_string()));
    let key = factory::record_campaign(
        &mut factory_state,
        address.unwrap(),
        &query_campaign_info(&campaign),
    );
    assert_eq!(key, Ok(1));

    // query campaign contract address
    let campaign_info = factory::query_campaign_info(&factory_state, 1).unwrap();
    assert_eq!(
        campaign_info,
        FactoryCampaign {
            owner: ADMIN.to_string(),
            campaign_addr: "contract3".to_string(),
            reward_token: TokenInfo::Token { contract_addr: TOKEN.to_string() },
            allowed_collection: COLLECTION.to_string(),
        }
    );

    // query campaign info
    let campaign_info = query_campaign_info(&campaign);
    assert_eq!(
        campaign_info,
        CampaignInfoResult {
            owner: ADMIN.to_string(),
            campaign_name: "campaign name".to_string(),
            campaign_image: "campaign name".to_string(),
            campaign_description: "campaign name".to_string(),
            limit_per_staker: 5,
            reward_token_info: AssetTokenInfo { info: token_info.clone(), amount: 0 },
            allowed_collection: COLLECTION.to_string(),
            lockup_term: vec![
                LockupTerm { value: 10, percent: 30 },
                LockupTerm { value: 30, percent: 70 },
            ],
            total_nft_staked: 0,
            total_reward_claimed: 0,
            total_reward: 0,
            reward_per_second: 0,
            start_time: current_block_time + 10,
            end_time: current_block_time + 110,
        }
    );

    // query all campaigns
    let campaigns = factory::query_campaigns(&factory_state, None, None);
    assert_eq!(
        campaigns,
        vec![FactoryCampaign {
            owner: ADMIN.to_string(),
            campaign_addr: "contract3".to_string(),
            reward_token: TokenInfo::Token { contract_addr: TOKEN.to_string() },
            allowed_collection: COLLECTION.to_string(),
        }]
    );
    assert_eq!(factory::query_addr_campaigns(&factory_state), vec!["contract3".to_string()]);

    // add reward token
    let response = execute_add_reward_token(
        &mut campaign,
        &env_at(current_block_time, CAMPAIGN),
        &sender(ADMIN),
        MOCK_1000_TOKEN_AMOUNT,
        Some(MOCK_1000_TOKEN_AMOUNT),
    );
    assert!(response.is_ok());
    assert_eq!(
        response.unwrap().messages,
        vec![Message::TokenTransferFrom {
            contract_addr: TOKEN.to_string(),
            owner: ADMIN.to_string(),
            recipient: CAMPAIGN.to_string(),
            amount: MOCK_1000_TOKEN_AMOUNT,
        }]
    );

    // check reward token in campaign
    let campaign_info = query_campaign_info(&campaign);
    assert_eq!(MOCK_1000_TOKEN_AMOUNT, campaign_info.reward_token_info.amount);
    assert_eq!(campaign_info.reward_per_second, 10_000);

    // increase 20 second to make active campaign
    let mut now = current_block_time + 20;

    // stake nft token_id 1
    let start_time_1 = now;
    stake(&mut campaign, now, "1", 10);

    // get nft info
    let nft_info = query_nft_info(&campaign, 1).unwrap();
    assert_eq!(nft_info, position(1, 0, 10, 30, false, start_time_1));

    // nft staked with ADMIN
    let staked =
        query_staker_info(&campaign, &env_at(now, CAMPAIGN), &ADMIN.to_string()).unwrap();
    assert_eq!(
        staked,
        StakedInfoResult {
            nfts: vec![position(1, 0, 10, 30, false, start_time_1)],
            reward_debt: 0,
            reward_claimed: 0,
        }
    );

    // change block time increase 1 second to next stake nft 2
    now += 1;
    let start_time_2 = now;
    stake(&mut campaign, now, "2", 10);

    assert_eq!(
        query_nft_info(&campaign, 1).unwrap(),
        position(1, 3000, 10, 30, false, start_time_1)
    );
    assert_eq!(query_nft_info(&campaign, 2).unwrap(), position(2, 0, 10, 30, false, start_time_2));

    // stake nft token_id 3
    let start_time_3 = now;
    stake(&mut campaign, now, "3", 10);

    assert_eq!(
        query_nft_info(&campaign, 1).unwrap(),
        position(1, 3000, 10, 30, false, start_time_1)
    );
    assert_eq!(query_nft_info(&campaign, 2).unwrap(), position(2, 0, 10, 30, false, start_time_2));
    assert_eq!(query_nft_info(&campaign, 3).unwrap(), position(3, 0, 10, 30, false, start_time_3));

    // increase 9 second
    now += 9;

    // stake nft token_id 4
    let start_time_4 = now;
    stake(&mut campaign, now, "4", 30);

    assert_eq!(
        query_nft_info(&campaign, 1).unwrap(),
        position(1, 12000, 10, 30, true, start_time_1)
    );
    assert_eq!(
        query_nft_info(&campaign, 2).unwrap(),
        position(2, 9000, 10, 30, false, start_time_2)
    );
    assert_eq!(
        query_nft_info(&campaign, 3).unwrap(),
        position(3, 9000, 10, 30, false, start_time_3)
    );
    assert_eq!(query_nft_info(&campaign, 4).unwrap(), position(4, 0, 30, 70, false, start_time_4));

    // token_id 1 = 12000, token_id 2 = 9000, token_id 3 = 9000, token_id 4 = 0
    let total_pending_reward =
        query_total_pending_reward(&campaign, &env_at(now, CAMPAIGN)).unwrap();
    assert_eq!(total_pending_reward, 30000);

    // increase 10 second to query staker info
    now += 10;

    let staker_info =
        query_staker_info(&campaign, &env_at(now, CAMPAIGN), &ADMIN.to_string()).unwrap();
    assert_eq!(
        staker_info,
        StakedInfoResult {
            nfts: vec![
                position(1, 12000, 10, 30, true, start_time_1),
                position(2, 10500, 10, 30, true, start_time_2),
                position(3, 10500, 10, 30, true, start_time_3),
                position(4, 70000, 30, 70, false, start_time_4),
            ],
            reward_debt: 103000,
            reward_claimed: 0,
        }
    );

    // token_id 1 = 12000, token_id 2 = 10500, token_id 3 = 10500, token_id 4 = 70000
    let total_pending_reward =
        query_total_pending_reward(&campaign, &env_at(now, CAMPAIGN)).unwrap();
    assert_eq!(total_pending_reward, 103000);

    // claim reward
    let response = execute_claim_reward(
        &mut campaign,
        &env_at(now, CAMPAIGN),
        &sender(ADMIN),
        100000,
        Some(MOCK_1000_TOKEN_AMOUNT),
    );
    assert!(response.is_ok());
    assert_eq!(
        response.unwrap().messages,
        vec![Message::TokenTransfer {
            contract_addr: TOKEN.to_string(),
            recipient: ADMIN.to_string(),
            amount: 100000,
        }]
    );

    let staker_info =
        query_staker_info(&campaign, &env_at(now, CAMPAIGN), &ADMIN.to_string()).unwrap();
    assert_eq!(
        staker_info,
        StakedInfoResult {
            nfts: vec![
                position(1, 0, 10, 30, true, start_time_1),
                position(2, 0, 10, 30, true, start_time_2),
                position(3, 0, 10, 30, true, start_time_3),
                position(4, 0, 30, 70, false, start_time_4),
            ],
            reward_debt: 3000,
            reward_claimed: 100000,
        }
    );

    // total claimed = 100000
    let total_pending_reward =
        query_total_pending_reward(&campaign, &env_at(now, CAMPAIGN)).unwrap();
    assert_eq!(total_pending_reward, 3000);
}

#[test]
fn test_instantiate() {
    let time = GENESIS;

    // valid instantiation with valid parameters
    let init_msg = get_init_msg(
        "creator",
        "Campaign 1",
        "This is a sample campaign",
        time,
        time + 86400, // 1 day after start time
    );
    let res = instantiate(init_msg);

    // Assert the result
    assert!(res.is_ok());
    let (campaign, response) = res.unwrap();
    assert_eq!(response.attributes.len(), 11); // Check the number of emitted attributes
    assert_eq!(campaign.info.owner, "creator");
    assert_eq!(campaign.info.campaign_name, "Campaign 1");
    assert_eq!(campaign.info.start_time, time);
    assert_eq!(campaign.info.end_time, time + 86400);
    assert!(campaign.nfts.is_empty());

    // invalid instantiation with end time greater than max allowed duration (3 years)
    let init_msg_invalid_duration = get_init_msg(
        "creator",
        "Campaign 2",
        "This campaign has an invalid duration",
        time,
        time + 94608001, // 3 years and 1 second after start time
    );
    let res_invalid_duration = instantiate(init_msg_invalid_duration);
    assert!(res_invalid_duration.is_err());
    match res_invalid_duration.unwrap_err() {
        ContractError::LimitStartDate {} => {}
        _ => panic!("unexpected error"),
    }

    // invalid instantiation with campaign name exceeding character limit
    let init_msg_invalid_name = get_init_msg(
        "creator",
        &"A".repeat(101), // 101 characters long name (exceeding the limit of 100)
        "This campaign has an invalid name",
        time,
        time + 86400,
    );
    let res_invalid_name = instantiate(init_msg_invalid_name);
    assert!(res_invalid_name.is_err());
    match res_invalid_name.unwrap_err() {
        ContractError::LimitCharacter {} => {}
        _ => panic!("unexpected error"),
    }

    // invalid instantiation with campaign description exceeding character limit
    let init_msg_invalid_description = get_init_msg(
        "creator",
        "Campaign 3",
        &"A".repeat(501), // 501 characters long description (exceeding the limit of 500)
        time,
        time + 86400,
    );
    let res_invalid_description = instantiate(init_msg_invalid_description);
    assert!(res_invalid_description.is_err());
    match res_invalid_description.unwrap_err() {
        ContractError::LimitCharacter {} => {}
        _ => panic!("unexpected error"),
    }
}

#[test]
fn test_execute_add_reward_token() {
    let time = GENESIS;
    let (mut campaign, response) =
        instantiate(get_init_msg("creator", "test", "campaign_description", time, time + 86400))
            .unwrap();
    assert_eq!(response.attributes.len(), 11);
    let response = execute_add_reward_token(
        &mut campaign,
        &env_at(time, CAMPAIGN),
        &sender("creator"),
        500,
        Some(500),
    );
    assert!(response.is_ok());
    assert_eq!(response.unwrap().messages.len(), 1);
    assert_eq!(campaign.info.reward_token_info.amount, 500);
    assert_eq!(campaign.info.total_reward, 500);
}
