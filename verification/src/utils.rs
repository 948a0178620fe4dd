//! The share of one position in the reward of a time slice, and the
//! counting of token ids.

use crate::state::{nfts_view, NftInfo, NftInfoView};
use vstd::prelude::*;

verus! {

/// The share of one position in the reward of a time slice, as a number:
/// `seconds * reward_per_second * percent`, divided by 100 and then by the
/// number of positions that share it, each division rounding down.
pub open spec fn slice_reward(
    seconds: int,
    reward_per_second: int,
    percent: int,
    nft_count: int,
) -> int {
    if nft_count > 0 {
        ((seconds * reward_per_second * percent) / 100) / nft_count
    } else {
        0
    }
}

/// Whether both products of [`slice_reward`] can be held in 128 bits.
pub open spec fn slice_fits(seconds: int, reward_per_second: int, percent: int) -> bool {
    &&& seconds * reward_per_second <= u128::MAX
    &&& seconds * reward_per_second * percent <= u128::MAX
}

/// Reward of one position for the time from `start_time` to `end_time`, when
/// `nft_count` positions share `percent` percent of `reward_per_second`.
pub fn calc_reward_in_time(
    start_time: u64,
    end_time: u64,
    reward_per_second: u128,
    percent: u128,
    nft_count: u128,
) -> (reward: u128)
    requires
        start_time <= end_time,
        nft_count > 0,
        slice_fits(end_time - start_time, reward_per_second as int, percent as int),
    ensures
        reward == slice_reward(
            end_time - start_time,
            reward_per_second as int,
            percent as int,
            nft_count as int,
        ),
{
    let seconds: u64 = end_time - start_time;
    let reward: u128 = (seconds as u128) * reward_per_second * percent / 100 / nft_count;
    reward
}

/// [`calc_reward_in_time`] for any arguments: `None` when the interval is
/// reversed, when nobody shares the reward, or when a product does not fit.
pub fn checked_reward_in_time(
    start_time: u64,
    end_time: u64,
    reward_per_second: u128,
    percent: u128,
    nft_count: u128,
) -> (reward: Option<u128>)
    ensures
        reward.is_some() <==> (start_time <= end_time && nft_count > 0 && slice_fits(
            end_time - start_time,
            reward_per_second as int,
            percent as int,
        )),
        reward matches Some(r) ==> r == slice_reward(
            end_time - start_time,
            reward_per_second as int,
            percent as int,
            nft_count as int,
        ),
{
    if start_time > end_time || nft_count == 0 {
        return None;
    }
    let seconds: u64 = end_time - start_time;
    match (seconds as u128).checked_mul(reward_per_second) {
        None => None,
        Some(per_slice) => match per_slice.checked_mul(percent) {
            None => None,
            Some(_) => Some(
                calc_reward_in_time(start_time, end_time, reward_per_second, percent, nft_count),
            ),
        },
    }
}

/// The token ids of a list of positions, in its order.
pub open spec fn token_ids(nfts: Seq<NftInfoView>) -> Seq<Seq<char>> {
    nfts.map_values(|n: NftInfoView| n.token_id)
}

/// Number of different token ids among the positions.
pub fn count_unique_values(nft_infos: Vec<NftInfo>) -> (count: usize)
    ensures
        count == token_ids(nfts_view(nft_infos@)).to_set().len(),
{
    let ghost ids = token_ids(nfts_view(nft_infos@));
    let mut firsts: Vec<usize> = Vec::new();
    let ghost mut seen: Seq<Seq<char>> = Seq::empty();
    let mut i: usize = 0;
    while i < nft_infos.len()
        invariant
            i <= nft_infos.len(),
            ids == token_ids(nfts_view(nft_infos@)),
            firsts@.len() == seen.len(),
            seen.len() <= i,
            forall|k: int| 0 <= k < firsts@.len() ==> (#[trigger] firsts@[k]) < i,
            forall|k: int| 0 <= k < seen.len() ==> #[trigger] seen[k] == ids[firsts@[k] as int],
            seen.no_duplicates(),
            forall|x: Seq<char>| #[trigger]
                seen.contains(x) <==> ids.subrange(0, i as int).contains(x),
        decreases nft_infos.len() - i,
    {
        let mut known = false;
        let mut k: usize = 0;
        while k < firsts.len()
            invariant
                k <= firsts.len(),
                i < nft_infos.len(),
                ids == token_ids(nfts_view(nft_infos@)),
                firsts@.len() == seen.len(),
                forall|j: int| 0 <= j < firsts@.len() ==> (#[trigger] firsts@[j]) < i,
                forall|j: int| 0 <= j < seen.len() ==> #[trigger] seen[j] == ids[firsts@[j] as int],
                known <==> exists|j: int| 0 <= j < k && seen[j] == ids[i as int],
            decreases firsts.len() - k,
        {
            proof {
                assert(seen[k as int] == ids[firsts@[k as int] as int]);
                let first = firsts@[k as int] as int;
                assert(ids[first] == nft_infos@[first].token_id@);
                assert(ids[i as int] == nft_infos@[i as int].token_id@);
            }
            if nft_infos[firsts[k]].token_id == nft_infos[i].token_id {
                known = true;
            }
            k += 1;
        }
        proof {
            let before = ids.subrange(0, i as int);
            let after = ids.subrange(0, i + 1);
            let id = ids[i as int];
            assert(known <==> seen.contains(id));
            assert(after =~= before.push(id));
            assert forall|x: Seq<char>| #[trigger]
                after.contains(x) <==> (before.contains(x) || x == id) by {
                if after.contains(x) {
                    let j = choose|j: int| 0 <= j < after.len() && after[j] == x;
                    if j < before.len() {
                        assert(before[j] == x);
                    }
                }
                if before.contains(x) {
                    let j = choose|j: int| 0 <= j < before.len() && before[j] == x;
                    assert(after[j] == x);
                }
                if x == id {
                    assert(after[i as int] == x);
                }
            }
        }
        if !known {
            let ghost old_seen = seen;
            firsts.push(i);
            proof {
                seen = old_seen.push(ids[i as int]);
                assert forall|x: Seq<char>| #[trigger]
                    seen.contains(x) <==> (old_seen.contains(x) || x == ids[i as int]) by {
                    if seen.contains(x) {
                        let j = choose|j: int| 0 <= j < seen.len() && seen[j] == x;
                        if j < old_seen.len() {
                            assert(old_seen[j] == x);
                        }
                    }
                    if old_seen.contains(x) {
                        let j = choose|j: int| 0 <= j < old_seen.len() && old_seen[j] == x;
                        assert(seen[j] == x);
                    }
                    if x == ids[i as int] {
                        assert(seen[old_seen.len() as int] == x);
                    }
                }
                assert forall|a: int, b: int|
                    0 <= a < seen.len() && 0 <= b < seen.len() && a != b implies seen[a]
                    != seen[b] by {
                    if a < old_seen.len() {
                        assert(old_seen.contains(old_seen[a]));
                    }
                    if b < old_seen.len() {
                        assert(old_seen.contains(old_seen[b]));
                    }
                }
            }
        }
        i += 1;
    }
    proof {
        assert(ids.subrange(0, i as int) =~= ids);
        assert(seen.to_set() =~= ids.to_set());
        seen.unique_seq_to_set();
    }
    firsts.len()
}

} // verus!
