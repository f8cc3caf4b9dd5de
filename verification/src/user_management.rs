//! User profiles: opening and changing them, reputation, and the lists of what
//! each user owns.

use vstd::prelude::*;
use vstd::seq_lib::*;
use vstd::string::*;

use crate::identity::{anonymous_bytes, Identity};
use crate::storage::{MarketState, MarketView};
use crate::types::{
    view_result, CreateUserRequest, CreateUserRequestView, IPMarketplaceError,
    UpdateUserRequest, UpdateUserRequestView, UserProfile, UserProfileView,
};

verus! {

/// What is true of every identifier but `id`.
pub open spec fn other_than(id: Seq<char>) -> spec_fn(Seq<char>) -> bool {
    |x: Seq<char>| x != id
}

/// The list `owned` without any occurrence of `id`.
pub open spec fn without_id(owned: Seq<Seq<char>>, id: Seq<char>) -> Seq<Seq<char>> {
    owned.filter(other_than(id))
}

/// Taking an identifier out of a list goes entry by entry: the last entry stays
/// unless it is the identifier.
pub proof fn lemma_without_id_step(owned: Seq<Seq<char>>, last: Seq<char>, id: Seq<char>)
    ensures
        without_id(Seq::empty(), id) == Seq::<Seq<char>>::empty(),
        without_id(owned.push(last), id) == if last != id {
            without_id(owned, id).push(last)
        } else {
            without_id(owned, id)
        },
{
    owned.lemma_filter_push(last, other_than(id));
    assert(Seq::<Seq<char>>::empty().filter(other_than(id)) =~= Seq::empty()) by {
        reveal(Seq::filter);
    }
}

/// What a list holds after an identifier was taken out of it: not that
/// identifier, and every other identifier that it held.
pub proof fn lemma_without_id_holds(owned: Seq<Seq<char>>, id: Seq<char>, x: Seq<char>)
    ensures
        !without_id(owned, id).contains(id),
        x != id ==> without_id(owned, id).contains(x) == owned.contains(x),
{
    let keep = other_than(id);
    let kept = owned.filter(keep);
    if kept.contains(id) {
        let i = choose|i: int| 0 <= i < kept.len() && kept[i] == id;
        owned.lemma_filter_pred(keep, i);
    }
    if x != id {
        if owned.contains(x) {
            let i = choose|i: int| 0 <= i < owned.len() && owned[i] == x;
            owned.lemma_filter_contains(keep, i);
        }
        if kept.contains(x) {
            owned.lemma_filter_contains_rev(keep, x);
        }
    }
}

/// What a list holds after an identifier was put into it: that identifier, and
/// every other identifier that it held.
pub proof fn lemma_with_id_holds(owned: Seq<Seq<char>>, id: Seq<char>, x: Seq<char>)
    ensures
        with_id(owned, id).contains(id),
        x != id ==> with_id(owned, id).contains(x) == owned.contains(x),
{
    if !owned.contains(id) {
        let grown = owned.push(id);
        assert(grown[owned.len() as int] == id);
        if owned.contains(x) {
            let i = choose|i: int| 0 <= i < owned.len() && owned[i] == x;
            assert(grown[i] == x);
        }
        if grown.contains(x) && x != id {
            let i = choose|i: int| 0 <= i < grown.len() && grown[i] == x;
            assert(owned[i] == x);
        }
    }
}

/// The list `owned` with `id` in it: at the end, unless it is there already.
pub open spec fn with_id(owned: Seq<Seq<char>>, id: Seq<char>) -> Seq<Seq<char>> {
    if owned.contains(id) {
        owned
    } else {
        owned.push(id)
    }
}

/// Whether the list holds `id`.
pub fn holds_id(owned: &Vec<String>, id: &String) -> (r: bool)
    ensures
        r == owned.deep_view().contains(id@),
{
    let mut i: usize = 0;
    while i < owned.len()
        invariant
            i <= owned@.len(),
            forall|j: int| 0 <= j < i ==> owned.deep_view()[j] != id@,
        decreases owned@.len() - i,
    {
        if owned[i] == *id {
            assert(owned.deep_view()[i as int] == id@);
            return true;
        }
        i += 1;
    }
    false
}

/// Takes every occurrence of `id` out of the list.
pub fn drop_id(owned: &mut Vec<String>, id: &String)
    ensures
        final(owned).deep_view() == without_id(old(owned).deep_view(), id@),
{
    let ghost before = owned.deep_view();
    let ghost keep = other_than(id@);
    let mut all: Vec<String> = Vec::new();
    std::mem::swap(owned, &mut all);
    let mut kept: Vec<String> = Vec::new();
    let mut i: usize = 0;
    assert(before.take(0) =~= Seq::empty());
    assert(before.take(0).filter(keep) =~= Seq::empty()) by {
        reveal(Seq::filter);
    }
    while i < all.len()
        invariant
            i <= all@.len(),
            all.deep_view() == before,
            keep == other_than(id@),
            kept.deep_view() == before.take(i as int).filter(keep),
        decreases all@.len() - i,
    {
        proof {
            before.lemma_take_succ_push(i as int);
            before.take(i as int).lemma_filter_push(before[i as int], keep);
        }
        if all[i] != *id {
            let ghost was = kept.deep_view();
            kept.push(all[i].clone());
            assert(kept.deep_view() =~= was.push(before[i as int]));
        }
        i += 1;
    }
    assert(before.take(i as int) =~= before);
    *owned = kept;
}

/// Puts `id` into the list, at the end, unless it is there already.
pub fn keep_id(owned: &mut Vec<String>, id: String)
    ensures
        final(owned).deep_view() == with_id(old(owned).deep_view(), id@),
{
    if !holds_id(owned, &id) {
        let ghost was = owned.deep_view();
        owned.push(id);
        assert(owned.deep_view() =~= was.push(id@));
    }
}

/// The profiles after `user` was given the token `nft_id`. Without a profile nothing changes.
pub open spec fn users_with_nft(
    users: Map<Seq<u8>, UserProfileView>,
    user: Seq<u8>,
    nft_id: Seq<char>,
) -> Map<Seq<u8>, UserProfileView> {
    if users.contains_key(user) {
        users.insert(
            user,
            UserProfileView { owned_nfts: with_id(users[user].owned_nfts, nft_id), ..users[user] },
        )
    } else {
        users
    }
}

/// The profiles after the token `nft_id` was taken from `user`. Without a profile nothing changes.
pub open spec fn users_without_nft(
    users: Map<Seq<u8>, UserProfileView>,
    user: Seq<u8>,
    nft_id: Seq<char>,
) -> Map<Seq<u8>, UserProfileView> {
    if users.contains_key(user) {
        users.insert(
            user,
            UserProfileView {
                owned_nfts: without_id(users[user].owned_nfts, nft_id),
                ..users[user]
            },
        )
    } else {
        users
    }
}

/// The profiles after `user` was given the work `ip_id`. Without a profile nothing changes.
pub open spec fn users_with_ip(
    users: Map<Seq<u8>, UserProfileView>,
    user: Seq<u8>,
    ip_id: Seq<char>,
) -> Map<Seq<u8>, UserProfileView> {
    if users.contains_key(user) {
        users.insert(
            user,
            UserProfileView { owned_ips: with_id(users[user].owned_ips, ip_id), ..users[user] },
        )
    } else {
        users
    }
}

/// The profiles after the work `ip_id` was taken from `user`. Without a profile nothing changes.
pub open spec fn users_without_ip(
    users: Map<Seq<u8>, UserProfileView>,
    user: Seq<u8>,
    ip_id: Seq<char>,
) -> Map<Seq<u8>, UserProfileView> {
    if users.contains_key(user) {
        users.insert(
            user,
            UserProfileView { owned_ips: without_id(users[user].owned_ips, ip_id), ..users[user] },
        )
    } else {
        users
    }
}

/// The profiles after `user` sold for `sales_amount` and bought for
/// `purchases_amount`. Without a profile nothing changes.
pub open spec fn users_credited(
    users: Map<Seq<u8>, UserProfileView>,
    user: Seq<u8>,
    sales_amount: u64,
    purchases_amount: u64,
) -> Map<Seq<u8>, UserProfileView> {
    if users.contains_key(user) {
        users.insert(
            user,
            UserProfileView {
                total_sales: (users[user].total_sales + sales_amount) as u64,
                total_purchases: (users[user].total_purchases + purchases_amount) as u64,
                ..users[user]
            },
        )
    } else {
        users
    }
}

/// Whether the totals of `user` have room for the two amounts.
pub open spec fn credit_fits(
    users: Map<Seq<u8>, UserProfileView>,
    user: Seq<u8>,
    sales_amount: u64,
    purchases_amount: u64,
) -> bool {
    users.contains_key(user) ==> users[user].total_sales + sales_amount <= u64::MAX
        && users[user].total_purchases + purchases_amount <= u64::MAX
}

/// The state with other profiles.
pub open spec fn with_users(s: MarketView, users: Map<Seq<u8>, UserProfileView>) -> MarketView {
    MarketView { users, ..s }
}

/// Whether the totals of `user` have room for the two amounts.
pub fn credit_has_room(
    state: &MarketState,
    user: &Identity,
    sales_amount: u64,
    purchases_amount: u64,
) -> (r: bool)
    ensures
        r == credit_fits(state@.users, user@, sales_amount, purchases_amount),
{
    match state.users.get(user) {
        Some(profile) => sales_amount <= u64::MAX - profile.total_sales && purchases_amount
            <= u64::MAX - profile.total_purchases,
        None => true,
    }
}

/// Adds to what `user` has sold and bought in total. A user without a profile is passed over.
pub fn update_user_sales_stats(
    state: &mut MarketState,
    user: &Identity,
    sales_amount: u64,
    purchases_amount: u64,
)
    requires
        credit_fits(old(state)@.users, user@, sales_amount, purchases_amount),
    ensures
        final(state)@ == with_users(
            old(state)@,
            users_credited(old(state)@.users, user@, sales_amount, purchases_amount),
        ),
{
    let found = match state.users.get(user) {
        Some(profile) => Some(profile.clone()),
        None => None,
    };
    match found {
        Some(mut profile) => {
            profile.total_sales = profile.total_sales + sales_amount;
            profile.total_purchases = profile.total_purchases + purchases_amount;
            state.users.insert(user.clone(), profile);
        },
        None => {},
    }
}

/// Puts the token into the list of what `user` owns, unless it is there. A user
/// without a profile is passed over.
pub fn add_nft_to_user(state: &mut MarketState, user: &Identity, nft_id: String)
    ensures
        final(state)@ == with_users(
            old(state)@,
            users_with_nft(old(state)@.users, user@, nft_id@),
        ),
{
    let found = match state.users.get(user) {
        Some(profile) => Some(profile.clone()),
        None => None,
    };
    match found {
        Some(mut profile) => {
            keep_id(&mut profile.owned_nfts, nft_id);
            state.users.insert(user.clone(), profile);
        },
        None => {},
    }
}

/// Takes the token out of the list of what `user` owns. A user without a profile
/// is passed over.
pub fn remove_nft_from_user(state: &mut MarketState, user: &Identity, nft_id: &String)
    ensures
        final(state)@ == with_users(
            old(state)@,
            users_without_nft(old(state)@.users, user@, nft_id@),
        ),
{
    let found = match state.users.get(user) {
        Some(profile) => Some(profile.clone()),
        None => None,
    };
    match found {
        Some(mut profile) => {
            drop_id(&mut profile.owned_nfts, nft_id);
            state.users.insert(user.clone(), profile);
        },
        None => {},
    }
}

/// Puts the work into the list of what `user` owns, unless it is there. A user
/// without a profile is passed over.
pub fn add_ip_to_user(state: &mut MarketState, user: &Identity, ip_id: String)
    ensures
        final(state)@ == with_users(old(state)@, users_with_ip(old(state)@.users, user@, ip_id@)),
{
    let found = match state.users.get(user) {
        Some(profile) => Some(profile.clone()),
        None => None,
    };
    match found {
        Some(mut profile) => {
            keep_id(&mut profile.owned_ips, ip_id);
            state.users.insert(user.clone(), profile);
        },
        None => {},
    }
}

/// Takes the work out of the list of what `user` owns. A user without a profile
/// is passed over.
pub fn remove_ip_from_user(state: &mut MarketState, user: &Identity, ip_id: &String)
    ensures
        final(state)@ == with_users(
            old(state)@,
            users_without_ip(old(state)@.users, user@, ip_id@),
        ),
{
    let found = match state.users.get(user) {
        Some(profile) => Some(profile.clone()),
        None => None,
    };
    match found {
        Some(mut profile) => {
            drop_id(&mut profile.owned_ips, ip_id);
            state.users.insert(user.clone(), profile);
        },
        None => {},
    }
}

/// The profile that `caller` opens at `now`: nothing owned, nothing sold or
/// bought, no reputation, not verified.
pub open spec fn opened_profile(caller: Seq<u8>, now: u64, req: CreateUserRequestView) -> UserProfileView {
    UserProfileView {
        principal: caller,
        username: req.username,
        email: req.email,
        bio: req.bio,
        reputation_score: 0,
        verified: false,
        created_at: now,
        owned_ips: Seq::empty(),
        owned_nfts: Seq::empty(),
        avatar_url: req.avatar_url,
        banner_url: req.banner_url,
        social_links: req.social_links,
        total_sales: 0,
        total_purchases: 0,
    }
}

/// What opening a profile hands back: the profile, or `AlreadyExists` where the
/// caller has one.
pub open spec fn create_user_outcome(
    s: MarketView,
    caller: Seq<u8>,
    now: u64,
    req: CreateUserRequestView,
) -> Result<UserProfileView, IPMarketplaceError> {
    if s.users.contains_key(caller) {
        Err(IPMarketplaceError::AlreadyExists)
    } else {
        Ok(opened_profile(caller, now, req))
    }
}

/// The state after a profile was asked for.
pub open spec fn create_user_state(
    s: MarketView,
    caller: Seq<u8>,
    now: u64,
    req: CreateUserRequestView,
) -> MarketView {
    if s.users.contains_key(caller) {
        s
    } else {
        with_users(s, s.users.insert(caller, opened_profile(caller, now, req)))
    }
}

/// Opens the caller's profile. A caller opens a profile once.
pub fn create_user_profile(
    state: &mut MarketState,
    caller: &Identity,
    now: u64,
    request: CreateUserRequest,
) -> (r: Result<UserProfile, IPMarketplaceError>)
    ensures
        view_result(r) == create_user_outcome(old(state)@, caller@, now, request@),
        final(state)@ == create_user_state(old(state)@, caller@, now, request@),
{
    if state.users.contains_key(caller) {
        return Err(IPMarketplaceError::AlreadyExists);
    }
    let user = UserProfile {
        principal: caller.clone(),
        username: request.username,
        email: request.email,
        bio: request.bio,
        reputation_score: 0,
        verified: false,
        created_at: now,
        owned_ips: Vec::new(),
        owned_nfts: Vec::new(),
        avatar_url: request.avatar_url,
        banner_url: request.banner_url,
        social_links: request.social_links,
        total_sales: 0,
        total_purchases: 0,
    };
    assert(user.owned_ips.deep_view() =~= Seq::empty());
    assert(user.owned_nfts.deep_view() =~= Seq::empty());
    state.users.insert(caller.clone(), user.clone());
    Ok(user)
}

/// What looking up a profile hands back.
pub open spec fn profile_of(s: MarketView, user: Seq<u8>) -> Result<
    UserProfileView,
    IPMarketplaceError,
> {
    if s.users.contains_key(user) {
        Ok(s.users[user])
    } else {
        Err(IPMarketplaceError::NotFound)
    }
}

/// The profile of `user`.
pub fn get_user_profile(state: &MarketState, user: &Identity) -> (r: Result<
    UserProfile,
    IPMarketplaceError,
>)
    ensures
        view_result(r) == profile_of(state@, user@),
{
    match state.users.get(user) {
        Some(profile) => Ok(profile.clone()),
        None => Err(IPMarketplaceError::NotFound),
    }
}

/// The caller's own profile.
pub fn get_my_profile(state: &MarketState, caller: &Identity) -> (r: Result<
    UserProfile,
    IPMarketplaceError,
>)
    ensures
        view_result(r) == profile_of(state@, caller@),
{
    get_user_profile(state, caller)
}

/// The caller, as the operation was handed it.
pub fn whoami(caller: &Identity) -> (r: Identity)
    ensures
        r@ == caller@,
{
    caller.clone()
}

/// A reputation after a change: the sum, and 0 where the sum would be below 0.
pub open spec fn adjusted_reputation(score: u32, change: i32) -> int {
    if score + change < 0 {
        0
    } else {
        score + change
    }
}

/// A reputation never falls below 0, however large the loss, and a loss never raises it.
pub proof fn lemma_reputation_floor(score: u32, change: i32)
    ensures
        adjusted_reputation(score, change) >= 0,
        change <= 0 ==> adjusted_reputation(score, change) <= score,
        score + change < 0 ==> adjusted_reputation(score, change) == 0,
        score + change >= 0 ==> adjusted_reputation(score, change) == score + change,
{
}

/// The reputation `score` after `change`.
pub fn adjust_reputation(score: u32, change: i32) -> (r: u32)
    requires
        score + change <= u32::MAX,
    ensures
        r == adjusted_reputation(score, change),
{
    let sum: i64 = score as i64 + change as i64;
    if sum < 0 {
        0
    } else {
        sum as u32
    }
}

/// Whether the reputation of `user` has room for `change`.
pub open spec fn reputation_fits(s: MarketView, user: Seq<u8>, change: i32) -> bool {
    s.users.contains_key(user) ==> s.users[user].reputation_score + change <= u32::MAX
}

/// What a change of reputation hands back: the new score, or `NotFound` where
/// `user` has no profile.
pub open spec fn reputation_outcome(s: MarketView, user: Seq<u8>, change: i32) -> Result<
    u32,
    IPMarketplaceError,
> {
    if s.users.contains_key(user) {
        Ok(adjusted_reputation(s.users[user].reputation_score, change) as u32)
    } else {
        Err(IPMarketplaceError::NotFound)
    }
}

/// The state after a change of reputation.
pub open spec fn reputation_state(s: MarketView, user: Seq<u8>, change: i32) -> MarketView {
    if s.users.contains_key(user) {
        with_users(
            s,
            s.users.insert(
                user,
                UserProfileView {
                    reputation_score: adjusted_reputation(
                        s.users[user].reputation_score,
                        change,
                    ) as u32,
                    ..s.users[user]
                },
            ),
        )
    } else {
        s
    }
}

/// Whether the reputation of `user` has room for `change`.
pub fn reputation_has_room(state: &MarketState, user: &Identity, change: i32) -> (r: bool)
    ensures
        r == reputation_fits(state@, user@, change),
{
    match state.users.get(user) {
        Some(profile) => profile.reputation_score as i64 + change as i64 <= u32::MAX as i64,
        None => true,
    }
}

/// Changes the reputation of `user` by `score_change`, not below 0.
pub fn update_user_reputation(state: &mut MarketState, user: &Identity, score_change: i32) -> (r:
    Result<u32, IPMarketplaceError>)
    requires
        reputation_fits(old(state)@, user@, score_change),
    ensures
        r == reputation_outcome(old(state)@, user@, score_change),
        final(state)@ == reputation_state(old(state)@, user@, score_change),
{
    let found = match state.users.get(user) {
        Some(profile) => Some(profile.clone()),
        None => None,
    };
    match found {
        Some(mut profile) => {
            profile.reputation_score = adjust_reputation(profile.reputation_score, score_change);
            let new_score = profile.reputation_score;
            state.users.insert(user.clone(), profile);
            Ok(new_score)
        },
        None => Err(IPMarketplaceError::NotFound),
    }
}

/// A profile after the changes that `req` asks for. A field that `req` leaves
/// out stays; a field that it gives is set, and cannot be cleared this way.
pub open spec fn updated_profile(p: UserProfileView, req: UpdateUserRequestView) -> UserProfileView {
    UserProfileView {
        username: match req.username {
            Some(v) => v,
            None => p.username,
        },
        email: match req.email {
            Some(v) => Some(v),
            None => p.email,
        },
        bio: match req.bio {
            Some(v) => Some(v),
            None => p.bio,
        },
        avatar_url: match req.avatar_url {
            Some(v) => Some(v),
            None => p.avatar_url,
        },
        banner_url: match req.banner_url {
            Some(v) => Some(v),
            None => p.banner_url,
        },
        social_links: match req.social_links {
            Some(v) => v,
            None => p.social_links,
        },
        ..p
    }
}

/// What a change of profile hands back: the changed profile, or `NotFound`
/// where the caller has none.
pub open spec fn update_profile_outcome(
    s: MarketView,
    caller: Seq<u8>,
    req: UpdateUserRequestView,
) -> Result<UserProfileView, IPMarketplaceError> {
    if s.users.contains_key(caller) {
        Ok(updated_profile(s.users[caller], req))
    } else {
        Err(IPMarketplaceError::NotFound)
    }
}

/// The state after a change of profile.
pub open spec fn update_profile_state(
    s: MarketView,
    caller: Seq<u8>,
    req: UpdateUserRequestView,
) -> MarketView {
    if s.users.contains_key(caller) {
        with_users(s, s.users.insert(caller, updated_profile(s.users[caller], req)))
    } else {
        s
    }
}

/// Changes the caller's profile in the fields that the request gives.
pub fn update_user_profile(state: &mut MarketState, caller: &Identity, request: UpdateUserRequest) -> (r:
    Result<UserProfile, IPMarketplaceError>)
    ensures
        view_result(r) == update_profile_outcome(old(state)@, caller@, request@),
        final(state)@ == update_profile_state(old(state)@, caller@, request@),
{
    let found = match state.users.get(caller) {
        Some(profile) => Some(profile.clone()),
        None => None,
    };
    match found {
        Some(mut profile) => {
            let ghost before = profile@;
            match request.username {
                Some(username) => {
                    profile.username = username;
                },
                None => {},
            }
            match request.email {
                Some(email) => {
                    profile.email = Some(email);
                },
                None => {},
            }
            match request.bio {
                Some(bio) => {
                    profile.bio = Some(bio);
                },
                None => {},
            }
            match request.avatar_url {
                Some(avatar_url) => {
                    profile.avatar_url = Some(avatar_url);
                },
                None => {},
            }
            match request.banner_url {
                Some(banner_url) => {
                    profile.banner_url = Some(banner_url);
                },
                None => {},
            }
            match request.social_links {
                Some(social_links) => {
                    profile.social_links = social_links;
                },
                None => {},
            }
            assert(profile@ == updated_profile(before, request@));
            state.users.insert(caller.clone(), profile.clone());
            Ok(profile)
        },
        None => Err(IPMarketplaceError::NotFound),
    }
}

/// The profile that stands in for a stored profile that cannot be read.
pub open spec fn unknown_profile() -> UserProfileView {
    UserProfileView {
        principal: anonymous_bytes(),
        username: "unknown"@,
        email: None,
        bio: None,
        reputation_score: 0,
        verified: false,
        created_at: 0,
        owned_ips: Seq::empty(),
        owned_nfts: Seq::empty(),
        avatar_url: None,
        banner_url: None,
        social_links: Seq::empty(),
        total_sales: 0,
        total_purchases: 0,
    }
}

/// The profile that stands in for a stored profile that cannot be read: the
/// anonymous identity under the name `unknown`, with nothing owned.
pub fn unknown_user_profile() -> (r: UserProfile)
    ensures
        r@ == unknown_profile(),
{
    let r = UserProfile {
        principal: Identity::anonymous(),
        username: String::from_str("unknown"),
        email: None,
        bio: None,
        reputation_score: 0,
        verified: false,
        created_at: 0,
        owned_ips: Vec::new(),
        owned_nfts: Vec::new(),
        avatar_url: None,
        banner_url: None,
        social_links: Vec::new(),
        total_sales: 0,
        total_purchases: 0,
    };
    assert(r.owned_ips.deep_view() =~= Seq::empty());
    assert(r.owned_nfts.deep_view() =~= Seq::empty());
    assert(r.social_links.deep_view() =~= Seq::empty());
    r
}

/// A stored profile as it was read, or the stand-in where it could not be read.
pub fn profile_or_unknown(read: Option<UserProfile>) -> (r: UserProfile)
    ensures
        r@ == match read {
            Some(p) => p@,
            None => unknown_profile(),
        },
{
    match read {
        Some(p) => p,
        None => unknown_user_profile(),
    }
}

} // verus!
