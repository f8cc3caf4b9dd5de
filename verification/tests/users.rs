use ic_stable_structures::{StableBTreeMap, VectorMemory};
use ip_market_backend::identity::Identity;
use ip_market_backend::storage::MarketState;
use ip_market_backend::types::{
    CreateUserRequest, IPMarketplaceError, SocialLink, UpdateUserRequest, UserProfile,
};
use ip_market_backend::user_management::{
    add_ip_to_user, add_nft_to_user, adjust_reputation, create_user_profile, credit_has_room,
    drop_id, get_my_profile, get_user_profile, holds_id, keep_id, profile_or_unknown,
    remove_ip_from_user, remove_nft_from_user, reputation_has_room, unknown_user_profile,
    update_user_profile, update_user_reputation, update_user_sales_stats, whoami,
};
use ip_market_backend::user_registry::UserRegistry;

fn user(n: u8) -> Identity {
    Identity::from_slice(&[9, n]).unwrap()
}

fn create_request(name: &str) -> CreateUserRequest {
    CreateUserRequest {
        bio: Some("bio".to_string()),
        username: name.to_string(),
        banner_url: Some("https://example.com/banner".to_string()),
        avatar_url: None,
        email: Some("a@example.com".to_string()),
        social_links: vec![SocialLink { url: "https://x".to_string(), platform: "x".to_string() }],
    }
}

fn no_change() -> UpdateUserRequest {
    UpdateUserRequest {
        username: None,
        email: None,
        bio: None,
        avatar_url: None,
        banner_url: None,
        social_links: None,
    }
}

fn profile(state: &MarketState, who: &Identity) -> UserProfile {
    get_user_profile(state, who).unwrap()
}

fn strings(items: &[&str]) -> Vec<String> {
    items.iter().map(|s| s.to_string()).collect()
}

#[test]
fn create_profile() {
    let mut state = MarketState::new();
    let alice = user(1);
    let made = create_user_profile(&mut state, &alice, 77, create_request("alice")).unwrap();
    assert_eq!(made.principal, alice);
    assert_eq!(made.username, "alice");
    assert_eq!(made.email.as_deref(), Some("a@example.com"));
    assert_eq!(made.bio.as_deref(), Some("bio"));
    assert_eq!(made.reputation_score, 0);
    assert!(!made.verified);
    assert_eq!(made.created_at, 77);
    assert!(made.owned_ips.is_empty() && made.owned_nfts.is_empty());
    assert_eq!(made.avatar_url, None);
    assert_eq!(made.banner_url.as_deref(), Some("https://example.com/banner"));
    assert_eq!(made.social_links.len(), 1);
    assert_eq!(made.social_links[0].platform, "x");
    assert_eq!((made.total_sales, made.total_purchases), (0, 0));
    let stored = profile(&state, &alice);
    assert_eq!(stored.username, "alice");
    assert_eq!(stored.created_at, 77);
    assert_eq!(get_my_profile(&state, &alice).unwrap().username, "alice");
    assert_eq!(state.users.len(), 1);
}

#[test]
fn create_profile_twice_is_refused() {
    let mut state = MarketState::new();
    let alice = user(1);
    create_user_profile(&mut state, &alice, 77, create_request("alice")).unwrap();
    assert_eq!(
        create_user_profile(&mut state, &alice, 78, create_request("other")).unwrap_err(),
        IPMarketplaceError::AlreadyExists
    );
    assert_eq!(profile(&state, &alice).username, "alice");
    assert_eq!(profile(&state, &alice).created_at, 77);
    assert_eq!(state.users.len(), 1);
    create_user_profile(&mut state, &user(2), 79, create_request("bob")).unwrap();
    assert_eq!(state.users.len(), 2);
}

#[test]
fn missing_profile_is_not_found() {
    let state = MarketState::new();
    assert_eq!(get_user_profile(&state, &user(1)).unwrap_err(), IPMarketplaceError::NotFound);
    assert_eq!(get_my_profile(&state, &user(1)).unwrap_err(), IPMarketplaceError::NotFound);
}

#[test]
fn reputation_floor() {
    assert_eq!(adjust_reputation(5, -100), 0);
    assert_eq!(adjust_reputation(5, -5), 0);
    assert_eq!(adjust_reputation(5, -4), 1);
    assert_eq!(adjust_reputation(5, 0), 5);
    assert_eq!(adjust_reputation(5, 7), 12);
    assert_eq!(adjust_reputation(0, i32::MIN), 0);
    assert_eq!(adjust_reputation(u32::MAX, i32::MIN), u32::MAX - (1 << 31));
    assert_eq!(adjust_reputation(3_000_000_000, -10), 2_999_999_990);
    assert_eq!(adjust_reputation(3_000_000_000, 5), 3_000_000_005);
    assert_eq!(adjust_reputation(i32::MAX as u32, 1), 1 << 31);
    assert_eq!(adjust_reputation(u32::MAX - 1, 1), u32::MAX);
    assert_eq!(adjust_reputation(0, i32::MAX), i32::MAX as u32);
}

#[test]
fn reputation_of_a_profile() {
    let mut state = MarketState::new();
    let alice = user(1);
    create_user_profile(&mut state, &alice, 77, create_request("alice")).unwrap();
    assert_eq!(update_user_reputation(&mut state, &alice, 5), Ok(5));
    assert_eq!(profile(&state, &alice).reputation_score, 5);
    assert_eq!(update_user_reputation(&mut state, &alice, -100), Ok(0));
    assert_eq!(profile(&state, &alice).reputation_score, 0);
    assert_eq!(update_user_reputation(&mut state, &alice, -1), Ok(0));
    assert_eq!(update_user_reputation(&mut state, &alice, i32::MAX), Ok(i32::MAX as u32));
    assert_eq!(update_user_reputation(&mut state, &alice, i32::MAX), Ok(u32::MAX - 1));
    assert!(reputation_has_room(&state, &alice, 1));
    assert!(!reputation_has_room(&state, &alice, 2));
    assert!(reputation_has_room(&state, &alice, i32::MIN));
    assert!(reputation_has_room(&state, &user(2), i32::MAX));
    assert_eq!(update_user_reputation(&mut state, &user(2), 5), Err(IPMarketplaceError::NotFound));
    assert_eq!(profile(&state, &alice).username, "alice");
}

#[test]
fn update_profile_sets_what_is_given() {
    let mut state = MarketState::new();
    let alice = user(1);
    create_user_profile(&mut state, &alice, 77, create_request("alice")).unwrap();
    let same = update_user_profile(&mut state, &alice, no_change()).unwrap();
    assert_eq!(same.username, "alice");
    assert_eq!(same.email.as_deref(), Some("a@example.com"));
    assert_eq!(same.social_links.len(), 1);

    let mut change = no_change();
    change.username = Some("alicia".to_string());
    change.avatar_url = Some("https://example.com/a".to_string());
    change.social_links = Some(vec![]);
    let changed = update_user_profile(&mut state, &alice, change).unwrap();
    assert_eq!(changed.username, "alicia");
    assert_eq!(changed.avatar_url.as_deref(), Some("https://example.com/a"));
    assert!(changed.social_links.is_empty());
    assert_eq!(changed.email.as_deref(), Some("a@example.com"));
    assert_eq!(changed.bio.as_deref(), Some("bio"));
    assert_eq!(changed.banner_url.as_deref(), Some("https://example.com/banner"));
    assert_eq!(changed.created_at, 77);

    let mut more = no_change();
    more.email = Some("b@example.com".to_string());
    more.bio = Some(String::new());
    more.banner_url = Some("ipfs://banner".to_string());
    more.social_links = Some(vec![
        SocialLink { url: "u1".to_string(), platform: "p1".to_string() },
        SocialLink { url: "u2".to_string(), platform: "p2".to_string() },
    ]);
    update_user_profile(&mut state, &alice, more).unwrap();
    let stored = profile(&state, &alice);
    assert_eq!(stored.username, "alicia");
    assert_eq!(stored.email.as_deref(), Some("b@example.com"));
    assert_eq!(stored.bio.as_deref(), Some(""));
    assert_eq!(stored.banner_url.as_deref(), Some("ipfs://banner"));
    assert_eq!(stored.social_links[1].url, "u2");
    assert_eq!(
        update_user_profile(&mut state, &user(2), no_change()).unwrap_err(),
        IPMarketplaceError::NotFound
    );
    assert_eq!(state.users.len(), 1);
}

#[test]
fn owned_lists_hold_each_identifier_once() {
    let mut state = MarketState::new();
    let alice = user(1);
    create_user_profile(&mut state, &alice, 77, create_request("alice")).unwrap();
    add_nft_to_user(&mut state, &alice, "NFT_1".to_string());
    add_nft_to_user(&mut state, &alice, "NFT_2".to_string());
    add_nft_to_user(&mut state, &alice, "NFT_1".to_string());
    add_ip_to_user(&mut state, &alice, "IP_0".to_string());
    add_ip_to_user(&mut state, &alice, "IP_0".to_string());
    assert_eq!(profile(&state, &alice).owned_nfts, strings(&["NFT_1", "NFT_2"]));
    assert_eq!(profile(&state, &alice).owned_ips, strings(&["IP_0"]));
    remove_nft_from_user(&mut state, &alice, &"NFT_1".to_string());
    remove_nft_from_user(&mut state, &alice, &"NFT_9".to_string());
    assert_eq!(profile(&state, &alice).owned_nfts, strings(&["NFT_2"]));
    remove_ip_from_user(&mut state, &alice, &"IP_0".to_string());
    assert!(profile(&state, &alice).owned_ips.is_empty());
}

#[test]
fn housekeeping_passes_over_missing_profiles() {
    let mut state = MarketState::new();
    let nobody = user(7);
    add_nft_to_user(&mut state, &nobody, "NFT_1".to_string());
    remove_nft_from_user(&mut state, &nobody, &"NFT_1".to_string());
    add_ip_to_user(&mut state, &nobody, "IP_1".to_string());
    remove_ip_from_user(&mut state, &nobody, &"IP_1".to_string());
    update_user_sales_stats(&mut state, &nobody, 5, 6);
    assert_eq!(state.users.len(), 0);
    assert!(credit_has_room(&state, &nobody, u64::MAX, u64::MAX));
}

#[test]
fn sales_totals_add_up() {
    let mut state = MarketState::new();
    let alice = user(1);
    create_user_profile(&mut state, &alice, 77, create_request("alice")).unwrap();
    update_user_sales_stats(&mut state, &alice, 10, 0);
    update_user_sales_stats(&mut state, &alice, 5, 7);
    update_user_sales_stats(&mut state, &alice, 0, 0);
    let p = profile(&state, &alice);
    assert_eq!((p.total_sales, p.total_purchases), (15, 7));
    assert!(credit_has_room(&state, &alice, u64::MAX - 15, u64::MAX - 7));
    assert!(!credit_has_room(&state, &alice, u64::MAX - 14, 0));
    assert!(!credit_has_room(&state, &alice, 0, u64::MAX - 6));
    update_user_sales_stats(&mut state, &alice, u64::MAX - 15, u64::MAX - 7);
    let p = profile(&state, &alice);
    assert_eq!((p.total_sales, p.total_purchases), (u64::MAX, u64::MAX));
}

#[test]
fn lists_of_identifiers() {
    let mut owned = strings(&["a", "b", "a", "c", "a"]);
    assert!(holds_id(&owned, &"b".to_string()));
    assert!(!holds_id(&owned, &"d".to_string()));
    drop_id(&mut owned, &"a".to_string());
    assert_eq!(owned, strings(&["b", "c"]));
    drop_id(&mut owned, &"x".to_string());
    assert_eq!(owned, strings(&["b", "c"]));
    keep_id(&mut owned, "b".to_string());
    assert_eq!(owned, strings(&["b", "c"]));
    keep_id(&mut owned, "a".to_string());
    assert_eq!(owned, strings(&["b", "c", "a"]));
    let mut empty: Vec<String> = vec![];
    drop_id(&mut empty, &"a".to_string());
    assert!(empty.is_empty());
    assert!(!holds_id(&empty, &"a".to_string()));
}

#[test]
fn unknown_profile_stands_in() {
    let p = unknown_user_profile();
    assert_eq!(p.principal, Identity::anonymous());
    assert_eq!(p.username, "unknown");
    assert_eq!(p.email, None);
    assert_eq!(p.bio, None);
    assert_eq!(p.reputation_score, 0);
    assert!(!p.verified);
    assert_eq!(p.created_at, 0);
    assert!(p.owned_ips.is_empty() && p.owned_nfts.is_empty() && p.social_links.is_empty());
    assert_eq!((p.avatar_url, p.banner_url), (None, None));
    assert_eq!((p.total_sales, p.total_purchases), (0, 0));
    assert_eq!(profile_or_unknown(None).username, "unknown");
    let mut read = unknown_user_profile();
    read.username = "read".to_string();
    assert_eq!(profile_or_unknown(Some(read)).username, "read");
}

#[test]
fn whoami_is_the_caller() {
    assert_eq!(whoami(&user(3)), user(3));
    assert_eq!(whoami(&Identity::anonymous()).as_slice(), &[4u8][..]);
}

#[test]
fn user_registry_keeps_one_profile_per_identity() {
    let mut r = UserRegistry::new();
    assert_eq!(r.len(), 0);
    assert!(!r.contains_key(&user(1)));
    assert!(r.get(&user(1)).is_none());
    let mut p = unknown_user_profile();
    p.username = "one".to_string();
    assert!(r.insert(user(1), p.clone()).is_none());
    p.username = "two".to_string();
    assert!(r.insert(user(2), p.clone()).is_none());
    p.username = "uno".to_string();
    assert_eq!(r.insert(user(1), p.clone()).unwrap().username, "one");
    assert_eq!(r.len(), 2);
    assert!(r.contains_key(&user(1)) && r.contains_key(&user(2)));
    assert!(!r.contains_key(&user(3)));
    assert_eq!(r.get(&user(1)).unwrap().username, "uno");
    assert_eq!(r.get(&user(2)).unwrap().username, "two");
    assert_eq!(r.count(), 2);
    let mut walked: Vec<(Identity, String)> =
        (0..r.count()).map(|i| (r.key_at(i).clone(), r.value_at(i).username.clone())).collect();
    walked.sort_by_key(|(_, name)| name.clone());
    assert_eq!(walked, vec![(user(2), "two".to_string()), (user(1), "uno".to_string())]);
    assert!(r.remove(&user(3)).is_none());
    assert_eq!(r.remove(&user(1)).unwrap().username, "uno");
    assert!(!r.contains_key(&user(1)));
    assert_eq!(r.len(), 1);
    assert_eq!(r.get(&user(2)).unwrap().username, "two");
}

#[test]
fn user_registry_holds_what_a_stable_btree_map_holds() {
    let mut ours = UserRegistry::new();
    let mut theirs: StableBTreeMap<candid::Principal, String, VectorMemory> =
        StableBTreeMap::init(VectorMemory::default());
    let mut seed: u64 = 0x9e37_79b9_7f4a_7c15;
    for round in 0..400u32 {
        seed ^= seed << 13;
        seed ^= seed >> 7;
        seed ^= seed << 17;
        let bytes: Vec<u8> = (0..(seed % 4)).map(|i| ((seed >> (8 * i)) % 3) as u8).collect();
        let key = Identity::from_slice(&bytes).unwrap();
        let principal = candid::Principal::from_slice(&bytes);
        let mut profile = unknown_user_profile();
        profile.username = format!("u{}", round);
        if seed % 4 == 0 {
            assert_eq!(ours.remove(&key).map(|p| p.username), theirs.remove(&principal));
        } else {
            assert_eq!(
                ours.insert(key.clone(), profile.clone()).map(|p| p.username),
                theirs.insert(principal, profile.username.clone())
            );
        }
        assert_eq!(ours.len(), theirs.len());
        assert_eq!(ours.contains_key(&key), theirs.contains_key(&principal));
        assert_eq!(ours.get(&key).map(|p| p.username.clone()), theirs.get(&principal));
    }
    let mut walked: Vec<(Vec<u8>, String)> = (0..ours.count())
        .map(|i| (ours.key_at(i).as_slice().to_vec(), ours.value_at(i).username.clone()))
        .collect();
    let mut stored: Vec<(Vec<u8>, String)> =
        theirs.iter().map(|(p, name)| (p.as_slice().to_vec(), name)).collect();
    walked.sort();
    stored.sort();
    assert_eq!(walked, stored);
}
