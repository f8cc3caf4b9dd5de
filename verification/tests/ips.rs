use ip_market_backend::identity::Identity;
use ip_market_backend::ip_registry::{
    any_tag_mentions, get_ip_by_id, get_user_ips, register_ip, search_ips, verify_ip,
};
use ip_market_backend::storage::{
    generate_id, take_next, with_counter, with_counter_mut, with_ip_registry,
    with_ip_registry_mut, with_marketplace, with_marketplace_mut, with_nft_metadata,
    with_nft_metadata_mut, with_nft_registry, with_nft_registry_mut, with_user_registry,
    with_user_registry_mut, MarketState,
};
use ip_market_backend::types::{
    CreateUserRequest, FileMetadata, IPMarketplaceError, IPMetadata, IPType, IntellectualProperty,
    RegisterIPRequest, VerificationStatus,
};
use ip_market_backend::user_management::{create_user_profile, unknown_user_profile};

fn owner(n: u8) -> Identity {
    Identity::from_slice(&[n]).unwrap()
}

fn request(title: &str, description: &str, tags: &[&str], kind: IPType) -> RegisterIPRequest {
    RegisterIPRequest {
        title: title.to_string(),
        description: description.to_string(),
        ip_type: kind,
        metadata: IPMetadata {
            category: "cat".to_string(),
            tags: tags.iter().map(|t| t.to_string()).collect(),
            file_hash: Some("hash".to_string()),
            file_url: None,
            jurisdiction: "US".to_string(),
            expiry_date: Some(99),
            priority_date: None,
            application_number: None,
            registration_number: Some("R-1".to_string()),
            genre: None,
            medium: Some("oil".to_string()),
            dimensions: None,
            color_palette: vec!["red".to_string()],
            software_used: vec![],
        },
        image_url: Some("https://example.com/i.png".to_string()),
        additional_files: vec![FileMetadata {
            file_name: "f".to_string(),
            file_type: "image/png".to_string(),
            file_size: 12,
            file_hash: "h".to_string(),
            file_url: "ipfs://f".to_string(),
            uploaded_at: 3,
        }],
    }
}

fn titles(found: &[IntellectualProperty]) -> Vec<String> {
    found.iter().map(|ip| ip.title.clone()).collect()
}

#[test]
fn register_a_work() {
    let mut state = MarketState::new();
    let alice = owner(1);
    create_user_profile(
        &mut state,
        &alice,
        1,
        CreateUserRequest {
            bio: None,
            username: "alice".to_string(),
            banner_url: None,
            avatar_url: None,
            email: None,
            social_links: vec![],
        },
    )
    .unwrap();
    let ip = register_ip(&mut state, &alice, 42, request("Title", "Text", &["t1", "t2"], IPType::Software)).unwrap();
    assert_eq!(ip.id, "IP_0");
    assert_eq!(ip.title, "Title");
    assert_eq!(ip.description, "Text");
    assert!(ip.ip_type.same_variant(&IPType::Software));
    assert_eq!(ip.owner, alice);
    assert_eq!(ip.creator, alice);
    assert_eq!((ip.creation_date, ip.registration_date), (42, 42));
    assert_eq!(ip.verification_status, VerificationStatus::Pending);
    assert_eq!(ip.nft_id, None);
    assert_eq!(ip.image_url.as_deref(), Some("https://example.com/i.png"));
    assert_eq!(ip.metadata.tags, vec!["t1", "t2"]);
    assert_eq!(ip.metadata.registration_number.as_deref(), Some("R-1"));
    assert_eq!(ip.metadata.expiry_date, Some(99));
    assert_eq!(ip.metadata.color_palette, vec!["red"]);
    assert_eq!(ip.additional_files.len(), 1);
    assert_eq!(ip.additional_files[0].file_size, 12);
    assert_eq!(state.counter, 1);
    let stored = get_ip_by_id(&state, "IP_0".to_string()).unwrap();
    assert_eq!(stored.title, "Title");
    assert_eq!(stored.additional_files[0].file_url, "ipfs://f");
    assert_eq!(state.users.get(&alice).unwrap().owned_ips, vec!["IP_0"]);
    let second = register_ip(&mut state, &alice, 43, request("Next", "", &[], IPType::Video)).unwrap();
    assert_eq!(second.id, "IP_1");
    assert_eq!(state.users.get(&alice).unwrap().owned_ips, vec!["IP_0", "IP_1"]);
    assert_eq!(state.ips.len(), 2);
}

#[test]
fn register_checks_the_image_reference() {
    let mut state = MarketState::new();
    let alice = owner(1);
    let mut bad = request("T", "D", &[], IPType::Music);
    bad.image_url = Some("javascript:alert(1)".to_string());
    assert_eq!(register_ip(&mut state, &alice, 1, bad).unwrap_err(), IPMarketplaceError::InvalidInput);
    assert_eq!(state.counter, 0);
    assert_eq!(state.ips.len(), 0);
    let mut none = request("T", "D", &[], IPType::Music);
    none.image_url = None;
    assert_eq!(register_ip(&mut state, &alice, 1, none).unwrap().image_url, None);
    let mut ipfs = request("T", "D", &[], IPType::Music);
    ipfs.image_url = Some("ipfs://x".to_string());
    assert_eq!(register_ip(&mut state, &alice, 1, ipfs).unwrap().id, "IP_1");
    assert_eq!(state.users.len(), 0);
}

#[test]
fn works_by_owner() {
    let mut state = MarketState::new();
    let alice = owner(1);
    let bob = owner(2);
    for (who, title) in [(&alice, "a1"), (&bob, "b1"), (&alice, "a2")] {
        register_ip(&mut state, who, 1, request(title, "", &[], IPType::Music)).unwrap();
    }
    assert_eq!(titles(&get_user_ips(&state, &alice)), vec!["a1", "a2"]);
    assert_eq!(titles(&get_user_ips(&state, &bob)), vec!["b1"]);
    assert!(get_user_ips(&state, &owner(3)).is_empty());
    assert_eq!(get_ip_by_id(&state, "IP_3".to_string()).unwrap_err(), IPMarketplaceError::NotFound);
}

#[test]
fn search_works() {
    let mut state = MarketState::new();
    let alice = owner(1);
    register_ip(&mut state, &alice, 1, request("Red Barn", "a painting", &["farm"], IPType::DigitalArt)).unwrap();
    register_ip(&mut state, &alice, 1, request("Engine", "a RED machine", &["steam"], IPType::Patent)).unwrap();
    register_ip(&mut state, &alice, 1, request("Song", "a tune", &["Redwood", "forest"], IPType::Music)).unwrap();
    register_ip(&mut state, &alice, 1, request("Logo", "a mark", &[], IPType::Other("x".to_string()))).unwrap();
    assert_eq!(titles(&search_ips(&state, "red".to_string(), None)), vec!["Red Barn", "Engine", "Song"]);
    assert_eq!(titles(&search_ips(&state, "RED".to_string(), None)), vec!["Red Barn", "Engine", "Song"]);
    assert_eq!(titles(&search_ips(&state, "redw".to_string(), None)), vec!["Song"]);
    assert_eq!(titles(&search_ips(&state, "".to_string(), None)).len(), 4);
    assert!(search_ips(&state, "blue".to_string(), None).is_empty());
    assert_eq!(titles(&search_ips(&state, "red".to_string(), Some(IPType::Patent))), vec!["Engine"]);
    assert!(search_ips(&state, "red".to_string(), Some(IPType::Video)).is_empty());
    assert_eq!(
        titles(&search_ips(&state, "".to_string(), Some(IPType::Other("y".to_string())))),
        vec!["Logo"]
    );
    assert!(any_tag_mentions(&vec!["Alpha".to_string(), "Beta".to_string()], "bet"));
    assert!(!any_tag_mentions(&vec!["Alpha".to_string()], "bet"));
    assert!(!any_tag_mentions(&vec![], ""));
}

#[test]
fn kinds_compare_by_variant() {
    assert!(IPType::Other("a".to_string()).same_variant(&IPType::Other("b".to_string())));
    assert!(IPType::Music.same_variant(&IPType::Music));
    assert!(!IPType::Music.same_variant(&IPType::Video));
    assert!(!IPType::Other("Music".to_string()).same_variant(&IPType::Music));
}

#[test]
fn status_is_set() {
    let mut state = MarketState::new();
    let alice = owner(1);
    register_ip(&mut state, &alice, 1, request("T", "D", &[], IPType::Music)).unwrap();
    for status in [
        VerificationStatus::UnderReview,
        VerificationStatus::Verified,
        VerificationStatus::Rejected,
        VerificationStatus::Pending,
    ] {
        assert_eq!(verify_ip(&mut state, "IP_0".to_string(), status), Ok(true));
        let stored = get_ip_by_id(&state, "IP_0".to_string()).unwrap();
        assert_eq!(stored.verification_status, status);
        assert_eq!(stored.title, "T");
        assert_eq!(stored.owner, alice);
    }
    assert_eq!(
        verify_ip(&mut state, "IP_9".to_string(), VerificationStatus::Verified),
        Err(IPMarketplaceError::NotFound)
    );
    assert_eq!(state.ips.len(), 1);
}

#[test]
fn identifiers_come_from_one_counter() {
    let mut state = MarketState::new();
    assert_eq!(generate_id(&mut state, "IP"), "IP_0");
    assert_eq!(generate_id(&mut state, "NFT"), "NFT_1");
    assert_eq!(generate_id(&mut state, "LISTING"), "LISTING_2");
    assert_eq!(generate_id(&mut state, ""), "_3");
    assert_eq!(state.counter, 4);
    state.counter = 1_234_567_890_123;
    assert_eq!(generate_id(&mut state, "X_Y"), "X_Y_1234567890123");
    state.counter = u64::MAX - 1;
    assert_eq!(generate_id(&mut state, "IP"), "IP_18446744073709551614");
    assert_eq!(state.counter, u64::MAX);
}

#[test]
fn counter_is_handed_to_closures() {
    let mut state = MarketState::new();
    assert_eq!(with_counter(&state, |c: &u64| *c + 10), 10);
    assert_eq!(with_counter_mut(&mut state, take_next), 0);
    assert_eq!(with_counter_mut(&mut state, take_next), 1);
    assert_eq!(with_counter_mut(&mut state, |c: &mut u64| {
        *c = 40;
        "set"
    }), "set");
    assert_eq!(with_counter(&state, |c: &u64| *c), 40);
    let mut n = 7u64;
    assert_eq!(take_next(&mut n), 7);
    assert_eq!(n, 8);
}

#[test]
fn registries_are_handed_to_closures() {
    let mut state = MarketState::new();
    let alice = owner(1);
    let ip = register_ip(&mut state, &alice, 1, request("T", "D", &[], IPType::Music)).unwrap();
    assert_eq!(with_ip_registry(&state, |r| r.len()), 1);
    assert!(with_ip_registry(&state, |r| r.contains_key(&"IP_0".to_string())));
    let mut copy = ip.clone();
    copy.id = "IP_X".to_string();
    assert!(with_ip_registry_mut(&mut state, |r| r.insert("IP_X".to_string(), copy)).is_none());
    assert_eq!(state.ips.len(), 2);
    assert_eq!(with_nft_registry(&state, |r| r.len()), 0);
    assert_eq!(with_nft_registry_mut(&mut state, |r| r.is_empty()), true);
    assert_eq!(with_marketplace(&state, |r| r.len()), 0);
    assert_eq!(with_marketplace_mut(&mut state, |r| r.count()), 0);
    assert_eq!(with_nft_metadata(&state, |r| r.len()), 0);
    assert_eq!(with_nft_metadata_mut(&mut state, |r| r.len()), 0);
    assert_eq!(with_user_registry(&state, |r| r.len()), 0);
    assert!(with_user_registry_mut(&mut state, |r| r.insert(owner(5), unknown_user_profile())).is_none());
    assert_eq!(state.users.len(), 1);
    assert_eq!(state.counter, 1);
}
