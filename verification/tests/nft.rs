use ip_market_backend::identity::Identity;
use ip_market_backend::ip_registry::register_ip;
use ip_market_backend::marketplace::{buy_nft, cancel_listing, list_nft_for_sale};
use ip_market_backend::nft_management::{
    collection_volume, count_owners, favorite_has_room, get_nft_by_id, get_nft_collection_stats,
    get_nft_full_details, get_nft_history, get_nft_metadata, get_nfts_batch, get_trending_nfts,
    get_user_nfts, history_total, increment_nft_view, mint_ip_nft, royalty_is_valid, search_nfts,
    toggle_nft_favorite, transfer_nft, view_has_room, DEFAULT_ROYALTY_PERCENTAGE,
    MAX_ROYALTY_PERCENTAGE,
};
use ip_market_backend::storage::MarketState;
use ip_market_backend::types::{
    AttributeValue, CreateUserRequest, Float64, IPMarketplaceError, IPMetadata, IPNft, IPType,
    ListNFTRequest, MintNFTRequest, NFTAttribute, NFTSearchFilters, RegisterIPRequest,
    TransferRecord,
};
use ip_market_backend::user_management::create_user_profile;

fn person(n: u8) -> Identity {
    Identity::from_slice(&[n; 5]).unwrap()
}

fn canister() -> Identity {
    Identity::from_slice(&[]).unwrap()
}

fn work_metadata(category: &str, jurisdiction: &str) -> IPMetadata {
    IPMetadata {
        category: category.to_string(),
        tags: vec![],
        file_hash: None,
        file_url: None,
        jurisdiction: jurisdiction.to_string(),
        expiry_date: None,
        priority_date: None,
        application_number: None,
        registration_number: None,
        genre: None,
        medium: None,
        dimensions: None,
        color_palette: vec![],
        software_used: vec![],
    }
}

fn register(state: &mut MarketState, owner: &Identity, now: u64, kind: IPType) -> String {
    register_ip(
        state,
        owner,
        now,
        RegisterIPRequest {
            title: "Work".to_string(),
            description: "A work".to_string(),
            ip_type: kind,
            metadata: work_metadata("painting", "CH"),
            image_url: None,
            additional_files: vec![],
        },
    )
    .unwrap()
    .id
}

fn mint_request(ip_id: &str, name: &str, collection: Option<&str>) -> MintNFTRequest {
    MintNFTRequest {
        ip_id: ip_id.to_string(),
        name: name.to_string(),
        description: format!("About {}", name),
        image: "ipfs://image".to_string(),
        attributes: vec![],
        collection_name: collection.map(|c| c.to_string()),
        edition_number: None,
        total_editions: None,
        royalty_percentage: None,
        external_url: None,
        animation_url: None,
        background_color: None,
    }
}

fn mint_named(state: &mut MarketState, owner: &Identity, name: &str, collection: Option<&str>) -> IPNft {
    let ip_id = register(state, owner, 10, IPType::Music);
    mint_ip_nft(state, owner, 20, &canister(), mint_request(&ip_id, name, collection), Float64 { bits: 0 })
        .unwrap()
}

fn with_profile(state: &mut MarketState, user: &Identity) {
    create_user_profile(
        state,
        user,
        1,
        CreateUserRequest {
            bio: None,
            username: "user".to_string(),
            banner_url: None,
            avatar_url: None,
            email: None,
            social_links: vec![],
        },
    )
    .unwrap();
}

fn sell(state: &mut MarketState, seller: &Identity, buyer: &Identity, nft_id: &str, price: u64) {
    let l = list_nft_for_sale(state, seller, 100, offer(nft_id, price, false)).unwrap();
    buy_nft(state, buyer, 101, l.id).unwrap();
}

fn offer(nft_id: &str, price: u64, is_auction: bool) -> ListNFTRequest {
    ListNFTRequest {
        nft_id: nft_id.to_string(),
        price,
        currency: "ICP".to_string(),
        expires_at: None,
        license_terms: None,
        is_auction,
        auction_duration: None,
        min_bid_increment: None,
    }
}

fn names(tokens: &[IPNft]) -> Vec<String> {
    tokens.iter().map(|t| t.name.clone()).collect()
}

fn no_filters() -> NFTSearchFilters {
    NFTSearchFilters { collection_name: None, min_price: None, max_price: None, creator: None, sort_by: None }
}

#[test]
fn mint_creates_the_token() {
    let mut state = MarketState::new();
    let alice = person(1);
    with_profile(&mut state, &alice);
    let ip_id = register(&mut state, &alice, 3_000_000_000, IPType::Patent);
    assert_eq!(ip_id, "IP_0");
    let mut request = mint_request(&ip_id, "First", Some("Set"));
    request.attributes = vec![NFTAttribute {
        trait_type: "size".to_string(),
        value: AttributeValue::Number(Float64 { bits: 12.5f64.to_bits() }),
        display_type: Some("number".to_string()),
        max_value: Some(Float64 { bits: 100f64.to_bits() }),
    }];
    request.edition_number = Some(2);
    request.total_editions = Some(9);
    request.external_url = Some("https://example.com".to_string());
    let rarity = Float64 { bits: 0.125f64.to_bits() };
    let nft = mint_ip_nft(&mut state, &alice, 7_500_000_000, &canister(), request, rarity).unwrap();

    assert_eq!(nft.id, "NFT_1");
    assert_eq!(nft.ip_id, "IP_0");
    assert_eq!(nft.token_id, 2);
    assert_eq!(state.counter, 3);
    assert_eq!(nft.owner, alice);
    assert_eq!(nft.creator, alice);
    assert_eq!(nft.metadata_uri, "ic://aaaaa-aa/metadata/NFT_1");
    assert_eq!(nft.minted_at, 7_500_000_000);
    assert_eq!(nft.royalty_percentage, 10);
    assert_eq!(nft.royalty_percentage, DEFAULT_ROYALTY_PERCENTAGE);
    assert!(nft.is_transferable);
    assert_eq!(nft.name, "First");
    assert_eq!(nft.description, "About First");
    assert_eq!(nft.image, "ipfs://image");
    assert_eq!(nft.collection_name.as_deref(), Some("Set"));
    assert_eq!(nft.edition_number, Some(2));
    assert_eq!(nft.total_editions, Some(9));
    assert_eq!(nft.rarity_rank, None);
    assert_eq!(f64::from_bits(nft.rarity_score.unwrap().bits), 0.125);
    assert_eq!(nft.view_count, 0);
    assert_eq!(nft.favorite_count, 0);
    assert_eq!(nft.transfer_history.len(), 1);
    let mint = &nft.transfer_history[0];
    assert_eq!(mint.from, Identity::anonymous());
    assert_eq!(mint.to, alice);
    assert_eq!(mint.timestamp, 7_500_000_000);
    assert!(mint.price.is_none() && mint.transaction_hash.is_none());

    let stored = get_nft_by_id(&state, "NFT_1".to_string()).unwrap();
    assert_eq!(stored.token_id, 2);
    assert_eq!(stored.owner, alice);
    assert_eq!(state.ips.get(&ip_id).unwrap().nft_id.as_deref(), Some("NFT_1"));
    assert_eq!(state.users.get(&alice).unwrap().owned_nfts, vec!["NFT_1"]);

    let shown = get_nft_metadata(&state, "NFT_1".to_string()).unwrap();
    assert_eq!(shown.token_id, "NFT_1");
    assert_eq!(shown.name, "First");
    assert_eq!(shown.description, "About First");
    assert_eq!(shown.image, "ipfs://image");
    assert_eq!(shown.external_url.as_deref(), Some("https://example.com"));
    assert_eq!(shown.attributes.len(), 1);
    assert_eq!(shown.attributes[0].trait_type, "size");
    match &shown.attributes[0].value {
        AttributeValue::Number(n) => assert_eq!(f64::from_bits(n.bits), 12.5),
        _ => panic!("the attribute is a number"),
    }
    assert_eq!(shown.ip_category, "painting");
    assert_eq!(shown.ip_type, "Patent");
    assert_eq!(shown.creator, alice.to_text());
    assert_eq!(shown.creator, candid::Principal::from_slice(alice.as_slice()).to_string());
    assert_eq!(shown.creation_date, "3");
    assert_eq!(shown.minted_date, "7");
    assert_eq!(shown.jurisdiction.as_deref(), Some("CH"));
    assert_eq!(shown.license_type, None);
    assert_eq!(shown.file_type.as_deref(), Some("image/png"));
    assert_eq!(shown.file_size, None);
    assert_eq!(shown.resolution, None);
    assert_eq!(shown.duration, None);
    assert_eq!(shown.blockchain, "Internet Computer");
    assert_eq!(shown.token_standard, "ICRC-7");
}

#[test]
fn mint_keeps_the_royalty_given() {
    let mut state = MarketState::new();
    let alice = person(1);
    let ip_id = register(&mut state, &alice, 1, IPType::Design);
    let mut request = mint_request(&ip_id, "T", None);
    request.royalty_percentage = Some(0);
    let nft = mint_ip_nft(&mut state, &alice, 2, &canister(), request, Float64 { bits: 0 }).unwrap();
    assert_eq!(nft.royalty_percentage, 0);
}

#[test]
fn royalty_is_at_most_a_hundred_percent() {
    assert!(royalty_is_valid(None));
    assert!(royalty_is_valid(Some(0)));
    assert!(royalty_is_valid(Some(100)));
    assert!(!royalty_is_valid(Some(101)));
    assert!(!royalty_is_valid(Some(255)));
    assert_eq!(MAX_ROYALTY_PERCENTAGE, 100);
    let mut state = MarketState::new();
    let alice = person(1);
    let ip_id = register(&mut state, &alice, 1, IPType::Design);
    let mut request = mint_request(&ip_id, "T", None);
    request.royalty_percentage = Some(100);
    let nft = mint_ip_nft(&mut state, &alice, 2, &canister(), request, Float64 { bits: 0 }).unwrap();
    assert_eq!(nft.royalty_percentage, 100);
}

#[test]
fn mint_refuses_a_royalty_above_a_hundred_percent() {
    let mut state = MarketState::new();
    let alice = person(1);
    let bob = person(2);
    with_profile(&mut state, &alice);
    let ip_id = register(&mut state, &alice, 1, IPType::Design);
    let mut request = mint_request(&ip_id, "T", None);
    request.royalty_percentage = Some(101);
    assert_eq!(
        mint_ip_nft(&mut state, &alice, 2, &canister(), request, Float64 { bits: 0 }).unwrap_err(),
        IPMarketplaceError::InvalidInput
    );
    assert_eq!(state.counter, 1);
    assert_eq!(state.nfts.len(), 0);
    assert_eq!(state.nft_metadata.len(), 0);
    assert!(state.ips.get(&ip_id).unwrap().nft_id.is_none());
    assert!(state.users.get(&alice).unwrap().owned_nfts.is_empty());
    let mut by_other = mint_request(&ip_id, "T", None);
    by_other.royalty_percentage = Some(255);
    assert_eq!(
        mint_ip_nft(&mut state, &bob, 2, &canister(), by_other, Float64 { bits: 0 }).unwrap_err(),
        IPMarketplaceError::Unauthorized
    );
    let mut bad_image = mint_request(&ip_id, "T", None);
    bad_image.royalty_percentage = Some(101);
    bad_image.image = "nothing".to_string();
    assert_eq!(
        mint_ip_nft(&mut state, &alice, 2, &canister(), bad_image, Float64 { bits: 0 }).unwrap_err(),
        IPMarketplaceError::InvalidInput
    );
    mint_ip_nft(&mut state, &alice, 2, &canister(), mint_request(&ip_id, "T", None), Float64 { bits: 0 })
        .unwrap();
    let mut second = mint_request(&ip_id, "T2", None);
    second.royalty_percentage = Some(101);
    assert_eq!(
        mint_ip_nft(&mut state, &alice, 3, &canister(), second, Float64 { bits: 0 }).unwrap_err(),
        IPMarketplaceError::AlreadyExists
    );
    assert_eq!(state.counter, 3);
    assert_eq!(state.nfts.len(), 1);
}

#[test]
fn mint_writes_the_kind_as_text() {
    for (kind, text) in [
        (IPType::Patent, "Patent"),
        (IPType::Trademark, "Trademark"),
        (IPType::Copyright, "Copyright"),
        (IPType::TradeSecret, "TradeSecret"),
        (IPType::Design, "Design"),
        (IPType::DigitalArt, "DigitalArt"),
        (IPType::Music, "Music"),
        (IPType::Literature, "Literature"),
        (IPType::Software, "Software"),
        (IPType::Photography, "Photography"),
        (IPType::Video, "Video"),
        (IPType::Other("a \"b\"\n".to_string()), "Other(\"a \\\"b\\\"\\n\")"),
        (IPType::Other(String::new()), "Other(\"\")"),
    ] {
        assert_eq!(kind.label(), text);
        assert_eq!(kind.label(), format!("{:?}", kind));
        let mut state = MarketState::new();
        let alice = person(1);
        let ip_id = register(&mut state, &alice, 1, kind);
        let nft = mint_ip_nft(&mut state, &alice, 2, &canister(), mint_request(&ip_id, "T", None), Float64 { bits: 0 })
            .unwrap();
        assert_eq!(get_nft_metadata(&state, nft.id).unwrap().ip_type, text);
    }
}

#[test]
fn mint_is_one_shot() {
    let mut state = MarketState::new();
    let alice = person(1);
    let bob = person(2);
    with_profile(&mut state, &alice);
    let ip_id = register(&mut state, &alice, 1, IPType::Music);
    mint_ip_nft(&mut state, &alice, 2, &canister(), mint_request(&ip_id, "T", None), Float64 { bits: 0 }).unwrap();
    let counter = state.counter;
    assert_eq!(
        mint_ip_nft(&mut state, &alice, 3, &canister(), mint_request(&ip_id, "T2", None), Float64 { bits: 0 })
            .unwrap_err(),
        IPMarketplaceError::AlreadyExists
    );
    assert_eq!(
        mint_ip_nft(&mut state, &bob, 3, &canister(), mint_request(&ip_id, "T2", None), Float64 { bits: 0 })
            .unwrap_err(),
        IPMarketplaceError::Unauthorized
    );
    assert_eq!(state.counter, counter);
    assert_eq!(state.nfts.len(), 1);
    assert_eq!(state.nft_metadata.len(), 1);
    assert_eq!(state.users.get(&alice).unwrap().owned_nfts.len(), 1);
    assert_eq!(state.ips.get(&ip_id).unwrap().nft_id.as_deref(), Some("NFT_1"));
}

#[test]
fn mint_refusals() {
    let mut state = MarketState::new();
    let alice = person(1);
    let bob = person(2);
    let ip_id = register(&mut state, &alice, 1, IPType::Music);
    assert_eq!(
        mint_ip_nft(&mut state, &alice, 2, &canister(), mint_request("IP_404", "T", None), Float64 { bits: 0 })
            .unwrap_err(),
        IPMarketplaceError::NotFound
    );
    assert_eq!(
        mint_ip_nft(&mut state, &bob, 2, &canister(), mint_request(&ip_id, "T", None), Float64 { bits: 0 })
            .unwrap_err(),
        IPMarketplaceError::Unauthorized
    );
    let mut bad_image = mint_request(&ip_id, "T", None);
    bad_image.image = "file:///etc/passwd".to_string();
    assert_eq!(
        mint_ip_nft(&mut state, &alice, 2, &canister(), bad_image, Float64 { bits: 0 }).unwrap_err(),
        IPMarketplaceError::InvalidInput
    );
    let mut bad_image_by_other = mint_request(&ip_id, "T", None);
    bad_image_by_other.image = "nothing".to_string();
    assert_eq!(
        mint_ip_nft(&mut state, &bob, 2, &canister(), bad_image_by_other, Float64 { bits: 0 }).unwrap_err(),
        IPMarketplaceError::Unauthorized
    );
    assert_eq!(state.counter, 1);
    assert_eq!(state.nfts.len(), 0);
    assert_eq!(state.nft_metadata.len(), 0);
    assert!(state.ips.get(&ip_id).unwrap().nft_id.is_none());
}

#[test]
fn transfer_moves_the_token() {
    let mut state = MarketState::new();
    let alice = person(1);
    let bob = person(2);
    with_profile(&mut state, &alice);
    with_profile(&mut state, &bob);
    let nft = mint_named(&mut state, &alice, "T", None);
    assert_eq!(transfer_nft(&mut state, &alice, 50, nft.id.clone(), &bob), Ok(true));
    let token = get_nft_by_id(&state, nft.id.clone()).unwrap();
    assert_eq!(token.owner, bob);
    assert_eq!(token.creator, alice);
    let history = get_nft_history(&state, nft.id.clone()).unwrap();
    assert_eq!(history.len(), 2);
    assert_eq!(history[0].from, Identity::anonymous());
    assert_eq!(history[1].from, alice);
    assert_eq!(history[1].to, bob);
    assert_eq!(history[1].timestamp, 50);
    assert_eq!(history[1].price, None);
    assert!(state.users.get(&alice).unwrap().owned_nfts.is_empty());
    assert_eq!(state.users.get(&bob).unwrap().owned_nfts, vec![nft.id.clone()]);
    assert_eq!(state.users.get(&bob).unwrap().total_purchases, 0);
    assert_eq!(names(&get_user_nfts(&state, &bob)), vec!["T"]);
    assert!(get_user_nfts(&state, &alice).is_empty());
}

#[test]
fn transfer_refusals() {
    let mut state = MarketState::new();
    let alice = person(1);
    let bob = person(2);
    let nft = mint_named(&mut state, &alice, "T", None);
    assert_eq!(
        transfer_nft(&mut state, &alice, 50, "NFT_404".to_string(), &bob),
        Err(IPMarketplaceError::NotFound)
    );
    assert_eq!(
        transfer_nft(&mut state, &bob, 50, nft.id.clone(), &bob),
        Err(IPMarketplaceError::Unauthorized)
    );
    let mut fixed = get_nft_by_id(&state, nft.id.clone()).unwrap();
    fixed.is_transferable = false;
    state.nfts.insert(nft.id.clone(), fixed);
    assert_eq!(
        transfer_nft(&mut state, &alice, 50, nft.id.clone(), &bob),
        Err(IPMarketplaceError::NFTNotTransferable)
    );
    assert_eq!(
        transfer_nft(&mut state, &bob, 50, nft.id.clone(), &alice),
        Err(IPMarketplaceError::Unauthorized)
    );
    let token = get_nft_by_id(&state, nft.id.clone()).unwrap();
    assert_eq!(token.owner, alice);
    assert_eq!(token.transfer_history.len(), 1);
}

#[test]
fn transfer_to_oneself_keeps_the_list_without_duplicates() {
    let mut state = MarketState::new();
    let alice = person(1);
    with_profile(&mut state, &alice);
    let first = mint_named(&mut state, &alice, "A", None);
    let second = mint_named(&mut state, &alice, "B", None);
    assert_eq!(transfer_nft(&mut state, &alice, 50, first.id.clone(), &alice), Ok(true));
    assert_eq!(state.users.get(&alice).unwrap().owned_nfts, vec![second.id.clone(), first.id.clone()]);
    assert_eq!(get_nft_by_id(&state, first.id.clone()).unwrap().transfer_history.len(), 2);
}

#[test]
fn owner_is_the_receiver_of_the_last_transfer() {
    let mut state = MarketState::new();
    let alice = person(1);
    let bob = person(2);
    let carol = person(3);
    let nft = mint_named(&mut state, &alice, "T", None);
    let last_to = |s: &MarketState| {
        let t = get_nft_by_id(s, nft.id.clone()).unwrap();
        (t.owner.clone(), t.transfer_history.last().unwrap().to.clone())
    };
    let (owner, to) = last_to(&state);
    assert_eq!(owner, to);
    transfer_nft(&mut state, &alice, 50, nft.id.clone(), &bob).unwrap();
    let (owner, to) = last_to(&state);
    assert_eq!(owner, to);
    sell(&mut state, &bob, &carol, &nft.id, 5);
    let (owner, to) = last_to(&state);
    assert_eq!(owner, carol);
    assert_eq!(to, carol);
}

#[test]
fn lookups_of_missing_tokens() {
    let state = MarketState::new();
    assert_eq!(get_nft_by_id(&state, "NFT_1".to_string()).unwrap_err(), IPMarketplaceError::NotFound);
    assert_eq!(get_nft_metadata(&state, "NFT_1".to_string()).unwrap_err(), IPMarketplaceError::NotFound);
    assert_eq!(get_nft_history(&state, "NFT_1".to_string()).unwrap_err(), IPMarketplaceError::NotFound);
    assert_eq!(get_nft_full_details(&state, "NFT_1".to_string()).unwrap_err(), IPMarketplaceError::NotFound);
}

#[test]
fn full_details() {
    let mut state = MarketState::new();
    let alice = person(1);
    let nft = mint_named(&mut state, &alice, "T", None);
    let (token, shown, work) = get_nft_full_details(&state, nft.id.clone()).unwrap();
    assert_eq!(token.id, nft.id);
    assert_eq!(shown.token_id, nft.id);
    assert_eq!(work.id, nft.ip_id);
    assert_eq!(work.nft_id, Some(nft.id.clone()));
    let mut orphan = get_nft_by_id(&state, nft.id.clone()).unwrap();
    orphan.ip_id = "IP_404".to_string();
    state.nfts.insert(nft.id.clone(), orphan);
    assert_eq!(get_nft_full_details(&state, nft.id.clone()).unwrap_err(), IPMarketplaceError::NotFound);
}

#[test]
fn batch_answers_in_place() {
    let mut state = MarketState::new();
    let alice = person(1);
    let a = mint_named(&mut state, &alice, "A", None);
    let b = mint_named(&mut state, &alice, "B", None);
    let got = get_nfts_batch(
        &state,
        vec![b.id.clone(), "NFT_404".to_string(), a.id.clone(), b.id.clone()],
    );
    let got: Vec<Option<String>> = got.into_iter().map(|t| t.map(|t| t.name)).collect();
    assert_eq!(
        got,
        vec![Some("B".to_string()), None, Some("A".to_string()), Some("B".to_string())]
    );
    assert!(get_nfts_batch(&state, vec![]).is_empty());
}

#[test]
fn views_and_favourites_count_up() {
    let mut state = MarketState::new();
    let alice = person(1);
    let nft = mint_named(&mut state, &alice, "T", None);
    assert_eq!(increment_nft_view(&mut state, nft.id.clone()), Ok(1));
    assert_eq!(increment_nft_view(&mut state, nft.id.clone()), Ok(2));
    assert_eq!(toggle_nft_favorite(&mut state, nft.id.clone()), Ok(1));
    assert_eq!(toggle_nft_favorite(&mut state, nft.id.clone()), Ok(2));
    assert_eq!(toggle_nft_favorite(&mut state, nft.id.clone()), Ok(3));
    let token = get_nft_by_id(&state, nft.id.clone()).unwrap();
    assert_eq!((token.view_count, token.favorite_count), (2, 3));
    assert_eq!(increment_nft_view(&mut state, "NFT_404".to_string()), Err(IPMarketplaceError::NotFound));
    assert_eq!(toggle_nft_favorite(&mut state, "NFT_404".to_string()), Err(IPMarketplaceError::NotFound));
    assert!(view_has_room(&state, &nft.id) && favorite_has_room(&state, &nft.id));
    assert!(view_has_room(&state, &"NFT_404".to_string()));
    let mut full = token;
    full.view_count = u64::MAX;
    full.favorite_count = u64::MAX - 1;
    state.nfts.insert(nft.id.clone(), full);
    assert!(!view_has_room(&state, &nft.id));
    assert!(favorite_has_room(&state, &nft.id));
    assert_eq!(toggle_nft_favorite(&mut state, nft.id.clone()), Ok(u64::MAX));
    assert!(!favorite_has_room(&state, &nft.id));
}

#[test]
fn trending_ranks_by_views_and_favourites() {
    let mut state = MarketState::new();
    let alice = person(1);
    let mut made = Vec::new();
    for (name, views, favourites) in
        [("a", 1u64, 1u64), ("b", 5, 0), ("c", 0, 2), ("d", 0, 0), ("e", 2, 3), ("f", u64::MAX, u64::MAX)]
    {
        let nft = mint_named(&mut state, &alice, name, None);
        let mut t = get_nft_by_id(&state, nft.id.clone()).unwrap();
        t.view_count = views;
        t.favorite_count = favourites;
        state.nfts.insert(nft.id.clone(), t);
        made.push(nft.id);
    }
    assert_eq!(made, vec!["NFT_1", "NFT_4", "NFT_7", "NFT_10", "NFT_13", "NFT_16"]);
    assert_eq!(names(&get_trending_nfts(&state, 10)), vec!["f", "e", "b", "a", "c", "d"]);
    assert_eq!(names(&get_trending_nfts(&state, 6)), vec!["f", "e", "b", "a", "c", "d"]);
    assert_eq!(names(&get_trending_nfts(&state, 3)), vec!["f", "e", "b"]);
    assert_eq!(names(&get_trending_nfts(&state, 1)), vec!["f"]);
    assert!(get_trending_nfts(&state, 0).is_empty());
    assert!(get_trending_nfts(&MarketState::new(), 5).is_empty());
}

#[test]
fn trending_keeps_ties_in_the_order_of_identifiers() {
    let mut state = MarketState::new();
    let alice = person(1);
    for name in ["p", "q", "r", "s"] {
        mint_named(&mut state, &alice, name, None);
    }
    assert_eq!(names(&get_user_nfts(&state, &alice)), vec!["p", "s", "q", "r"]);
    assert_eq!(names(&get_trending_nfts(&state, 10)), vec!["p", "s", "q", "r"]);
    increment_nft_view(&mut state, "NFT_7".to_string()).unwrap();
    assert_eq!(names(&get_trending_nfts(&state, 10)), vec!["r", "p", "s", "q"]);
    toggle_nft_favorite(&mut state, "NFT_10".to_string()).unwrap();
    assert_eq!(names(&get_trending_nfts(&state, 10)), vec!["s", "r", "p", "q"]);
}

#[test]
fn search_by_text_collection_and_price() {
    let mut state = MarketState::new();
    let alice = person(1);
    let sea = mint_named(&mut state, &alice, "Blue Sea", Some("Water"));
    let lake = mint_named(&mut state, &alice, "Lake", Some("Water"));
    let hill = mint_named(&mut state, &alice, "Green Hill", Some("Land"));
    let dune = mint_named(&mut state, &alice, "Dune", None);
    assert_eq!(names(&search_nfts(&state, "".to_string(), no_filters())), vec!["Blue Sea", "Dune", "Lake", "Green Hill"]);
    assert_eq!(names(&search_nfts(&state, "SEA".to_string(), no_filters())), vec!["Blue Sea"]);
    assert_eq!(names(&search_nfts(&state, "about l".to_string(), no_filters())), vec!["Lake"]);
    assert_eq!(names(&search_nfts(&state, "e".to_string(), no_filters())), vec!["Blue Sea", "Dune", "Lake", "Green Hill"]);
    assert!(search_nfts(&state, "moon".to_string(), no_filters()).is_empty());

    let mut water = no_filters();
    water.collection_name = Some("Water".to_string());
    assert_eq!(names(&search_nfts(&state, "".to_string(), water)), vec!["Blue Sea", "Lake"]);
    let mut none = no_filters();
    none.collection_name = Some("water".to_string());
    assert!(search_nfts(&state, "".to_string(), none).is_empty());

    let l_sea = list_nft_for_sale(&mut state, &alice, 100, offer(&sea.id, 100, false)).unwrap();
    list_nft_for_sale(&mut state, &alice, 100, offer(&lake.id, 200, true)).unwrap();
    list_nft_for_sale(&mut state, &alice, 100, offer(&hill.id, 300, false)).unwrap();
    let priced = |min: Option<u64>, max: Option<u64>| {
        let mut f = no_filters();
        f.min_price = min;
        f.max_price = max;
        f
    };
    assert_eq!(names(&search_nfts(&state, "".to_string(), priced(Some(0), None))), vec!["Blue Sea", "Lake", "Green Hill"]);
    assert_eq!(names(&search_nfts(&state, "".to_string(), priced(Some(200), None))), vec!["Lake", "Green Hill"]);
    assert_eq!(names(&search_nfts(&state, "".to_string(), priced(None, Some(200)))), vec!["Blue Sea", "Lake"]);
    assert_eq!(names(&search_nfts(&state, "".to_string(), priced(Some(150), Some(250)))), vec!["Lake"]);
    assert_eq!(names(&search_nfts(&state, "".to_string(), priced(Some(200), Some(200)))), vec!["Lake"]);
    assert!(search_nfts(&state, "".to_string(), priced(Some(301), None)).is_empty());
    assert!(search_nfts(&state, "".to_string(), priced(Some(250), Some(150))).is_empty());
    cancel_listing(&mut state, &alice, l_sea.id).unwrap();
    assert_eq!(names(&search_nfts(&state, "".to_string(), priced(None, Some(200)))), vec!["Lake"]);
    let mut both = priced(None, Some(1000));
    both.collection_name = Some("Land".to_string());
    assert_eq!(names(&search_nfts(&state, "green".to_string(), both)), vec!["Green Hill"]);
    let mut ignored = no_filters();
    ignored.creator = Some(person(9));
    ignored.sort_by = Some("price_desc".to_string());
    assert_eq!(search_nfts(&state, "".to_string(), ignored).len(), 4);
    let _ = dune;
}

#[test]
fn collection_stats() {
    let mut state = MarketState::new();
    let alice = person(1);
    let bob = person(2);
    let carol = person(3);
    let a = mint_named(&mut state, &alice, "a", Some("Set"));
    let b = mint_named(&mut state, &alice, "b", Some("Set"));
    let c = mint_named(&mut state, &bob, "c", Some("Set"));
    let d = mint_named(&mut state, &bob, "d", Some("Other"));
    let _e = mint_named(&mut state, &bob, "e", None);
    sell(&mut state, &alice, &carol, &a.id, 100);
    sell(&mut state, &carol, &alice, &a.id, 250);
    sell(&mut state, &bob, &carol, &c.id, 51);
    sell(&mut state, &bob, &carol, &d.id, 9999);
    list_nft_for_sale(&mut state, &alice, 100, offer(&a.id, 500, false)).unwrap();
    list_nft_for_sale(&mut state, &alice, 100, offer(&b.id, 40, true)).unwrap();
    list_nft_for_sale(&mut state, &carol, 100, offer(&c.id, 300, false)).unwrap();
    list_nft_for_sale(&mut state, &carol, 100, offer(&d.id, 1, false)).unwrap();
    let stats = get_nft_collection_stats(&state, "Set".to_string());
    assert_eq!(stats.collection_name, "Set");
    assert_eq!(stats.total_supply, 3);
    assert_eq!(stats.unique_owners, 2);
    assert_eq!(stats.floor_price, Some(300));
    assert_eq!(stats.total_volume, 401);
    assert_eq!(stats.average_price, Some(133));
    assert_eq!(collection_volume(&state, &"Set".to_string()), Some(401));

    let other = get_nft_collection_stats(&state, "Other".to_string());
    assert_eq!((other.total_supply, other.unique_owners), (1, 1));
    assert_eq!(other.floor_price, Some(1));
    assert_eq!(other.total_volume, 9999);
    assert_eq!(other.average_price, Some(9999));

    let missing = get_nft_collection_stats(&state, "Nothing".to_string());
    assert_eq!((missing.total_supply, missing.unique_owners), (0, 0));
    assert_eq!(missing.floor_price, None);
    assert_eq!(missing.total_volume, 0);
    assert_eq!(missing.average_price, None);
}

#[test]
fn owners_are_counted_once() {
    let mut state = MarketState::new();
    let mut tokens = Vec::new();
    for n in [1u8, 2, 1, 3, 2, 1] {
        tokens.push(mint_named(&mut state, &person(n), "t", None));
    }
    assert_eq!(count_owners(&tokens), 3);
    assert_eq!(count_owners(&tokens[..1].to_vec()), 1);
    assert_eq!(count_owners(&Vec::new()), 0);
}

#[test]
fn history_totals() {
    let entry = |price: Option<u64>| TransferRecord {
        from: person(1),
        to: person(2),
        timestamp: 0,
        transaction_hash: None,
        price,
    };
    assert_eq!(history_total(&vec![]), Some(0));
    assert_eq!(history_total(&vec![entry(None), entry(Some(5)), entry(None), entry(Some(7))]), Some(12));
    assert_eq!(history_total(&vec![entry(Some(u64::MAX))]), Some(u64::MAX));
    assert_eq!(history_total(&vec![entry(Some(u64::MAX)), entry(Some(0))]), Some(u64::MAX));
    assert_eq!(history_total(&vec![entry(Some(u64::MAX)), entry(Some(1))]), None);
    assert_eq!(history_total(&vec![entry(Some(u64::MAX)), entry(Some(1)), entry(None)]), None);
}
