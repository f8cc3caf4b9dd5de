//! Minting tokens, handing them on, and reading the registry of tokens.

use vstd::prelude::*;
use vstd::string::*;

use crate::identity::{anonymous_bytes, principal_text, Identity};
use crate::registry::{lemma_filter_ends, lemma_filter_step, RegistryView};
use crate::storage::{generate_id, id_text, take_next, with_counter_mut, MarketState, MarketView};
use crate::text::{
    decimal, format_timestamp, image_url_accepted, lowercase, mentions, text_mentions,
    to_lowercase, validate_image_url, NANOS_PER_SECOND,
};
use crate::types::{
    view_result, CollectionStats, CollectionStatsView, Float64, IPMarketplaceError, IPNft,
    IPNftView, IntellectualProperty, IntellectualPropertyView, ListingStatus,
    MarketplaceListingView, MintNFTRequest, MintNFTRequestView, NFTMetadata, NFTMetadataView,
    NFTSearchFilters, NFTSearchFiltersView, TransferRecord, TransferRecordView,
};
use crate::user_management::{
    add_nft_to_user, other_than, remove_nft_from_user, users_with_nft, users_without_nft,
};

verus! {

/// The royalty, in percent, of a token minted without one.
pub const DEFAULT_ROYALTY_PERCENTAGE: u8 = 10;

/// The highest royalty, in percent, that a token can have.
pub const MAX_ROYALTY_PERCENTAGE: u8 = 100;

/// Whether the royalty that a mint asks for is one that a token can have: none
/// is asked for, or one of at most 100 percent.
pub open spec fn royalty_accepted(royalty: Option<u8>) -> bool {
    royalty is Some ==> royalty->0 <= MAX_ROYALTY_PERCENTAGE
}

/// Whether the royalty that a mint asks for is one that a token can have.
pub fn royalty_is_valid(royalty: Option<u8>) -> (r: bool)
    ensures
        r == royalty_accepted(royalty),
{
    match royalty {
        Some(p) => p <= MAX_ROYALTY_PERCENTAGE,
        None => true,
    }
}

/// The seconds of a timestamp in nanoseconds, as a decimal numeral.
pub open spec fn timestamp_text(timestamp: u64) -> Seq<char> {
    decimal((timestamp / NANOS_PER_SECOND) as nat)
}

/// The identifier of the token that a mint in state `s` creates.
pub open spec fn minted_id(s: MarketView) -> Seq<char> {
    id_text("NFT"@, s.counter)
}

/// Where the shown data of the token `nft_id` is found, on the host `canister`.
pub open spec fn metadata_uri(canister: Seq<u8>, nft_id: Seq<char>) -> Seq<char> {
    "ic://"@ + principal_text(canister) + "/metadata/"@ + nft_id
}

/// The entry that a mint writes into the token's history: from nobody to the creator.
pub open spec fn mint_transfer(caller: Seq<u8>, now: u64) -> TransferRecordView {
    TransferRecordView {
        from: anonymous_bytes(),
        to: caller,
        timestamp: now,
        transaction_hash: None,
        price: None,
    }
}

/// The token that `caller` mints at `now` for the work `ip`.
pub open spec fn minted_token(
    s: MarketView,
    caller: Seq<u8>,
    now: u64,
    canister: Seq<u8>,
    req: MintNFTRequestView,
    rarity_score: Float64,
) -> IPNftView {
    IPNftView {
        id: minted_id(s),
        ip_id: req.ip_id,
        token_id: (s.counter + 1) as u64,
        owner: caller,
        creator: caller,
        metadata_uri: metadata_uri(canister, minted_id(s)),
        minted_at: now,
        royalty_percentage: match req.royalty_percentage {
            Some(p) => p,
            None => DEFAULT_ROYALTY_PERCENTAGE,
        },
        is_transferable: true,
        name: req.name,
        description: req.description,
        image: req.image,
        collection_name: req.collection_name,
        edition_number: req.edition_number,
        total_editions: req.total_editions,
        rarity_rank: None,
        rarity_score: Some(rarity_score),
        transfer_history: seq![mint_transfer(caller, now)],
        view_count: 0,
        favorite_count: 0,
    }
}

/// What is shown of the token that `caller` mints at `now` for the work `ip`.
pub open spec fn minted_metadata(
    s: MarketView,
    ip: IntellectualPropertyView,
    caller: Seq<u8>,
    now: u64,
    req: MintNFTRequestView,
) -> NFTMetadataView {
    NFTMetadataView {
        token_id: minted_id(s),
        name: req.name,
        description: req.description,
        image: req.image,
        external_url: req.external_url,
        animation_url: req.animation_url,
        background_color: req.background_color,
        attributes: req.attributes,
        ip_category: ip.metadata.category,
        ip_type: ip.ip_type.label(),
        creator: principal_text(caller),
        creation_date: timestamp_text(ip.creation_date),
        jurisdiction: Some(ip.metadata.jurisdiction),
        license_type: None,
        file_type: Some("image/png"@),
        file_size: None,
        resolution: None,
        duration: None,
        minted_date: timestamp_text(now),
        blockchain: "Internet Computer"@,
        token_standard: "ICRC-7"@,
    }
}

/// Why a mint is refused, if it is: the work is not registered, the caller does
/// not own it, it has a token already, the image reference is not accepted, or
/// the royalty is above 100 percent. The first of these that holds is the answer.
pub open spec fn mint_refusal(s: MarketView, caller: Seq<u8>, req: MintNFTRequestView) -> Option<
    IPMarketplaceError,
> {
    if !s.ips.contains_key(req.ip_id) {
        Some(IPMarketplaceError::NotFound)
    } else if s.ips.map[req.ip_id].owner != caller {
        Some(IPMarketplaceError::Unauthorized)
    } else if s.ips.map[req.ip_id].nft_id is Some {
        Some(IPMarketplaceError::AlreadyExists)
    } else if !image_url_accepted(req.image) {
        Some(IPMarketplaceError::InvalidInput)
    } else if !royalty_accepted(req.royalty_percentage) {
        Some(IPMarketplaceError::InvalidInput)
    } else {
        None
    }
}

/// What a mint hands back.
pub open spec fn mint_outcome(
    s: MarketView,
    caller: Seq<u8>,
    now: u64,
    canister: Seq<u8>,
    req: MintNFTRequestView,
    rarity_score: Float64,
) -> Result<IPNftView, IPMarketplaceError> {
    match mint_refusal(s, caller, req) {
        Some(e) => Err(e),
        None => Ok(minted_token(s, caller, now, canister, req, rarity_score)),
    }
}

/// The state after a mint. A refused mint changes nothing. An accepted mint
/// draws two numbers from the counter, one for the identifier and one for the
/// ordinal, writes the token and what is shown of it, links the work to the
/// token and puts the token into the caller's profile, if the caller has one.
pub open spec fn mint_state(
    s: MarketView,
    caller: Seq<u8>,
    now: u64,
    canister: Seq<u8>,
    req: MintNFTRequestView,
    rarity_score: Float64,
) -> MarketView {
    if mint_refusal(s, caller, req) is Some {
        s
    } else {
        let ip = s.ips.map[req.ip_id];
        MarketView {
            ips: s.ips.put(
                req.ip_id,
                IntellectualPropertyView { nft_id: Some(minted_id(s)), ..ip },
            ),
            nfts: s.nfts.put(
                minted_id(s),
                minted_token(s, caller, now, canister, req, rarity_score),
            ),
            users: users_with_nft(s.users, caller, minted_id(s)),
            listings: s.listings,
            nft_metadata: s.nft_metadata.put(
                minted_id(s),
                minted_metadata(s, ip, caller, now, req),
            ),
            counter: (s.counter + 2) as u64,
        }
    }
}

/// The states that a mint that goes through passes, one after each of its
/// writes, in their order: the counter, twice; what is shown of the token; the
/// token; the work, which comes to name the token; and the caller's profile.
pub open spec fn mint_steps(
    s: MarketView,
    caller: Seq<u8>,
    now: u64,
    canister: Seq<u8>,
    req: MintNFTRequestView,
    rarity_score: Float64,
) -> Seq<MarketView> {
    let ip = s.ips.map[req.ip_id];
    let id = minted_id(s);
    let s1 = MarketView { counter: (s.counter + 1) as u64, ..s };
    let s2 = MarketView { counter: (s.counter + 2) as u64, ..s1 };
    let s3 = MarketView {
        nft_metadata: s2.nft_metadata.put(id, minted_metadata(s, ip, caller, now, req)),
        ..s2
    };
    let s4 = MarketView {
        nfts: s3.nfts.put(id, minted_token(s, caller, now, canister, req, rarity_score)),
        ..s3
    };
    let s5 = MarketView {
        ips: s4.ips.put(req.ip_id, IntellectualPropertyView { nft_id: Some(id), ..ip }),
        ..s4
    };
    let s6 = MarketView { users: users_with_nft(s5.users, caller, id), ..s5 };
    seq![s1, s2, s3, s4, s5, s6]
}

/// The writes of a mint end in the state that the mint leaves behind.
pub proof fn lemma_mint_steps_end(
    s: MarketView,
    caller: Seq<u8>,
    now: u64,
    canister: Seq<u8>,
    req: MintNFTRequestView,
    rarity_score: Float64,
)
    requires
        mint_refusal(s, caller, req) is None,
    ensures
        mint_steps(s, caller, now, canister, req, rarity_score).len() == 6,
        mint_steps(s, caller, now, canister, req, rarity_score).last() == mint_state(
            s,
            caller,
            now,
            canister,
            req,
            rarity_score,
        ),
{
}

/// Mints the token of a registered work for its owner. The rarity score is
/// handed in; it is carried and not computed here.
pub fn mint_ip_nft(
    state: &mut MarketState,
    caller: &Identity,
    now: u64,
    canister: &Identity,
    request: MintNFTRequest,
    rarity_score: Float64,
) -> (r: Result<IPNft, IPMarketplaceError>)
    requires
        mint_refusal(old(state)@, caller@, request@) is None ==> old(state).counter + 2
            <= u64::MAX,
    ensures
        view_result(r) == mint_outcome(
            old(state)@,
            caller@,
            now,
            canister@,
            request@,
            rarity_score,
        ),
        final(state)@ == mint_state(old(state)@, caller@, now, canister@, request@, rarity_score),
{
    let ghost s = state@;
    let ghost req = request@;
    let ip = match state.ips.get(&request.ip_id) {
        Some(ip) => ip.clone(),
        None => {
            return Err(IPMarketplaceError::NotFound);
        },
    };
    if !ip.owner.same(caller) {
        return Err(IPMarketplaceError::Unauthorized);
    }
    if ip.nft_id.is_some() {
        return Err(IPMarketplaceError::AlreadyExists);
    }
    if !validate_image_url(request.image.as_str()) {
        return Err(IPMarketplaceError::InvalidInput);
    }
    if !royalty_is_valid(request.royalty_percentage) {
        return Err(IPMarketplaceError::InvalidInput);
    }
    // After each write the state is the one that `mint_steps` names for it.
    let ghost steps = mint_steps(s, caller@, now, canister@, req, rarity_score);
    let nft_id = generate_id(state, "NFT");
    assert(state@ == steps[0]);
    let token_id = with_counter_mut(state, take_next);
    assert(state@ == steps[1]);

    let metadata = NFTMetadata {
        token_id: nft_id.clone(),
        name: request.name.clone(),
        description: request.description.clone(),
        image: request.image.clone(),
        external_url: request.external_url,
        animation_url: request.animation_url,
        background_color: request.background_color,
        attributes: request.attributes,
        ip_category: ip.metadata.category.clone(),
        ip_type: ip.ip_type.label(),
        creator: caller.to_text(),
        creation_date: format_timestamp(ip.creation_date),
        jurisdiction: Some(ip.metadata.jurisdiction.clone()),
        license_type: None,
        file_type: Some(String::from_str("image/png")),
        file_size: None,
        resolution: None,
        duration: None,
        minted_date: format_timestamp(now),
        blockchain: String::from_str("Internet Computer"),
        token_standard: String::from_str("ICRC-7"),
    };
    assert(metadata@ == minted_metadata(s, ip@, caller@, now, req));
    state.nft_metadata.insert(nft_id.clone(), metadata);
    assert(state@ == steps[2]);

    let host = canister.to_text();
    let uri = String::from_str("ic://").concat(host.as_str()).concat("/metadata/").concat(
        nft_id.as_str(),
    );
    let mut history: Vec<TransferRecord> = Vec::new();
    history.push(
        TransferRecord {
            from: Identity::anonymous(),
            to: caller.clone(),
            timestamp: now,
            transaction_hash: None,
            price: None,
        },
    );
    assert(history.deep_view() =~= seq![mint_transfer(caller@, now)]);
    let nft = IPNft {
        id: nft_id.clone(),
        ip_id: request.ip_id.clone(),
        token_id,
        owner: caller.clone(),
        creator: caller.clone(),
        metadata_uri: uri,
        minted_at: now,
        royalty_percentage: match request.royalty_percentage {
            Some(p) => p,
            None => DEFAULT_ROYALTY_PERCENTAGE,
        },
        is_transferable: true,
        name: request.name,
        description: request.description,
        image: request.image,
        collection_name: request.collection_name,
        edition_number: request.edition_number,
        total_editions: request.total_editions,
        rarity_rank: None,
        rarity_score: Some(rarity_score),
        transfer_history: history,
        view_count: 0,
        favorite_count: 0,
    };
    assert(nft@ == minted_token(s, caller@, now, canister@, req, rarity_score));
    state.nfts.insert(nft_id.clone(), nft.clone());
    assert(state@ == steps[3]);
    let mut updated_ip = ip;
    updated_ip.nft_id = Some(nft_id.clone());
    state.ips.insert(request.ip_id, updated_ip);
    assert(state@ == steps[4]);
    add_nft_to_user(state, caller, nft_id);
    assert(state@ == steps[5]);
    Ok(nft)
}

/// What handing a token on returns: `true` where it changes hands; else why it
/// does not. The token must be there, the caller must own it, and it must be transferable.
pub open spec fn transfer_outcome(s: MarketView, caller: Seq<u8>, nft_id: Seq<char>) -> Result<
    bool,
    IPMarketplaceError,
> {
    if !s.nfts.contains_key(nft_id) {
        Err(IPMarketplaceError::NotFound)
    } else if s.nfts.map[nft_id].owner != caller {
        Err(IPMarketplaceError::Unauthorized)
    } else if !s.nfts.map[nft_id].is_transferable {
        Err(IPMarketplaceError::NFTNotTransferable)
    } else {
        Ok(true)
    }
}

/// The entry that a handing on without a price writes into the token's history.
pub open spec fn gift_transfer(from: Seq<u8>, to: Seq<u8>, now: u64) -> TransferRecordView {
    TransferRecordView { from, to, timestamp: now, transaction_hash: None, price: None }
}

/// The token after `from` handed it to `to`.
pub open spec fn moved_token(t: IPNftView, from: Seq<u8>, to: Seq<u8>, now: u64) -> IPNftView {
    IPNftView {
        owner: to,
        transfer_history: t.transfer_history.push(gift_transfer(from, to, now)),
        ..t
    }
}

/// The state after a token was to be handed on. Where it changes hands, the
/// token is written first, then it leaves the caller's list and enters the
/// receiver's. Whoever has no profile is passed over.
pub open spec fn transfer_state(
    s: MarketView,
    caller: Seq<u8>,
    now: u64,
    nft_id: Seq<char>,
    to: Seq<u8>,
) -> MarketView {
    if transfer_outcome(s, caller, nft_id) is Ok {
        MarketView {
            nfts: s.nfts.put(nft_id, moved_token(s.nfts.map[nft_id], caller, to, now)),
            users: users_with_nft(users_without_nft(s.users, caller, nft_id), to, nft_id),
            ..s
        }
    } else {
        s
    }
}

/// The states that a handing on that goes through passes, one after each of its
/// writes, in their order: the token, which goes to the receiver; the caller's
/// profile, which loses the token; and the receiver's profile, which gains it.
pub open spec fn transfer_steps(
    s: MarketView,
    caller: Seq<u8>,
    now: u64,
    nft_id: Seq<char>,
    to: Seq<u8>,
) -> Seq<MarketView> {
    let s1 = MarketView {
        nfts: s.nfts.put(nft_id, moved_token(s.nfts.map[nft_id], caller, to, now)),
        ..s
    };
    let s2 = MarketView { users: users_without_nft(s1.users, caller, nft_id), ..s1 };
    let s3 = MarketView { users: users_with_nft(s2.users, to, nft_id), ..s2 };
    seq![s1, s2, s3]
}

/// The writes of a handing on end in the state that it leaves behind.
pub proof fn lemma_transfer_steps_end(
    s: MarketView,
    caller: Seq<u8>,
    now: u64,
    nft_id: Seq<char>,
    to: Seq<u8>,
)
    requires
        transfer_outcome(s, caller, nft_id) is Ok,
    ensures
        transfer_steps(s, caller, now, nft_id, to).len() == 3,
        transfer_steps(s, caller, now, nft_id, to).last() == transfer_state(
            s,
            caller,
            now,
            nft_id,
            to,
        ),
{
}

/// Hands a token of the caller's to `to`, without a price.
pub fn transfer_nft(
    state: &mut MarketState,
    caller: &Identity,
    now: u64,
    nft_id: String,
    to: &Identity,
) -> (r: Result<bool, IPMarketplaceError>)
    ensures
        r == transfer_outcome(old(state)@, caller@, nft_id@),
        final(state)@ == transfer_state(old(state)@, caller@, now, nft_id@, to@),
{
    let mut nft = match state.nfts.get(&nft_id) {
        Some(nft) => nft.clone(),
        None => {
            return Err(IPMarketplaceError::NotFound);
        },
    };
    if !nft.owner.same(caller) {
        return Err(IPMarketplaceError::Unauthorized);
    }
    if !nft.is_transferable {
        return Err(IPMarketplaceError::NFTNotTransferable);
    }
    // After each write the state is the one that `transfer_steps` names for it.
    let ghost steps = transfer_steps(state@, caller@, now, nft_id@, to@);
    let ghost before = nft@;
    nft.owner = to.clone();
    nft.transfer_history.push(
        TransferRecord {
            from: caller.clone(),
            to: to.clone(),
            timestamp: now,
            transaction_hash: None,
            price: None,
        },
    );
    assert(nft.transfer_history.deep_view() =~= before.transfer_history.push(
        gift_transfer(caller@, to@, now),
    ));
    state.nfts.insert(nft_id.clone(), nft);
    assert(state@ == steps[0]);
    remove_nft_from_user(state, caller, &nft_id);
    assert(state@ == steps[1]);
    add_nft_to_user(state, to, nft_id);
    assert(state@ == steps[2]);
    Ok(true)
}

/// What looking up what is shown of a token hands back.
pub open spec fn metadata_of(s: MarketView, nft_id: Seq<char>) -> Result<
    NFTMetadataView,
    IPMarketplaceError,
> {
    if s.nft_metadata.contains_key(nft_id) {
        Ok(s.nft_metadata.map[nft_id])
    } else {
        Err(IPMarketplaceError::NotFound)
    }
}

/// What is shown of the token `nft_id`.
pub fn get_nft_metadata(state: &MarketState, nft_id: String) -> (r: Result<
    NFTMetadata,
    IPMarketplaceError,
>)
    ensures
        view_result(r) == metadata_of(state@, nft_id@),
{
    match state.nft_metadata.get(&nft_id) {
        Some(m) => Ok(m.clone()),
        None => Err(IPMarketplaceError::NotFound),
    }
}

/// What looking up a token hands back.
pub open spec fn token_of(s: MarketView, nft_id: Seq<char>) -> Result<IPNftView, IPMarketplaceError> {
    if s.nfts.contains_key(nft_id) {
        Ok(s.nfts.map[nft_id])
    } else {
        Err(IPMarketplaceError::NotFound)
    }
}

/// The token `nft_id`.
pub fn get_nft_by_id(state: &MarketState, nft_id: String) -> (r: Result<IPNft, IPMarketplaceError>)
    ensures
        view_result(r) == token_of(state@, nft_id@),
{
    match state.nfts.get(&nft_id) {
        Some(nft) => Ok(nft.clone()),
        None => Err(IPMarketplaceError::NotFound),
    }
}

/// What looking up a token with all that belongs to it hands back: the token,
/// what is shown of it, and the work it was minted for, where all three are there.
pub open spec fn full_details_of(s: MarketView, nft_id: Seq<char>) -> Result<
    (IPNftView, NFTMetadataView, IntellectualPropertyView),
    IPMarketplaceError,
> {
    if s.nfts.contains_key(nft_id) && s.nft_metadata.contains_key(nft_id) && s.ips.contains_key(
        s.nfts.map[nft_id].ip_id,
    ) {
        Ok((s.nfts.map[nft_id], s.nft_metadata.map[nft_id], s.ips.map[s.nfts.map[nft_id].ip_id]))
    } else {
        Err(IPMarketplaceError::NotFound)
    }
}

/// The token `nft_id`, what is shown of it, and the work it was minted for.
pub fn get_nft_full_details(state: &MarketState, nft_id: String) -> (r: Result<
    (IPNft, NFTMetadata, IntellectualProperty),
    IPMarketplaceError,
>)
    ensures
        match r {
            Ok(found) => full_details_of(state@, nft_id@) == Ok::<
                (IPNftView, NFTMetadataView, IntellectualPropertyView),
                IPMarketplaceError,
            >((found.0@, found.1@, found.2@)),
            Err(e) => full_details_of(state@, nft_id@) == Err::<
                (IPNftView, NFTMetadataView, IntellectualPropertyView),
                IPMarketplaceError,
            >(e),
        },
{
    let nft = match state.nfts.get(&nft_id) {
        Some(nft) => nft.clone(),
        None => {
            return Err(IPMarketplaceError::NotFound);
        },
    };
    let metadata = match state.nft_metadata.get(&nft_id) {
        Some(m) => m.clone(),
        None => {
            return Err(IPMarketplaceError::NotFound);
        },
    };
    let ip = match state.ips.get(&nft.ip_id) {
        Some(ip) => ip.clone(),
        None => {
            return Err(IPMarketplaceError::NotFound);
        },
    };
    Ok((nft, metadata, ip))
}

/// The tokens that meet `pred`, in the order of their identifiers.
pub open spec fn tokens_where(s: MarketView, pred: spec_fn(IPNftView) -> bool) -> Seq<IPNftView> {
    s.nfts.values().filter(pred)
}

/// What is true of the tokens that `user` owns.
pub open spec fn owned_by(user: Seq<u8>) -> spec_fn(IPNftView) -> bool {
    |t: IPNftView| t.owner == user
}

/// The tokens that `user` owns by the registry of tokens, in the order of their identifiers.
pub fn get_user_nfts(state: &MarketState, user: &Identity) -> (r: Vec<IPNft>)
    ensures
        r.deep_view() == tokens_where(state@, owned_by(user@)),
{
    let ghost pred = owned_by(user@);
    let ghost values = state@.nfts.values();
    let n = state.nfts.count();
    let mut out: Vec<IPNft> = Vec::new();
    let mut i: usize = 0;
    proof {
        lemma_filter_ends(values, pred);
    }
    while i < n
        invariant
            i <= n,
            n == state@.nfts.len(),
            values == state@.nfts.values(),
            out.deep_view() == values.take(i as int).filter(pred),
            pred == owned_by(user@),
        decreases n - i,
    {
        let t = state.nfts.value_at(i);
        proof {
            lemma_filter_step(values, i as int, pred);
        }
        if t.owner.same(user) {
            let ghost was = out.deep_view();
            out.push(t.clone());
            assert(out.deep_view() =~= was.push(t@));
        }
        i += 1;
    }
    proof {
        lemma_filter_ends(values, pred);
    }
    out
}

/// What counting a view hands back: the new count, or `NotFound` where the
/// token is not there.
pub open spec fn view_outcome(s: MarketView, nft_id: Seq<char>) -> Result<u64, IPMarketplaceError> {
    if s.nfts.contains_key(nft_id) {
        Ok((s.nfts.map[nft_id].view_count + 1) as u64)
    } else {
        Err(IPMarketplaceError::NotFound)
    }
}

/// Whether the views of the token `nft_id` can be counted one further.
pub open spec fn view_fits(s: MarketView, nft_id: Seq<char>) -> bool {
    s.nfts.contains_key(nft_id) ==> s.nfts.map[nft_id].view_count < u64::MAX
}

/// The state after a view of the token `nft_id` was counted.
pub open spec fn view_state(s: MarketView, nft_id: Seq<char>) -> MarketView {
    if s.nfts.contains_key(nft_id) {
        let t = s.nfts.map[nft_id];
        MarketView {
            nfts: s.nfts.put(nft_id, IPNftView { view_count: (t.view_count + 1) as u64, ..t }),
            ..s
        }
    } else {
        s
    }
}

/// Whether the views of the token `nft_id` can be counted one further.
pub fn view_has_room(state: &MarketState, nft_id: &String) -> (r: bool)
    ensures
        r == view_fits(state@, nft_id@),
{
    match state.nfts.get(nft_id) {
        Some(t) => t.view_count < u64::MAX,
        None => true,
    }
}

/// Counts one more view of a token and hands back the new count.
pub fn increment_nft_view(state: &mut MarketState, nft_id: String) -> (r: Result<
    u64,
    IPMarketplaceError,
>)
    requires
        view_fits(old(state)@, nft_id@),
    ensures
        r == view_outcome(old(state)@, nft_id@),
        final(state)@ == view_state(old(state)@, nft_id@),
{
    let found = match state.nfts.get(&nft_id) {
        Some(nft) => Some(nft.clone()),
        None => None,
    };
    match found {
        Some(mut nft) => {
            nft.view_count = nft.view_count + 1;
            let new_count = nft.view_count;
            state.nfts.insert(nft_id, nft);
            Ok(new_count)
        },
        None => Err(IPMarketplaceError::NotFound),
    }
}

/// What counting a favourite hands back: the new count, or `NotFound` where
/// the token is not there.
pub open spec fn favorite_outcome(s: MarketView, nft_id: Seq<char>) -> Result<
    u64,
    IPMarketplaceError,
> {
    if s.nfts.contains_key(nft_id) {
        Ok((s.nfts.map[nft_id].favorite_count + 1) as u64)
    } else {
        Err(IPMarketplaceError::NotFound)
    }
}

/// Whether the favourites of the token `nft_id` can be counted one further.
pub open spec fn favorite_fits(s: MarketView, nft_id: Seq<char>) -> bool {
    s.nfts.contains_key(nft_id) ==> s.nfts.map[nft_id].favorite_count < u64::MAX
}

/// The state after a favourite of the token `nft_id` was counted.
pub open spec fn favorite_state(s: MarketView, nft_id: Seq<char>) -> MarketView {
    if s.nfts.contains_key(nft_id) {
        let t = s.nfts.map[nft_id];
        MarketView {
            nfts: s.nfts.put(
                nft_id,
                IPNftView { favorite_count: (t.favorite_count + 1) as u64, ..t },
            ),
            ..s
        }
    } else {
        s
    }
}

/// Whether the favourites of the token `nft_id` can be counted one further.
pub fn favorite_has_room(state: &MarketState, nft_id: &String) -> (r: bool)
    ensures
        r == favorite_fits(state@, nft_id@),
{
    match state.nfts.get(nft_id) {
        Some(t) => t.favorite_count < u64::MAX,
        None => true,
    }
}

/// Counts one more favourite of a token and hands back the new count. Who
/// favours is not kept, so every call counts.
pub fn toggle_nft_favorite(state: &mut MarketState, nft_id: String) -> (r: Result<
    u64,
    IPMarketplaceError,
>)
    requires
        favorite_fits(old(state)@, nft_id@),
    ensures
        r == favorite_outcome(old(state)@, nft_id@),
        final(state)@ == favorite_state(old(state)@, nft_id@),
{
    let found = match state.nfts.get(&nft_id) {
        Some(nft) => Some(nft.clone()),
        None => None,
    };
    match found {
        Some(mut nft) => {
            nft.favorite_count = nft.favorite_count + 1;
            let new_count = nft.favorite_count;
            state.nfts.insert(nft_id, nft);
            Ok(new_count)
        },
        None => Err(IPMarketplaceError::NotFound),
    }
}

/// What looking up the history of a token hands back.
pub open spec fn history_of(s: MarketView, nft_id: Seq<char>) -> Result<
    Seq<TransferRecordView>,
    IPMarketplaceError,
> {
    if s.nfts.contains_key(nft_id) {
        Ok(s.nfts.map[nft_id].transfer_history)
    } else {
        Err(IPMarketplaceError::NotFound)
    }
}

/// The history of the token `nft_id`, the mint first.
pub fn get_nft_history(state: &MarketState, nft_id: String) -> (r: Result<
    Vec<TransferRecord>,
    IPMarketplaceError,
>)
    ensures
        match r {
            Ok(h) => history_of(state@, nft_id@) == Ok::<
                Seq<TransferRecordView>,
                IPMarketplaceError,
            >(h.deep_view()),
            Err(e) => history_of(state@, nft_id@) == Err::<
                Seq<TransferRecordView>,
                IPMarketplaceError,
            >(e),
        },
{
    match state.nfts.get(&nft_id) {
        Some(nft) => {
            let h = nft.transfer_history.clone();
            assert(h.deep_view() =~= nft.transfer_history.deep_view());
            Ok(h)
        },
        None => Err(IPMarketplaceError::NotFound),
    }
}

/// The tokens under the given identifiers, one answer for each identifier in
/// its place: the token, or nothing where there is none.
pub fn get_nfts_batch(state: &MarketState, nft_ids: Vec<String>) -> (r: Vec<Option<IPNft>>)
    ensures
        r.deep_view() == Seq::new(
            nft_ids@.len(),
            |i: int| state@.nfts.get(nft_ids.deep_view()[i]),
        ),
{
    let mut out: Vec<Option<IPNft>> = Vec::new();
    let mut i: usize = 0;
    while i < nft_ids.len()
        invariant
            i <= nft_ids@.len(),
            out@.len() == i,
            forall|j: int| 0 <= j < i ==> out.deep_view()[j] == state@.nfts.get(nft_ids.deep_view()[j]),
        decreases nft_ids@.len() - i,
    {
        let ghost was = out.deep_view();
        let found = match state.nfts.get(&nft_ids[i]) {
            Some(nft) => Some(nft.clone()),
            None => None,
        };
        out.push(found);
        assert(out.deep_view() =~= was.push(found.deep_view()));
        i += 1;
    }
    assert(out.deep_view() =~= Seq::new(
        nft_ids@.len(),
        |i: int| state@.nfts.get(nft_ids.deep_view()[i]),
    ));
    out
}

/// How much a token has drawn: its views and its favourites together.
pub open spec fn attention(t: IPNftView) -> int {
    t.view_count + t.favorite_count
}

/// Where a token belongs among tokens ranked by what they have drawn: behind
/// the last one that has drawn at least as much.
pub open spec fn trending_place(ranked: Seq<IPNftView>, t: IPNftView) -> int
    decreases ranked.len(),
{
    if ranked.len() == 0 {
        0
    } else if attention(ranked.last()) >= attention(t) {
        ranked.len() as int
    } else {
        trending_place(ranked.drop_last(), t)
    }
}

/// The tokens ranked by what they have drawn, the most first. Tokens that have
/// drawn the same stay in the order in which they come in `values`.
pub open spec fn by_attention(values: Seq<IPNftView>) -> Seq<IPNftView>
    decreases values.len(),
{
    if values.len() == 0 {
        Seq::empty()
    } else {
        let ranked = by_attention(values.drop_last());
        ranked.insert(trending_place(ranked, values.last()), values.last())
    }
}

/// The place of a token among ranked tokens lies within them; all before it
/// have drawn at least as much, and all from it on have drawn less.
pub proof fn lemma_trending_place(ranked: Seq<IPNftView>, t: IPNftView)
    ensures
        0 <= trending_place(ranked, t) <= ranked.len(),
        trending_place(ranked, t) > 0 ==> attention(ranked[trending_place(ranked, t) - 1])
            >= attention(t),
        forall|j: int|
            trending_place(ranked, t) <= j < ranked.len() ==> attention(#[trigger] ranked[j])
                < attention(t),
    decreases ranked.len(),
{
    if ranked.len() > 0 && attention(ranked.last()) < attention(t) {
        lemma_trending_place(ranked.drop_last(), t);
        let p = trending_place(ranked, t);
        assert forall|j: int| p <= j < ranked.len() implies attention(#[trigger] ranked[j])
            < attention(t) by {
            if j < ranked.len() - 1 {
                assert(ranked[j] == ranked.drop_last()[j]);
            }
        }
        if p > 0 {
            assert(ranked[p - 1] == ranked.drop_last()[p - 1]);
        }
    }
}

/// Ranking keeps every token and puts those that have drawn more before those
/// that have drawn less.
pub proof fn lemma_by_attention(values: Seq<IPNftView>)
    ensures
        by_attention(values).len() == values.len(),
        forall|i: int, j: int|
            0 <= i < j < values.len() ==> attention(#[trigger] by_attention(values)[i])
                >= attention(#[trigger] by_attention(values)[j]),
    decreases values.len(),
{
    if values.len() > 0 {
        let front = by_attention(values.drop_last());
        let t = values.last();
        let p = trending_place(front, t);
        lemma_by_attention(values.drop_last());
        lemma_trending_place(front, t);
        let all = by_attention(values);
        assert forall|i: int, j: int| 0 <= i < j < values.len() implies attention(
            #[trigger] all[i],
        ) >= attention(#[trigger] all[j]) by {
            if j < p {
                assert(all[i] == front[i] && all[j] == front[j]);
            } else if j == p {
                assert(all[i] == front[i]);
                if i < p - 1 {
                    assert(attention(front[i]) >= attention(front[p - 1]));
                }
            } else if i < p {
                assert(all[i] == front[i] && all[j] == front[j - 1]);
                if i < j - 1 {
                    assert(attention(front[i]) >= attention(front[j - 1]));
                }
            } else if i == p {
                assert(all[j] == front[j - 1]);
            } else {
                assert(all[i] == front[i - 1] && all[j] == front[j - 1]);
                assert(attention(front[i - 1]) >= attention(front[j - 1]));
            }
        }
    }
}

/// The `limit` tokens that have drawn the most, the most first; all tokens
/// where there are no more than `limit`.
pub open spec fn trending(s: MarketView, limit: usize) -> Seq<IPNftView> {
    let all = by_attention(s.nfts.values());
    if limit < all.len() {
        all.take(limit as int)
    } else {
        all
    }
}

/// The tokens that have drawn the most views and favourites, at most `limit` of them.
pub fn get_trending_nfts(state: &MarketState, limit: usize) -> (r: Vec<IPNft>)
    ensures
        r.deep_view() == trending(state@, limit),
{
    let ghost values = state@.nfts.values();
    let n = state.nfts.count();
    let mut out: Vec<IPNft> = Vec::new();
    let mut i: usize = 0;
    assert(values.take(0) =~= Seq::empty());
    assert(out.deep_view() =~= Seq::empty());
    while i < n
        invariant
            i <= n,
            n == state@.nfts.len(),
            values == state@.nfts.values(),
            out@.len() == i,
            out.deep_view() == by_attention(values.take(i as int)),
        decreases n - i,
    {
        let t = state.nfts.value_at(i);
        let weight: u128 = t.view_count as u128 + t.favorite_count as u128;
        let ghost ranked = out.deep_view();
        let mut p: usize = out.len();
        assert(ranked.take(p as int) =~= ranked);
        while p > 0 && (out[p - 1].view_count as u128 + out[p - 1].favorite_count as u128) < weight
            invariant
                p <= out@.len(),
                ranked == out.deep_view(),
                weight == attention(t@),
                trending_place(ranked, t@) == trending_place(ranked.take(p as int), t@),
            decreases p,
        {
            assert(ranked.take(p as int).drop_last() =~= ranked.take(p - 1));
            assert(ranked.take(p as int).last() == out@[p - 1]@);
            p -= 1;
        }
        proof {
            if p > 0 {
                assert(ranked.take(p as int).last() == out@[p - 1]@);
            }
            assert(trending_place(ranked, t@) == p);
            assert(values.take(i + 1).drop_last() =~= values.take(i as int));
        }
        out.insert(p, t.clone());
        assert(out.deep_view() =~= ranked.insert(p as int, t@));
        i += 1;
    }
    assert(values.take(i as int) =~= values);
    let ghost all = out.deep_view();
    out.truncate(limit);
    proof {
        if limit < all.len() {
            assert(out.deep_view() =~= all.take(limit as int));
        } else {
            assert(out.deep_view() =~= all);
        }
    }
    out
}

/// Whether the listing is open, offers the token `nft_id`, and asks a price
/// within the bounds that are given.
pub open spec fn priced_within(
    l: MarketplaceListingView,
    nft_id: Seq<char>,
    min: Option<u64>,
    max: Option<u64>,
) -> bool {
    &&& l.nft_id == nft_id
    &&& l.status.is_open()
    &&& min is Some ==> l.price >= min->0
    &&& max is Some ==> l.price <= max->0
}

/// Whether the token meets the bounds on the price: no bound is given, or some
/// open listing offers the token within them.
pub open spec fn price_filter_met(
    listings: RegistryView<MarketplaceListingView>,
    nft_id: Seq<char>,
    min: Option<u64>,
    max: Option<u64>,
) -> bool {
    (min is None && max is None) || exists|id: Seq<char>|
        listings.map.contains_key(id) && priced_within(#[trigger] listings.map[id], nft_id, min, max)
}

/// Whether a search finds the token: its name or its description holds the
/// query, whatever the case of the letters; it is of the collection, where one
/// is asked for; and it meets the bounds on the price. The creator and the
/// order that the filters name are not looked at.
pub open spec fn search_hit(
    s: MarketView,
    t: IPNftView,
    query_lower: Seq<char>,
    filters: NFTSearchFiltersView,
) -> bool {
    &&& mentions(t.name, query_lower) || mentions(t.description, query_lower)
    &&& filters.collection_name is Some ==> t.collection_name == filters.collection_name
    &&& price_filter_met(s.listings, t.id, filters.min_price, filters.max_price)
}

/// What is true of the tokens that a search for `query_lower` finds under `filters`.
pub open spec fn found_by(
    s: MarketView,
    query_lower: Seq<char>,
    filters: NFTSearchFiltersView,
) -> spec_fn(IPNftView) -> bool {
    |t: IPNftView| search_hit(s, t, query_lower, filters)
}

/// Whether the token meets the bounds on the price.
pub fn token_meets_price(
    state: &MarketState,
    nft_id: &String,
    min: Option<u64>,
    max: Option<u64>,
) -> (r: bool)
    ensures
        r == price_filter_met(state@.listings, nft_id@, min, max),
{
    if min.is_none() && max.is_none() {
        return true;
    }
    let n = state.listings.count();
    let mut i: usize = 0;
    while i < n
        invariant
            i <= n,
            n == state@.listings.len(),
            state@.listings.wf(),
            forall|j: int|
                0 <= j < i ==> !priced_within(state@.listings.value_at(j), nft_id@, min, max),
        decreases n - i,
    {
        let l = state.listings.value_at(i);
        let above = match min {
            Some(m) => l.price >= m,
            None => true,
        };
        let below = match max {
            Some(m) => l.price <= m,
            None => true,
        };
        if l.nft_id == *nft_id && above && below && l.status.open_for_offers() {
            assert(priced_within(
                state@.listings.map[state@.listings.keys[i as int]],
                nft_id@,
                min,
                max,
            ));
            return true;
        }
        i += 1;
    }
    proof {
        state@.listings.lemma_values();
        assert forall|id: Seq<char>| state@.listings.map.contains_key(id) implies !priced_within(
            #[trigger] state@.listings.map[id],
            nft_id@,
            min,
            max,
        ) by {
            let j = state@.listings.keys.index_of(id);
            assert(!priced_within(state@.listings.value_at(j), nft_id@, min, max));
        }
    }
    false
}

/// The tokens that a search for `query` finds under `filters`, in the order of
/// their identifiers.
pub fn search_nfts(state: &MarketState, query: String, filters: NFTSearchFilters) -> (r: Vec<IPNft>)
    ensures
        r.deep_view() == tokens_where(state@, found_by(state@, lowercase(query@), filters@)),
{
    let query_lower = to_lowercase(query.as_str());
    let ghost pred = found_by(state@, lowercase(query@), filters@);
    let ghost values = state@.nfts.values();
    let n = state.nfts.count();
    let mut out: Vec<IPNft> = Vec::new();
    let mut i: usize = 0;
    proof {
        lemma_filter_ends(values, pred);
    }
    while i < n
        invariant
            i <= n,
            n == state@.nfts.len(),
            values == state@.nfts.values(),
            query_lower@ == lowercase(query@),
            out.deep_view() == values.take(i as int).filter(pred),
            pred == found_by(state@, lowercase(query@), filters@),
        decreases n - i,
    {
        let t = state.nfts.value_at(i);
        proof {
            lemma_filter_step(values, i as int, pred);
        }
        let matches_query = text_mentions(t.name.as_str(), query_lower.as_str()) || text_mentions(
            t.description.as_str(),
            query_lower.as_str(),
        );
        let matches_collection = match &filters.collection_name {
            Some(collection) => match &t.collection_name {
                Some(c) => *c == *collection,
                None => false,
            },
            None => true,
        };
        let matches_price_range = token_meets_price(
            state,
            &t.id,
            filters.min_price,
            filters.max_price,
        );
        if matches_query && matches_collection && matches_price_range {
            let ghost was = out.deep_view();
            out.push(t.clone());
            assert(out.deep_view() =~= was.push(t@));
        }
        i += 1;
    }
    proof {
        lemma_filter_ends(values, pred);
    }
    out
}

/// The prices in a token's history, all together.
pub open spec fn history_volume(history: Seq<TransferRecordView>) -> int
    decreases history.len(),
{
    if history.len() == 0 {
        0
    } else {
        history_volume(history.drop_last()) + match history.last().price {
            Some(p) => p as int,
            None => 0,
        }
    }
}

/// The prices in the histories of the tokens, all together.
pub open spec fn tokens_volume(tokens: Seq<IPNftView>) -> int
    decreases tokens.len(),
{
    if tokens.len() == 0 {
        0
    } else {
        tokens_volume(tokens.drop_last()) + history_volume(tokens.last().transfer_history)
    }
}

/// The prices in a history sum to nothing negative.
pub proof fn lemma_history_volume_nonnegative(history: Seq<TransferRecordView>)
    ensures
        0 <= history_volume(history),
    decreases history.len(),
{
    if history.len() > 0 {
        lemma_history_volume_nonnegative(history.drop_last());
    }
}

/// The first entries of a history sum to no more than all of them.
pub proof fn lemma_history_volume_grows(history: Seq<TransferRecordView>, i: int)
    requires
        0 <= i <= history.len(),
    ensures
        0 <= history_volume(history.take(i)) <= history_volume(history),
    decreases history.len() - i,
{
    if i == history.len() {
        assert(history.take(i) =~= history);
        lemma_history_volume_nonnegative(history);
    } else {
        lemma_history_volume_grows(history, i + 1);
        lemma_history_volume_nonnegative(history.take(i));
        assert(history.take(i + 1).drop_last() =~= history.take(i));
    }
}

/// The prices in the histories of tokens sum to nothing negative.
pub proof fn lemma_tokens_volume_nonnegative(tokens: Seq<IPNftView>)
    ensures
        0 <= tokens_volume(tokens),
    decreases tokens.len(),
{
    if tokens.len() > 0 {
        lemma_tokens_volume_nonnegative(tokens.drop_last());
        lemma_history_volume_nonnegative(tokens.last().transfer_history);
    }
}

/// The first tokens of a walk sum to no more than all of them.
pub proof fn lemma_tokens_volume_grows(tokens: Seq<IPNftView>, i: int)
    requires
        0 <= i <= tokens.len(),
    ensures
        0 <= tokens_volume(tokens.take(i)) <= tokens_volume(tokens),
    decreases tokens.len() - i,
{
    if i == tokens.len() {
        assert(tokens.take(i) =~= tokens);
        lemma_tokens_volume_nonnegative(tokens);
    } else {
        lemma_tokens_volume_grows(tokens, i + 1);
        lemma_tokens_volume_nonnegative(tokens.take(i));
        lemma_history_volume_nonnegative(tokens[i].transfer_history);
        assert(tokens.take(i + 1).drop_last() =~= tokens.take(i));
    }
}

/// The prices in a token's history, all together, or `None` where the sum is
/// beyond the range of a volume.
pub fn history_total(history: &Vec<TransferRecord>) -> (r: Option<u64>)
    ensures
        r == if history_volume(history.deep_view()) <= u64::MAX {
            Some(history_volume(history.deep_view()) as u64)
        } else {
            None
        },
{
    let ghost h = history.deep_view();
    let mut total: u64 = 0;
    let mut i: usize = 0;
    assert(h.take(0) =~= Seq::empty());
    while i < history.len()
        invariant
            i <= history@.len(),
            h == history.deep_view(),
            total == history_volume(h.take(i as int)),
        decreases history@.len() - i,
    {
        proof {
            assert(h.take(i + 1).drop_last() =~= h.take(i as int));
            lemma_history_volume_grows(h, i + 1);
        }
        match history[i].price {
            Some(p) => {
                if p > u64::MAX - total {
                    return None;
                }
                total = total + p;
            },
            None => {},
        }
        i += 1;
    }
    assert(h.take(i as int) =~= h);
    Some(total)
}

/// Whether the token is of the collection `name`.
pub open spec fn in_collection(t: IPNftView, name: Seq<char>) -> bool {
    t.collection_name == Some(name)
}

/// Whether the listing is `Active` and offers one of the tokens.
pub open spec fn lists_one_of(l: MarketplaceListingView, tokens: Seq<IPNftView>) -> bool {
    l.status == ListingStatus::Active && exists|i: int|
        0 <= i < tokens.len() && (#[trigger] tokens[i]).id == l.nft_id
}

/// The lowest price at which a listing among `values` that is `Active` offers
/// one of the tokens, if there is such a listing. An auction does not count.
pub open spec fn floor_price(values: Seq<MarketplaceListingView>, tokens: Seq<IPNftView>) -> Option<
    u64,
>
    decreases values.len(),
{
    if values.len() == 0 {
        None
    } else {
        let rest = floor_price(values.drop_last(), tokens);
        if lists_one_of(values.last(), tokens) {
            match rest {
                Some(m) => if values.last().price < m {
                    Some(values.last().price)
                } else {
                    Some(m)
                },
                None => Some(values.last().price),
            }
        } else {
            rest
        }
    }
}

/// The owners of the tokens, one for each token.
pub open spec fn owners_of(tokens: Seq<IPNftView>) -> Seq<Seq<u8>> {
    Seq::new(tokens.len(), |i: int| tokens[i].owner)
}

/// What is true of the tokens of the collection `name`.
pub open spec fn of_collection(name: Seq<char>) -> spec_fn(IPNftView) -> bool {
    |t: IPNftView| in_collection(t, name)
}

/// The tokens of the collection `name`, in the order of their identifiers.
pub open spec fn collection_tokens(s: MarketView, name: Seq<char>) -> Seq<IPNftView> {
    tokens_where(s, of_collection(name))
}

/// The figures on the collection `name`. Counts are cut to 32 bits. The average
/// is the volume over the number of tokens as it was cut.
pub open spec fn collection_stats(s: MarketView, name: Seq<char>) -> CollectionStatsView {
    let tokens = collection_tokens(s, name);
    CollectionStatsView {
        collection_name: name,
        total_supply: tokens.len() as u32,
        unique_owners: owners_of(tokens).to_set().len() as u32,
        floor_price: floor_price(s.listings.values(), tokens),
        total_volume: tokens_volume(tokens) as u64,
        average_price: if tokens.len() as u32 > 0 {
            Some((tokens_volume(tokens) / (tokens.len() as u32) as int) as u64)
        } else {
            None
        },
    }
}

/// The tokens of the collection `collection_name`, in the order of their identifiers.
pub fn get_collection_nfts(state: &MarketState, collection_name: &String) -> (r: Vec<IPNft>)
    ensures
        r.deep_view() == collection_tokens(state@, collection_name@),
{
    let ghost pred = of_collection(collection_name@);
    let ghost values = state@.nfts.values();
    let n = state.nfts.count();
    let mut out: Vec<IPNft> = Vec::new();
    let mut i: usize = 0;
    proof {
        lemma_filter_ends(values, pred);
    }
    while i < n
        invariant
            i <= n,
            n == state@.nfts.len(),
            values == state@.nfts.values(),
            out.deep_view() == values.take(i as int).filter(pred),
            pred == of_collection(collection_name@),
        decreases n - i,
    {
        let t = state.nfts.value_at(i);
        proof {
            lemma_filter_step(values, i as int, pred);
        }
        let of_collection = match &t.collection_name {
            Some(c) => *c == *collection_name,
            None => false,
        };
        if of_collection {
            let ghost was = out.deep_view();
            out.push(t.clone());
            assert(out.deep_view() =~= was.push(t@));
        }
        i += 1;
    }
    proof {
        lemma_filter_ends(values, pred);
    }
    out
}

/// The prices in the histories of the tokens, all together, or `None` where
/// the sum is beyond the range of a volume.
pub fn tokens_total(tokens: &Vec<IPNft>) -> (r: Option<u64>)
    ensures
        r == if tokens_volume(tokens.deep_view()) <= u64::MAX {
            Some(tokens_volume(tokens.deep_view()) as u64)
        } else {
            None
        },
{
    let ghost ts = tokens.deep_view();
    let mut total: u64 = 0;
    let mut i: usize = 0;
    assert(ts.take(0) =~= Seq::empty());
    while i < tokens.len()
        invariant
            i <= tokens@.len(),
            ts == tokens.deep_view(),
            total == tokens_volume(ts.take(i as int)),
        decreases tokens@.len() - i,
    {
        proof {
            assert(ts.take(i + 1).drop_last() =~= ts.take(i as int));
            lemma_tokens_volume_grows(ts, i + 1);
            lemma_history_volume_nonnegative(ts[i as int].transfer_history);
        }
        match history_total(&tokens[i].transfer_history) {
            Some(v) => {
                if v > u64::MAX - total {
                    return None;
                }
                total = total + v;
            },
            None => {
                return None;
            },
        }
        i += 1;
    }
    assert(ts.take(i as int) =~= ts);
    Some(total)
}

/// How many owners the tokens have between them.
pub fn count_owners(tokens: &Vec<IPNft>) -> (r: usize)
    ensures
        r == owners_of(tokens.deep_view()).to_set().len(),
{
    let ghost owners = owners_of(tokens.deep_view());
    let mut seen: Vec<Identity> = Vec::new();
    let mut i: usize = 0;
    assert(seen.deep_view() =~= Seq::empty());
    assert(owners.take(0).to_set() =~= seen.deep_view().to_set());
    while i < tokens.len()
        invariant
            i <= tokens@.len(),
            owners == owners_of(tokens.deep_view()),
            owners.len() == tokens@.len(),
            seen.deep_view().no_duplicates(),
            seen.deep_view().to_set() == owners.take(i as int).to_set(),
            seen@.len() <= i,
        decreases tokens@.len() - i,
    {
        let owner = &tokens[i].owner;
        let ghost was = seen.deep_view();
        let mut known = false;
        let mut j: usize = 0;
        while j < seen.len()
            invariant
                j <= seen@.len(),
                was == seen.deep_view(),
                known == exists|k: int| 0 <= k < j && was[k] == owner@,
            decreases seen@.len() - j,
        {
            if seen[j].same(owner) {
                assert(was[j as int] == owner@);
                known = true;
            }
            j += 1;
        }
        assert(known == was.contains(owner@));
        assert(owners[i as int] == owner@);
        assert(owners.take(i + 1) =~= owners.take(i as int).push(owner@));
        if !known {
            seen.push(owner.clone());
            assert(seen.deep_view() =~= was.push(owner@));
        }
        proof {
            let now = seen.deep_view();
            assert(now.to_set() =~= owners.take(i + 1).to_set()) by {
                assert forall|x: Seq<u8>| now.to_set().contains(x) == owners.take(i + 1).to_set().contains(
                    x,
                ) by {
                    let grown = owners.take(i as int).push(owner@);
                    if now.contains(x) {
                        let k = choose|k: int| 0 <= k < now.len() && now[k] == x;
                        if k < was.len() {
                            assert(was.contains(x));
                            assert(owners.take(i as int).to_set().contains(x));
                            let m = choose|m: int|
                                0 <= m < owners.take(i as int).len() && owners.take(i as int)[m]
                                    == x;
                            assert(grown[m] == x);
                        } else {
                            assert(grown[i as int] == x);
                        }
                    }
                    if grown.contains(x) {
                        let m = choose|m: int| 0 <= m < grown.len() && grown[m] == x;
                        if m < i {
                            assert(owners.take(i as int)[m] == x);
                            assert(owners.take(i as int).to_set().contains(x));
                            assert(was.contains(x));
                            let k = choose|k: int| 0 <= k < was.len() && was[k] == x;
                            assert(now[k] == x);
                        } else if known {
                            let k = choose|k: int| 0 <= k < was.len() && was[k] == owner@;
                            assert(now[k] == x);
                        } else {
                            assert(now[was.len() as int] == x);
                        }
                    }
                }
            }
        }
        i += 1;
    }
    proof {
        assert(owners.take(i as int) =~= owners);
        seen.deep_view().unique_seq_to_set();
    }
    seen.len()
}

/// Whether one of the tokens has the identifier `nft_id`.
fn one_is(tokens: &Vec<IPNft>, nft_id: &String) -> (r: bool)
    ensures
        r == exists|i: int| 0 <= i < tokens@.len() && (#[trigger] tokens.deep_view()[i]).id == nft_id@,
{
    let mut i: usize = 0;
    while i < tokens.len()
        invariant
            i <= tokens@.len(),
            forall|j: int| 0 <= j < i ==> (#[trigger] tokens.deep_view()[j]).id != nft_id@,
        decreases tokens@.len() - i,
    {
        if tokens[i].id == *nft_id {
            assert(tokens.deep_view()[i as int].id == nft_id@);
            return true;
        }
        i += 1;
    }
    false
}

/// The lowest price at which an `Active` listing offers one of the tokens.
pub fn lowest_listed_price(state: &MarketState, tokens: &Vec<IPNft>) -> (r: Option<u64>)
    ensures
        r == floor_price(state@.listings.values(), tokens.deep_view()),
{
    let ghost values = state@.listings.values();
    let ghost ts = tokens.deep_view();
    let n = state.listings.count();
    let mut lowest: Option<u64> = None;
    let mut i: usize = 0;
    assert(values.take(0) =~= Seq::empty());
    while i < n
        invariant
            i <= n,
            n == state@.listings.len(),
            values == state@.listings.values(),
            ts == tokens.deep_view(),
            lowest == floor_price(values.take(i as int), ts),
        decreases n - i,
    {
        let l = state.listings.value_at(i);
        proof {
            assert(values.take(i + 1).drop_last() =~= values.take(i as int));
        }
        let active = match l.status {
            ListingStatus::Active => true,
            _ => false,
        };
        if active && one_is(tokens, &l.nft_id) {
            lowest = match lowest {
                Some(m) => if l.price < m {
                    Some(l.price)
                } else {
                    Some(m)
                },
                None => Some(l.price),
            };
        }
        i += 1;
    }
    assert(values.take(i as int) =~= values);
    lowest
}

/// The prices in the histories of the tokens of a collection, all together, or
/// `None` where the sum is beyond the range of a volume.
pub fn collection_volume(state: &MarketState, collection_name: &String) -> (r: Option<u64>)
    ensures
        r == if tokens_volume(collection_tokens(state@, collection_name@)) <= u64::MAX {
            Some(tokens_volume(collection_tokens(state@, collection_name@)) as u64)
        } else {
            None
        },
{
    let nfts = get_collection_nfts(state, collection_name);
    tokens_total(&nfts)
}

/// The figures on the collection `collection_name`.
pub fn get_nft_collection_stats(state: &MarketState, collection_name: String) -> (r: CollectionStats)
    requires
        tokens_volume(collection_tokens(state@, collection_name@)) <= u64::MAX,
    ensures
        r@ == collection_stats(state@, collection_name@),
{
    let nfts = get_collection_nfts(state, &collection_name);
    let ghost tokens = nfts.deep_view();
    let total_supply = #[verifier::truncate]
    (nfts.len() as u32);
    let unique_owners = #[verifier::truncate]
    (count_owners(&nfts) as u32);
    let floor_price = lowest_listed_price(state, &nfts);
    let total_volume = match tokens_total(&nfts) {
        Some(v) => v,
        None => 0,
    };
    proof {
        let volume = tokens_volume(tokens);
        let count = total_supply as int;
        lemma_tokens_volume_nonnegative(tokens);
        if count > 0 {
            assert(0 <= volume / count <= volume) by (nonlinear_arith)
                requires
                    0 <= volume,
                    0 < count,
            ;
        }
    }
    CollectionStats {
        collection_name,
        total_supply,
        unique_owners,
        floor_price,
        total_volume,
        average_price: if total_supply > 0 {
            Some(total_volume / (total_supply as u64))
        } else {
            None
        },
    }
}

/// A work is minted once. After a mint went through, every further mint for the
/// same work is refused and changes nothing: as `AlreadyExists` where the
/// owner asks, as `Unauthorized` where another does.
pub proof fn lemma_mint_once(
    s: MarketView,
    caller: Seq<u8>,
    now: u64,
    canister: Seq<u8>,
    req: MintNFTRequestView,
    rarity_score: Float64,
    caller2: Seq<u8>,
    now2: u64,
    canister2: Seq<u8>,
    req2: MintNFTRequestView,
    rarity_score2: Float64,
)
    requires
        mint_outcome(s, caller, now, canister, req, rarity_score) is Ok,
        req2.ip_id == req.ip_id,
    ensures
        ({
            let after = mint_state(s, caller, now, canister, req, rarity_score);
            &&& after.ips.contains_key(req.ip_id)
            &&& after.ips.map[req.ip_id].nft_id == Some(minted_id(s))
            &&& mint_outcome(after, caller2, now2, canister2, req2, rarity_score2) == Err::<
                IPNftView,
                IPMarketplaceError,
            >(
                if caller2 == caller {
                    IPMarketplaceError::AlreadyExists
                } else {
                    IPMarketplaceError::Unauthorized
                },
            )
            &&& mint_state(after, caller2, now2, canister2, req2, rarity_score2) == after
        }),
{
}

/// What a mint that goes through brings about: the token is registered under
/// the identifier that the counter handed out, what is shown of it is kept
/// under the same identifier, the work names the token, and the caller's
/// profile, where there is one, lists it.
pub proof fn lemma_mint_effects(
    s: MarketView,
    caller: Seq<u8>,
    now: u64,
    canister: Seq<u8>,
    req: MintNFTRequestView,
    rarity_score: Float64,
)
    requires
        mint_outcome(s, caller, now, canister, req, rarity_score) is Ok,
    ensures
        ({
            let after = mint_state(s, caller, now, canister, req, rarity_score);
            let id = minted_id(s);
            &&& after.nfts.contains_key(id)
            &&& mint_outcome(s, caller, now, canister, req, rarity_score) == Ok::<
                IPNftView,
                IPMarketplaceError,
            >(after.nfts.map[id])
            &&& after.nfts.map[id].owner == caller
            &&& after.nfts.map[id].ip_id == req.ip_id
            &&& after.nft_metadata.contains_key(id)
            &&& after.nft_metadata.map[id].token_id == id
            &&& after.ips.map[req.ip_id].nft_id == Some(id)
            &&& s.users.contains_key(caller) ==> after.users[caller].owned_nfts.contains(id)
        }),
{
    if s.users.contains_key(caller) {
        let owned = s.users[caller].owned_nfts;
        if !owned.contains(minted_id(s)) {
            assert(owned.push(minted_id(s))[owned.len() as int] == minted_id(s));
        }
    }
}

/// What handing a token on brings about where it goes through: the receiver
/// owns the token, and the receiver's profile, where there is one, lists it;
/// the caller's profile, where there is one, no longer does, unless caller and
/// receiver are one.
pub proof fn lemma_transfer_effects(
    s: MarketView,
    caller: Seq<u8>,
    now: u64,
    nft_id: Seq<char>,
    to: Seq<u8>,
)
    requires
        transfer_outcome(s, caller, nft_id) is Ok,
    ensures
        ({
            let after = transfer_state(s, caller, now, nft_id, to);
            &&& s.nfts.map[nft_id].owner == caller
            &&& after.nfts.contains_key(nft_id)
            &&& after.nfts.map[nft_id].owner == to
            &&& after.nfts.map[nft_id].transfer_history.last() == gift_transfer(caller, to, now)
            &&& s.users.contains_key(to) ==> after.users[to].owned_nfts.contains(nft_id)
            &&& s.users.contains_key(caller) && caller != to
                ==> !after.users[caller].owned_nfts.contains(nft_id)
        }),
{
    let u1 = users_without_nft(s.users, caller, nft_id);
    if s.users.contains_key(to) {
        let owned = u1[to].owned_nfts;
        if !owned.contains(nft_id) {
            assert(owned.push(nft_id)[owned.len() as int] == nft_id);
        }
    }
    if s.users.contains_key(caller) && caller != to {
        let owned = s.users[caller].owned_nfts;
        let keep = other_than(nft_id);
        if owned.filter(keep).contains(nft_id) {
            let i = choose|i: int| 0 <= i < owned.filter(keep).len() && owned.filter(keep)[i] == nft_id;
            owned.lemma_filter_pred(keep, i);
        }
    }
}

/// A token's history begins with its mint, from nobody to the creator, and the
/// creator owns the token when it is minted.
pub proof fn lemma_minted_history(
    s: MarketView,
    caller: Seq<u8>,
    now: u64,
    canister: Seq<u8>,
    req: MintNFTRequestView,
    rarity_score: Float64,
)
    ensures
        ({
            let t = minted_token(s, caller, now, canister, req, rarity_score);
            &&& t.owner == caller
            &&& t.creator == caller
            &&& t.transfer_history.len() == 1
            &&& t.transfer_history[0].from == anonymous_bytes()
            &&& t.transfer_history[0].to == caller
        }),
{
}

/// Handing a token on or selling it keeps its history and adds one entry at
/// the end, to the new owner.
pub proof fn lemma_history_grows(t: IPNftView, from: Seq<u8>, to: Seq<u8>, now: u64)
    ensures
        moved_token(t, from, to, now).transfer_history.len() == t.transfer_history.len() + 1,
        moved_token(t, from, to, now).transfer_history.drop_last() == t.transfer_history,
        moved_token(t, from, to, now).transfer_history.last().to == moved_token(
            t,
            from,
            to,
            now,
        ).owner,
{
    assert(t.transfer_history.push(gift_transfer(from, to, now)).drop_last()
        =~= t.transfer_history);
}

} // verus!
