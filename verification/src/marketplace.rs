//! Listings and auctions: offering a token, bidding, buying, cancelling, and
//! moving listings whose time has passed to `Expired`.

use vstd::prelude::*;
use vstd::string::*;

use crate::identity::Identity;
use crate::invariants::{lemma_with_id_once, lemma_without_id_once};
use crate::registry::{lemma_filter_ends, lemma_filter_step, RegistryView};
use crate::storage::{generate_id, id_text, MarketState, MarketView};
use crate::types::{
    view_result, AuctionData, AuctionDataView, IPMarketplaceError, IPNftView, ListNFTRequest,
    ListNFTRequestView, ListingStatus, MarketplaceListing, MarketplaceListingView,
    MarketplaceStats, TransferRecord, TransferRecordView, UserProfileView,
};
use crate::user_management::{
    add_nft_to_user, lemma_with_id_holds, lemma_without_id_holds, other_than,
    remove_nft_from_user, update_user_sales_stats, users_credited, users_with_nft,
    users_without_nft, with_id,
};

verus! {

/// How long an auction runs where no duration is given: seven days, in nanoseconds.
pub const DEFAULT_AUCTION_DURATION: u64 = 604_800_000_000_000;

/// Whether the listing is open and offers the token `nft_id`.
pub open spec fn offers(l: MarketplaceListingView, nft_id: Seq<char>) -> bool {
    l.nft_id == nft_id && l.status.is_open()
}

/// Whether some open listing offers the token `nft_id`.
pub open spec fn is_offered(listings: RegistryView<MarketplaceListingView>, nft_id: Seq<char>) -> bool {
    exists|id: Seq<char>| listings.map.contains_key(id) && offers(#[trigger] listings.map[id], nft_id)
}

/// No token is offered by two open listings.
pub open spec fn offered_once(listings: RegistryView<MarketplaceListingView>) -> bool {
    forall|a: Seq<char>, b: Seq<char>|
        listings.map.contains_key(a) && listings.map.contains_key(b) && a != b && (
        #[trigger] listings.map[a]).status.is_open() && (#[trigger] listings.map[b]).status.is_open()
            ==> listings.map[a].nft_id != listings.map[b].nft_id
}

/// The state with other listings.
pub open spec fn with_listings(
    s: MarketView,
    listings: RegistryView<MarketplaceListingView>,
) -> MarketView {
    MarketView { listings, ..s }
}

/// The listing in another status.
pub open spec fn in_status(l: MarketplaceListingView, status: ListingStatus) -> MarketplaceListingView {
    MarketplaceListingView { status, ..l }
}

/// The identifier of the listing that is created in state `s`.
pub open spec fn listed_id(s: MarketView) -> Seq<char> {
    id_text("LISTING"@, s.counter)
}

/// When the auction that `req` asks for at `now` ends.
pub open spec fn auction_end_of(now: u64, req: ListNFTRequestView) -> int {
    now + match req.auction_duration {
        Some(d) => d,
        None => DEFAULT_AUCTION_DURATION,
    }
}

/// The bidding as it stands when the auction that `req` asks for begins: the
/// current bid is the starting price, nobody has bid, and the smallest
/// increment is a hundredth of the price unless one is given.
pub open spec fn opening_auction(now: u64, req: ListNFTRequestView) -> AuctionDataView {
    AuctionDataView {
        starting_price: req.price,
        current_bid: req.price,
        highest_bidder: None,
        auction_end: auction_end_of(now, req) as u64,
        min_bid_increment: match req.min_bid_increment {
            Some(m) => m,
            None => req.price / 100,
        },
    }
}

/// The listing that `caller` creates at `now` in state `s`.
pub open spec fn new_listing(
    s: MarketView,
    caller: Seq<u8>,
    now: u64,
    req: ListNFTRequestView,
) -> MarketplaceListingView {
    MarketplaceListingView {
        id: listed_id(s),
        nft_id: req.nft_id,
        seller: caller,
        price: req.price,
        currency: req.currency,
        listed_at: now,
        expires_at: req.expires_at,
        status: if req.is_auction {
            ListingStatus::InAuction
        } else {
            ListingStatus::Active
        },
        license_terms: req.license_terms,
        auction_data: if req.is_auction {
            Some(opening_auction(now, req))
        } else {
            None
        },
    }
}

/// Why a listing is not created, if it is not: the token is not there, the
/// caller does not own it, or an open listing offers it already.
pub open spec fn list_refusal(s: MarketView, caller: Seq<u8>, req: ListNFTRequestView) -> Option<
    IPMarketplaceError,
> {
    if !s.nfts.contains_key(req.nft_id) {
        Some(IPMarketplaceError::NotFound)
    } else if s.nfts.map[req.nft_id].owner != caller {
        Some(IPMarketplaceError::Unauthorized)
    } else if is_offered(s.listings, req.nft_id) {
        Some(IPMarketplaceError::AlreadyExists)
    } else {
        None
    }
}

/// What creating a listing hands back.
pub open spec fn list_outcome(
    s: MarketView,
    caller: Seq<u8>,
    now: u64,
    req: ListNFTRequestView,
) -> Result<MarketplaceListingView, IPMarketplaceError> {
    match list_refusal(s, caller, req) {
        Some(e) => Err(e),
        None => Ok(new_listing(s, caller, now, req)),
    }
}

/// The state after a listing was asked for. A refusal changes nothing; otherwise
/// one number is drawn from the counter and the listing is written.
pub open spec fn list_state(
    s: MarketView,
    caller: Seq<u8>,
    now: u64,
    req: ListNFTRequestView,
) -> MarketView {
    if list_refusal(s, caller, req) is Some {
        s
    } else {
        MarketView {
            listings: s.listings.put(listed_id(s), new_listing(s, caller, now, req)),
            counter: (s.counter + 1) as u64,
            ..s
        }
    }
}

/// The states that the creation of a listing passes, one after each of its
/// writes, in their order: the counter, then the listing.
pub open spec fn list_steps(
    s: MarketView,
    caller: Seq<u8>,
    now: u64,
    req: ListNFTRequestView,
) -> Seq<MarketView> {
    let s1 = MarketView { counter: (s.counter + 1) as u64, ..s };
    let s2 = with_listings(s1, s1.listings.put(listed_id(s), new_listing(s, caller, now, req)));
    seq![s1, s2]
}

/// The writes of the creation of a listing end in the state that it leaves behind.
pub proof fn lemma_list_steps_end(s: MarketView, caller: Seq<u8>, now: u64, req: ListNFTRequestView)
    requires
        list_refusal(s, caller, req) is None,
    ensures
        list_steps(s, caller, now, req).len() == 2,
        list_steps(s, caller, now, req).last() == list_state(s, caller, now, req),
{
}

/// Whether some open listing offers the token `nft_id`.
pub fn token_is_offered(state: &MarketState, nft_id: &String) -> (r: bool)
    ensures
        r == is_offered(state@.listings, nft_id@),
{
    let n = state.listings.count();
    let mut i: usize = 0;
    proof {
        state@.listings.lemma_values();
    }
    while i < n
        invariant
            i <= n,
            n == state@.listings.len(),
            state@.listings.wf(),
            forall|j: int| 0 <= j < i ==> !offers(state@.listings.value_at(j), nft_id@),
        decreases n - i,
    {
        let l = state.listings.value_at(i);
        if l.nft_id == *nft_id && l.status.open_for_offers() {
            assert(offers(state@.listings.map[state@.listings.keys[i as int]], nft_id@));
            return true;
        }
        i += 1;
    }
    proof {
        state@.listings.lemma_values();
        assert forall|id: Seq<char>| state@.listings.map.contains_key(id) implies !offers(
            #[trigger] state@.listings.map[id],
            nft_id@,
        ) by {
            let j = state@.listings.keys.index_of(id);
            assert(!offers(state@.listings.value_at(j), nft_id@));
        }
    }
    false
}

/// Offers a token of the caller's for sale, at a fixed price or by auction. A
/// token is offered by one open listing at a time.
pub fn list_nft_for_sale(
    state: &mut MarketState,
    caller: &Identity,
    now: u64,
    request: ListNFTRequest,
) -> (r: Result<MarketplaceListing, IPMarketplaceError>)
    requires
        list_refusal(old(state)@, caller@, request@) is None ==> old(state).counter < u64::MAX
            && (request.is_auction ==> auction_end_of(now, request@) <= u64::MAX),
    ensures
        view_result(r) == list_outcome(old(state)@, caller@, now, request@),
        final(state)@ == list_state(old(state)@, caller@, now, request@),
{
    let ghost s = state@;
    match state.nfts.get(&request.nft_id) {
        Some(nft) => {
            if !nft.owner.same(caller) {
                return Err(IPMarketplaceError::Unauthorized);
            }
        },
        None => {
            return Err(IPMarketplaceError::NotFound);
        },
    }
    if token_is_offered(state, &request.nft_id) {
        return Err(IPMarketplaceError::AlreadyExists);
    }
    // After each write the state is the one that `list_steps` names for it.
    let ghost steps = list_steps(s, caller@, now, request@);
    let listing_id = generate_id(state, "LISTING");
    assert(state@ == steps[0]);
    let auction_data = if request.is_auction {
        Some(
            AuctionData {
                starting_price: request.price,
                current_bid: request.price,
                highest_bidder: None,
                auction_end: now + match request.auction_duration {
                    Some(d) => d,
                    None => DEFAULT_AUCTION_DURATION,
                },
                min_bid_increment: match request.min_bid_increment {
                    Some(m) => m,
                    None => request.price / 100,
                },
            },
        )
    } else {
        None
    };
    let listing = MarketplaceListing {
        id: listing_id.clone(),
        nft_id: request.nft_id,
        seller: caller.clone(),
        price: request.price,
        currency: request.currency,
        listed_at: now,
        expires_at: request.expires_at,
        status: if request.is_auction {
            ListingStatus::InAuction
        } else {
            ListingStatus::Active
        },
        license_terms: request.license_terms,
        auction_data,
    };
    assert(listing@ == new_listing(s, caller@, now, request@));
    state.listings.insert(listing_id, listing.clone());
    assert(state@ == steps[1]);
    Ok(listing)
}

/// The bidding after `bidder` bid `amount`.
pub open spec fn after_bid(a: AuctionDataView, bidder: Seq<u8>, amount: u64) -> AuctionDataView {
    AuctionDataView { current_bid: amount, highest_bidder: Some(bidder), ..a }
}

/// What a bid hands back: `true` where it is taken; else why it is not. The
/// listing must be there, be in auction and carry its bidding; the auction must
/// not have ended; and the bid must reach the current bid plus the smallest increment.
pub open spec fn bid_outcome(s: MarketView, now: u64, listing_id: Seq<char>, amount: u64) -> Result<
    bool,
    IPMarketplaceError,
> {
    if !s.listings.contains_key(listing_id) {
        Err(IPMarketplaceError::NotFound)
    } else {
        let l = s.listings.map[listing_id];
        if l.status != ListingStatus::InAuction {
            Err(IPMarketplaceError::InvalidInput)
        } else {
            match l.auction_data {
                None => Err(IPMarketplaceError::InvalidInput),
                Some(a) => if now > a.auction_end {
                    Err(IPMarketplaceError::AuctionEnded)
                } else if amount < a.current_bid + a.min_bid_increment {
                    Err(IPMarketplaceError::BidTooLow)
                } else {
                    Ok(true)
                },
            }
        }
    }
}

/// The state after a bid. A bid that is taken becomes the current bid and its
/// bidder the highest bidder. A bid that comes after the auction's end moves the
/// listing to `Expired`. Any other bid changes nothing.
pub open spec fn bid_state(
    s: MarketView,
    caller: Seq<u8>,
    now: u64,
    listing_id: Seq<char>,
    amount: u64,
) -> MarketView {
    match bid_outcome(s, now, listing_id, amount) {
        Ok(_) => {
            let l = s.listings.map[listing_id];
            with_listings(
                s,
                s.listings.put(
                    listing_id,
                    MarketplaceListingView {
                        auction_data: Some(after_bid(l.auction_data->0, caller, amount)),
                        ..l
                    },
                ),
            )
        },
        Err(IPMarketplaceError::AuctionEnded) => with_listings(
            s,
            s.listings.put(
                listing_id,
                in_status(s.listings.map[listing_id], ListingStatus::Expired),
            ),
        ),
        Err(_) => s,
    }
}

/// Bids `bid_amount` in an auction. No funds are held: the bid is recorded only.
pub fn place_bid(
    state: &mut MarketState,
    caller: &Identity,
    now: u64,
    listing_id: String,
    bid_amount: u64,
) -> (r: Result<bool, IPMarketplaceError>)
    ensures
        r == bid_outcome(old(state)@, now, listing_id@, bid_amount),
        final(state)@ == bid_state(old(state)@, caller@, now, listing_id@, bid_amount),
{
    let mut listing = match state.listings.get(&listing_id) {
        Some(l) => l.clone(),
        None => {
            return Err(IPMarketplaceError::NotFound);
        },
    };
    match listing.status {
        ListingStatus::InAuction => {},
        _ => {
            return Err(IPMarketplaceError::InvalidInput);
        },
    }
    let auction = match &listing.auction_data {
        Some(a) => a.clone(),
        None => {
            return Err(IPMarketplaceError::InvalidInput);
        },
    };
    if now > auction.auction_end {
        listing.status = ListingStatus::Expired;
        state.listings.insert(listing_id, listing);
        return Err(IPMarketplaceError::AuctionEnded);
    }
    if bid_amount < auction.current_bid || bid_amount - auction.current_bid
        < auction.min_bid_increment {
        return Err(IPMarketplaceError::BidTooLow);
    }
    let mut auction = auction;
    auction.current_bid = bid_amount;
    auction.highest_bidder = Some(caller.clone());
    listing.auction_data = Some(auction);
    state.listings.insert(listing_id, listing);
    Ok(true)
}

/// Whether the listing is at a fixed price and its time has passed at `now`.
pub open spec fn is_stale(l: MarketplaceListingView, now: u64) -> bool {
    l.status == ListingStatus::Active && l.expires_at is Some && now > l.expires_at->0
}

/// What a purchase hands back: `true` where the token is sold; else why it is
/// not. The listing must be there and be `Active`, its time must not have
/// passed, and its token must be there and belong to its seller.
pub open spec fn buy_outcome(s: MarketView, now: u64, listing_id: Seq<char>) -> Result<
    bool,
    IPMarketplaceError,
> {
    if !s.listings.contains_key(listing_id) {
        Err(IPMarketplaceError::NotFound)
    } else if s.listings.map[listing_id].status != ListingStatus::Active {
        Err(IPMarketplaceError::InvalidInput)
    } else if is_stale(s.listings.map[listing_id], now) {
        Err(IPMarketplaceError::OperationFailed)
    } else if !s.nfts.contains_key(s.listings.map[listing_id].nft_id) {
        Err(IPMarketplaceError::NotFound)
    } else if s.nfts.map[s.listings.map[listing_id].nft_id].owner
        != s.listings.map[listing_id].seller {
        Err(IPMarketplaceError::InvalidInput)
    } else {
        Ok(true)
    }
}

/// The entry that a sale writes into the token's history.
pub open spec fn sale_transfer(seller: Seq<u8>, buyer: Seq<u8>, now: u64, price: u64) -> TransferRecordView {
    TransferRecordView {
        from: seller,
        to: buyer,
        timestamp: now,
        transaction_hash: None,
        price: Some(price),
    }
}

/// The token after it was sold: the buyer owns it, and the sale stands last in its history.
pub open spec fn sold_token(
    t: IPNftView,
    seller: Seq<u8>,
    buyer: Seq<u8>,
    now: u64,
    price: u64,
) -> IPNftView {
    IPNftView {
        owner: buyer,
        transfer_history: t.transfer_history.push(sale_transfer(seller, buyer, now, price)),
        ..t
    }
}

/// The profiles after a sale: the token leaves the seller's list and enters the
/// buyer's, the seller's sales and the buyer's purchases grow by the price.
/// Whoever has no profile is passed over.
pub open spec fn users_after_sale(
    users: Map<Seq<u8>, UserProfileView>,
    seller: Seq<u8>,
    buyer: Seq<u8>,
    nft_id: Seq<char>,
    price: u64,
) -> Map<Seq<u8>, UserProfileView> {
    users_credited(
        users_credited(
            users_with_nft(users_without_nft(users, seller, nft_id), buyer, nft_id),
            seller,
            price,
            0,
        ),
        buyer,
        0,
        price,
    )
}

/// Whether the seller's sales and the buyer's purchases have room for the price.
pub open spec fn sale_fits(
    users: Map<Seq<u8>, UserProfileView>,
    seller: Seq<u8>,
    buyer: Seq<u8>,
    price: u64,
) -> bool {
    &&& users.contains_key(seller) ==> users[seller].total_sales + price <= u64::MAX
    &&& users.contains_key(buyer) ==> users[buyer].total_purchases + price <= u64::MAX
}

/// Whether the purchase, where it goes through, leaves the totals within their range.
pub open spec fn buy_fits(s: MarketView, caller: Seq<u8>, now: u64, listing_id: Seq<char>) -> bool {
    buy_outcome(s, now, listing_id) is Ok ==> sale_fits(
        s.users,
        s.listings.map[listing_id].seller,
        caller,
        s.listings.map[listing_id].price,
    )
}

/// The state after a purchase. Where the token is sold, the token is written
/// first, then the two profiles, then the listing, which becomes `Sold`. A
/// purchase that comes after the listing's time moves the listing to `Expired`.
/// Any other purchase changes nothing: a listing whose token is not there, or
/// whose seller no longer owns the token, sells nothing.
pub open spec fn buy_state(s: MarketView, caller: Seq<u8>, now: u64, listing_id: Seq<char>) -> MarketView {
    match buy_outcome(s, now, listing_id) {
        Ok(_) => {
            let l = s.listings.map[listing_id];
            MarketView {
                nfts: s.nfts.put(
                    l.nft_id,
                    sold_token(s.nfts.map[l.nft_id], l.seller, caller, now, l.price),
                ),
                users: users_after_sale(s.users, l.seller, caller, l.nft_id, l.price),
                listings: s.listings.put(listing_id, in_status(l, ListingStatus::Sold)),
                ..s
            }
        },
        Err(IPMarketplaceError::OperationFailed) => with_listings(
            s,
            s.listings.put(
                listing_id,
                in_status(s.listings.map[listing_id], ListingStatus::Expired),
            ),
        ),
        Err(_) => s,
    }
}

/// The states that a purchase that goes through passes, one after each of its
/// writes, in their order: the token, which goes to the buyer; the seller's
/// profile, which loses the token; the buyer's profile, which gains it; the
/// seller's sales; the buyer's purchases; and the listing, which is sold.
pub open spec fn buy_steps(
    s: MarketView,
    caller: Seq<u8>,
    now: u64,
    listing_id: Seq<char>,
) -> Seq<MarketView> {
    let l = s.listings.map[listing_id];
    let s1 = MarketView {
        nfts: s.nfts.put(
            l.nft_id,
            sold_token(s.nfts.map[l.nft_id], l.seller, caller, now, l.price),
        ),
        ..s
    };
    let s2 = MarketView { users: users_without_nft(s1.users, l.seller, l.nft_id), ..s1 };
    let s3 = MarketView { users: users_with_nft(s2.users, caller, l.nft_id), ..s2 };
    let s4 = MarketView { users: users_credited(s3.users, l.seller, l.price, 0), ..s3 };
    let s5 = MarketView { users: users_credited(s4.users, caller, 0, l.price), ..s4 };
    let s6 = with_listings(s5, s5.listings.put(listing_id, in_status(l, ListingStatus::Sold)));
    seq![s1, s2, s3, s4, s5, s6]
}

/// The writes of a purchase end in the state that the purchase leaves behind.
pub proof fn lemma_buy_steps_end(s: MarketView, caller: Seq<u8>, now: u64, listing_id: Seq<char>)
    requires
        buy_outcome(s, now, listing_id) is Ok,
    ensures
        buy_steps(s, caller, now, listing_id).len() == 6,
        buy_steps(s, caller, now, listing_id).last() == buy_state(s, caller, now, listing_id),
{
}

/// Whether the purchase, where it goes through, leaves the totals within their range.
pub fn buy_has_room(state: &MarketState, caller: &Identity, now: u64, listing_id: &String) -> (r:
    bool)
    ensures
        r == buy_fits(state@, caller@, now, listing_id@),
{
    match state.listings.get(listing_id) {
        Some(l) => {
            match l.status {
                ListingStatus::Active => {},
                _ => {
                    return true;
                },
            }
            match l.expires_at {
                Some(e) => {
                    if now > e {
                        return true;
                    }
                },
                None => {},
            }
            match state.nfts.get(&l.nft_id) {
                Some(nft) => {
                    if !nft.owner.same(&l.seller) {
                        return true;
                    }
                },
                None => {
                    return true;
                },
            }
            let seller_fits = match state.users.get(&l.seller) {
                Some(p) => l.price <= u64::MAX - p.total_sales,
                None => true,
            };
            let buyer_fits = match state.users.get(caller) {
                Some(p) => l.price <= u64::MAX - p.total_purchases,
                None => true,
            };
            seller_fits && buyer_fits
        },
        None => true,
    }
}

/// Buys the token of a listing at its price from the seller who owns it. No
/// payment is made: the sale is recorded only.
pub fn buy_nft(state: &mut MarketState, caller: &Identity, now: u64, listing_id: String) -> (r:
    Result<bool, IPMarketplaceError>)
    requires
        buy_fits(old(state)@, caller@, now, listing_id@),
    ensures
        r == buy_outcome(old(state)@, now, listing_id@),
        final(state)@ == buy_state(old(state)@, caller@, now, listing_id@),
{
    let ghost s = state@;
    let mut listing = match state.listings.get(&listing_id) {
        Some(l) => l.clone(),
        None => {
            return Err(IPMarketplaceError::NotFound);
        },
    };
    match listing.status {
        ListingStatus::Active => {},
        _ => {
            return Err(IPMarketplaceError::InvalidInput);
        },
    }
    match listing.expires_at {
        Some(expires_at) => {
            if now > expires_at {
                listing.status = ListingStatus::Expired;
                state.listings.insert(listing_id, listing);
                return Err(IPMarketplaceError::OperationFailed);
            }
        },
        None => {},
    }
    let nft_id = listing.nft_id.clone();
    let seller = listing.seller.clone();
    let price = listing.price;
    let mut nft = match state.nfts.get(&nft_id) {
        Some(nft) => nft.clone(),
        None => {
            return Err(IPMarketplaceError::NotFound);
        },
    };
    if !nft.owner.same(&seller) {
        return Err(IPMarketplaceError::InvalidInput);
    }
    // After each write the state is the one that `buy_steps` names for it.
    let ghost steps = buy_steps(s, caller@, now, listing_id@);
    let ghost before = nft@;
    nft.owner = caller.clone();
    nft.transfer_history.push(
        TransferRecord {
            from: seller.clone(),
            to: caller.clone(),
            timestamp: now,
            transaction_hash: None,
            price: Some(price),
        },
    );
    assert(nft.transfer_history.deep_view() =~= before.transfer_history.push(
        sale_transfer(seller@, caller@, now, price),
    ));
    state.nfts.insert(nft_id.clone(), nft);
    assert(state@ == steps[0]);
    remove_nft_from_user(state, &seller, &nft_id);
    assert(state@ == steps[1]);
    add_nft_to_user(state, caller, nft_id);
    assert(state@ == steps[2]);
    update_user_sales_stats(state, &seller, price, 0);
    assert(state@ == steps[3]);
    update_user_sales_stats(state, caller, 0, price);
    assert(state@ == steps[4]);
    listing.status = ListingStatus::Sold;
    state.listings.insert(listing_id, listing);
    assert(state@ == steps[5]);
    Ok(true)
}

/// What a cancellation hands back: `true` where the listing is cancelled; else
/// why it is not. The listing must be there, the caller must be its seller, it
/// must be open, and nobody may have bid on it.
pub open spec fn cancel_outcome(s: MarketView, caller: Seq<u8>, listing_id: Seq<char>) -> Result<
    bool,
    IPMarketplaceError,
> {
    if !s.listings.contains_key(listing_id) {
        Err(IPMarketplaceError::NotFound)
    } else {
        let l = s.listings.map[listing_id];
        if l.seller != caller {
            Err(IPMarketplaceError::Unauthorized)
        } else if !l.status.is_open() {
            Err(IPMarketplaceError::InvalidInput)
        } else if l.auction_data is Some && l.auction_data->0.highest_bidder is Some {
            Err(IPMarketplaceError::InvalidInput)
        } else {
            Ok(true)
        }
    }
}

/// The state after a cancellation: the listing is `Cancelled` where the
/// cancellation is taken, and nothing changes where it is not.
pub open spec fn cancel_state(s: MarketView, caller: Seq<u8>, listing_id: Seq<char>) -> MarketView {
    if cancel_outcome(s, caller, listing_id) is Ok {
        with_listings(
            s,
            s.listings.put(
                listing_id,
                in_status(s.listings.map[listing_id], ListingStatus::Cancelled),
            ),
        )
    } else {
        s
    }
}

/// Withdraws an open listing of the caller's. An auction that has a bid stays.
pub fn cancel_listing(state: &mut MarketState, caller: &Identity, listing_id: String) -> (r: Result<
    bool,
    IPMarketplaceError,
>)
    ensures
        r == cancel_outcome(old(state)@, caller@, listing_id@),
        final(state)@ == cancel_state(old(state)@, caller@, listing_id@),
{
    let mut listing = match state.listings.get(&listing_id) {
        Some(l) => l.clone(),
        None => {
            return Err(IPMarketplaceError::NotFound);
        },
    };
    if !listing.seller.same(caller) {
        return Err(IPMarketplaceError::Unauthorized);
    }
    if !listing.status.open_for_offers() {
        return Err(IPMarketplaceError::InvalidInput);
    }
    match &listing.auction_data {
        Some(auction) => {
            if auction.highest_bidder.is_some() {
                return Err(IPMarketplaceError::InvalidInput);
            }
        },
        None => {},
    }
    listing.status = ListingStatus::Cancelled;
    state.listings.insert(listing_id, listing);
    Ok(true)
}

/// The listings that meet `pred`, in the order of their identifiers.
pub open spec fn listings_where(
    s: MarketView,
    pred: spec_fn(MarketplaceListingView) -> bool,
) -> Seq<MarketplaceListingView> {
    s.listings.values().filter(pred)
}

/// What is true of the open listings.
pub open spec fn open_listings() -> spec_fn(MarketplaceListingView) -> bool {
    |l: MarketplaceListingView| l.status.is_open()
}

/// What is true of the listings that are in auction.
pub open spec fn auction_listings() -> spec_fn(MarketplaceListingView) -> bool {
    |l: MarketplaceListingView| l.status == ListingStatus::InAuction
}

/// What is true of the listings of the seller `seller`.
pub open spec fn sold_by(seller: Seq<u8>) -> spec_fn(MarketplaceListingView) -> bool {
    |l: MarketplaceListingView| l.seller == seller
}

/// What is true of the open listings that offer the token `nft_id`.
pub open spec fn offering(nft_id: Seq<char>) -> spec_fn(MarketplaceListingView) -> bool {
    |l: MarketplaceListingView| offers(l, nft_id)
}

/// The open listings, in the order of their identifiers.
pub fn get_marketplace_listings(state: &MarketState) -> (r: Vec<MarketplaceListing>)
    ensures
        r.deep_view() == listings_where(state@, open_listings()),
{
    let ghost pred = open_listings();
    let ghost values = state@.listings.values();
    let n = state.listings.count();
    let mut out: Vec<MarketplaceListing> = Vec::new();
    let mut i: usize = 0;
    proof {
        lemma_filter_ends(values, pred);
    }
    while i < n
        invariant
            i <= n,
            n == state@.listings.len(),
            values == state@.listings.values(),
            out.deep_view() == values.take(i as int).filter(pred),
            pred == open_listings(),
        decreases n - i,
    {
        let l = state.listings.value_at(i);
        proof {
            lemma_filter_step(values, i as int, pred);
        }
        if l.status.open_for_offers() {
            let ghost was = out.deep_view();
            out.push(l.clone());
            assert(out.deep_view() =~= was.push(l@));
        }
        i += 1;
    }
    proof {
        lemma_filter_ends(values, pred);
    }
    out
}

/// The listings of one seller, open or not, in the order of their identifiers.
pub fn get_listings_by_seller(state: &MarketState, seller: &Identity) -> (r: Vec<
    MarketplaceListing,
>)
    ensures
        r.deep_view() == listings_where(state@, sold_by(seller@)),
{
    let ghost pred = sold_by(seller@);
    let ghost values = state@.listings.values();
    let n = state.listings.count();
    let mut out: Vec<MarketplaceListing> = Vec::new();
    let mut i: usize = 0;
    proof {
        lemma_filter_ends(values, pred);
    }
    while i < n
        invariant
            i <= n,
            n == state@.listings.len(),
            values == state@.listings.values(),
            out.deep_view() == values.take(i as int).filter(pred),
            pred == sold_by(seller@),
        decreases n - i,
    {
        let l = state.listings.value_at(i);
        proof {
            lemma_filter_step(values, i as int, pred);
        }
        if l.seller.same(seller) {
            let ghost was = out.deep_view();
            out.push(l.clone());
            assert(out.deep_view() =~= was.push(l@));
        }
        i += 1;
    }
    proof {
        lemma_filter_ends(values, pred);
    }
    out
}

/// What looking up a listing hands back.
pub open spec fn listing_of(s: MarketView, listing_id: Seq<char>) -> Result<
    MarketplaceListingView,
    IPMarketplaceError,
> {
    if s.listings.contains_key(listing_id) {
        Ok(s.listings.map[listing_id])
    } else {
        Err(IPMarketplaceError::NotFound)
    }
}

/// The listing under `listing_id`.
pub fn get_listing_by_id(state: &MarketState, listing_id: String) -> (r: Result<
    MarketplaceListing,
    IPMarketplaceError,
>)
    ensures
        view_result(r) == listing_of(state@, listing_id@),
{
    match state.listings.get(&listing_id) {
        Some(l) => Ok(l.clone()),
        None => Err(IPMarketplaceError::NotFound),
    }
}

/// The open listings that offer the token `nft_id`, in the order of their identifiers.
pub fn get_active_listings_by_nft(state: &MarketState, nft_id: String) -> (r: Vec<
    MarketplaceListing,
>)
    ensures
        r.deep_view() == listings_where(state@, offering(nft_id@)),
{
    let ghost pred = offering(nft_id@);
    let ghost values = state@.listings.values();
    let n = state.listings.count();
    let mut out: Vec<MarketplaceListing> = Vec::new();
    let mut i: usize = 0;
    proof {
        lemma_filter_ends(values, pred);
    }
    while i < n
        invariant
            i <= n,
            n == state@.listings.len(),
            values == state@.listings.values(),
            out.deep_view() == values.take(i as int).filter(pred),
            pred == offering(nft_id@),
        decreases n - i,
    {
        let l = state.listings.value_at(i);
        proof {
            lemma_filter_step(values, i as int, pred);
        }
        if l.nft_id == nft_id && l.status.open_for_offers() {
            let ghost was = out.deep_view();
            out.push(l.clone());
            assert(out.deep_view() =~= was.push(l@));
        }
        i += 1;
    }
    proof {
        lemma_filter_ends(values, pred);
    }
    out
}

/// What is true of the listings at a fixed price whose time has passed at `now`.
pub open spec fn stale_at(now: u64) -> spec_fn(MarketplaceListingView) -> bool {
    |l: MarketplaceListingView| is_stale(l, now)
}

/// Whether the listing is at a fixed price and its time has passed at `now`.
pub fn listing_is_stale(l: &MarketplaceListing, now: u64) -> (r: bool)
    ensures
        r == is_stale(l@, now),
{
    match l.expires_at {
        Some(expires_at) => now > expires_at && match l.status {
            ListingStatus::Active => true,
            _ => false,
        },
        None => false,
    }
}

/// The listings at a fixed price whose time has passed at `now` and that are
/// still `Active`, in the order of their identifiers.
pub fn get_expired_listings(state: &MarketState, now: u64) -> (r: Vec<MarketplaceListing>)
    ensures
        r.deep_view() == listings_where(state@, stale_at(now)),
{
    let ghost pred = stale_at(now);
    let ghost values = state@.listings.values();
    let n = state.listings.count();
    let mut out: Vec<MarketplaceListing> = Vec::new();
    let mut i: usize = 0;
    proof {
        lemma_filter_ends(values, pred);
    }
    while i < n
        invariant
            i <= n,
            n == state@.listings.len(),
            values == state@.listings.values(),
            out.deep_view() == values.take(i as int).filter(pred),
            pred == stale_at(now),
        decreases n - i,
    {
        let l = state.listings.value_at(i);
        proof {
            lemma_filter_step(values, i as int, pred);
        }
        if listing_is_stale(l, now) {
            let ghost was = out.deep_view();
            out.push(l.clone());
            assert(out.deep_view() =~= was.push(l@));
        }
        i += 1;
    }
    proof {
        lemma_filter_ends(values, pred);
    }
    out
}

/// The listing as a sweep at `now` leaves it: `Expired` where its time has
/// passed, and as it was where not.
pub open spec fn swept(l: MarketplaceListingView, now: u64) -> MarketplaceListingView {
    if is_stale(l, now) {
        in_status(l, ListingStatus::Expired)
    } else {
        l
    }
}

/// The listings as a sweep at `now` leaves them.
pub open spec fn swept_listings(
    listings: RegistryView<MarketplaceListingView>,
    now: u64,
) -> RegistryView<MarketplaceListingView> {
    RegistryView {
        map: Map::new(
            |k: Seq<char>| listings.map.contains_key(k),
            |k: Seq<char>| swept(listings.map[k], now),
        ),
        keys: listings.keys,
    }
}

/// How many listings a sweep at `now` moves.
pub open spec fn stale_count(listings: RegistryView<MarketplaceListingView>, now: u64) -> nat {
    listings.values().filter(stale_at(now)).len()
}

/// A sweep moves no more listings than there are.
pub proof fn lemma_stale_count_bounded(listings: RegistryView<MarketplaceListingView>, now: u64)
    ensures
        stale_count(listings, now) <= listings.len(),
{
    listings.values().lemma_filter_len(stale_at(now));
}

/// Whether a sweep at `now` moves no more listings than its count can say.
pub fn stale_count_fits(state: &MarketState, now: u64) -> (r: bool)
    ensures
        r == (stale_count(state@.listings, now) <= u32::MAX),
{
    let ghost pred = stale_at(now);
    let ghost values = state@.listings.values();
    let n = state.listings.count();
    let mut found: usize = 0;
    let mut i: usize = 0;
    proof {
        lemma_filter_ends(values, pred);
    }
    while i < n
        invariant
            i <= n,
            n == state@.listings.len(),
            values == state@.listings.values(),
            pred == stale_at(now),
            found == values.take(i as int).filter(pred).len(),
            found <= i,
        decreases n - i,
    {
        let l = state.listings.value_at(i);
        proof {
            lemma_filter_step(values, i as int, pred);
        }
        if listing_is_stale(l, now) {
            found = found + 1;
        }
        i += 1;
    }
    proof {
        lemma_filter_ends(values, pred);
    }
    found <= 0xffff_ffff
}

/// Moves every listing at a fixed price whose time has passed at `now` to
/// `Expired`, and says how many it moved.
pub fn cleanup_expired_listings(state: &mut MarketState, now: u64) -> (r: Result<
    u32,
    IPMarketplaceError,
>)
    requires
        stale_count(old(state)@.listings, now) <= u32::MAX,
    ensures
        r == Ok::<u32, IPMarketplaceError>(stale_count(old(state)@.listings, now) as u32),
        final(state)@ == with_listings(old(state)@, swept_listings(old(state)@.listings, now)),
{
    let ghost s = state@;
    let ghost before = state@.listings;
    let ghost pred = stale_at(now);
    let ghost values = before.values();
    let n = state.listings.count();
    let mut cleaned_count: u32 = 0;
    let mut i: usize = 0;
    proof {
        lemma_filter_ends(values, pred);
        before.lemma_values();
        before.lemma_keys_distinct();
    }
    while i < n
        invariant
            i <= n,
            n == before.len(),
            before.wf(),
            values == before.values(),
            pred == stale_at(now),
            state@ == with_listings(s, state@.listings),
            state@.listings.keys == before.keys,
            forall|k: Seq<char>| state@.listings.map.contains_key(k) == before.map.contains_key(k),
            forall|j: int|
                0 <= j < n ==> state@.listings.map[#[trigger] before.keys[j]] == if j < i {
                    swept(before.map[before.keys[j]], now)
                } else {
                    before.map[before.keys[j]]
                },
            cleaned_count == values.take(i as int).filter(pred).len(),
            values.filter(pred).len() <= u32::MAX,
        decreases n - i,
    {
        proof {
            lemma_filter_step(values, i as int, pred);
            before.lemma_values();
            before.lemma_keys_distinct();
            values.lemma_filter_take_len(pred, i as int + 1);
        }
        let l = state.listings.value_at(i);
        if listing_is_stale(l, now) {
            let mut updated = l.clone();
            let key = state.listings.key_at(i).clone();
            updated.status = ListingStatus::Expired;
            state.listings.insert(key, updated);
            cleaned_count = cleaned_count + 1;
        }
        i += 1;
    }
    proof {
        lemma_filter_ends(values, pred);
        before.lemma_values();
        let after = state@.listings;
        let want = swept_listings(before, now);
        assert forall|k: Seq<char>| after.map.contains_key(k) implies after.map[k] == want.map[k] by {
            assert(before.map.contains_key(k));
            let j = before.keys.index_of(k);
            assert(after.map[before.keys[j]] == swept(before.map[before.keys[j]], now));
        }
        assert(after.map =~= want.map);
    }
    Ok(cleaned_count)
}

/// What the sold listings among `values` took in, all together.
pub open spec fn sold_volume(values: Seq<MarketplaceListingView>) -> int
    decreases values.len(),
{
    if values.len() == 0 {
        0
    } else {
        sold_volume(values.drop_last()) + if values.last().status == ListingStatus::Sold {
            values.last().price as int
        } else {
            0
        }
    }
}

/// The first listings of a walk took in no more than all of them.
pub proof fn lemma_sold_volume_grows(values: Seq<MarketplaceListingView>, i: int)
    requires
        0 <= i <= values.len(),
    ensures
        0 <= sold_volume(values.take(i)) <= sold_volume(values),
    decreases values.len() - i,
{
    if i == values.len() {
        assert(values.take(i) =~= values);
        lemma_sold_volume_nonnegative(values);
    } else {
        lemma_sold_volume_grows(values, i + 1);
        lemma_sold_volume_nonnegative(values.take(i));
        assert(values.take(i + 1).drop_last() =~= values.take(i));
    }
}

/// What sold listings took in is not negative.
pub proof fn lemma_sold_volume_nonnegative(values: Seq<MarketplaceListingView>)
    ensures
        0 <= sold_volume(values),
    decreases values.len(),
{
    if values.len() > 0 {
        lemma_sold_volume_nonnegative(values.drop_last());
    }
}

/// The figures on the marketplace in state `s`. Counts are cut to 32 bits. The
/// average is the volume over the number of all listings, sold or not.
pub open spec fn market_stats(s: MarketView) -> MarketplaceStats {
    let values = s.listings.values();
    MarketplaceStats {
        total_nfts: s.nfts.len() as u32,
        total_users: s.users.dom().len() as u32,
        total_listings: values.len() as u32,
        active_listings: values.filter(open_listings()).len() as u32,
        active_auctions: values.filter(auction_listings()).len() as u32,
        total_volume: sold_volume(values) as u64,
        average_sale_price: if values.len() > 0 {
            Some((sold_volume(values) / values.len() as int) as u64)
        } else {
            None
        },
    }
}

/// What the sold listings took in, all together, or `None` where the sum is
/// beyond the range of the volume.
pub fn market_volume(state: &MarketState) -> (r: Option<u64>)
    ensures
        r == if sold_volume(state@.listings.values()) <= u64::MAX {
            Some(sold_volume(state@.listings.values()) as u64)
        } else {
            None
        },
{
    let ghost values = state@.listings.values();
    let n = state.listings.count();
    let mut total: u64 = 0;
    let mut i: usize = 0;
    assert(values.take(0) =~= Seq::empty());
    while i < n
        invariant
            i <= n,
            n == state@.listings.len(),
            values == state@.listings.values(),
            total == sold_volume(values.take(i as int)),
        decreases n - i,
    {
        let l = state.listings.value_at(i);
        proof {
            assert(values.take(i + 1).drop_last() =~= values.take(i as int));
            lemma_sold_volume_grows(values, i + 1);
        }
        match l.status {
            ListingStatus::Sold => {
                if l.price > u64::MAX - total {
                    return None;
                }
                total = total + l.price;
            },
            _ => {},
        }
        i += 1;
    }
    assert(values.take(i as int) =~= values);
    Some(total)
}

/// The figures on the marketplace.
pub fn get_marketplace_stats(state: &MarketState) -> (r: MarketplaceStats)
    requires
        sold_volume(state@.listings.values()) <= u64::MAX,
    ensures
        r == market_stats(state@),
{
    let ghost open = open_listings();
    let ghost auction = auction_listings();
    let ghost values = state@.listings.values();
    let n = state.listings.count();
    let mut active_listings: usize = 0;
    let mut active_auctions: usize = 0;
    let mut i: usize = 0;
    proof {
        lemma_filter_ends(values, open);
        lemma_filter_ends(values, auction);
    }
    while i < n
        invariant
            i <= n,
            n == state@.listings.len(),
            values == state@.listings.values(),
            open == open_listings(),
            auction == auction_listings(),
            active_listings == values.take(i as int).filter(open).len(),
            active_auctions == values.take(i as int).filter(auction).len(),
            active_listings <= i,
            active_auctions <= i,
        decreases n - i,
    {
        let l = state.listings.value_at(i);
        proof {
            lemma_filter_step(values, i as int, open);
            lemma_filter_step(values, i as int, auction);
        }
        match l.status {
            ListingStatus::Active => {
                active_listings = active_listings + 1;
            },
            ListingStatus::InAuction => {
                active_auctions = active_auctions + 1;
                active_listings = active_listings + 1;
            },
            _ => {},
        }
        i += 1;
    }
    proof {
        lemma_filter_ends(values, open);
        lemma_filter_ends(values, auction);
    }
    let total_volume = match market_volume(state) {
        Some(v) => v,
        None => 0,
    };
    let total_nfts = state.nfts.len();
    let total_users = state.users.len();
    let r = MarketplaceStats {
        total_nfts: #[verifier::truncate]
        (total_nfts as u32),
        total_users: #[verifier::truncate]
        (total_users as u32),
        total_listings: #[verifier::truncate]
        (n as u32),
        active_listings: #[verifier::truncate]
        (active_listings as u32),
        active_auctions: #[verifier::truncate]
        (active_auctions as u32),
        total_volume,
        average_sale_price: if n > 0 {
            Some(total_volume / (n as u64))
        } else {
            None
        },
    };
    proof {
        let volume = sold_volume(values);
        let count = values.len() as int;
        lemma_sold_volume_nonnegative(values);
        if count > 0 {
            assert(0 <= volume / count <= volume) by (nonlinear_arith)
                requires
                    0 <= volume,
                    0 < count,
            ;
        }
    }
    r
}

/// Listings that keep their tokens and open none that was closed keep every
/// token at one open listing.
pub proof fn lemma_offered_once_kept(
    before: RegistryView<MarketplaceListingView>,
    after: RegistryView<MarketplaceListingView>,
)
    requires
        offered_once(before),
        forall|k: Seq<char>| #[trigger]
            after.map.contains_key(k) ==> before.map.contains_key(k) && after.map[k].nft_id
                == before.map[k].nft_id && (after.map[k].status.is_open()
                ==> before.map[k].status.is_open()),
    ensures
        offered_once(after),
{
    assert forall|a: Seq<char>, b: Seq<char>|
        after.map.contains_key(a) && after.map.contains_key(b) && a != b && (
        #[trigger] after.map[a]).status.is_open() && (#[trigger] after.map[b]).status.is_open() implies after.map[a].nft_id
        != after.map[b].nft_id by {
        assert(before.map[a].status.is_open() && before.map[b].status.is_open());
    }
}

/// Creating a listing keeps every token at one open listing: a token that an
/// open listing offers is not listed again.
pub proof fn lemma_list_keeps_offered_once(
    s: MarketView,
    caller: Seq<u8>,
    now: u64,
    req: ListNFTRequestView,
)
    requires
        offered_once(s.listings),
    ensures
        offered_once(list_state(s, caller, now, req).listings),
{
    if list_refusal(s, caller, req) is None {
        let after = list_state(s, caller, now, req).listings;
        let id = listed_id(s);
        assert forall|a: Seq<char>, b: Seq<char>|
            after.map.contains_key(a) && after.map.contains_key(b) && a != b && (
            #[trigger] after.map[a]).status.is_open() && (
            #[trigger] after.map[b]).status.is_open() implies after.map[a].nft_id
            != after.map[b].nft_id by {
            if a == id {
                assert(s.listings.map.contains_key(b));
                assert(!offers(s.listings.map[b], req.nft_id));
            } else if b == id {
                assert(s.listings.map.contains_key(a));
                assert(!offers(s.listings.map[a], req.nft_id));
            } else {
                assert(s.listings.map[a].status.is_open() && s.listings.map[b].status.is_open());
            }
        }
    }
}

/// A bid keeps every token at one open listing.
pub proof fn lemma_bid_keeps_offered_once(
    s: MarketView,
    caller: Seq<u8>,
    now: u64,
    listing_id: Seq<char>,
    amount: u64,
)
    requires
        offered_once(s.listings),
    ensures
        offered_once(bid_state(s, caller, now, listing_id, amount).listings),
{
    lemma_offered_once_kept(s.listings, bid_state(s, caller, now, listing_id, amount).listings);
}

/// A purchase keeps every token at one open listing.
pub proof fn lemma_buy_keeps_offered_once(
    s: MarketView,
    caller: Seq<u8>,
    now: u64,
    listing_id: Seq<char>,
)
    requires
        offered_once(s.listings),
    ensures
        offered_once(buy_state(s, caller, now, listing_id).listings),
{
    lemma_offered_once_kept(s.listings, buy_state(s, caller, now, listing_id).listings);
}

/// A cancellation keeps every token at one open listing.
pub proof fn lemma_cancel_keeps_offered_once(s: MarketView, caller: Seq<u8>, listing_id: Seq<char>)
    requires
        offered_once(s.listings),
    ensures
        offered_once(cancel_state(s, caller, listing_id).listings),
{
    lemma_offered_once_kept(s.listings, cancel_state(s, caller, listing_id).listings);
}

/// A sweep keeps every token at one open listing.
pub proof fn lemma_sweep_keeps_offered_once(s: MarketView, now: u64)
    requires
        offered_once(s.listings),
    ensures
        offered_once(swept_listings(s.listings, now)),
{
    lemma_offered_once_kept(s.listings, swept_listings(s.listings, now));
}

/// A listing that has left `Active` and `InAuction` stays where it is: no bid,
/// purchase, cancellation or sweep changes a listing that is sold, cancelled or expired.
pub proof fn lemma_closed_listing_stays(
    s: MarketView,
    caller: Seq<u8>,
    now: u64,
    listing_id: Seq<char>,
    amount: u64,
    other: Seq<char>,
)
    requires
        s.listings.contains_key(other),
        !s.listings.map[other].status.is_open(),
    ensures
        bid_state(s, caller, now, listing_id, amount).listings.map[other] == s.listings.map[other],
        buy_state(s, caller, now, listing_id).listings.map[other] == s.listings.map[other],
        cancel_state(s, caller, listing_id).listings.map[other] == s.listings.map[other],
        swept_listings(s.listings, now).map[other] == s.listings.map[other],
{
}

/// A purchase goes through only for a token that is there and that the
/// listing's seller owns. Where the listing is `Active` and within its time but
/// its token is not there or belongs to another, the purchase is refused and
/// writes nothing.
pub proof fn lemma_purchase_needs_owner(
    s: MarketView,
    caller: Seq<u8>,
    now: u64,
    listing_id: Seq<char>,
)
    ensures
        buy_outcome(s, now, listing_id) is Ok ==> {
            let l = s.listings.map[listing_id];
            &&& s.listings.contains_key(listing_id)
            &&& l.status == ListingStatus::Active
            &&& !is_stale(l, now)
            &&& s.nfts.contains_key(l.nft_id)
            &&& s.nfts.map[l.nft_id].owner == l.seller
        },
        s.listings.contains_key(listing_id) && s.listings.map[listing_id].status
            == ListingStatus::Active && !is_stale(s.listings.map[listing_id], now) && (
        !s.nfts.contains_key(s.listings.map[listing_id].nft_id)
            || s.nfts.map[s.listings.map[listing_id].nft_id].owner
            != s.listings.map[listing_id].seller) ==> {
            &&& buy_outcome(s, now, listing_id) is Err
            &&& buy_state(s, caller, now, listing_id) == s
        },
{
}

/// What a purchase that goes through does to the token, the lists and the
/// listing. The token belonged to the seller and belongs to the buyer, and the
/// sale from the seller at the listing's price stands last in its history. The
/// buyer's profile, where there is one, lists the token. The seller's profile,
/// where there is one, no longer lists it unless seller and buyer are one. The
/// listing is sold.
pub proof fn lemma_purchase_effects(s: MarketView, caller: Seq<u8>, now: u64, listing_id: Seq<char>)
    requires
        buy_outcome(s, now, listing_id) is Ok,
    ensures
        ({
            let l = s.listings.map[listing_id];
            let after = buy_state(s, caller, now, listing_id);
            &&& after.listings.contains_key(listing_id)
            &&& after.listings.map[listing_id] == in_status(l, ListingStatus::Sold)
            &&& s.nfts.contains_key(l.nft_id)
            &&& s.nfts.map[l.nft_id].owner == l.seller
            &&& after.nfts.contains_key(l.nft_id)
            &&& after.nfts.map[l.nft_id].owner == caller
            &&& after.nfts.map[l.nft_id].transfer_history.last() == sale_transfer(
                l.seller,
                caller,
                now,
                l.price,
            )
            &&& after.nfts.map[l.nft_id].transfer_history.drop_last()
                == s.nfts.map[l.nft_id].transfer_history
            &&& s.users.contains_key(caller) ==> {
                &&& after.users.contains_key(caller)
                &&& after.users[caller].owned_nfts.contains(l.nft_id)
            }
            &&& s.users.contains_key(l.seller) ==> {
                &&& after.users.contains_key(l.seller)
                &&& l.seller != caller ==> !after.users[l.seller].owned_nfts.contains(l.nft_id)
            }
        }),
{
    let l = s.listings.map[listing_id];
    let after = buy_state(s, caller, now, listing_id);
    let h = s.nfts.map[l.nft_id].transfer_history;
    let t = sale_transfer(l.seller, caller, now, l.price);
    assert(h.push(t).drop_last() =~= h);
    let u1 = users_without_nft(s.users, l.seller, l.nft_id);
    let u2 = users_with_nft(u1, caller, l.nft_id);
    if s.users.contains_key(caller) {
        let owned = u1[caller].owned_nfts;
        if !owned.contains(l.nft_id) {
            assert(owned.push(l.nft_id)[owned.len() as int] == l.nft_id);
        }
        assert(u2[caller].owned_nfts.contains(l.nft_id));
    }
    if s.users.contains_key(l.seller) && l.seller != caller {
        let owned = s.users[l.seller].owned_nfts;
        let keep = other_than(l.nft_id);
        if owned.filter(keep).contains(l.nft_id) {
            let i = choose|i: int|
                0 <= i < owned.filter(keep).len() && owned.filter(keep)[i] == l.nft_id;
            owned.lemma_filter_pred(keep, i);
        }
    }
}

/// What a purchase that goes through adds to the totals, where they have room:
/// the seller's profile, where there is one, has sold for the price more, and
/// the buyer's, where there is one, has bought for the price more.
pub proof fn lemma_purchase_credits(s: MarketView, caller: Seq<u8>, now: u64, listing_id: Seq<char>)
    requires
        buy_outcome(s, now, listing_id) is Ok,
        buy_fits(s, caller, now, listing_id),
    ensures
        ({
            let l = s.listings.map[listing_id];
            let after = buy_state(s, caller, now, listing_id);
            &&& s.users.contains_key(caller) ==> after.users[caller].total_purchases
                == s.users[caller].total_purchases + l.price
            &&& s.users.contains_key(l.seller) ==> after.users[l.seller].total_sales
                == s.users[l.seller].total_sales + l.price
        }),
{
}

/// The buyer's list after a purchase that goes through: it holds the token,
/// keeps every other identifier that it held, and, where it held nothing twice,
/// holds nothing twice.
pub proof fn lemma_purchase_lists_once(
    s: MarketView,
    caller: Seq<u8>,
    now: u64,
    listing_id: Seq<char>,
    other: Seq<char>,
)
    requires
        buy_outcome(s, now, listing_id) is Ok,
        s.users.contains_key(caller),
    ensures
        ({
            let l = s.listings.map[listing_id];
            let before = s.users[caller].owned_nfts;
            let after = buy_state(s, caller, now, listing_id).users[caller].owned_nfts;
            &&& after.contains(l.nft_id)
            &&& other != l.nft_id ==> after.contains(other) == before.contains(other)
            &&& before.no_duplicates() ==> after.no_duplicates()
        }),
{
    let l = s.listings.map[listing_id];
    let before = s.users[caller].owned_nfts;
    let u1 = users_without_nft(s.users, l.seller, l.nft_id);
    let mid = u1[caller].owned_nfts;
    let after = buy_state(s, caller, now, listing_id).users[caller].owned_nfts;
    assert(after == with_id(mid, l.nft_id));
    lemma_with_id_holds(mid, l.nft_id, other);
    if l.seller == caller {
        lemma_without_id_holds(before, l.nft_id, other);
    }
    if before.no_duplicates() {
        if l.seller == caller {
            lemma_without_id_once(before, l.nft_id);
        }
        lemma_with_id_once(mid, l.nft_id);
    }
}

/// A sale between two users with profiles: the seller owned the token before
/// it; after it the buyer owns the token, the seller's profile no longer lists
/// it and the buyer's does, the seller has sold and the buyer has bought for
/// the price more, and the listing is sold.
pub proof fn lemma_sale_between_profiles(
    s: MarketView,
    caller: Seq<u8>,
    now: u64,
    listing_id: Seq<char>,
)
    requires
        buy_outcome(s, now, listing_id) is Ok,
        buy_fits(s, caller, now, listing_id),
        s.users.contains_key(s.listings.map[listing_id].seller),
        s.users.contains_key(caller),
        s.listings.map[listing_id].seller != caller,
    ensures
        ({
            let l = s.listings.map[listing_id];
            let after = buy_state(s, caller, now, listing_id);
            &&& s.nfts.map[l.nft_id].owner == l.seller
            &&& after.nfts.map[l.nft_id].owner == caller
            &&& !after.users[l.seller].owned_nfts.contains(l.nft_id)
            &&& after.users[caller].owned_nfts.contains(l.nft_id)
            &&& after.users[l.seller].total_sales == s.users[l.seller].total_sales + l.price
            &&& after.users[caller].total_purchases == s.users[caller].total_purchases + l.price
            &&& after.listings.map[listing_id].status == ListingStatus::Sold
        }),
{
    lemma_purchase_effects(s, caller, now, listing_id);
    lemma_purchase_credits(s, caller, now, listing_id);
}

/// A bid never lowers the current bid of its auction, and a bid that is taken
/// is at least the bid before it plus the smallest increment, and becomes the
/// current bid.
pub proof fn lemma_bid_raises(
    s: MarketView,
    caller: Seq<u8>,
    now: u64,
    listing_id: Seq<char>,
    amount: u64,
)
    requires
        s.listings.contains_key(listing_id),
        s.listings.map[listing_id].auction_data is Some,
    ensures
        ({
            let before = s.listings.map[listing_id].auction_data->0;
            let after = bid_state(s, caller, now, listing_id, amount).listings.map[listing_id];
            &&& after.auction_data is Some
            &&& after.auction_data->0.current_bid >= before.current_bid
            &&& after.auction_data->0.min_bid_increment == before.min_bid_increment
            &&& bid_outcome(s, now, listing_id, amount) is Ok ==> {
                &&& amount >= before.current_bid + before.min_bid_increment
                &&& after.auction_data->0.current_bid == amount
                &&& after.auction_data->0.highest_bidder == Some(caller)
            }
            &&& bid_outcome(s, now, listing_id, amount) is Err ==> after.auction_data->0
                == before
        }),
{
}

/// One bid of a run of bids on an auction: who bids, when, and how much.
pub struct Bid {
    pub bidder: Seq<u8>,
    pub now: u64,
    pub amount: u64,
}

/// The state after a run of bids on one listing, each made in the state that
/// the bid before it left.
pub open spec fn bids_state(s: MarketView, listing_id: Seq<char>, bids: Seq<Bid>) -> MarketView
    decreases bids.len(),
{
    if bids.len() == 0 {
        s
    } else {
        let last = bids.last();
        bid_state(
            bids_state(s, listing_id, bids.drop_last()),
            last.bidder,
            last.now,
            listing_id,
            last.amount,
        )
    }
}

/// Over any run of bids on an auction the current bid never falls, whether the
/// bids are taken or not.
pub proof fn lemma_bids_never_lower(s: MarketView, listing_id: Seq<char>, bids: Seq<Bid>)
    requires
        s.listings.contains_key(listing_id),
        s.listings.map[listing_id].auction_data is Some,
    ensures
        ({
            let after = bids_state(s, listing_id, bids);
            &&& after.listings.contains_key(listing_id)
            &&& after.listings.map[listing_id].auction_data is Some
            &&& after.listings.map[listing_id].auction_data->0.current_bid
                >= s.listings.map[listing_id].auction_data->0.current_bid
            &&& after.listings.map[listing_id].auction_data->0.min_bid_increment
                == s.listings.map[listing_id].auction_data->0.min_bid_increment
        }),
    decreases bids.len(),
{
    if bids.len() > 0 {
        lemma_bids_never_lower(s, listing_id, bids.drop_last());
        let mid = bids_state(s, listing_id, bids.drop_last());
        lemma_bid_raises(mid, bids.last().bidder, bids.last().now, listing_id, bids.last().amount);
    }
}

/// A second sweep finds nothing to move: after a sweep at `now`, a sweep at
/// `now` or earlier moves no listing and leaves every listing as it is.
pub proof fn lemma_sweep_twice(listings: RegistryView<MarketplaceListingView>, now: u64, again: u64)
    requires
        listings.wf(),
        again <= now,
    ensures
        stale_count(swept_listings(listings, now), again) == 0,
        swept_listings(swept_listings(listings, now), again) == swept_listings(listings, now),
{
    let once = swept_listings(listings, now);
    let pred = stale_at(again);
    listings.lemma_values();
    assert forall|i: int| 0 <= i < once.values().len() implies !pred(#[trigger] once.values()[i]) by {
        assert(listings.map.contains_key(listings.keys[i]));
    }
    once.values().lemma_all_neg_filter_empty(pred);
    let twice = swept_listings(once, again);
    assert(twice.map =~= once.map);
}

/// A sweep moves exactly the listings at a fixed price whose time has passed,
/// and moves them to `Expired`; it changes nothing else about any listing.
pub proof fn lemma_sweep_moves_stale(
    listings: RegistryView<MarketplaceListingView>,
    now: u64,
    listing_id: Seq<char>,
)
    requires
        listings.contains_key(listing_id),
    ensures
        swept_listings(listings, now).contains_key(listing_id),
        is_stale(listings.map[listing_id], now) ==> swept_listings(listings, now).map[listing_id]
            == in_status(listings.map[listing_id], ListingStatus::Expired),
        !is_stale(listings.map[listing_id], now) ==> swept_listings(listings, now).map[listing_id]
            == listings.map[listing_id],
{
}

} // verus!
