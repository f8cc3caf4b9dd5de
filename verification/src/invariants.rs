//! What holds of the marketplace in every state that its operations can reach.

use vstd::prelude::*;

use crate::identity::anonymous_bytes;
use crate::ip_registry::{
    register_state, register_steps, registered_id, registered_ip, registration_accepted,
    verify_outcome, verify_state,
};
use crate::marketplace::{
    auction_end_of, bid_outcome, bid_state, buy_fits, buy_outcome, buy_state, buy_steps,
    cancel_outcome, cancel_state, in_status, is_offered, lemma_bid_keeps_offered_once,
    lemma_buy_keeps_offered_once, lemma_cancel_keeps_offered_once,
    lemma_list_keeps_offered_once, lemma_offered_once_kept, lemma_sweep_keeps_offered_once,
    list_refusal, list_state, list_steps, listed_id, new_listing, offered_once, offers,
    sold_token, stale_count, swept_listings, with_listings,
};
use crate::nft_management::{
    favorite_fits, favorite_outcome, favorite_state, mint_refusal, mint_state, mint_steps,
    minted_id, minted_metadata, minted_token, moved_token, transfer_outcome, transfer_state,
    transfer_steps, view_fits, view_outcome, view_state, MAX_ROYALTY_PERCENTAGE,
};
use crate::storage::{id_text, MarketView};
use crate::text::{decimal, digit_char};
use crate::types::{
    CreateUserRequestView, Float64, IPMarketplaceError, IPNftView, IntellectualPropertyView,
    ListNFTRequestView, ListingStatus, MarketplaceListingView, MintNFTRequestView,
    NFTMetadataView, RegisterIPRequestView, UpdateUserRequestView, UserProfileView,
    VerificationStatus,
};
use crate::user_management::{
    create_user_outcome, create_user_state, lemma_without_id_step, reputation_fits,
    reputation_outcome, reputation_state, update_profile_outcome, update_profile_state,
    users_credited, users_with_ip, users_with_nft, users_without_nft, with_id, without_id,
};

verus! {

/// A decimal numeral has a digit, and two where the number is ten or more.
pub proof fn lemma_decimal_len(n: nat)
    ensures
        decimal(n).len() >= 1,
        n >= 10 ==> decimal(n).len() >= 2,
    decreases n,
{
    if n >= 10 {
        lemma_decimal_len(n / 10);
    }
}

/// Two numbers with the same decimal numeral are the same number.
pub proof fn lemma_decimal_injective(a: nat, b: nat)
    requires
        decimal(a) == decimal(b),
    ensures
        a == b,
    decreases a,
{
    lemma_decimal_len(a);
    lemma_decimal_len(b);
    if a < 10 {
        assert(decimal(a)[0] == digit_char(a));
        assert(decimal(b)[0] == digit_char(b));
    } else {
        let x = decimal(a / 10);
        let y = decimal(b / 10);
        assert(x.push(digit_char(a % 10)).drop_last() =~= x);
        assert(y.push(digit_char(b % 10)).drop_last() =~= y);
        assert(x.push(digit_char(a % 10)).last() == digit_char(a % 10));
        assert(y.push(digit_char(b % 10)).last() == digit_char(b % 10));
        lemma_decimal_injective(a / 10, b / 10);
    }
}

/// Under one prefix, two numbers with the same identifier are the same number:
/// the counter never hands out an identifier twice.
pub proof fn lemma_id_text_injective(prefix: Seq<char>, a: u64, b: u64)
    requires
        id_text(prefix, a) == id_text(prefix, b),
    ensures
        a == b,
{
    let head = prefix + seq!['_'];
    let x = decimal(a as nat);
    let y = decimal(b as nat);
    assert((head + x).subrange(head.len() as int, (head + x).len() as int) =~= x);
    assert((head + y).subrange(head.len() as int, (head + y).len() as int) =~= y);
    lemma_decimal_injective(a as nat, b as nat);
}

/// One call of an operation of the marketplace, with what it was handed.
#[allow(inconsistent_fields)]
pub enum Operation {
    RegisterIp { caller: Seq<u8>, now: u64, req: RegisterIPRequestView },
    VerifyIp { ip_id: Seq<char>, status: VerificationStatus },
    Mint {
        caller: Seq<u8>,
        now: u64,
        canister: Seq<u8>,
        req: MintNFTRequestView,
        rarity_score: Float64,
    },
    Transfer { caller: Seq<u8>, now: u64, nft_id: Seq<char>, to: Seq<u8> },
    CountView { nft_id: Seq<char> },
    CountFavorite { nft_id: Seq<char> },
    CreateProfile { caller: Seq<u8>, now: u64, req: CreateUserRequestView },
    UpdateProfile { caller: Seq<u8>, req: UpdateUserRequestView },
    Reputation { user: Seq<u8>, change: i32 },
    List { caller: Seq<u8>, now: u64, req: ListNFTRequestView },
    Bid { caller: Seq<u8>, now: u64, listing_id: Seq<char>, amount: u64 },
    Buy { caller: Seq<u8>, now: u64, listing_id: Seq<char> },
    Cancel { caller: Seq<u8>, listing_id: Seq<char> },
    Sweep { now: u64 },
}

/// Whether the operation may be called in state `s`: where it goes through,
/// the counter, the counts and the totals that it adds to have room.
pub open spec fn permitted(s: MarketView, op: Operation) -> bool {
    match op {
        Operation::RegisterIp { req, .. } => registration_accepted(req) ==> s.counter
            < u64::MAX,
        Operation::Mint { caller, req, .. } => mint_refusal(s, caller, req) is None ==> s.counter
            + 2 <= u64::MAX,
        Operation::List { caller, now, req } => list_refusal(s, caller, req) is None ==> s.counter
            < u64::MAX && (req.is_auction ==> auction_end_of(now, req) <= u64::MAX),
        Operation::Buy { caller, now, listing_id } => buy_fits(s, caller, now, listing_id),
        Operation::CountView { nft_id } => view_fits(s, nft_id),
        Operation::CountFavorite { nft_id } => favorite_fits(s, nft_id),
        Operation::Reputation { user, change } => reputation_fits(s, user, change),
        Operation::Sweep { now } => stale_count(s.listings, now) <= u32::MAX,
        _ => true,
    }
}

/// The state that the operation leaves behind when it is called in state `s`.
pub open spec fn apply(s: MarketView, op: Operation) -> MarketView {
    match op {
        Operation::RegisterIp { caller, now, req } => register_state(s, caller, now, req),
        Operation::VerifyIp { ip_id, status } => verify_state(s, ip_id, status),
        Operation::Mint { caller, now, canister, req, rarity_score } => mint_state(
            s,
            caller,
            now,
            canister,
            req,
            rarity_score,
        ),
        Operation::Transfer { caller, now, nft_id, to } => transfer_state(s, caller, now, nft_id, to),
        Operation::CountView { nft_id } => view_state(s, nft_id),
        Operation::CountFavorite { nft_id } => favorite_state(s, nft_id),
        Operation::CreateProfile { caller, now, req } => create_user_state(s, caller, now, req),
        Operation::UpdateProfile { caller, req } => update_profile_state(s, caller, req),
        Operation::Reputation { user, change } => reputation_state(s, user, change),
        Operation::List { caller, now, req } => list_state(s, caller, now, req),
        Operation::Bid { caller, now, listing_id, amount } => bid_state(
            s,
            caller,
            now,
            listing_id,
            amount,
        ),
        Operation::Buy { caller, now, listing_id } => buy_state(s, caller, now, listing_id),
        Operation::Cancel { caller, listing_id } => cancel_state(s, caller, listing_id),
        Operation::Sweep { now } => with_listings(s, swept_listings(s.listings, now)),
    }
}

/// Why the operation is refused in state `s`, if it is.
pub open spec fn refusal(s: MarketView, op: Operation) -> Option<IPMarketplaceError> {
    match op {
        Operation::RegisterIp { req, .. } => if registration_accepted(req) {
            None
        } else {
            Some(IPMarketplaceError::InvalidInput)
        },
        Operation::VerifyIp { ip_id, .. } => refused(verify_outcome(s, ip_id)),
        Operation::Mint { caller, req, .. } => mint_refusal(s, caller, req),
        Operation::Transfer { caller, nft_id, .. } => refused(transfer_outcome(s, caller, nft_id)),
        Operation::CountView { nft_id } => refused(view_outcome(s, nft_id)),
        Operation::CountFavorite { nft_id } => refused(favorite_outcome(s, nft_id)),
        Operation::CreateProfile { caller, now, req } => refused(
            create_user_outcome(s, caller, now, req),
        ),
        Operation::UpdateProfile { caller, req } => refused(update_profile_outcome(s, caller, req)),
        Operation::Reputation { user, change } => refused(reputation_outcome(s, user, change)),
        Operation::List { caller, req, .. } => list_refusal(s, caller, req),
        Operation::Bid { now, listing_id, amount, .. } => refused(
            bid_outcome(s, now, listing_id, amount),
        ),
        Operation::Buy { now, listing_id, .. } => refused(buy_outcome(s, now, listing_id)),
        Operation::Cancel { caller, listing_id } => refused(cancel_outcome(s, caller, listing_id)),
        Operation::Sweep { .. } => None,
    }
}

/// The error of an outcome, if it is one.
pub open spec fn refused<T>(outcome: Result<T, IPMarketplaceError>) -> Option<IPMarketplaceError> {
    match outcome {
        Ok(_) => None,
        Err(e) => Some(e),
    }
}

/// Whether the refusal is one that comes with a listing's move to `Expired`: a
/// bid after the auction's end, or a purchase after the listing's time.
pub open spec fn expires_late(op: Operation, e: IPMarketplaceError) -> bool {
    ||| op is Bid && e == IPMarketplaceError::AuctionEnded
    ||| op is Buy && e == IPMarketplaceError::OperationFailed
}

/// The listing that a bid or a purchase is about.
pub open spec fn late_listing(op: Operation) -> Seq<char> {
    match op {
        Operation::Bid { listing_id, .. } => listing_id,
        Operation::Buy { listing_id, .. } => listing_id,
        _ => Seq::empty(),
    }
}

/// A refused operation writes nothing. The one exception is the listing that a
/// late bid or a late purchase finds past its time: it is moved to `Expired`,
/// and nothing else changes.
pub proof fn lemma_refusal_writes_nothing(s: MarketView, op: Operation)
    requires
        refusal(s, op) is Some,
    ensures
        !expires_late(op, refusal(s, op)->0) ==> apply(s, op) == s,
        expires_late(op, refusal(s, op)->0) ==> apply(s, op) == with_listings(
            s,
            s.listings.put(
                late_listing(op),
                in_status(s.listings.map[late_listing(op)], ListingStatus::Expired),
            ),
        ),
{
}

/// Whether each operation of the run may be called in the state that the
/// operations before it leave behind.
pub open spec fn run_permitted(s: MarketView, ops: Seq<Operation>) -> bool
    decreases ops.len(),
{
    ops.len() > 0 ==> run_permitted(s, ops.drop_last()) && permitted(
        run(s, ops.drop_last()),
        ops.last(),
    )
}

/// The state after a run of operations that begins in state `s`.
pub open spec fn run(s: MarketView, ops: Seq<Operation>) -> MarketView
    decreases ops.len(),
{
    if ops.len() == 0 {
        s
    } else {
        apply(run(s, ops.drop_last()), ops.last())
    }
}

/// Whether `key` is the identifier that the counter handed out under `prefix`
/// for some number below `counter`.
pub open spec fn drawn(prefix: Seq<char>, key: Seq<char>, counter: u64) -> bool {
    exists|n: u64| n < counter && key == #[trigger] id_text(prefix, n)
}

/// Every record is kept under an identifier that the counter has handed out.
pub open spec fn ids_drawn(s: MarketView) -> bool {
    &&& forall|k: Seq<char>| #[trigger] s.ips.map.contains_key(k) ==> drawn("IP"@, k, s.counter)
    &&& forall|k: Seq<char>| #[trigger] s.nfts.map.contains_key(k) ==> drawn("NFT"@, k, s.counter)
    &&& forall|k: Seq<char>| #[trigger]
        s.nft_metadata.map.contains_key(k) ==> drawn("NFT"@, k, s.counter)
    &&& forall|k: Seq<char>| #[trigger]
        s.listings.map.contains_key(k) ==> drawn("LISTING"@, k, s.counter)
}

/// Every record is kept under its own identifier, and every profile under its own identity.
pub open spec fn filed_by_id(s: MarketView) -> bool {
    &&& forall|k: Seq<char>| #[trigger] s.ips.map.contains_key(k) ==> s.ips.map[k].id == k
    &&& forall|k: Seq<char>| #[trigger] s.nfts.map.contains_key(k) ==> s.nfts.map[k].id == k
    &&& forall|k: Seq<char>| #[trigger]
        s.nft_metadata.map.contains_key(k) ==> s.nft_metadata.map[k].token_id == k
    &&& forall|k: Seq<char>| #[trigger]
        s.listings.map.contains_key(k) ==> s.listings.map[k].id == k
    &&& forall|u: Seq<u8>| #[trigger] s.users.contains_key(u) ==> s.users[u].principal == u
}

/// The history of the token begins with its mint, from nobody to the creator,
/// and ends with the transfer to its owner; its royalty is at most 100 percent.
pub open spec fn token_sound(t: IPNftView) -> bool {
    &&& t.royalty_percentage <= MAX_ROYALTY_PERCENTAGE
    &&& t.transfer_history.len() > 0
    &&& t.transfer_history[0].from == anonymous_bytes()
    &&& t.transfer_history[0].to == t.creator
    &&& t.transfer_history.last().to == t.owner
}

/// Every token is sound.
pub open spec fn tokens_sound(s: MarketView) -> bool {
    forall|k: Seq<char>| #[trigger] s.nfts.map.contains_key(k) ==> token_sound(s.nfts.map[k])
}

/// What one record names in another registry is there: the token of a work,
/// minted for that work; the work of a token; what is shown of a token; the
/// token of a listing.
pub open spec fn references_hold(s: MarketView) -> bool {
    &&& forall|k: Seq<char>| #[trigger]
        s.ips.map.contains_key(k) && s.ips.map[k].nft_id is Some ==> s.nfts.map.contains_key(
            s.ips.map[k].nft_id->0,
        ) && s.nfts.map[s.ips.map[k].nft_id->0].ip_id == k
    &&& forall|k: Seq<char>| #[trigger]
        s.nfts.map.contains_key(k) ==> s.ips.map.contains_key(s.nfts.map[k].ip_id)
            && s.nft_metadata.map.contains_key(k)
    &&& forall|k: Seq<char>| #[trigger]
        s.listings.map.contains_key(k) ==> s.nfts.map.contains_key(s.listings.map[k].nft_id)
}

/// No profile lists a work or a token twice.
pub open spec fn owned_once(s: MarketView) -> bool {
    forall|u: Seq<u8>| #[trigger]
        s.users.contains_key(u) ==> s.users[u].owned_ips.no_duplicates()
            && s.users[u].owned_nfts.no_duplicates()
}

/// All that holds of the marketplace in every state that its operations reach.
pub open spec fn sound(s: MarketView) -> bool {
    &&& s.wf()
    &&& ids_drawn(s)
    &&& filed_by_id(s)
    &&& tokens_sound(s)
    &&& references_hold(s)
    &&& owned_once(s)
    &&& offered_once(s.listings)
}

/// A list without duplicates has none after an identifier was taken out of it.
pub proof fn lemma_without_id_once(owned: Seq<Seq<char>>, id: Seq<char>)
    requires
        owned.no_duplicates(),
    ensures
        without_id(owned, id).no_duplicates(),
        !without_id(owned, id).contains(id),
        forall|x: Seq<char>| x != id ==> without_id(owned, id).contains(x) == owned.contains(x),
    decreases owned.len(),
{
    if owned.len() == 0 {
        lemma_without_id_step(owned, id, id);
        assert(owned =~= Seq::empty());
    } else {
        let front = owned.drop_last();
        let last = owned.last();
        let kept = without_id(front, id);
        let all = without_id(owned, id);
        lemma_without_id_once(front, id);
        assert(owned =~= front.push(last));
        lemma_without_id_step(front, last, id);
        assert(all == if last != id {
            kept.push(last)
        } else {
            kept
        });
        assert(!front.contains(last)) by {
            if front.contains(last) {
                let i = choose|i: int| 0 <= i < front.len() && front[i] == last;
                assert(owned[i] == owned[owned.len() - 1]);
            }
        }
        assert forall|x: Seq<char>| x != id implies all.contains(x) == owned.contains(x) by {
            if owned.contains(x) {
                let i = choose|i: int| 0 <= i < owned.len() && owned[i] == x;
                if i < front.len() {
                    assert(front[i] == x);
                    assert(front.contains(x));
                    let j = choose|j: int| 0 <= j < kept.len() && kept[j] == x;
                    assert(all[j] == x);
                } else {
                    assert(all[kept.len() as int] == x);
                }
            }
            if all.contains(x) {
                let j = choose|j: int| 0 <= j < all.len() && all[j] == x;
                if j < kept.len() {
                    assert(kept[j] == x);
                    assert(kept.contains(x));
                    assert(front.contains(x));
                    let i = choose|i: int| 0 <= i < front.len() && front[i] == x;
                    assert(owned[i] == x);
                } else {
                    assert(owned[owned.len() - 1] == x);
                }
            }
        }
        if last != id {
            assert(!kept.contains(last));
            assert forall|i: int, j: int|
                0 <= i < all.len() && 0 <= j < all.len() && i != j implies all[i] != all[j] by {
                if i < kept.len() && j < kept.len() {
                } else if i < kept.len() {
                    assert(kept.contains(kept[i]));
                } else {
                    assert(kept.contains(kept[j]));
                }
            }
            assert(!all.contains(id)) by {
                if all.contains(id) {
                    let j = choose|j: int| 0 <= j < all.len() && all[j] == id;
                    if j < kept.len() {
                        assert(kept.contains(id));
                    }
                }
            }
        }
    }
}

/// A list without duplicates has none after an identifier was put into it.
pub proof fn lemma_with_id_once(owned: Seq<Seq<char>>, id: Seq<char>)
    requires
        owned.no_duplicates(),
    ensures
        with_id(owned, id).no_duplicates(),
        with_id(owned, id).contains(id),
        forall|x: Seq<char>| x != id ==> with_id(owned, id).contains(x) == owned.contains(x),
{
    if !owned.contains(id) {
        let grown = owned.push(id);
        assert(grown[owned.len() as int] == id);
        assert forall|i: int, j: int|
            0 <= i < grown.len() && 0 <= j < grown.len() && i != j implies grown[i] != grown[j] by {
            if i < owned.len() && j < owned.len() {
            } else if i < owned.len() {
                assert(owned.contains(owned[i]));
            } else {
                assert(owned.contains(owned[j]));
            }
        }
        assert forall|x: Seq<char>| x != id implies grown.contains(x) == owned.contains(x) by {
            if owned.contains(x) {
                let i = choose|i: int| 0 <= i < owned.len() && owned[i] == x;
                assert(grown[i] == x);
            }
            if grown.contains(x) {
                let i = choose|i: int| 0 <= i < grown.len() && grown[i] == x;
                assert(owned[i] == x);
            }
        }
    }
}

/// The state before anything was registered is sound.
pub proof fn lemma_initial_sound()
    ensures
        sound(MarketView::initial()),
{
}

/// No operation breaks the form of a registry.
pub proof fn lemma_step_wf(s: MarketView, op: Operation)
    requires
        s.wf(),
    ensures
        apply(s, op).wf(),
{
    match op {
        Operation::RegisterIp { caller, now, req } => {
            s.ips.lemma_put_wf(registered_id(s), registered_ip(s, caller, now, req));
        },
        Operation::VerifyIp { ip_id, status } => {
            if s.ips.contains_key(ip_id) {
                s.ips.lemma_put_wf(ip_id, apply(s, op).ips.map[ip_id]);
            }
        },
        Operation::Mint { caller, now, canister, req, rarity_score } => {
            if mint_refusal(s, caller, req) is None {
                let after = apply(s, op);
                s.ips.lemma_put_wf(req.ip_id, after.ips.map[req.ip_id]);
                s.nfts.lemma_put_wf(minted_id(s), after.nfts.map[minted_id(s)]);
                s.nft_metadata.lemma_put_wf(minted_id(s), after.nft_metadata.map[minted_id(s)]);
            }
        },
        Operation::Transfer { caller, now, nft_id, to } => {
            if s.nfts.contains_key(nft_id) {
                s.nfts.lemma_put_wf(nft_id, apply(s, op).nfts.map[nft_id]);
            }
        },
        Operation::CountView { nft_id } => {
            if s.nfts.contains_key(nft_id) {
                s.nfts.lemma_put_wf(nft_id, apply(s, op).nfts.map[nft_id]);
            }
        },
        Operation::CountFavorite { nft_id } => {
            if s.nfts.contains_key(nft_id) {
                s.nfts.lemma_put_wf(nft_id, apply(s, op).nfts.map[nft_id]);
            }
        },
        Operation::CreateProfile { .. } => {},
        Operation::UpdateProfile { .. } => {},
        Operation::Reputation { .. } => {},
        Operation::List { caller, now, req } => {
            s.listings.lemma_put_wf(listed_id(s), new_listing(s, caller, now, req));
        },
        Operation::Bid { caller, now, listing_id, amount } => {
            if s.listings.contains_key(listing_id) {
                s.listings.lemma_put_wf(listing_id, apply(s, op).listings.map[listing_id]);
            }
        },
        Operation::Buy { caller, now, listing_id } => {
            if s.listings.contains_key(listing_id) {
                let l = s.listings.map[listing_id];
                s.listings.lemma_put_wf(listing_id, apply(s, op).listings.map[listing_id]);
                if s.nfts.contains_key(l.nft_id) {
                    s.nfts.lemma_put_wf(l.nft_id, apply(s, op).nfts.map[l.nft_id]);
                }
            }
        },
        Operation::Cancel { caller, listing_id } => {
            if s.listings.contains_key(listing_id) {
                s.listings.lemma_put_wf(listing_id, apply(s, op).listings.map[listing_id]);
            }
        },
        Operation::Sweep { now } => {},
    }
}

/// What the counter has handed out it has handed out for good.
pub proof fn lemma_drawn_stays(prefix: Seq<char>, key: Seq<char>, before: u64, after: u64)
    requires
        drawn(prefix, key, before),
        before <= after,
    ensures
        drawn(prefix, key, after),
{
    let n = choose|n: u64| n < before && key == #[trigger] id_text(prefix, n);
    assert(n < after && key == id_text(prefix, n));
}

/// The identifier that the counter hands out next is not in use: nothing is
/// kept under the identifier that the next work, token or listing gets.
pub proof fn lemma_next_id_unused(s: MarketView)
    requires
        ids_drawn(s),
    ensures
        !s.ips.contains_key(registered_id(s)),
        !s.nfts.contains_key(minted_id(s)),
        !s.nft_metadata.contains_key(minted_id(s)),
        !s.listings.contains_key(listed_id(s)),
{
    if s.ips.map.contains_key(registered_id(s)) {
        let n = choose|n: u64| n < s.counter && registered_id(s) == #[trigger] id_text("IP"@, n);
        lemma_id_text_injective("IP"@, n, s.counter);
    }
    if s.nfts.map.contains_key(minted_id(s)) {
        let n = choose|n: u64| n < s.counter && minted_id(s) == #[trigger] id_text("NFT"@, n);
        lemma_id_text_injective("NFT"@, n, s.counter);
    }
    if s.nft_metadata.map.contains_key(minted_id(s)) {
        let n = choose|n: u64| n < s.counter && minted_id(s) == #[trigger] id_text("NFT"@, n);
        lemma_id_text_injective("NFT"@, n, s.counter);
    }
    if s.listings.map.contains_key(listed_id(s)) {
        let n = choose|n: u64|
            n < s.counter && listed_id(s) == #[trigger] id_text("LISTING"@, n);
        lemma_id_text_injective("LISTING"@, n, s.counter);
    }
}

/// The counter never falls, and no operation takes a record away: what is kept
/// under an identifier before an operation is kept under it after.
pub proof fn lemma_step_keeps_records(s: MarketView, op: Operation)
    requires
        permitted(s, op),
    ensures
        apply(s, op).counter >= s.counter,
        forall|k: Seq<char>| s.ips.contains_key(k) ==> apply(s, op).ips.contains_key(k),
        forall|k: Seq<char>| s.nfts.contains_key(k) ==> apply(s, op).nfts.contains_key(k),
        forall|k: Seq<char>|
            s.nft_metadata.contains_key(k) ==> apply(s, op).nft_metadata.contains_key(k),
        forall|k: Seq<char>| s.listings.contains_key(k) ==> apply(s, op).listings.contains_key(k),
        forall|u: Seq<u8>| s.users.contains_key(u) ==> apply(s, op).users.contains_key(u),
{
}

/// Every record stays under an identifier that the counter has handed out.
pub proof fn lemma_step_ids_drawn(s: MarketView, op: Operation)
    requires
        ids_drawn(s),
        permitted(s, op),
    ensures
        ids_drawn(apply(s, op)),
{
    let after = apply(s, op);
    lemma_step_keeps_records(s, op);
    assert forall|k: Seq<char>| #[trigger] after.ips.map.contains_key(k) implies drawn(
        "IP"@,
        k,
        after.counter,
    ) by {
        if s.ips.map.contains_key(k) {
            lemma_drawn_stays("IP"@, k, s.counter, after.counter);
        } else {
            assert(k == id_text("IP"@, s.counter));
        }
    }
    assert forall|k: Seq<char>| #[trigger] after.nfts.map.contains_key(k) implies drawn(
        "NFT"@,
        k,
        after.counter,
    ) by {
        if s.nfts.map.contains_key(k) {
            lemma_drawn_stays("NFT"@, k, s.counter, after.counter);
        } else {
            assert(k == id_text("NFT"@, s.counter));
        }
    }
    assert forall|k: Seq<char>| #[trigger] after.nft_metadata.map.contains_key(k) implies drawn(
        "NFT"@,
        k,
        after.counter,
    ) by {
        if s.nft_metadata.map.contains_key(k) {
            lemma_drawn_stays("NFT"@, k, s.counter, after.counter);
        } else {
            assert(k == id_text("NFT"@, s.counter));
        }
    }
    assert forall|k: Seq<char>| #[trigger] after.listings.map.contains_key(k) implies drawn(
        "LISTING"@,
        k,
        after.counter,
    ) by {
        if s.listings.map.contains_key(k) {
            lemma_drawn_stays("LISTING"@, k, s.counter, after.counter);
        } else {
            assert(k == id_text("LISTING"@, s.counter));
        }
    }
}

/// Every record stays under its own identifier.
pub proof fn lemma_step_filed_by_id(s: MarketView, op: Operation)
    requires
        filed_by_id(s),
    ensures
        filed_by_id(apply(s, op)),
{
    let after = apply(s, op);
    match op {
        Operation::RegisterIp { .. } => {
            assert(filed_by_id(after));
        },
        Operation::VerifyIp { .. } => {
            assert(filed_by_id(after));
        },
        Operation::Mint { .. } => {
            assert(filed_by_id(after));
        },
        Operation::Transfer { .. } => {
            assert(filed_by_id(after));
        },
        Operation::CountView { .. } => {
            assert(filed_by_id(after));
        },
        Operation::CountFavorite { .. } => {
            assert(filed_by_id(after));
        },
        Operation::CreateProfile { .. } => {
            assert(filed_by_id(after));
        },
        Operation::UpdateProfile { .. } => {
            assert(filed_by_id(after));
        },
        Operation::Reputation { .. } => {
            assert(filed_by_id(after));
        },
        Operation::List { .. } => {
            assert(filed_by_id(after));
        },
        Operation::Bid { .. } => {
            assert(filed_by_id(after));
        },
        Operation::Buy { .. } => {
            assert(filed_by_id(after));
        },
        Operation::Cancel { .. } => {
            assert(filed_by_id(after));
        },
        Operation::Sweep { .. } => {
            assert(filed_by_id(after));
        },
    }
}

/// Every token stays sound.
pub proof fn lemma_step_tokens_sound(s: MarketView, op: Operation)
    requires
        tokens_sound(s),
        permitted(s, op),
    ensures
        tokens_sound(apply(s, op)),
{
}

/// Whether an operation leaves the tokens' works alone and writes no token
/// without its work and what is shown of it.
spec fn tokens_keep_works(s: MarketView, after: MarketView) -> bool {
    &&& forall|k: Seq<char>| s.ips.map.contains_key(k) ==> after.ips.map.contains_key(k)
    &&& forall|k: Seq<char>|
        s.nft_metadata.map.contains_key(k) ==> after.nft_metadata.map.contains_key(k)
    &&& forall|k: Seq<char>| #[trigger]
        after.nfts.map.contains_key(k) ==> (s.nfts.map.contains_key(k) && after.nfts.map[k].ip_id
            == s.nfts.map[k].ip_id) || (after.ips.map.contains_key(after.nfts.map[k].ip_id)
            && after.nft_metadata.map.contains_key(k))
}

proof fn lemma_step_tokens_keep_works(s: MarketView, op: Operation)
    ensures
        tokens_keep_works(s, apply(s, op)),
{
}

proof fn lemma_step_works_keep_tokens(s: MarketView, op: Operation)
    requires
        ids_drawn(s),
        references_hold(s),
    ensures
        forall|k: Seq<char>| #[trigger]
            apply(s, op).ips.map.contains_key(k) && apply(s, op).ips.map[k].nft_id is Some
                ==> apply(s, op).nfts.map.contains_key(apply(s, op).ips.map[k].nft_id->0) && apply(
                s,
                op,
            ).nfts.map[apply(s, op).ips.map[k].nft_id->0].ip_id == k,
{
    let after = apply(s, op);
    lemma_next_id_unused(s);
    assert forall|k: Seq<char>| #[trigger]
        after.ips.map.contains_key(k) && after.ips.map[k].nft_id is Some implies after.nfts.map.contains_key(
        after.ips.map[k].nft_id->0,
    ) && after.nfts.map[after.ips.map[k].nft_id->0].ip_id == k by {
        let t = after.ips.map[k].nft_id->0;
        match op {
            Operation::Mint { caller, req, .. } => {
                if mint_refusal(s, caller, req) is None && k != req.ip_id {
                    assert(s.ips.map.contains_key(k));
                    assert(s.nfts.map.contains_key(t));
                    assert(t != minted_id(s));
                }
            },
            Operation::RegisterIp { caller, now, req } => {
                if k != registered_id(s) || !registration_accepted(req) {
                    assert(s.ips.map.contains_key(k));
                }
            },
            Operation::VerifyIp { ip_id, status } => {
                assert(s.ips.map.contains_key(k));
            },
            Operation::Transfer { caller, now, nft_id, to } => {
                assert(s.ips.map.contains_key(k));
                assert(s.nfts.map.contains_key(t));
            },
            Operation::CountView { nft_id } => {
                assert(s.ips.map.contains_key(k));
                assert(s.nfts.map.contains_key(t));
            },
            Operation::CountFavorite { nft_id } => {
                assert(s.ips.map.contains_key(k));
                assert(s.nfts.map.contains_key(t));
            },
            Operation::Buy { caller, now, listing_id } => {
                assert(s.ips.map.contains_key(k));
                assert(s.nfts.map.contains_key(t));
            },
            _ => {
                assert(s.ips.map.contains_key(k));
            },
        }
    }
}

proof fn lemma_step_listings_keep_tokens(s: MarketView, op: Operation)
    requires
        references_hold(s),
    ensures
        forall|k: Seq<char>| #[trigger]
            apply(s, op).listings.map.contains_key(k) ==> apply(s, op).nfts.map.contains_key(
                apply(s, op).listings.map[k].nft_id,
            ),
{
    let after = apply(s, op);
    assert forall|k: Seq<char>| #[trigger] after.listings.map.contains_key(k) implies after.nfts.map.contains_key(
        after.listings.map[k].nft_id,
    ) by {
        match op {
            Operation::List { caller, now, req } => {
                if list_refusal(s, caller, req) is Some || k != listed_id(s) {
                    assert(s.listings.map.contains_key(k));
                }
            },
            _ => {
                assert(s.listings.map.contains_key(k));
                assert(s.nfts.map.contains_key(s.listings.map[k].nft_id));
            },
        }
    }
}

/// What one record names in another registry stays there.
pub proof fn lemma_step_references_hold(s: MarketView, op: Operation)
    requires
        ids_drawn(s),
        references_hold(s),
    ensures
        references_hold(apply(s, op)),
{
    let after = apply(s, op);
    lemma_step_works_keep_tokens(s, op);
    lemma_step_listings_keep_tokens(s, op);
    lemma_step_tokens_keep_works(s, op);
    assert forall|k: Seq<char>| #[trigger] after.nfts.map.contains_key(k) implies after.ips.map.contains_key(
        after.nfts.map[k].ip_id,
    ) && after.nft_metadata.map.contains_key(k) by {
        if s.nfts.map.contains_key(k) && after.nfts.map[k].ip_id == s.nfts.map[k].ip_id {
            assert(s.ips.map.contains_key(s.nfts.map[k].ip_id));
            assert(s.nft_metadata.map.contains_key(k));
        }
    }
}

/// No profile comes to list a work or a token twice.
pub proof fn lemma_step_owned_once(s: MarketView, op: Operation)
    requires
        owned_once(s),
    ensures
        owned_once(apply(s, op)),
{
    let after = apply(s, op);
    assert forall|u: Seq<u8>| #[trigger] after.users.contains_key(u) implies after.users[u].owned_ips.no_duplicates()
        && after.users[u].owned_nfts.no_duplicates() by {
        match op {
            Operation::RegisterIp { caller, .. } => {
                if s.users.contains_key(u) {
                    lemma_with_id_once(s.users[u].owned_ips, registered_id(s));
                }
            },
            Operation::Mint { caller, .. } => {
                if s.users.contains_key(u) {
                    lemma_with_id_once(s.users[u].owned_nfts, minted_id(s));
                }
            },
            Operation::Transfer { caller, nft_id, to, .. } => {
                if s.users.contains_key(u) {
                    lemma_without_id_once(s.users[u].owned_nfts, nft_id);
                    lemma_with_id_once(s.users[u].owned_nfts, nft_id);
                    lemma_with_id_once(without_id(s.users[u].owned_nfts, nft_id), nft_id);
                }
            },
            Operation::Buy { caller, listing_id, .. } => {
                if s.users.contains_key(u) && s.listings.contains_key(listing_id) {
                    let nft_id = s.listings.map[listing_id].nft_id;
                    lemma_without_id_once(s.users[u].owned_nfts, nft_id);
                    lemma_with_id_once(s.users[u].owned_nfts, nft_id);
                    lemma_with_id_once(without_id(s.users[u].owned_nfts, nft_id), nft_id);
                }
            },
            _ => {},
        }
    }
}

/// No operation lets two open listings offer one token.
pub proof fn lemma_step_offered_once(s: MarketView, op: Operation)
    requires
        offered_once(s.listings),
    ensures
        offered_once(apply(s, op).listings),
{
    match op {
        Operation::List { caller, now, req } => {
            lemma_list_keeps_offered_once(s, caller, now, req);
        },
        Operation::Bid { caller, now, listing_id, amount } => {
            lemma_bid_keeps_offered_once(s, caller, now, listing_id, amount);
        },
        Operation::Buy { caller, now, listing_id } => {
            lemma_buy_keeps_offered_once(s, caller, now, listing_id);
        },
        Operation::Cancel { caller, listing_id } => {
            lemma_cancel_keeps_offered_once(s, caller, listing_id);
        },
        Operation::Sweep { now } => {
            lemma_sweep_keeps_offered_once(s, now);
        },
        _ => {},
    }
}

/// A work is linked to a token once: once a work names its token, every
/// operation leaves that link as it is.
pub proof fn lemma_step_keeps_token_of_work(s: MarketView, op: Operation, ip_id: Seq<char>)
    requires
        ids_drawn(s),
        permitted(s, op),
        s.ips.contains_key(ip_id),
        s.ips.map[ip_id].nft_id is Some,
    ensures
        apply(s, op).ips.contains_key(ip_id),
        apply(s, op).ips.map[ip_id].nft_id == s.ips.map[ip_id].nft_id,
{
    lemma_next_id_unused(s);
}

/// Whether a token is as it was in what minting fixed of it, with the history
/// that it had standing at the beginning of the history that it has.
pub open spec fn token_kept(before: IPNftView, after: IPNftView) -> bool {
    &&& after.token_id == before.token_id
    &&& after.creator == before.creator
    &&& after.ip_id == before.ip_id
    &&& after.rarity_score == before.rarity_score
    &&& after.royalty_percentage == before.royalty_percentage
    &&& before.transfer_history.is_prefix_of(after.transfer_history)
}

proof fn lemma_token_kept_by_move(t: IPNftView, from: Seq<u8>, to: Seq<u8>, now: u64, price: u64)
    ensures
        token_kept(t, moved_token(t, from, to, now)),
        token_kept(t, sold_token(t, from, to, now, price)),
        token_kept(t, t),
{
}

/// A token's history only grows, and what minting fixed of a token stays: no
/// operation changes its ordinal, its creator, its work, its royalty or its
/// rarity score, and the history it had stands at the beginning of the history
/// it has.
pub proof fn lemma_step_keeps_token(s: MarketView, op: Operation, nft_id: Seq<char>)
    requires
        ids_drawn(s),
        permitted(s, op),
        s.nfts.contains_key(nft_id),
    ensures
        apply(s, op).nfts.contains_key(nft_id),
        token_kept(s.nfts.map[nft_id], apply(s, op).nfts.map[nft_id]),
{
    lemma_next_id_unused(s);
    let before = s.nfts.map[nft_id];
    let after = apply(s, op).nfts.map[nft_id];
    match op {
        Operation::Transfer { caller, now, nft_id: moved, to } => {
            lemma_token_kept_by_move(before, caller, to, now, 0);
        },
        Operation::Buy { caller, now, listing_id } => {
            if buy_outcome(s, now, listing_id) is Ok {
                let l = s.listings.map[listing_id];
                lemma_token_kept_by_move(before, l.seller, caller, now, l.price);
            } else {
                assert(after == before);
            }
        },
        Operation::Mint { caller, req, .. } => {
            if mint_refusal(s, caller, req) is None {
                assert(nft_id != minted_id(s));
            }
            assert(after == before);
        },
        Operation::CountView { nft_id: counted } => {
            assert(after.transfer_history == before.transfer_history);
        },
        Operation::CountFavorite { nft_id: counted } => {
            assert(after.transfer_history == before.transfer_history);
        },
        _ => {
            assert(after == before);
        },
    }
}

/// A listing that is sold, cancelled or expired stays exactly as it is, whatever
/// operation is called.
pub proof fn lemma_step_keeps_closed_listing(s: MarketView, op: Operation, listing_id: Seq<char>)
    requires
        ids_drawn(s),
        permitted(s, op),
        s.listings.contains_key(listing_id),
        !s.listings.map[listing_id].status.is_open(),
    ensures
        apply(s, op).listings.contains_key(listing_id),
        apply(s, op).listings.map[listing_id] == s.listings.map[listing_id],
{
    lemma_next_id_unused(s);
}

/// A listing comes into being only where one is created, under the identifier
/// that the counter hands out, and it begins open: `InAuction` where an auction
/// was asked for, `Active` where not.
pub proof fn lemma_step_new_listing(s: MarketView, op: Operation, listing_id: Seq<char>)
    requires
        !s.listings.contains_key(listing_id),
        apply(s, op).listings.contains_key(listing_id),
    ensures
        op is List,
        listing_id == listed_id(s),
        op matches Operation::List { req, .. } ==> apply(s, op).listings.map[listing_id].status
            == if req.is_auction {
            ListingStatus::InAuction
        } else {
            ListingStatus::Active
        },
{
}

/// The status of a listing moves forward only: from `Active` to `Sold`,
/// `Cancelled` or `Expired`, from `InAuction` to `Cancelled` or `Expired`, and
/// from there nowhere. A listing in auction is never sold.
pub proof fn lemma_step_status_moves(s: MarketView, op: Operation, listing_id: Seq<char>)
    requires
        ids_drawn(s),
        permitted(s, op),
        s.listings.contains_key(listing_id),
    ensures
        ({
            let before = s.listings.map[listing_id].status;
            let after = apply(s, op).listings.map[listing_id].status;
            ||| after == before
            ||| before == ListingStatus::Active && (after == ListingStatus::Sold || after
                == ListingStatus::Cancelled || after == ListingStatus::Expired)
            ||| before == ListingStatus::InAuction && (after == ListingStatus::Cancelled || after
                == ListingStatus::Expired)
        }),
{
    lemma_next_id_unused(s);
}

/// No operation lowers the current bid of an auction, changes its starting
/// price or its smallest increment, or takes its bidding away.
pub proof fn lemma_step_keeps_bidding(s: MarketView, op: Operation, listing_id: Seq<char>)
    requires
        ids_drawn(s),
        permitted(s, op),
        s.listings.contains_key(listing_id),
        s.listings.map[listing_id].auction_data is Some,
    ensures
        ({
            let before = s.listings.map[listing_id].auction_data->0;
            let after = apply(s, op).listings.map[listing_id];
            &&& apply(s, op).listings.contains_key(listing_id)
            &&& after.auction_data is Some
            &&& after.auction_data->0.current_bid >= before.current_bid
            &&& after.auction_data->0.starting_price == before.starting_price
            &&& after.auction_data->0.min_bid_increment == before.min_bid_increment
            &&& after.auction_data->0.auction_end == before.auction_end
        }),
{
    lemma_next_id_unused(s);
}

/// Whether the profiles are finitely many, each under its own identity, and
/// none lists a work or a token twice.
pub open spec fn profiles_sound(users: Map<Seq<u8>, UserProfileView>) -> bool {
    &&& users.dom().finite()
    &&& forall|u: Seq<u8>| #[trigger] users.contains_key(u) ==> users[u].principal == u
    &&& forall|u: Seq<u8>| #[trigger]
        users.contains_key(u) ==> users[u].owned_ips.no_duplicates()
            && users[u].owned_nfts.no_duplicates()
}

/// Giving a token to a profile, taking one from it, giving it a work, and
/// adding to its totals each leave sound profiles sound.
pub proof fn lemma_profile_writes_sound(
    users: Map<Seq<u8>, UserProfileView>,
    user: Seq<u8>,
    id: Seq<char>,
    sales: u64,
    purchases: u64,
)
    requires
        profiles_sound(users),
    ensures
        profiles_sound(users_with_nft(users, user, id)),
        profiles_sound(users_without_nft(users, user, id)),
        profiles_sound(users_with_ip(users, user, id)),
        profiles_sound(users_credited(users, user, sales, purchases)),
{
    if users.contains_key(user) {
        lemma_with_id_once(users[user].owned_nfts, id);
        lemma_without_id_once(users[user].owned_nfts, id);
        lemma_with_id_once(users[user].owned_ips, id);
    }
}

/// A sound state is sound with the counter further on.
pub proof fn lemma_counter_write_sound(s: MarketView, counter: u64)
    requires
        sound(s),
        counter >= s.counter,
    ensures
        sound(MarketView { counter, ..s }),
{
    let after = MarketView { counter, ..s };
    assert forall|k: Seq<char>| #[trigger] after.ips.map.contains_key(k) implies drawn(
        "IP"@,
        k,
        counter,
    ) by {
        lemma_drawn_stays("IP"@, k, s.counter, counter);
    }
    assert forall|k: Seq<char>| #[trigger] after.nfts.map.contains_key(k) implies drawn(
        "NFT"@,
        k,
        counter,
    ) by {
        lemma_drawn_stays("NFT"@, k, s.counter, counter);
    }
    assert forall|k: Seq<char>| #[trigger] after.nft_metadata.map.contains_key(k) implies drawn(
        "NFT"@,
        k,
        counter,
    ) by {
        lemma_drawn_stays("NFT"@, k, s.counter, counter);
    }
    assert forall|k: Seq<char>| #[trigger] after.listings.map.contains_key(k) implies drawn(
        "LISTING"@,
        k,
        counter,
    ) by {
        lemma_drawn_stays("LISTING"@, k, s.counter, counter);
    }
}

/// A sound state is sound with other profiles that are sound.
pub proof fn lemma_profiles_write_sound(s: MarketView, users: Map<Seq<u8>, UserProfileView>)
    requires
        sound(s),
        profiles_sound(users),
    ensures
        sound(MarketView { users, ..s }),
{
}

/// A sound state stays sound where a token is written anew under its
/// identifier, sound itself and for the same work.
pub proof fn lemma_token_write_sound(s: MarketView, nft_id: Seq<char>, t: IPNftView)
    requires
        sound(s),
        s.nfts.contains_key(nft_id),
        t.id == nft_id,
        t.ip_id == s.nfts.map[nft_id].ip_id,
        token_sound(t),
    ensures
        sound(MarketView { nfts: s.nfts.put(nft_id, t), ..s }),
{
    s.nfts.lemma_put_wf(nft_id, t);
    let after = MarketView { nfts: s.nfts.put(nft_id, t), ..s };
    assert forall|k: Seq<char>| #[trigger]
        after.ips.map.contains_key(k) && after.ips.map[k].nft_id is Some implies after.nfts.map.contains_key(
        after.ips.map[k].nft_id->0,
    ) && after.nfts.map[after.ips.map[k].nft_id->0].ip_id == k by {
        assert(s.ips.map.contains_key(k));
    }
    assert forall|k: Seq<char>| #[trigger] after.listings.map.contains_key(k) implies after.nfts.map.contains_key(
        after.listings.map[k].nft_id,
    ) by {
        assert(s.listings.map.contains_key(k));
    }
}

/// A sound state stays sound where a listing is written anew under its
/// identifier, for the same token, and not opened where it was closed.
pub proof fn lemma_listing_write_sound(s: MarketView, listing_id: Seq<char>, l: MarketplaceListingView)
    requires
        sound(s),
        s.listings.contains_key(listing_id),
        l.id == listing_id,
        l.nft_id == s.listings.map[listing_id].nft_id,
        l.status.is_open() ==> s.listings.map[listing_id].status.is_open(),
    ensures
        sound(with_listings(s, s.listings.put(listing_id, l))),
{
    s.listings.lemma_put_wf(listing_id, l);
    lemma_offered_once_kept(s.listings, s.listings.put(listing_id, l));
}

/// A sound state stays sound where what is shown of a token is written under
/// an identifier that the counter has handed out for tokens.
pub proof fn lemma_metadata_write_sound(s: MarketView, nft_id: Seq<char>, m: NFTMetadataView)
    requires
        sound(s),
        drawn("NFT"@, nft_id, s.counter),
        m.token_id == nft_id,
    ensures
        sound(MarketView { nft_metadata: s.nft_metadata.put(nft_id, m), ..s }),
{
    s.nft_metadata.lemma_put_wf(nft_id, m);
    let after = MarketView { nft_metadata: s.nft_metadata.put(nft_id, m), ..s };
    assert forall|k: Seq<char>| #[trigger] after.nfts.map.contains_key(k) implies after.ips.map.contains_key(
        after.nfts.map[k].ip_id,
    ) && after.nft_metadata.map.contains_key(k) by {
        assert(s.nfts.map.contains_key(k));
    }
}

/// A sound state stays sound where a new token is written under an identifier
/// that the counter has handed out and that is not in use, sound itself, for a
/// work that is there, and after what is shown of it.
pub proof fn lemma_new_token_write_sound(s: MarketView, nft_id: Seq<char>, t: IPNftView)
    requires
        sound(s),
        drawn("NFT"@, nft_id, s.counter),
        !s.nfts.contains_key(nft_id),
        s.nft_metadata.contains_key(nft_id),
        s.ips.contains_key(t.ip_id),
        t.id == nft_id,
        token_sound(t),
    ensures
        sound(MarketView { nfts: s.nfts.put(nft_id, t), ..s }),
{
    s.nfts.lemma_put_wf(nft_id, t);
    let after = MarketView { nfts: s.nfts.put(nft_id, t), ..s };
    assert forall|k: Seq<char>| #[trigger]
        after.ips.map.contains_key(k) && after.ips.map[k].nft_id is Some implies after.nfts.map.contains_key(
        after.ips.map[k].nft_id->0,
    ) && after.nfts.map[after.ips.map[k].nft_id->0].ip_id == k by {
        assert(s.ips.map.contains_key(k));
    }
    assert forall|k: Seq<char>| #[trigger] after.listings.map.contains_key(k) implies after.nfts.map.contains_key(
        after.listings.map[k].nft_id,
    ) by {
        assert(s.listings.map.contains_key(k));
    }
    assert forall|k: Seq<char>| #[trigger] after.nfts.map.contains_key(k) implies after.ips.map.contains_key(
        after.nfts.map[k].ip_id,
    ) && after.nft_metadata.map.contains_key(k) by {
        if k != nft_id {
            assert(s.nfts.map.contains_key(k));
        }
    }
}

/// A sound state stays sound where a work is written anew under its identifier
/// and names no token, or names a token that is there and was minted for it.
pub proof fn lemma_ip_write_sound(s: MarketView, ip_id: Seq<char>, ip: IntellectualPropertyView)
    requires
        sound(s),
        s.ips.contains_key(ip_id) || drawn("IP"@, ip_id, s.counter),
        ip.id == ip_id,
        ip.nft_id is Some ==> s.nfts.contains_key(ip.nft_id->0) && s.nfts.map[ip.nft_id->0].ip_id
            == ip_id,
    ensures
        sound(MarketView { ips: s.ips.put(ip_id, ip), ..s }),
{
    s.ips.lemma_put_wf(ip_id, ip);
    let after = MarketView { ips: s.ips.put(ip_id, ip), ..s };
    assert forall|k: Seq<char>| #[trigger]
        after.ips.map.contains_key(k) && after.ips.map[k].nft_id is Some implies after.nfts.map.contains_key(
        after.ips.map[k].nft_id->0,
    ) && after.nfts.map[after.ips.map[k].nft_id->0].ip_id == k by {
        if k != ip_id {
            assert(s.ips.map.contains_key(k));
        }
    }
    assert forall|k: Seq<char>| #[trigger] after.nfts.map.contains_key(k) implies after.ips.map.contains_key(
        after.nfts.map[k].ip_id,
    ) && after.nft_metadata.map.contains_key(k) by {
        assert(s.nfts.map.contains_key(k));
    }
}

/// A sound state stays sound where a new listing is written under an
/// identifier that the counter has handed out, for a token that is there and
/// that no open listing offers.
pub proof fn lemma_new_listing_write_sound(
    s: MarketView,
    listing_id: Seq<char>,
    l: MarketplaceListingView,
)
    requires
        sound(s),
        drawn("LISTING"@, listing_id, s.counter),
        l.id == listing_id,
        s.nfts.contains_key(l.nft_id),
        !is_offered(s.listings, l.nft_id),
    ensures
        sound(with_listings(s, s.listings.put(listing_id, l))),
{
    s.listings.lemma_put_wf(listing_id, l);
    let after = s.listings.put(listing_id, l);
    assert forall|a: Seq<char>, b: Seq<char>|
        after.map.contains_key(a) && after.map.contains_key(b) && a != b && (
        #[trigger] after.map[a]).status.is_open() && (#[trigger] after.map[b]).status.is_open() implies after.map[a].nft_id
        != after.map[b].nft_id by {
        if a == listing_id {
            assert(s.listings.map.contains_key(b));
            assert(!offers(s.listings.map[b], l.nft_id));
        } else if b == listing_id {
            assert(s.listings.map.contains_key(a));
            assert(!offers(s.listings.map[a], l.nft_id));
        } else {
            assert(s.listings.map[a].status.is_open() && s.listings.map[b].status.is_open());
        }
    }
    assert forall|k: Seq<char>| #[trigger]
        with_listings(s, after).listings.map.contains_key(k) implies with_listings(
        s,
        after,
    ).nfts.map.contains_key(with_listings(s, after).listings.map[k].nft_id) by {
        if k != listing_id {
            assert(s.listings.map.contains_key(k));
        }
    }
}

/// A registration that is taken in a sound state leaves a sound state behind
/// after each of its writes: it can stop between any two of them.
pub proof fn lemma_register_steps_sound(
    s: MarketView,
    caller: Seq<u8>,
    now: u64,
    req: RegisterIPRequestView,
)
    requires
        sound(s),
        s.counter < u64::MAX,
        registration_accepted(req),
    ensures
        forall|i: int| 0 <= i < 3 ==> sound(#[trigger] register_steps(s, caller, now, req)[i]),
{
    let steps = register_steps(s, caller, now, req);
    lemma_counter_write_sound(s, (s.counter + 1) as u64);
    assert(drawn("IP"@, registered_id(s), steps[0].counter)) by {
        assert(registered_id(s) == id_text("IP"@, s.counter));
    }
    lemma_ip_write_sound(steps[0], registered_id(s), registered_ip(s, caller, now, req));
    lemma_profile_writes_sound(steps[1].users, caller, registered_id(s), 0, 0);
    lemma_profiles_write_sound(steps[1], users_with_ip(steps[1].users, caller, registered_id(s)));
}

/// A mint that goes through in a sound state leaves a sound state behind after
/// each of its writes: it can stop between any two of them.
pub proof fn lemma_mint_steps_sound(
    s: MarketView,
    caller: Seq<u8>,
    now: u64,
    canister: Seq<u8>,
    req: MintNFTRequestView,
    rarity_score: Float64,
)
    requires
        sound(s),
        s.counter + 2 <= u64::MAX,
        mint_refusal(s, caller, req) is None,
    ensures
        forall|i: int|
            0 <= i < 6 ==> sound(
                #[trigger] mint_steps(s, caller, now, canister, req, rarity_score)[i],
            ),
{
    let steps = mint_steps(s, caller, now, canister, req, rarity_score);
    let id = minted_id(s);
    let ip = s.ips.map[req.ip_id];
    lemma_next_id_unused(s);
    lemma_counter_write_sound(s, (s.counter + 1) as u64);
    lemma_counter_write_sound(steps[0], (s.counter + 2) as u64);
    assert(drawn("NFT"@, id, steps[1].counter)) by {
        assert(id == id_text("NFT"@, s.counter));
    }
    lemma_metadata_write_sound(steps[1], id, minted_metadata(s, ip, caller, now, req));
    lemma_new_token_write_sound(
        steps[2],
        id,
        minted_token(s, caller, now, canister, req, rarity_score),
    );
    lemma_ip_write_sound(
        steps[3],
        req.ip_id,
        IntellectualPropertyView { nft_id: Some(id), ..ip },
    );
    lemma_profile_writes_sound(steps[4].users, caller, id, 0, 0);
    lemma_profiles_write_sound(steps[4], users_with_nft(steps[4].users, caller, id));
}

/// A handing on that goes through in a sound state leaves a sound state behind
/// after each of its writes: it can stop between any two of them.
pub proof fn lemma_transfer_steps_sound(
    s: MarketView,
    caller: Seq<u8>,
    now: u64,
    nft_id: Seq<char>,
    to: Seq<u8>,
)
    requires
        sound(s),
        transfer_outcome(s, caller, nft_id) is Ok,
    ensures
        forall|i: int|
            0 <= i < 3 ==> sound(#[trigger] transfer_steps(s, caller, now, nft_id, to)[i]),
{
    let steps = transfer_steps(s, caller, now, nft_id, to);
    lemma_token_write_sound(s, nft_id, moved_token(s.nfts.map[nft_id], caller, to, now));
    lemma_profile_writes_sound(steps[0].users, caller, nft_id, 0, 0);
    lemma_profiles_write_sound(steps[0], users_without_nft(steps[0].users, caller, nft_id));
    lemma_profile_writes_sound(steps[1].users, to, nft_id, 0, 0);
    lemma_profiles_write_sound(steps[1], users_with_nft(steps[1].users, to, nft_id));
}

/// The creation of a listing in a sound state leaves a sound state behind after
/// each of its writes: it can stop between the two.
pub proof fn lemma_list_steps_sound(s: MarketView, caller: Seq<u8>, now: u64, req: ListNFTRequestView)
    requires
        sound(s),
        s.counter < u64::MAX,
        list_refusal(s, caller, req) is None,
    ensures
        forall|i: int| 0 <= i < 2 ==> sound(#[trigger] list_steps(s, caller, now, req)[i]),
{
    let steps = list_steps(s, caller, now, req);
    lemma_counter_write_sound(s, (s.counter + 1) as u64);
    assert(drawn("LISTING"@, listed_id(s), steps[0].counter)) by {
        assert(listed_id(s) == id_text("LISTING"@, s.counter));
    }
    lemma_new_listing_write_sound(steps[0], listed_id(s), new_listing(s, caller, now, req));
}

/// A purchase that goes through in a sound state leaves a sound state behind
/// after each of its writes: it can stop between any two of them. The token is
/// written first, so that a purchase that stops early has handed the token to
/// the buyer, whatever the profiles list.
pub proof fn lemma_buy_steps_sound(s: MarketView, caller: Seq<u8>, now: u64, listing_id: Seq<char>)
    requires
        sound(s),
        buy_outcome(s, now, listing_id) is Ok,
        buy_fits(s, caller, now, listing_id),
    ensures
        forall|i: int| 0 <= i < 6 ==> sound(#[trigger] buy_steps(s, caller, now, listing_id)[i]),
        ({
            let l = s.listings.map[listing_id];
            let first = buy_steps(s, caller, now, listing_id)[0];
            &&& first.nfts.contains_key(l.nft_id)
            &&& first.nfts.map[l.nft_id].owner == caller
            &&& first.users == s.users
            &&& first.listings == s.listings
        }),
{
    let steps = buy_steps(s, caller, now, listing_id);
    let l = s.listings.map[listing_id];
    assert(s.listings.map.contains_key(listing_id));
    assert(s.nfts.map.contains_key(l.nft_id));
    lemma_token_write_sound(
        s,
        l.nft_id,
        sold_token(s.nfts.map[l.nft_id], l.seller, caller, now, l.price),
    );
    lemma_profile_writes_sound(steps[0].users, l.seller, l.nft_id, 0, 0);
    lemma_profiles_write_sound(steps[0], users_without_nft(steps[0].users, l.seller, l.nft_id));
    lemma_profile_writes_sound(steps[1].users, caller, l.nft_id, 0, 0);
    lemma_profiles_write_sound(steps[1], users_with_nft(steps[1].users, caller, l.nft_id));
    lemma_profile_writes_sound(steps[2].users, l.seller, l.nft_id, l.price, 0);
    lemma_profiles_write_sound(steps[2], users_credited(steps[2].users, l.seller, l.price, 0));
    lemma_profile_writes_sound(steps[3].users, caller, l.nft_id, 0, l.price);
    lemma_profiles_write_sound(steps[3], users_credited(steps[3].users, caller, 0, l.price));
    lemma_listing_write_sound(steps[4], listing_id, in_status(l, ListingStatus::Sold));
}

/// What the profiles list is owned as they list it: a work or a token in a
/// profile's list is registered and belongs to that profile's user.
pub open spec fn index_within(s: MarketView) -> bool {
    tokens_within(s) && works_within(s)
}

/// Where the profiles list only what their users own, no token and no work is
/// in the lists of two profiles.
pub proof fn lemma_listed_by_one(s: MarketView, a: Seq<u8>, b: Seq<u8>, id: Seq<char>)
    requires
        index_within(s),
        s.users.contains_key(a),
        s.users.contains_key(b),
    ensures
        s.users[a].owned_nfts.contains(id) && s.users[b].owned_nfts.contains(id) ==> a == b,
        s.users[a].owned_ips.contains(id) && s.users[b].owned_ips.contains(id) ==> a == b,
{
}

/// Whether the profiles list only tokens that their users own.
pub open spec fn tokens_within(s: MarketView) -> bool {
    forall|u: Seq<u8>, id: Seq<char>|
        s.users.contains_key(u) && #[trigger] s.users[u].owned_nfts.contains(id)
            ==> s.nfts.contains_key(id) && s.nfts.map[id].owner == u
}

/// Whether the profiles list only works that their users own.
pub open spec fn works_within(s: MarketView) -> bool {
    forall|u: Seq<u8>, id: Seq<char>|
        s.users.contains_key(u) && #[trigger] s.users[u].owned_ips.contains(id)
            ==> s.ips.contains_key(id) && s.ips.map[id].owner == u
}

proof fn lemma_mint_tokens_within(s: MarketView, op: Operation)
    requires
        sound(s),
        tokens_within(s),
        permitted(s, op),
        op is Mint,
    ensures
        tokens_within(apply(s, op)),
{
    let after = apply(s, op);
    lemma_next_id_unused(s);
    if let Operation::Mint { caller, req, .. } = op {
        if mint_refusal(s, caller, req) is None {
            assert forall|u: Seq<u8>, id: Seq<char>|
                after.users.contains_key(u) && #[trigger] after.users[u].owned_nfts.contains(
                    id,
                ) implies after.nfts.contains_key(id) && after.nfts.map[id].owner == u by {
                lemma_with_id_once(s.users[u].owned_nfts, minted_id(s));
                if id != minted_id(s) {
                    assert(s.users[u].owned_nfts.contains(id));
                }
            }
        }
    }
}

proof fn lemma_transfer_tokens_within(s: MarketView, op: Operation)
    requires
        sound(s),
        tokens_within(s),
        op is Transfer,
    ensures
        tokens_within(apply(s, op)),
{
    let after = apply(s, op);
    if let Operation::Transfer { caller, nft_id, to, .. } = op {
        if transfer_outcome(s, caller, nft_id) is Ok {
            assert forall|u: Seq<u8>, id: Seq<char>|
                after.users.contains_key(u) && #[trigger] after.users[u].owned_nfts.contains(
                    id,
                ) implies after.nfts.contains_key(id) && after.nfts.map[id].owner == u by {
                lemma_without_id_once(s.users[u].owned_nfts, nft_id);
                lemma_with_id_once(s.users[u].owned_nfts, nft_id);
                lemma_with_id_once(without_id(s.users[u].owned_nfts, nft_id), nft_id);
                if id != nft_id {
                    assert(s.users[u].owned_nfts.contains(id));
                } else if u != to {
                    assert(s.users[u].owned_nfts.contains(id));
                }
            }
        }
    }
}

proof fn lemma_buy_tokens_within(s: MarketView, op: Operation)
    requires
        sound(s),
        tokens_within(s),
        op is Buy,
    ensures
        tokens_within(apply(s, op)),
{
    let after = apply(s, op);
    if let Operation::Buy { caller, now, listing_id } = op {
        if buy_outcome(s, now, listing_id) is Ok {
            let l = s.listings.map[listing_id];
            assert(s.listings.map.contains_key(listing_id));
            assert(s.nfts.map.contains_key(l.nft_id));
            assert(s.nfts.map[l.nft_id].owner == l.seller);
            assert forall|u: Seq<u8>, id: Seq<char>|
                after.users.contains_key(u) && #[trigger] after.users[u].owned_nfts.contains(
                    id,
                ) implies after.nfts.contains_key(id) && after.nfts.map[id].owner == u by {
                lemma_without_id_once(s.users[u].owned_nfts, l.nft_id);
                lemma_with_id_once(s.users[u].owned_nfts, l.nft_id);
                lemma_with_id_once(without_id(s.users[u].owned_nfts, l.nft_id), l.nft_id);
                if id != l.nft_id {
                    assert(s.users[u].owned_nfts.contains(id));
                } else if u != caller {
                    assert(s.users[u].owned_nfts.contains(id));
                }
            }
        }
    }
}

proof fn lemma_other_tokens_within(s: MarketView, op: Operation)
    requires
        sound(s),
        tokens_within(s),
        permitted(s, op),
        !(op is Mint),
        !(op is Transfer),
        !(op is Buy),
    ensures
        tokens_within(apply(s, op)),
{
    let after = apply(s, op);
    assert forall|u: Seq<u8>, id: Seq<char>|
        after.users.contains_key(u) && #[trigger] after.users[u].owned_nfts.contains(
            id,
        ) implies after.nfts.contains_key(id) && after.nfts.map[id].owner == u by {
        if s.users.contains_key(u) {
            assert(s.users[u].owned_nfts.contains(id));
        }
    }
}

proof fn lemma_register_works_within(s: MarketView, op: Operation)
    requires
        sound(s),
        works_within(s),
        permitted(s, op),
        op is RegisterIp,
    ensures
        works_within(apply(s, op)),
{
    let after = apply(s, op);
    lemma_next_id_unused(s);
    if let Operation::RegisterIp { caller, req, .. } = op {
        if registration_accepted(req) {
            assert forall|u: Seq<u8>, id: Seq<char>|
                after.users.contains_key(u) && #[trigger] after.users[u].owned_ips.contains(
                    id,
                ) implies after.ips.contains_key(id) && after.ips.map[id].owner == u by {
                lemma_with_id_once(s.users[u].owned_ips, registered_id(s));
                if id != registered_id(s) {
                    assert(s.users[u].owned_ips.contains(id));
                }
            }
        }
    }
}

proof fn lemma_other_works_within(s: MarketView, op: Operation)
    requires
        sound(s),
        works_within(s),
        permitted(s, op),
        !(op is RegisterIp),
    ensures
        works_within(apply(s, op)),
{
    let after = apply(s, op);
    assert forall|u: Seq<u8>| #[trigger] after.users.contains_key(u) implies (s.users.contains_key(
        u,
    ) && after.users[u].owned_ips == s.users[u].owned_ips) || after.users[u].owned_ips
        == Seq::<Seq<char>>::empty() by {}
    assert forall|id: Seq<char>| #[trigger] s.ips.contains_key(id) implies after.ips.contains_key(
        id,
    ) && after.ips.map[id].owner == s.ips.map[id].owner by {}
    assert forall|u: Seq<u8>, id: Seq<char>|
        after.users.contains_key(u) && #[trigger] after.users[u].owned_ips.contains(
            id,
        ) implies after.ips.contains_key(id) && after.ips.map[id].owner == u by {
        assert(s.users.contains_key(u));
        assert(s.users[u].owned_ips.contains(id));
        assert(s.ips.contains_key(id));
    }
}

proof fn lemma_step_works_within(s: MarketView, op: Operation)
    requires
        sound(s),
        works_within(s),
        permitted(s, op),
    ensures
        works_within(apply(s, op)),
{
    if op is RegisterIp {
        lemma_register_works_within(s, op);
    } else {
        lemma_other_works_within(s, op);
    }
}

/// The lists of the profiles follow the registries: where they list only what
/// their users own, they do so after every operation.
pub proof fn lemma_step_index_within(s: MarketView, op: Operation)
    requires
        sound(s),
        index_within(s),
        permitted(s, op),
    ensures
        index_within(apply(s, op)),
{
    lemma_step_works_within(s, op);
    if op is Mint {
        lemma_mint_tokens_within(s, op);
    } else if op is Transfer {
        lemma_transfer_tokens_within(s, op);
    } else if op is Buy {
        lemma_buy_tokens_within(s, op);
    } else {
        lemma_other_tokens_within(s, op);
    }
}

/// Every token is the one that its work names: works with a token and tokens
/// stand one to one.
pub open spec fn tokens_linked(s: MarketView) -> bool {
    forall|k: Seq<char>| #[trigger]
        s.nfts.map.contains_key(k) ==> s.ips.map.contains_key(s.nfts.map[k].ip_id)
            && s.ips.map[s.nfts.map[k].ip_id].nft_id == Some(k)
}

proof fn lemma_mint_tokens_linked(s: MarketView, op: Operation)
    requires
        sound(s),
        tokens_linked(s),
        permitted(s, op),
        op is Mint,
    ensures
        tokens_linked(apply(s, op)),
{
    let after = apply(s, op);
    lemma_next_id_unused(s);
    if let Operation::Mint { caller, req, .. } = op {
        if mint_refusal(s, caller, req) is None {
            assert forall|k: Seq<char>| #[trigger] after.nfts.map.contains_key(k) implies after.ips.map.contains_key(
                after.nfts.map[k].ip_id,
            ) && after.ips.map[after.nfts.map[k].ip_id].nft_id == Some(k) by {
                if k != minted_id(s) {
                    assert(s.nfts.map.contains_key(k));
                    assert(s.nfts.map[k].ip_id != req.ip_id);
                }
            }
        }
    }
}

/// A token comes into being only where one is minted, under the identifier
/// that the counter hands out.
pub proof fn lemma_step_new_token(s: MarketView, op: Operation, nft_id: Seq<char>)
    requires
        !s.nfts.contains_key(nft_id),
        apply(s, op).nfts.contains_key(nft_id),
    ensures
        op is Mint,
        nft_id == minted_id(s),
{
}

proof fn lemma_other_tokens_linked(s: MarketView, op: Operation)
    requires
        sound(s),
        tokens_linked(s),
        permitted(s, op),
        !(op is Mint),
    ensures
        tokens_linked(apply(s, op)),
{
    let after = apply(s, op);
    assert forall|k: Seq<char>| #[trigger] after.nfts.map.contains_key(k) implies after.ips.map.contains_key(
        after.nfts.map[k].ip_id,
    ) && after.ips.map[after.nfts.map[k].ip_id].nft_id == Some(k) by {
        if !s.nfts.contains_key(k) {
            lemma_step_new_token(s, op, k);
        }
        lemma_step_keeps_token(s, op, k);
        assert(after.nfts.map[k].ip_id == s.nfts.map[k].ip_id);
        assert(s.ips.map.contains_key(s.nfts.map[k].ip_id));
        lemma_step_keeps_token_of_work(s, op, s.nfts.map[k].ip_id);
    }
}

/// Where every token is the one that its work names, it is so after every
/// operation: no work gets a second token, and no token loses its work.
pub proof fn lemma_step_tokens_linked(s: MarketView, op: Operation)
    requires
        sound(s),
        tokens_linked(s),
        permitted(s, op),
    ensures
        tokens_linked(apply(s, op)),
{
    if op is Mint {
        lemma_mint_tokens_linked(s, op);
    } else {
        lemma_other_tokens_linked(s, op);
    }
}

/// All that holds of the marketplace between its operations: the state is
/// sound, the profiles list only what their users own, and every token is the
/// one that its work names.
pub open spec fn consistent(s: MarketView) -> bool {
    sound(s) && index_within(s) && tokens_linked(s)
}

/// An operation that is called in a consistent state leaves a consistent state behind.
pub proof fn lemma_step_consistent(s: MarketView, op: Operation)
    requires
        consistent(s),
        permitted(s, op),
    ensures
        consistent(apply(s, op)),
{
    lemma_step_sound(s, op);
    lemma_step_index_within(s, op);
    lemma_step_tokens_linked(s, op);
}

/// Every state that the operations reach from the beginning is consistent: at
/// every point in time between two operations no profile lists a token that
/// its user does not own, no token is in the lists of two profiles, and no
/// token is offered by two open listings.
pub proof fn lemma_reachable_consistent(ops: Seq<Operation>)
    requires
        run_permitted(MarketView::initial(), ops),
    ensures
        consistent(run(MarketView::initial(), ops)),
    decreases ops.len(),
{
    if ops.len() > 0 {
        lemma_reachable_consistent(ops.drop_last());
        lemma_step_consistent(run(MarketView::initial(), ops.drop_last()), ops.last());
    }
}

/// An operation that is called in a sound state leaves a sound state behind.
pub proof fn lemma_step_sound(s: MarketView, op: Operation)
    requires
        sound(s),
        permitted(s, op),
    ensures
        sound(apply(s, op)),
{
    lemma_step_wf(s, op);
    lemma_step_ids_drawn(s, op);
    lemma_step_filed_by_id(s, op);
    lemma_step_tokens_sound(s, op);
    lemma_step_references_hold(s, op);
    lemma_step_owned_once(s, op);
    lemma_step_offered_once(s, op);
}

/// Every state that the operations reach from a sound state is sound: at every
/// point in time each record is under an identifier of its own that the counter
/// handed out, each token is sound, what records name is there, no
/// profile lists anything twice, and no token is offered by two open listings.
pub proof fn lemma_run_sound(s: MarketView, ops: Seq<Operation>)
    requires
        sound(s),
        run_permitted(s, ops),
    ensures
        sound(run(s, ops)),
    decreases ops.len(),
{
    if ops.len() > 0 {
        lemma_run_sound(s, ops.drop_last());
        lemma_step_sound(run(s, ops.drop_last()), ops.last());
    }
}

/// Every state that the operations reach from the beginning is sound.
pub proof fn lemma_reachable_sound(ops: Seq<Operation>)
    requires
        run_permitted(MarketView::initial(), ops),
    ensures
        sound(run(MarketView::initial(), ops)),
{
    lemma_initial_sound();
    lemma_run_sound(MarketView::initial(), ops);
}

/// No character of a decimal numeral is a low line.
pub proof fn lemma_decimal_has_no_low_line(n: nat, i: int)
    requires
        0 <= i < decimal(n).len(),
    ensures
        decimal(n)[i] != '_',
    decreases n,
{
    if n >= 10 {
        let front = decimal(n / 10);
        if i < front.len() {
            lemma_decimal_has_no_low_line(n / 10, i);
            assert(front.push(digit_char(n % 10))[i] == front[i]);
        }
    }
}

/// Whatever the prefixes, two identifiers that are the same were made from the
/// same prefix and the same number: as the counter hands out each number once,
/// it hands out no identifier twice, under one prefix or under two.
pub proof fn lemma_id_text_unique(prefix: Seq<char>, a: u64, other: Seq<char>, b: u64)
    requires
        id_text(prefix, a) == id_text(other, b),
    ensures
        prefix == other,
        a == b,
{
    let x = decimal(a as nat);
    let y = decimal(b as nat);
    let id = id_text(prefix, a);
    lemma_decimal_len(a as nat);
    lemma_decimal_len(b as nat);
    assert(id.len() == prefix.len() + 1 + x.len());
    assert(id_text(other, b).len() == other.len() + 1 + y.len());
    assert(id[prefix.len() as int] == '_');
    assert(id_text(other, b)[other.len() as int] == '_');
    if prefix.len() < other.len() {
        let i = other.len() - prefix.len() - 1;
        lemma_decimal_has_no_low_line(a as nat, i);
        assert(id[other.len() as int] == x[i]);
    } else if other.len() < prefix.len() {
        let i = prefix.len() - other.len() - 1;
        lemma_decimal_has_no_low_line(b as nat, i);
        assert(id_text(other, b)[prefix.len() as int] == y[i]);
    }
    assert(prefix =~= id.take(prefix.len() as int));
    assert(other =~= id_text(other, b).take(other.len() as int));
    lemma_id_text_injective(prefix, a, b);
}

} // verus!
