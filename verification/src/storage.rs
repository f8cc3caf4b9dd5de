//! The state of the marketplace: four registries of records, the registry of
//! what is shown of each token, and the counter that identifiers are drawn from.

use vstd::prelude::*;
use vstd::string::*;

use crate::registry::{Registry, RegistryView};
use crate::text::{decimal, u64_to_decimal};
use crate::types::{
    IPNft, IPNftView, IntellectualProperty, IntellectualPropertyView, MarketplaceListing,
    MarketplaceListingView, NFTMetadata, NFTMetadataView, UserProfileView,
};
use crate::user_registry::UserRegistry;

verus! {

/// Everything the marketplace keeps. An operation is handed the state it works on.
pub struct MarketState {
    pub ips: Registry<IntellectualProperty>,
    pub nfts: Registry<IPNft>,
    pub users: UserRegistry,
    pub listings: Registry<MarketplaceListing>,
    pub nft_metadata: Registry<NFTMetadata>,
    /// The next number that an identifier or a token ordinal is made from.
    pub counter: u64,
}

/// What a [`MarketState`] holds, as mathematical values.
pub struct MarketView {
    pub ips: RegistryView<IntellectualPropertyView>,
    pub nfts: RegistryView<IPNftView>,
    pub users: Map<Seq<u8>, UserProfileView>,
    pub listings: RegistryView<MarketplaceListingView>,
    pub nft_metadata: RegistryView<NFTMetadataView>,
    pub counter: u64,
}

impl MarketView {
    /// Each registry is well formed, and there are finitely many profiles.
    pub open spec fn wf(self) -> bool {
        &&& self.ips.wf()
        &&& self.nfts.wf()
        &&& self.users.dom().finite()
        &&& self.listings.wf()
        &&& self.nft_metadata.wf()
    }

    /// The state before anything was registered.
    pub open spec fn initial() -> MarketView {
        MarketView {
            ips: RegistryView::empty(),
            nfts: RegistryView::empty(),
            users: Map::empty(),
            listings: RegistryView::empty(),
            nft_metadata: RegistryView::empty(),
            counter: 0,
        }
    }
}

impl View for MarketState {
    type V = MarketView;

    open spec fn view(&self) -> MarketView {
        MarketView {
            ips: self.ips@,
            nfts: self.nfts@,
            users: self.users@,
            listings: self.listings@,
            nft_metadata: self.nft_metadata@,
            counter: self.counter,
        }
    }
}

impl MarketState {
    /// What a state holds is well formed.
    pub proof fn lemma_wf(&self)
        ensures
            self@.wf(),
    {
        self.ips.lemma_wf();
        self.nfts.lemma_wf();
        self.users.lemma_finite();
        self.listings.lemma_wf();
        self.nft_metadata.lemma_wf();
    }

    /// The state before anything was registered: no record, and the counter at 0.
    pub fn new() -> (r: MarketState)
        ensures
            r@ == MarketView::initial(),
    {
        MarketState {
            ips: Registry::new(),
            nfts: Registry::new(),
            users: UserRegistry::new(),
            listings: Registry::new(),
            nft_metadata: Registry::new(),
            counter: 0,
        }
    }
}

/// Hands the registry of works to `f`, to read.
pub fn with_ip_registry<R, F: FnOnce(&Registry<IntellectualProperty>) -> R>(
    state: &MarketState,
    f: F,
) -> (r: R)
    requires
        f.requires((&state.ips,)),
    ensures
        f.ensures((&state.ips,), r),
{
    f(&state.ips)
}

/// Hands the registry of works to `f`, to change. Nothing else changes.
pub fn with_ip_registry_mut<R, F: FnOnce(&mut Registry<IntellectualProperty>) -> R>(
    state: &mut MarketState,
    f: F,
) -> (r: R)
    requires
        forall|c: &mut Registry<IntellectualProperty>| *c == old(state).ips ==> f.requires((c,)),
    ensures
        exists|c: &mut Registry<IntellectualProperty>|
            *c == old(state).ips && *final(c) == final(state).ips && f.ensures((c,), r),
        final(state).nfts == old(state).nfts,
        final(state).users == old(state).users,
        final(state).listings == old(state).listings,
        final(state).nft_metadata == old(state).nft_metadata,
        final(state).counter == old(state).counter,
{
    f(&mut state.ips)
}

/// Hands the registry of tokens to `f`, to read.
pub fn with_nft_registry<R, F: FnOnce(&Registry<IPNft>) -> R>(state: &MarketState, f: F) -> (r: R)
    requires
        f.requires((&state.nfts,)),
    ensures
        f.ensures((&state.nfts,), r),
{
    f(&state.nfts)
}

/// Hands the registry of tokens to `f`, to change. Nothing else changes.
pub fn with_nft_registry_mut<R, F: FnOnce(&mut Registry<IPNft>) -> R>(
    state: &mut MarketState,
    f: F,
) -> (r: R)
    requires
        forall|c: &mut Registry<IPNft>| *c == old(state).nfts ==> f.requires((c,)),
    ensures
        exists|c: &mut Registry<IPNft>|
            *c == old(state).nfts && *final(c) == final(state).nfts && f.ensures((c,), r),
        final(state).ips == old(state).ips,
        final(state).users == old(state).users,
        final(state).listings == old(state).listings,
        final(state).nft_metadata == old(state).nft_metadata,
        final(state).counter == old(state).counter,
{
    f(&mut state.nfts)
}

/// Hands the store of profiles to `f`, to read.
pub fn with_user_registry<R, F: FnOnce(&UserRegistry) -> R>(state: &MarketState, f: F) -> (r: R)
    requires
        f.requires((&state.users,)),
    ensures
        f.ensures((&state.users,), r),
{
    f(&state.users)
}

/// Hands the store of profiles to `f`, to change. Nothing else changes.
pub fn with_user_registry_mut<R, F: FnOnce(&mut UserRegistry) -> R>(
    state: &mut MarketState,
    f: F,
) -> (r: R)
    requires
        forall|c: &mut UserRegistry| *c == old(state).users ==> f.requires((c,)),
    ensures
        exists|c: &mut UserRegistry|
            *c == old(state).users && *final(c) == final(state).users && f.ensures((c,), r),
        final(state).ips == old(state).ips,
        final(state).nfts == old(state).nfts,
        final(state).listings == old(state).listings,
        final(state).nft_metadata == old(state).nft_metadata,
        final(state).counter == old(state).counter,
{
    f(&mut state.users)
}

/// Hands the registry of listings to `f`, to read.
pub fn with_marketplace<R, F: FnOnce(&Registry<MarketplaceListing>) -> R>(
    state: &MarketState,
    f: F,
) -> (r: R)
    requires
        f.requires((&state.listings,)),
    ensures
        f.ensures((&state.listings,), r),
{
    f(&state.listings)
}

/// Hands the registry of listings to `f`, to change. Nothing else changes.
pub fn with_marketplace_mut<R, F: FnOnce(&mut Registry<MarketplaceListing>) -> R>(
    state: &mut MarketState,
    f: F,
) -> (r: R)
    requires
        forall|c: &mut Registry<MarketplaceListing>| *c == old(state).listings ==> f.requires((c,)),
    ensures
        exists|c: &mut Registry<MarketplaceListing>|
            *c == old(state).listings && *final(c) == final(state).listings && f.ensures((c,), r),
        final(state).ips == old(state).ips,
        final(state).nfts == old(state).nfts,
        final(state).users == old(state).users,
        final(state).nft_metadata == old(state).nft_metadata,
        final(state).counter == old(state).counter,
{
    f(&mut state.listings)
}

/// Hands the registry of what is shown of each token to `f`, to read.
pub fn with_nft_metadata<R, F: FnOnce(&Registry<NFTMetadata>) -> R>(
    state: &MarketState,
    f: F,
) -> (r: R)
    requires
        f.requires((&state.nft_metadata,)),
    ensures
        f.ensures((&state.nft_metadata,), r),
{
    f(&state.nft_metadata)
}

/// Hands the registry of what is shown of each token to `f`, to change. Nothing else changes.
pub fn with_nft_metadata_mut<R, F: FnOnce(&mut Registry<NFTMetadata>) -> R>(
    state: &mut MarketState,
    f: F,
) -> (r: R)
    requires
        forall|c: &mut Registry<NFTMetadata>| *c == old(state).nft_metadata ==> f.requires((c,)),
    ensures
        exists|c: &mut Registry<NFTMetadata>|
            *c == old(state).nft_metadata && *final(c) == final(state).nft_metadata && f.ensures(
                (c,),
                r,
            ),
        final(state).ips == old(state).ips,
        final(state).nfts == old(state).nfts,
        final(state).users == old(state).users,
        final(state).listings == old(state).listings,
        final(state).counter == old(state).counter,
{
    f(&mut state.nft_metadata)
}

/// Hands the counter to `f`, to read.
pub fn with_counter<R, F: FnOnce(&u64) -> R>(state: &MarketState, f: F) -> (r: R)
    requires
        f.requires((&state.counter,)),
    ensures
        f.ensures((&state.counter,), r),
{
    f(&state.counter)
}

/// Hands the counter to `f`, to change. Nothing else changes.
pub fn with_counter_mut<R, F: FnOnce(&mut u64) -> R>(state: &mut MarketState, f: F) -> (r: R)
    requires
        forall|c: &mut u64| *c == old(state).counter ==> f.requires((c,)),
    ensures
        exists|c: &mut u64|
            *c == old(state).counter && *final(c) == final(state).counter && f.ensures((c,), r),
        final(state).ips == old(state).ips,
        final(state).nfts == old(state).nfts,
        final(state).users == old(state).users,
        final(state).listings == old(state).listings,
        final(state).nft_metadata == old(state).nft_metadata,
{
    f(&mut state.counter)
}

/// The identifier made from `prefix` and the number `n`: the prefix, a low line,
/// and the number's decimal numeral.
pub open spec fn id_text(prefix: Seq<char>, n: u64) -> Seq<char> {
    prefix + seq!['_'] + decimal(n as nat)
}

/// Hands out the counter's value and advances the counter by one.
pub fn take_next(counter: &mut u64) -> (current: u64)
    requires
        *old(counter) < u64::MAX,
    ensures
        *final(counter) == *old(counter) + 1,
        current == *old(counter),
{
    let current = *counter;
    *counter = current + 1;
    current
}

/// Draws the next identifier under `prefix`. The counter advances by one,
/// whatever the prefix, and nothing else changes.
pub fn generate_id(state: &mut MarketState, prefix: &str) -> (r: String)
    requires
        old(state).counter < u64::MAX,
    ensures
        r@ == id_text(prefix@, old(state).counter),
        final(state).counter == old(state).counter + 1,
        final(state).ips == old(state).ips,
        final(state).nfts == old(state).nfts,
        final(state).users == old(state).users,
        final(state).listings == old(state).listings,
        final(state).nft_metadata == old(state).nft_metadata,
{
    let current = with_counter_mut(state, take_next);
    let number = u64_to_decimal(current);
    proof {
        reveal_strlit("_");
        assert("_"@ =~= seq!['_']);
    }
    String::from_str(prefix).concat("_").concat(number.as_str())
}

} // verus!
