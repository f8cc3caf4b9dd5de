//! Marketplace listings.

use vstd::prelude::*;

use crate::identity::Identity;

verus! {

/// Where a listing stands. `Active` and `InAuction` are open; the other three are final.
#[derive(Clone, Copy, Debug, PartialEq, Eq, Structural)]
pub enum ListingStatus {
    Active,
    Sold,
    Cancelled,
    Expired,
    InAuction,
}

impl ListingStatus {
    /// Whether the listing still offers its token.
    pub open spec fn is_open(self) -> bool {
        self == ListingStatus::Active || self == ListingStatus::InAuction
    }

    /// Whether the listing still offers its token.
    pub fn open_for_offers(&self) -> (r: bool)
        ensures
            r == self.is_open(),
    {
        match self {
            ListingStatus::Active => true,
            ListingStatus::InAuction => true,
            _ => false,
        }
    }
}

/// Under what terms the buyer may use the work.
#[derive(Debug)]
pub struct LicenseTerms {
    pub usage_rights: Vec<String>,
    pub duration: Option<u64>,
    pub territory: Option<String>,
    pub exclusivity: bool,
    pub commercial_use: bool,
    pub modification_rights: bool,
    pub attribution_required: bool,
}

/// What a [`LicenseTerms`] holds, as mathematical values.
pub struct LicenseTermsView {
    pub usage_rights: Seq<Seq<char>>,
    pub duration: Option<u64>,
    pub territory: Option<Seq<char>>,
    pub exclusivity: bool,
    pub commercial_use: bool,
    pub modification_rights: bool,
    pub attribution_required: bool,
}

impl View for LicenseTerms {
    type V = LicenseTermsView;

    open spec fn view(&self) -> LicenseTermsView {
        LicenseTermsView {
            usage_rights: self.usage_rights.deep_view(),
            duration: self.duration,
            territory: self.territory.deep_view(),
            exclusivity: self.exclusivity,
            commercial_use: self.commercial_use,
            modification_rights: self.modification_rights,
            attribution_required: self.attribution_required,
        }
    }
}

impl DeepView for LicenseTerms {
    type V = LicenseTermsView;

    open spec fn deep_view(&self) -> LicenseTermsView {
        self@
    }
}

impl Clone for LicenseTerms {
    fn clone(&self) -> (r: LicenseTerms)
        ensures
            r@ == self@,
    {
        let r = LicenseTerms {
            usage_rights: self.usage_rights.clone(),
            duration: self.duration,
            territory: self.territory.clone(),
            exclusivity: self.exclusivity,
            commercial_use: self.commercial_use,
            modification_rights: self.modification_rights,
            attribution_required: self.attribution_required,
        };
        assert(r.usage_rights.deep_view() =~= self.usage_rights.deep_view());
        r
    }
}

/// The bidding on an auction listing.
#[derive(Debug)]
pub struct AuctionData {
    pub starting_price: u64,
    /// The highest bid so far; the starting price while there is none.
    pub current_bid: u64,
    pub highest_bidder: Option<Identity>,
    pub auction_end: u64,
    pub min_bid_increment: u64,
}

/// What a [`AuctionData`] holds, as mathematical values.
pub struct AuctionDataView {
    pub starting_price: u64,
    pub current_bid: u64,
    pub highest_bidder: Option<Seq<u8>>,
    pub auction_end: u64,
    pub min_bid_increment: u64,
}

impl View for AuctionData {
    type V = AuctionDataView;

    open spec fn view(&self) -> AuctionDataView {
        AuctionDataView {
            starting_price: self.starting_price,
            current_bid: self.current_bid,
            highest_bidder: self.highest_bidder.deep_view(),
            auction_end: self.auction_end,
            min_bid_increment: self.min_bid_increment,
        }
    }
}

impl DeepView for AuctionData {
    type V = AuctionDataView;

    open spec fn deep_view(&self) -> AuctionDataView {
        self@
    }
}

impl Clone for AuctionData {
    fn clone(&self) -> (r: AuctionData)
        ensures
            r@ == self@,
    {
        AuctionData {
            starting_price: self.starting_price,
            current_bid: self.current_bid,
            highest_bidder: self.highest_bidder.clone(),
            auction_end: self.auction_end,
            min_bid_increment: self.min_bid_increment,
        }
    }
}

/// An offer to sell one token, at a fixed price or by auction. It is never deleted.
#[derive(Debug)]
pub struct MarketplaceListing {
    pub id: String,
    pub nft_id: String,
    pub seller: Identity,
    pub price: u64,
    pub currency: String,
    pub listed_at: u64,
    pub expires_at: Option<u64>,
    pub status: ListingStatus,
    pub license_terms: Option<LicenseTerms>,
    pub auction_data: Option<AuctionData>,
}

/// What a [`MarketplaceListing`] holds, as mathematical values.
pub struct MarketplaceListingView {
    pub id: Seq<char>,
    pub nft_id: Seq<char>,
    pub seller: Seq<u8>,
    pub price: u64,
    pub currency: Seq<char>,
    pub listed_at: u64,
    pub expires_at: Option<u64>,
    pub status: ListingStatus,
    pub license_terms: Option<LicenseTermsView>,
    pub auction_data: Option<AuctionDataView>,
}

impl View for MarketplaceListing {
    type V = MarketplaceListingView;

    open spec fn view(&self) -> MarketplaceListingView {
        MarketplaceListingView {
            id: self.id@,
            nft_id: self.nft_id@,
            seller: self.seller@,
            price: self.price,
            currency: self.currency@,
            listed_at: self.listed_at,
            expires_at: self.expires_at,
            status: self.status,
            license_terms: self.license_terms.deep_view(),
            auction_data: self.auction_data.deep_view(),
        }
    }
}

impl DeepView for MarketplaceListing {
    type V = MarketplaceListingView;

    open spec fn deep_view(&self) -> MarketplaceListingView {
        self@
    }
}

impl Clone for MarketplaceListing {
    fn clone(&self) -> (r: MarketplaceListing)
        ensures
            r@ == self@,
    {
        MarketplaceListing {
            id: self.id.clone(),
            nft_id: self.nft_id.clone(),
            seller: self.seller.clone(),
            price: self.price,
            currency: self.currency.clone(),
            listed_at: self.listed_at,
            expires_at: self.expires_at,
            status: self.status,
            license_terms: self.license_terms.clone(),
            auction_data: self.auction_data.clone(),
        }
    }
}

/// What a caller gives to offer a token.
#[derive(Debug)]
pub struct ListNFTRequest {
    pub nft_id: String,
    pub price: u64,
    pub currency: String,
    pub expires_at: Option<u64>,
    pub license_terms: Option<LicenseTerms>,
    pub is_auction: bool,
    pub auction_duration: Option<u64>,
    pub min_bid_increment: Option<u64>,
}

/// What a [`ListNFTRequest`] holds, as mathematical values.
pub struct ListNFTRequestView {
    pub nft_id: Seq<char>,
    pub price: u64,
    pub currency: Seq<char>,
    pub expires_at: Option<u64>,
    pub license_terms: Option<LicenseTermsView>,
    pub is_auction: bool,
    pub auction_duration: Option<u64>,
    pub min_bid_increment: Option<u64>,
}

impl View for ListNFTRequest {
    type V = ListNFTRequestView;

    open spec fn view(&self) -> ListNFTRequestView {
        ListNFTRequestView {
            nft_id: self.nft_id@,
            price: self.price,
            currency: self.currency@,
            expires_at: self.expires_at,
            license_terms: self.license_terms.deep_view(),
            is_auction: self.is_auction,
            auction_duration: self.auction_duration,
            min_bid_increment: self.min_bid_increment,
        }
    }
}

impl DeepView for ListNFTRequest {
    type V = ListNFTRequestView;

    open spec fn deep_view(&self) -> ListNFTRequestView {
        self@
    }
}

/// Figures on the whole marketplace.
#[derive(Clone, Copy, Debug, PartialEq, Eq, Structural)]
pub struct MarketplaceStats {
    pub total_nfts: u32,
    pub total_users: u32,
    pub total_listings: u32,
    pub active_listings: u32,
    pub active_auctions: u32,
    pub total_volume: u64,
    pub average_sale_price: Option<u64>,
}

} // verus!
