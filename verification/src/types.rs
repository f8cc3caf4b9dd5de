//! The records that the registries keep, the requests that create them, and
//! for each its view: what it holds as mathematical values.

pub mod error;
pub mod ip;
pub mod listing;
pub mod nft;
pub mod user;

pub use error::{view_result, IPMarketplaceError};
pub use ip::{
    FileMetadata, FileMetadataView, IPMetadata, IPMetadataView, IPType, IPTypeView,
    IntellectualProperty, IntellectualPropertyView, RegisterIPRequest, RegisterIPRequestView,
    VerificationStatus,
};
pub use listing::{
    AuctionData, AuctionDataView, LicenseTerms, LicenseTermsView, ListNFTRequest,
    ListNFTRequestView, ListingStatus, MarketplaceListing, MarketplaceListingView,
    MarketplaceStats,
};
pub use nft::{
    AttributeValue, AttributeValueView, CollectionStats, CollectionStatsView, Float64, IPNft,
    IPNftView, MintNFTRequest, MintNFTRequestView, NFTAttribute, NFTAttributeView, NFTMetadata,
    NFTMetadataView, NFTSearchFilters, NFTSearchFiltersView, TransferRecord, TransferRecordView,
};
pub use user::{
    CreateUserRequest, CreateUserRequestView, SocialLink, SocialLinkView, UpdateUserRequest,
    UpdateUserRequestView, UserProfile, UserProfileView,
};
