//! Registry of intellectual-property records, minted tokens, user profiles and
//! marketplace listings, with the sale and auction workflow over them.
//!
//! The state of the marketplace is a [`storage::MarketState`] that each
//! operation is handed, together with the caller and the time. What an
//! operation hands back and what it leaves behind is stated over the state's
//! view, a [`storage::MarketView`]; [`invariants`] states what holds of every
//! state that the operations reach.

pub mod identity;
pub mod invariants;
pub mod ip_registry;
pub mod marketplace;
pub mod nft_management;
pub mod registry;
pub mod storage;
pub mod text;
pub mod types;
pub mod user_management;
pub mod user_registry;

pub use identity::Identity;
pub use ip_registry::{get_ip_by_id, get_user_ips, register_ip, search_ips, verify_ip};
pub use marketplace::{
    buy_nft, cancel_listing, cleanup_expired_listings, get_active_listings_by_nft,
    get_expired_listings, get_listing_by_id, get_listings_by_seller, get_marketplace_listings,
    get_marketplace_stats, list_nft_for_sale, place_bid,
};
pub use nft_management::{
    get_nft_by_id, get_nft_collection_stats, get_nft_full_details, get_nft_history,
    get_nft_metadata, get_nfts_batch, get_trending_nfts, get_user_nfts, increment_nft_view,
    mint_ip_nft, search_nfts, toggle_nft_favorite, transfer_nft,
};
pub use registry::Registry;
pub use storage::{
    generate_id, with_counter, with_counter_mut, with_ip_registry, with_ip_registry_mut,
    with_marketplace, with_marketplace_mut, with_nft_metadata, with_nft_metadata_mut,
    with_nft_registry, with_nft_registry_mut, with_user_registry, with_user_registry_mut,
    MarketState,
};
pub use text::{format_timestamp, generate_hash, validate_image_url};
pub use types::{
    AttributeValue, AuctionData, CollectionStats, CreateUserRequest, FileMetadata, Float64,
    IPMarketplaceError, IPMetadata, IPNft, IPType, IntellectualProperty, LicenseTerms,
    ListNFTRequest, ListingStatus, MarketplaceListing, MarketplaceStats, MintNFTRequest,
    NFTAttribute, NFTMetadata, NFTSearchFilters, RegisterIPRequest, SocialLink, TransferRecord,
    UpdateUserRequest, UserProfile, VerificationStatus,
};
pub use user_management::{
    add_ip_to_user, add_nft_to_user, create_user_profile, get_my_profile, get_user_profile,
    remove_ip_from_user, remove_nft_from_user, update_user_profile, update_user_reputation,
    update_user_sales_stats, whoami,
};
pub use user_registry::UserRegistry;
