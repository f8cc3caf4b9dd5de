//! Minted tokens.

use vstd::prelude::*;

use crate::identity::Identity;

verus! {

/// A binary64 number, held by its bit pattern. The library carries such numbers
/// and never computes with them.
#[derive(Clone, Copy, Debug, PartialEq, Eq, Structural)]
pub struct Float64 {
    pub bits: u64,
}

/// The value of a token attribute.
#[derive(Debug)]
pub enum AttributeValue {
    Text(String),
    Number(Float64),
    Boolean(bool),
}

/// What an [`AttributeValue`] holds, as mathematical values.
pub enum AttributeValueView {
    Text(Seq<char>),
    Number(Float64),
    Boolean(bool),
}

impl View for AttributeValue {
    type V = AttributeValueView;

    open spec fn view(&self) -> AttributeValueView {
        match self {
            AttributeValue::Text(t) => AttributeValueView::Text(t@),
            AttributeValue::Number(n) => AttributeValueView::Number(*n),
            AttributeValue::Boolean(b) => AttributeValueView::Boolean(*b),
        }
    }
}

impl DeepView for AttributeValue {
    type V = AttributeValueView;

    open spec fn deep_view(&self) -> AttributeValueView {
        self@
    }
}

impl Clone for AttributeValue {
    fn clone(&self) -> (r: AttributeValue)
        ensures
            r@ == self@,
    {
        match self {
            AttributeValue::Text(t) => AttributeValue::Text(t.clone()),
            AttributeValue::Number(n) => AttributeValue::Number(*n),
            AttributeValue::Boolean(b) => AttributeValue::Boolean(*b),
        }
    }
}

/// One named property of a token.
#[derive(Debug)]
pub struct NFTAttribute {
    pub trait_type: String,
    pub value: AttributeValue,
    /// How to show the value: as a number, a boost, a date.
    pub display_type: Option<String>,
    pub max_value: Option<Float64>,
}

/// What a [`NFTAttribute`] holds, as mathematical values.
pub struct NFTAttributeView {
    pub trait_type: Seq<char>,
    pub value: AttributeValueView,
    pub display_type: Option<Seq<char>>,
    pub max_value: Option<Float64>,
}

impl View for NFTAttribute {
    type V = NFTAttributeView;

    open spec fn view(&self) -> NFTAttributeView {
        NFTAttributeView {
            trait_type: self.trait_type@,
            value: self.value@,
            display_type: self.display_type.deep_view(),
            max_value: self.max_value,
        }
    }
}

impl DeepView for NFTAttribute {
    type V = NFTAttributeView;

    open spec fn deep_view(&self) -> NFTAttributeView {
        self@
    }
}

impl Clone for NFTAttribute {
    fn clone(&self) -> (r: NFTAttribute)
        ensures
            r@ == self@,
    {
        NFTAttribute {
            trait_type: self.trait_type.clone(),
            value: self.value.clone(),
            display_type: self.display_type.clone(),
            max_value: self.max_value,
        }
    }
}

/// What is shown of a token.
#[derive(Debug)]
pub struct NFTMetadata {
    pub token_id: String,
    pub name: String,
    pub description: String,
    pub image: String,
    pub external_url: Option<String>,
    pub animation_url: Option<String>,
    pub background_color: Option<String>,
    pub attributes: Vec<NFTAttribute>,
    pub ip_category: String,
    pub ip_type: String,
    pub creator: String,
    pub creation_date: String,
    pub jurisdiction: Option<String>,
    pub license_type: Option<String>,
    pub file_type: Option<String>,
    pub file_size: Option<u64>,
    pub resolution: Option<String>,
    pub duration: Option<u64>,
    pub minted_date: String,
    pub blockchain: String,
    pub token_standard: String,
}

/// What a [`NFTMetadata`] holds, as mathematical values.
pub struct NFTMetadataView {
    pub token_id: Seq<char>,
    pub name: Seq<char>,
    pub description: Seq<char>,
    pub image: Seq<char>,
    pub external_url: Option<Seq<char>>,
    pub animation_url: Option<Seq<char>>,
    pub background_color: Option<Seq<char>>,
    pub attributes: Seq<NFTAttributeView>,
    pub ip_category: Seq<char>,
    pub ip_type: Seq<char>,
    pub creator: Seq<char>,
    pub creation_date: Seq<char>,
    pub jurisdiction: Option<Seq<char>>,
    pub license_type: Option<Seq<char>>,
    pub file_type: Option<Seq<char>>,
    pub file_size: Option<u64>,
    pub resolution: Option<Seq<char>>,
    pub duration: Option<u64>,
    pub minted_date: Seq<char>,
    pub blockchain: Seq<char>,
    pub token_standard: Seq<char>,
}

impl View for NFTMetadata {
    type V = NFTMetadataView;

    open spec fn view(&self) -> NFTMetadataView {
        NFTMetadataView {
            token_id: self.token_id@,
            name: self.name@,
            description: self.description@,
            image: self.image@,
            external_url: self.external_url.deep_view(),
            animation_url: self.animation_url.deep_view(),
            background_color: self.background_color.deep_view(),
            attributes: self.attributes.deep_view(),
            ip_category: self.ip_category@,
            ip_type: self.ip_type@,
            creator: self.creator@,
            creation_date: self.creation_date@,
            jurisdiction: self.jurisdiction.deep_view(),
            license_type: self.license_type.deep_view(),
            file_type: self.file_type.deep_view(),
            file_size: self.file_size,
            resolution: self.resolution.deep_view(),
            duration: self.duration,
            minted_date: self.minted_date@,
            blockchain: self.blockchain@,
            token_standard: self.token_standard@,
        }
    }
}

impl DeepView for NFTMetadata {
    type V = NFTMetadataView;

    open spec fn deep_view(&self) -> NFTMetadataView {
        self@
    }
}

impl Clone for NFTMetadata {
    fn clone(&self) -> (r: NFTMetadata)
        ensures
            r@ == self@,
    {
        let r = NFTMetadata {
            token_id: self.token_id.clone(),
            name: self.name.clone(),
            description: self.description.clone(),
            image: self.image.clone(),
            external_url: self.external_url.clone(),
            animation_url: self.animation_url.clone(),
            background_color: self.background_color.clone(),
            attributes: self.attributes.clone(),
            ip_category: self.ip_category.clone(),
            ip_type: self.ip_type.clone(),
            creator: self.creator.clone(),
            creation_date: self.creation_date.clone(),
            jurisdiction: self.jurisdiction.clone(),
            license_type: self.license_type.clone(),
            file_type: self.file_type.clone(),
            file_size: self.file_size,
            resolution: self.resolution.clone(),
            duration: self.duration,
            minted_date: self.minted_date.clone(),
            blockchain: self.blockchain.clone(),
            token_standard: self.token_standard.clone(),
        };
        assert(r.attributes.deep_view() =~= self.attributes.deep_view());
        r
    }
}

/// One change of hands of a token.
#[derive(Debug)]
pub struct TransferRecord {
    pub from: Identity,
    pub to: Identity,
    pub timestamp: u64,
    pub transaction_hash: Option<String>,
    /// What was paid, where the token was sold.
    pub price: Option<u64>,
}

/// What a [`TransferRecord`] holds, as mathematical values.
pub struct TransferRecordView {
    pub from: Seq<u8>,
    pub to: Seq<u8>,
    pub timestamp: u64,
    pub transaction_hash: Option<Seq<char>>,
    pub price: Option<u64>,
}

impl View for TransferRecord {
    type V = TransferRecordView;

    open spec fn view(&self) -> TransferRecordView {
        TransferRecordView {
            from: self.from@,
            to: self.to@,
            timestamp: self.timestamp,
            transaction_hash: self.transaction_hash.deep_view(),
            price: self.price,
        }
    }
}

impl DeepView for TransferRecord {
    type V = TransferRecordView;

    open spec fn deep_view(&self) -> TransferRecordView {
        self@
    }
}

impl Clone for TransferRecord {
    fn clone(&self) -> (r: TransferRecord)
        ensures
            r@ == self@,
    {
        TransferRecord {
            from: self.from.clone(),
            to: self.to.clone(),
            timestamp: self.timestamp,
            transaction_hash: self.transaction_hash.clone(),
            price: self.price,
        }
    }
}

/// A minted token. Its history only grows, and begins with the mint.
#[derive(Debug)]
pub struct IPNft {
    pub id: String,
    pub ip_id: String,
    /// The ordinal that minting gave the token.
    pub token_id: u64,
    pub owner: Identity,
    pub creator: Identity,
    pub metadata_uri: String,
    pub minted_at: u64,
    pub royalty_percentage: u8,
    pub is_transferable: bool,
    pub name: String,
    pub description: String,
    pub image: String,
    pub collection_name: Option<String>,
    pub edition_number: Option<u32>,
    pub total_editions: Option<u32>,
    pub rarity_rank: Option<u32>,
    pub rarity_score: Option<Float64>,
    pub transfer_history: Vec<TransferRecord>,
    pub view_count: u64,
    pub favorite_count: u64,
}

/// What a [`IPNft`] holds, as mathematical values.
pub struct IPNftView {
    pub id: Seq<char>,
    pub ip_id: Seq<char>,
    pub token_id: u64,
    pub owner: Seq<u8>,
    pub creator: Seq<u8>,
    pub metadata_uri: Seq<char>,
    pub minted_at: u64,
    pub royalty_percentage: u8,
    pub is_transferable: bool,
    pub name: Seq<char>,
    pub description: Seq<char>,
    pub image: Seq<char>,
    pub collection_name: Option<Seq<char>>,
    pub edition_number: Option<u32>,
    pub total_editions: Option<u32>,
    pub rarity_rank: Option<u32>,
    pub rarity_score: Option<Float64>,
    pub transfer_history: Seq<TransferRecordView>,
    pub view_count: u64,
    pub favorite_count: u64,
}

impl View for IPNft {
    type V = IPNftView;

    open spec fn view(&self) -> IPNftView {
        IPNftView {
            id: self.id@,
            ip_id: self.ip_id@,
            token_id: self.token_id,
            owner: self.owner@,
            creator: self.creator@,
            metadata_uri: self.metadata_uri@,
            minted_at: self.minted_at,
            royalty_percentage: self.royalty_percentage,
            is_transferable: self.is_transferable,
            name: self.name@,
            description: self.description@,
            image: self.image@,
            collection_name: self.collection_name.deep_view(),
            edition_number: self.edition_number,
            total_editions: self.total_editions,
            rarity_rank: self.rarity_rank,
            rarity_score: self.rarity_score,
            transfer_history: self.transfer_history.deep_view(),
            view_count: self.view_count,
            favorite_count: self.favorite_count,
        }
    }
}

impl DeepView for IPNft {
    type V = IPNftView;

    open spec fn deep_view(&self) -> IPNftView {
        self@
    }
}

impl Clone for IPNft {
    fn clone(&self) -> (r: IPNft)
        ensures
            r@ == self@,
    {
        let r = IPNft {
            id: self.id.clone(),
            ip_id: self.ip_id.clone(),
            token_id: self.token_id,
            owner: self.owner.clone(),
            creator: self.creator.clone(),
            metadata_uri: self.metadata_uri.clone(),
            minted_at: self.minted_at,
            royalty_percentage: self.royalty_percentage,
            is_transferable: self.is_transferable,
            name: self.name.clone(),
            description: self.description.clone(),
            image: self.image.clone(),
            collection_name: self.collection_name.clone(),
            edition_number: self.edition_number,
            total_editions: self.total_editions,
            rarity_rank: self.rarity_rank,
            rarity_score: self.rarity_score,
            transfer_history: self.transfer_history.clone(),
            view_count: self.view_count,
            favorite_count: self.favorite_count,
        };
        assert(r.transfer_history.deep_view() =~= self.transfer_history.deep_view());
        r
    }
}

/// What a caller gives to mint the token of a record.
#[derive(Debug)]
pub struct MintNFTRequest {
    pub ip_id: String,
    pub name: String,
    pub description: String,
    pub image: String,
    pub attributes: Vec<NFTAttribute>,
    pub collection_name: Option<String>,
    pub edition_number: Option<u32>,
    pub total_editions: Option<u32>,
    pub royalty_percentage: Option<u8>,
    pub external_url: Option<String>,
    pub animation_url: Option<String>,
    pub background_color: Option<String>,
}

/// What a [`MintNFTRequest`] holds, as mathematical values.
pub struct MintNFTRequestView {
    pub ip_id: Seq<char>,
    pub name: Seq<char>,
    pub description: Seq<char>,
    pub image: Seq<char>,
    pub attributes: Seq<NFTAttributeView>,
    pub collection_name: Option<Seq<char>>,
    pub edition_number: Option<u32>,
    pub total_editions: Option<u32>,
    pub royalty_percentage: Option<u8>,
    pub external_url: Option<Seq<char>>,
    pub animation_url: Option<Seq<char>>,
    pub background_color: Option<Seq<char>>,
}

impl View for MintNFTRequest {
    type V = MintNFTRequestView;

    open spec fn view(&self) -> MintNFTRequestView {
        MintNFTRequestView {
            ip_id: self.ip_id@,
            name: self.name@,
            description: self.description@,
            image: self.image@,
            attributes: self.attributes.deep_view(),
            collection_name: self.collection_name.deep_view(),
            edition_number: self.edition_number,
            total_editions: self.total_editions,
            royalty_percentage: self.royalty_percentage,
            external_url: self.external_url.deep_view(),
            animation_url: self.animation_url.deep_view(),
            background_color: self.background_color.deep_view(),
        }
    }
}

impl DeepView for MintNFTRequest {
    type V = MintNFTRequestView;

    open spec fn deep_view(&self) -> MintNFTRequestView {
        self@
    }
}

/// What narrows a search for tokens.
#[derive(Debug)]
pub struct NFTSearchFilters {
    pub collection_name: Option<String>,
    pub min_price: Option<u64>,
    pub max_price: Option<u64>,
    pub creator: Option<Identity>,
    pub sort_by: Option<String>,
}

/// What a [`NFTSearchFilters`] holds, as mathematical values.
pub struct NFTSearchFiltersView {
    pub collection_name: Option<Seq<char>>,
    pub min_price: Option<u64>,
    pub max_price: Option<u64>,
    pub creator: Option<Seq<u8>>,
    pub sort_by: Option<Seq<char>>,
}

impl View for NFTSearchFilters {
    type V = NFTSearchFiltersView;

    open spec fn view(&self) -> NFTSearchFiltersView {
        NFTSearchFiltersView {
            collection_name: self.collection_name.deep_view(),
            min_price: self.min_price,
            max_price: self.max_price,
            creator: self.creator.deep_view(),
            sort_by: self.sort_by.deep_view(),
        }
    }
}

impl DeepView for NFTSearchFilters {
    type V = NFTSearchFiltersView;

    open spec fn deep_view(&self) -> NFTSearchFiltersView {
        self@
    }
}

/// Figures on the tokens of one collection.
#[derive(Debug)]
pub struct CollectionStats {
    pub collection_name: String,
    pub total_supply: u32,
    pub unique_owners: u32,
    pub floor_price: Option<u64>,
    pub total_volume: u64,
    pub average_price: Option<u64>,
}

/// What a [`CollectionStats`] holds, as mathematical values.
pub struct CollectionStatsView {
    pub collection_name: Seq<char>,
    pub total_supply: u32,
    pub unique_owners: u32,
    pub floor_price: Option<u64>,
    pub total_volume: u64,
    pub average_price: Option<u64>,
}

impl View for CollectionStats {
    type V = CollectionStatsView;

    open spec fn view(&self) -> CollectionStatsView {
        CollectionStatsView {
            collection_name: self.collection_name@,
            total_supply: self.total_supply,
            unique_owners: self.unique_owners,
            floor_price: self.floor_price,
            total_volume: self.total_volume,
            average_price: self.average_price,
        }
    }
}

impl DeepView for CollectionStats {
    type V = CollectionStatsView;

    open spec fn deep_view(&self) -> CollectionStatsView {
        self@
    }
}

impl Clone for CollectionStats {
    fn clone(&self) -> (r: CollectionStats)
        ensures
            r@ == self@,
    {
        CollectionStats {
            collection_name: self.collection_name.clone(),
            total_supply: self.total_supply,
            unique_owners: self.unique_owners,
            floor_price: self.floor_price,
            total_volume: self.total_volume,
            average_price: self.average_price,
        }
    }
}

} // verus!
