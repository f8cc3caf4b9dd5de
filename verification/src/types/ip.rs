//! Registered works.

use vstd::prelude::*;
use vstd::string::*;

use crate::identity::Identity;
use crate::text::{quoted, to_quoted};

verus! {

/// How far the verification of a work has come.
#[derive(Clone, Copy, Debug, PartialEq, Eq, Structural)]
pub enum VerificationStatus {
    Pending,
    Verified,
    Rejected,
    UnderReview,
}

/// The kind of work a record is about.
#[derive(Debug)]
pub enum IPType {
    Patent,
    Trademark,
    Copyright,
    TradeSecret,
    Design,
    DigitalArt,
    Music,
    Literature,
    Software,
    Photography,
    Video,
    /// A kind that has no variant of its own, by its name.
    Other(String),
}

/// What an [`IPType`] holds, as mathematical values.
pub enum IPTypeView {
    Patent,
    Trademark,
    Copyright,
    TradeSecret,
    Design,
    DigitalArt,
    Music,
    Literature,
    Software,
    Photography,
    Video,
    Other(Seq<char>),
}

impl View for IPType {
    type V = IPTypeView;

    open spec fn view(&self) -> IPTypeView {
        match self {
            IPType::Patent => IPTypeView::Patent,
            IPType::Trademark => IPTypeView::Trademark,
            IPType::Copyright => IPTypeView::Copyright,
            IPType::TradeSecret => IPTypeView::TradeSecret,
            IPType::Design => IPTypeView::Design,
            IPType::DigitalArt => IPTypeView::DigitalArt,
            IPType::Music => IPTypeView::Music,
            IPType::Literature => IPTypeView::Literature,
            IPType::Software => IPTypeView::Software,
            IPType::Photography => IPTypeView::Photography,
            IPType::Video => IPTypeView::Video,
            IPType::Other(name) => IPTypeView::Other(name@),
        }
    }
}

impl DeepView for IPType {
    type V = IPTypeView;

    open spec fn deep_view(&self) -> IPTypeView {
        self@
    }
}

impl Clone for IPType {
    fn clone(&self) -> (r: IPType)
        ensures
            r@ == self@,
    {
        match self {
            IPType::Patent => IPType::Patent,
            IPType::Trademark => IPType::Trademark,
            IPType::Copyright => IPType::Copyright,
            IPType::TradeSecret => IPType::TradeSecret,
            IPType::Design => IPType::Design,
            IPType::DigitalArt => IPType::DigitalArt,
            IPType::Music => IPType::Music,
            IPType::Literature => IPType::Literature,
            IPType::Software => IPType::Software,
            IPType::Photography => IPType::Photography,
            IPType::Video => IPType::Video,
            IPType::Other(name) => IPType::Other(name.clone()),
        }
    }
}

impl IPTypeView {
    /// Whether two kinds are the same variant, whatever name an `Other` carries.
    pub open spec fn same_variant(self, other: IPTypeView) -> bool {
        match (self, other) {
            (IPTypeView::Patent, IPTypeView::Patent) => true,
            (IPTypeView::Trademark, IPTypeView::Trademark) => true,
            (IPTypeView::Copyright, IPTypeView::Copyright) => true,
            (IPTypeView::TradeSecret, IPTypeView::TradeSecret) => true,
            (IPTypeView::Design, IPTypeView::Design) => true,
            (IPTypeView::DigitalArt, IPTypeView::DigitalArt) => true,
            (IPTypeView::Music, IPTypeView::Music) => true,
            (IPTypeView::Literature, IPTypeView::Literature) => true,
            (IPTypeView::Software, IPTypeView::Software) => true,
            (IPTypeView::Photography, IPTypeView::Photography) => true,
            (IPTypeView::Video, IPTypeView::Video) => true,
            (IPTypeView::Other(_), IPTypeView::Other(_)) => true,
            _ => false,
        }
    }

    /// The kind as text: the variant's name, and for `Other` the name it carries,
    /// quoted, in round brackets behind it.
    pub open spec fn label(self) -> Seq<char> {
        match self {
            IPTypeView::Patent => "Patent"@,
            IPTypeView::Trademark => "Trademark"@,
            IPTypeView::Copyright => "Copyright"@,
            IPTypeView::TradeSecret => "TradeSecret"@,
            IPTypeView::Design => "Design"@,
            IPTypeView::DigitalArt => "DigitalArt"@,
            IPTypeView::Music => "Music"@,
            IPTypeView::Literature => "Literature"@,
            IPTypeView::Software => "Software"@,
            IPTypeView::Photography => "Photography"@,
            IPTypeView::Video => "Video"@,
            IPTypeView::Other(name) => "Other("@ + quoted(name) + ")"@,
        }
    }
}

impl IPType {
    /// Whether two kinds are the same variant, whatever name an `Other` carries.
    pub fn same_variant(&self, other: &IPType) -> (r: bool)
        ensures
            r == self@.same_variant(other@),
    {
        match (self, other) {
            (IPType::Patent, IPType::Patent) => true,
            (IPType::Trademark, IPType::Trademark) => true,
            (IPType::Copyright, IPType::Copyright) => true,
            (IPType::TradeSecret, IPType::TradeSecret) => true,
            (IPType::Design, IPType::Design) => true,
            (IPType::DigitalArt, IPType::DigitalArt) => true,
            (IPType::Music, IPType::Music) => true,
            (IPType::Literature, IPType::Literature) => true,
            (IPType::Software, IPType::Software) => true,
            (IPType::Photography, IPType::Photography) => true,
            (IPType::Video, IPType::Video) => true,
            (IPType::Other(_), IPType::Other(_)) => true,
            _ => false,
        }
    }

    /// The kind as text, as it is written into a token's metadata.
    pub fn label(&self) -> (r: String)
        ensures
            r@ == self@.label(),
    {
        match self {
            IPType::Patent => String::from_str("Patent"),
            IPType::Trademark => String::from_str("Trademark"),
            IPType::Copyright => String::from_str("Copyright"),
            IPType::TradeSecret => String::from_str("TradeSecret"),
            IPType::Design => String::from_str("Design"),
            IPType::DigitalArt => String::from_str("DigitalArt"),
            IPType::Music => String::from_str("Music"),
            IPType::Literature => String::from_str("Literature"),
            IPType::Software => String::from_str("Software"),
            IPType::Photography => String::from_str("Photography"),
            IPType::Video => String::from_str("Video"),
            IPType::Other(name) => {
                let q = to_quoted(name.as_str());
                String::from_str("Other(").concat(q.as_str()).concat(")")
            },
        }
    }
}

/// A file that belongs to a record. Only its address is kept, not its content.
#[derive(Debug)]
pub struct FileMetadata {
    pub file_name: String,
    pub file_type: String,
    pub file_size: u64,
    pub file_hash: String,
    /// Where the file is stored.
    pub file_url: String,
    pub uploaded_at: u64,
}

/// What a [`FileMetadata`] holds, as mathematical values.
pub struct FileMetadataView {
    pub file_name: Seq<char>,
    pub file_type: Seq<char>,
    pub file_size: u64,
    pub file_hash: Seq<char>,
    pub file_url: Seq<char>,
    pub uploaded_at: u64,
}

impl View for FileMetadata {
    type V = FileMetadataView;

    open spec fn view(&self) -> FileMetadataView {
        FileMetadataView {
            file_name: self.file_name@,
            file_type: self.file_type@,
            file_size: self.file_size,
            file_hash: self.file_hash@,
            file_url: self.file_url@,
            uploaded_at: self.uploaded_at,
        }
    }
}

impl DeepView for FileMetadata {
    type V = FileMetadataView;

    open spec fn deep_view(&self) -> FileMetadataView {
        self@
    }
}

impl Clone for FileMetadata {
    fn clone(&self) -> (r: FileMetadata)
        ensures
            r@ == self@,
    {
        FileMetadata {
            file_name: self.file_name.clone(),
            file_type: self.file_type.clone(),
            file_size: self.file_size,
            file_hash: self.file_hash.clone(),
            file_url: self.file_url.clone(),
            uploaded_at: self.uploaded_at,
        }
    }
}

/// What describes the work behind a record.
#[derive(Debug)]
pub struct IPMetadata {
    pub category: String,
    pub tags: Vec<String>,
    pub file_hash: Option<String>,
    pub file_url: Option<String>,
    pub jurisdiction: String,
    pub expiry_date: Option<u64>,
    pub priority_date: Option<u64>,
    pub application_number: Option<String>,
    pub registration_number: Option<String>,
    pub genre: Option<String>,
    pub medium: Option<String>,
    pub dimensions: Option<String>,
    pub color_palette: Vec<String>,
    pub software_used: Vec<String>,
}

/// What a [`IPMetadata`] holds, as mathematical values.
pub struct IPMetadataView {
    pub category: Seq<char>,
    pub tags: Seq<Seq<char>>,
    pub file_hash: Option<Seq<char>>,
    pub file_url: Option<Seq<char>>,
    pub jurisdiction: Seq<char>,
    pub expiry_date: Option<u64>,
    pub priority_date: Option<u64>,
    pub application_number: Option<Seq<char>>,
    pub registration_number: Option<Seq<char>>,
    pub genre: Option<Seq<char>>,
    pub medium: Option<Seq<char>>,
    pub dimensions: Option<Seq<char>>,
    pub color_palette: Seq<Seq<char>>,
    pub software_used: Seq<Seq<char>>,
}

impl View for IPMetadata {
    type V = IPMetadataView;

    open spec fn view(&self) -> IPMetadataView {
        IPMetadataView {
            category: self.category@,
            tags: self.tags.deep_view(),
            file_hash: self.file_hash.deep_view(),
            file_url: self.file_url.deep_view(),
            jurisdiction: self.jurisdiction@,
            expiry_date: self.expiry_date,
            priority_date: self.priority_date,
            application_number: self.application_number.deep_view(),
            registration_number: self.registration_number.deep_view(),
            genre: self.genre.deep_view(),
            medium: self.medium.deep_view(),
            dimensions: self.dimensions.deep_view(),
            color_palette: self.color_palette.deep_view(),
            software_used: self.software_used.deep_view(),
        }
    }
}

impl DeepView for IPMetadata {
    type V = IPMetadataView;

    open spec fn deep_view(&self) -> IPMetadataView {
        self@
    }
}

impl Clone for IPMetadata {
    fn clone(&self) -> (r: IPMetadata)
        ensures
            r@ == self@,
    {
        let r = IPMetadata {
            category: self.category.clone(),
            tags: self.tags.clone(),
            file_hash: self.file_hash.clone(),
            file_url: self.file_url.clone(),
            jurisdiction: self.jurisdiction.clone(),
            expiry_date: self.expiry_date,
            priority_date: self.priority_date,
            application_number: self.application_number.clone(),
            registration_number: self.registration_number.clone(),
            genre: self.genre.clone(),
            medium: self.medium.clone(),
            dimensions: self.dimensions.clone(),
            color_palette: self.color_palette.clone(),
            software_used: self.software_used.clone(),
        };
        assert(r.tags.deep_view() =~= self.tags.deep_view());
        assert(r.color_palette.deep_view() =~= self.color_palette.deep_view());
        assert(r.software_used.deep_view() =~= self.software_used.deep_view());
        r
    }
}

/// A registered work. It is never deleted, and a token is linked to it at most once.
#[derive(Debug)]
pub struct IntellectualProperty {
    pub id: String,
    pub title: String,
    pub description: String,
    pub ip_type: IPType,
    pub owner: Identity,
    pub creator: Identity,
    pub creation_date: u64,
    pub registration_date: u64,
    pub metadata: IPMetadata,
    pub verification_status: VerificationStatus,
    /// The token minted for this record, once there is one.
    pub nft_id: Option<String>,
    pub image_url: Option<String>,
    pub additional_files: Vec<FileMetadata>,
}

/// What a [`IntellectualProperty`] holds, as mathematical values.
pub struct IntellectualPropertyView {
    pub id: Seq<char>,
    pub title: Seq<char>,
    pub description: Seq<char>,
    pub ip_type: IPTypeView,
    pub owner: Seq<u8>,
    pub creator: Seq<u8>,
    pub creation_date: u64,
    pub registration_date: u64,
    pub metadata: IPMetadataView,
    pub verification_status: VerificationStatus,
    pub nft_id: Option<Seq<char>>,
    pub image_url: Option<Seq<char>>,
    pub additional_files: Seq<FileMetadataView>,
}

impl View for IntellectualProperty {
    type V = IntellectualPropertyView;

    open spec fn view(&self) -> IntellectualPropertyView {
        IntellectualPropertyView {
            id: self.id@,
            title: self.title@,
            description: self.description@,
            ip_type: self.ip_type@,
            owner: self.owner@,
            creator: self.creator@,
            creation_date: self.creation_date,
            registration_date: self.registration_date,
            metadata: self.metadata@,
            verification_status: self.verification_status,
            nft_id: self.nft_id.deep_view(),
            image_url: self.image_url.deep_view(),
            additional_files: self.additional_files.deep_view(),
        }
    }
}

impl DeepView for IntellectualProperty {
    type V = IntellectualPropertyView;

    open spec fn deep_view(&self) -> IntellectualPropertyView {
        self@
    }
}

impl Clone for IntellectualProperty {
    fn clone(&self) -> (r: IntellectualProperty)
        ensures
            r@ == self@,
    {
        let r = IntellectualProperty {
            id: self.id.clone(),
            title: self.title.clone(),
            description: self.description.clone(),
            ip_type: self.ip_type.clone(),
            owner: self.owner.clone(),
            creator: self.creator.clone(),
            creation_date: self.creation_date,
            registration_date: self.registration_date,
            metadata: self.metadata.clone(),
            verification_status: self.verification_status,
            nft_id: self.nft_id.clone(),
            image_url: self.image_url.clone(),
            additional_files: self.additional_files.clone(),
        };
        assert(r.additional_files.deep_view() =~= self.additional_files.deep_view());
        r
    }
}

/// What a caller gives to register a work.
#[derive(Debug)]
pub struct RegisterIPRequest {
    pub title: String,
    pub description: String,
    pub ip_type: IPType,
    pub metadata: IPMetadata,
    pub image_url: Option<String>,
    pub additional_files: Vec<FileMetadata>,
}

/// What a [`RegisterIPRequest`] holds, as mathematical values.
pub struct RegisterIPRequestView {
    pub title: Seq<char>,
    pub description: Seq<char>,
    pub ip_type: IPTypeView,
    pub metadata: IPMetadataView,
    pub image_url: Option<Seq<char>>,
    pub additional_files: Seq<FileMetadataView>,
}

impl View for RegisterIPRequest {
    type V = RegisterIPRequestView;

    open spec fn view(&self) -> RegisterIPRequestView {
        RegisterIPRequestView {
            title: self.title@,
            description: self.description@,
            ip_type: self.ip_type@,
            metadata: self.metadata@,
            image_url: self.image_url.deep_view(),
            additional_files: self.additional_files.deep_view(),
        }
    }
}

impl DeepView for RegisterIPRequest {
    type V = RegisterIPRequestView;

    open spec fn deep_view(&self) -> RegisterIPRequestView {
        self@
    }
}

} // verus!
