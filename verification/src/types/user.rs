//! User profiles.

use vstd::prelude::*;

use crate::identity::Identity;

verus! {

/// A link to a profile elsewhere.
#[derive(Debug)]
pub struct SocialLink {
    pub url: String,
    pub platform: String,
}

/// What a [`SocialLink`] holds, as mathematical values.
pub struct SocialLinkView {
    pub url: Seq<char>,
    pub platform: Seq<char>,
}

impl View for SocialLink {
    type V = SocialLinkView;

    open spec fn view(&self) -> SocialLinkView {
        SocialLinkView {
            url: self.url@,
            platform: self.platform@,
        }
    }
}

impl DeepView for SocialLink {
    type V = SocialLinkView;

    open spec fn deep_view(&self) -> SocialLinkView {
        self@
    }
}

impl Clone for SocialLink {
    fn clone(&self) -> (r: SocialLink)
        ensures
            r@ == self@,
    {
        SocialLink {
            url: self.url.clone(),
            platform: self.platform.clone(),
        }
    }
}

/// What is kept of a user. No identifier occurs twice in either owned list.
#[derive(Debug)]
pub struct UserProfile {
    pub principal: Identity,
    pub username: String,
    pub email: Option<String>,
    pub bio: Option<String>,
    pub reputation_score: u32,
    pub verified: bool,
    pub created_at: u64,
    pub owned_ips: Vec<String>,
    pub owned_nfts: Vec<String>,
    pub avatar_url: Option<String>,
    pub banner_url: Option<String>,
    pub social_links: Vec<SocialLink>,
    pub total_sales: u64,
    pub total_purchases: u64,
}

/// What a [`UserProfile`] holds, as mathematical values.
pub struct UserProfileView {
    pub principal: Seq<u8>,
    pub username: Seq<char>,
    pub email: Option<Seq<char>>,
    pub bio: Option<Seq<char>>,
    pub reputation_score: u32,
    pub verified: bool,
    pub created_at: u64,
    pub owned_ips: Seq<Seq<char>>,
    pub owned_nfts: Seq<Seq<char>>,
    pub avatar_url: Option<Seq<char>>,
    pub banner_url: Option<Seq<char>>,
    pub social_links: Seq<SocialLinkView>,
    pub total_sales: u64,
    pub total_purchases: u64,
}

impl View for UserProfile {
    type V = UserProfileView;

    open spec fn view(&self) -> UserProfileView {
        UserProfileView {
            principal: self.principal@,
            username: self.username@,
            email: self.email.deep_view(),
            bio: self.bio.deep_view(),
            reputation_score: self.reputation_score,
            verified: self.verified,
            created_at: self.created_at,
            owned_ips: self.owned_ips.deep_view(),
            owned_nfts: self.owned_nfts.deep_view(),
            avatar_url: self.avatar_url.deep_view(),
            banner_url: self.banner_url.deep_view(),
            social_links: self.social_links.deep_view(),
            total_sales: self.total_sales,
            total_purchases: self.total_purchases,
        }
    }
}

impl DeepView for UserProfile {
    type V = UserProfileView;

    open spec fn deep_view(&self) -> UserProfileView {
        self@
    }
}

impl Clone for UserProfile {
    fn clone(&self) -> (r: UserProfile)
        ensures
            r@ == self@,
    {
        let r = UserProfile {
            principal: self.principal.clone(),
            username: self.username.clone(),
            email: self.email.clone(),
            bio: self.bio.clone(),
            reputation_score: self.reputation_score,
            verified: self.verified,
            created_at: self.created_at,
            owned_ips: self.owned_ips.clone(),
            owned_nfts: self.owned_nfts.clone(),
            avatar_url: self.avatar_url.clone(),
            banner_url: self.banner_url.clone(),
            social_links: self.social_links.clone(),
            total_sales: self.total_sales,
            total_purchases: self.total_purchases,
        };
        assert(r.owned_ips.deep_view() =~= self.owned_ips.deep_view());
        assert(r.owned_nfts.deep_view() =~= self.owned_nfts.deep_view());
        assert(r.social_links.deep_view() =~= self.social_links.deep_view());
        r
    }
}

/// What a caller gives to open a profile.
#[derive(Debug)]
pub struct CreateUserRequest {
    pub bio: Option<String>,
    pub username: String,
    pub banner_url: Option<String>,
    pub avatar_url: Option<String>,
    pub email: Option<String>,
    pub social_links: Vec<SocialLink>,
}

/// What a [`CreateUserRequest`] holds, as mathematical values.
pub struct CreateUserRequestView {
    pub bio: Option<Seq<char>>,
    pub username: Seq<char>,
    pub banner_url: Option<Seq<char>>,
    pub avatar_url: Option<Seq<char>>,
    pub email: Option<Seq<char>>,
    pub social_links: Seq<SocialLinkView>,
}

impl View for CreateUserRequest {
    type V = CreateUserRequestView;

    open spec fn view(&self) -> CreateUserRequestView {
        CreateUserRequestView {
            bio: self.bio.deep_view(),
            username: self.username@,
            banner_url: self.banner_url.deep_view(),
            avatar_url: self.avatar_url.deep_view(),
            email: self.email.deep_view(),
            social_links: self.social_links.deep_view(),
        }
    }
}

impl DeepView for CreateUserRequest {
    type V = CreateUserRequestView;

    open spec fn deep_view(&self) -> CreateUserRequestView {
        self@
    }
}

/// What a caller gives to change a profile: a field that is absent stays as it is.
#[derive(Debug)]
pub struct UpdateUserRequest {
    pub username: Option<String>,
    pub email: Option<String>,
    pub bio: Option<String>,
    pub avatar_url: Option<String>,
    pub banner_url: Option<String>,
    pub social_links: Option<Vec<SocialLink>>,
}

/// What a [`UpdateUserRequest`] holds, as mathematical values.
pub struct UpdateUserRequestView {
    pub username: Option<Seq<char>>,
    pub email: Option<Seq<char>>,
    pub bio: Option<Seq<char>>,
    pub avatar_url: Option<Seq<char>>,
    pub banner_url: Option<Seq<char>>,
    pub social_links: Option<Seq<SocialLinkView>>,
}

impl View for UpdateUserRequest {
    type V = UpdateUserRequestView;

    open spec fn view(&self) -> UpdateUserRequestView {
        UpdateUserRequestView {
            username: self.username.deep_view(),
            email: self.email.deep_view(),
            bio: self.bio.deep_view(),
            avatar_url: self.avatar_url.deep_view(),
            banner_url: self.banner_url.deep_view(),
            social_links: self.social_links.deep_view(),
        }
    }
}

impl DeepView for UpdateUserRequest {
    type V = UpdateUserRequestView;

    open spec fn deep_view(&self) -> UpdateUserRequestView {
        self@
    }
}

} // verus!
