//! Registering works, setting how far their verification has come, and reading
//! the registry of works.

use vstd::prelude::*;
use vstd::string::*;

use crate::identity::Identity;
use crate::registry::{lemma_filter_ends, lemma_filter_step};
use crate::storage::{generate_id, id_text, MarketState, MarketView};
use crate::text::{
    image_url_accepted, lowercase, mentions, text_mentions, to_lowercase, validate_image_url,
};
use crate::types::{
    view_result, IPMarketplaceError, IPType, IPTypeView, IntellectualProperty,
    IntellectualPropertyView, RegisterIPRequest, RegisterIPRequestView, VerificationStatus,
};
use crate::user_management::{add_ip_to_user, users_with_ip};

verus! {

/// The identifier of the work that is registered in state `s`.
pub open spec fn registered_id(s: MarketView) -> Seq<char> {
    id_text("IP"@, s.counter)
}

/// Whether a registration is taken: it gives no image reference, or one that is accepted.
pub open spec fn registration_accepted(req: RegisterIPRequestView) -> bool {
    req.image_url is Some ==> image_url_accepted(req.image_url->0)
}

/// The record of the work that `caller` registers at `now`: the caller owns and
/// created it, its verification is pending, and it has no token.
pub open spec fn registered_ip(
    s: MarketView,
    caller: Seq<u8>,
    now: u64,
    req: RegisterIPRequestView,
) -> IntellectualPropertyView {
    IntellectualPropertyView {
        id: registered_id(s),
        title: req.title,
        description: req.description,
        ip_type: req.ip_type,
        owner: caller,
        creator: caller,
        creation_date: now,
        registration_date: now,
        metadata: req.metadata,
        verification_status: VerificationStatus::Pending,
        nft_id: None,
        image_url: req.image_url,
        additional_files: req.additional_files,
    }
}

/// What a registration hands back: the record, or `InvalidInput` where the
/// image reference is not accepted.
pub open spec fn register_outcome(
    s: MarketView,
    caller: Seq<u8>,
    now: u64,
    req: RegisterIPRequestView,
) -> Result<IntellectualPropertyView, IPMarketplaceError> {
    if registration_accepted(req) {
        Ok(registered_ip(s, caller, now, req))
    } else {
        Err(IPMarketplaceError::InvalidInput)
    }
}

/// The state after a registration. A refusal changes nothing; otherwise one
/// number is drawn from the counter, the record is written, and the work is put
/// into the caller's profile, if the caller has one.
pub open spec fn register_state(
    s: MarketView,
    caller: Seq<u8>,
    now: u64,
    req: RegisterIPRequestView,
) -> MarketView {
    if registration_accepted(req) {
        MarketView {
            ips: s.ips.put(registered_id(s), registered_ip(s, caller, now, req)),
            users: users_with_ip(s.users, caller, registered_id(s)),
            counter: (s.counter + 1) as u64,
            ..s
        }
    } else {
        s
    }
}

/// The states that a registration that is taken passes, one after each of its
/// writes, in their order: the counter, the record, and the caller's profile.
pub open spec fn register_steps(
    s: MarketView,
    caller: Seq<u8>,
    now: u64,
    req: RegisterIPRequestView,
) -> Seq<MarketView> {
    let s1 = MarketView { counter: (s.counter + 1) as u64, ..s };
    let s2 = MarketView {
        ips: s1.ips.put(registered_id(s), registered_ip(s, caller, now, req)),
        ..s1
    };
    let s3 = MarketView { users: users_with_ip(s2.users, caller, registered_id(s)), ..s2 };
    seq![s1, s2, s3]
}

/// The writes of a registration end in the state that it leaves behind.
pub proof fn lemma_register_steps_end(
    s: MarketView,
    caller: Seq<u8>,
    now: u64,
    req: RegisterIPRequestView,
)
    requires
        registration_accepted(req),
    ensures
        register_steps(s, caller, now, req).len() == 3,
        register_steps(s, caller, now, req).last() == register_state(s, caller, now, req),
{
}

/// Registers a work for the caller.
pub fn register_ip(
    state: &mut MarketState,
    caller: &Identity,
    now: u64,
    request: RegisterIPRequest,
) -> (r: Result<IntellectualProperty, IPMarketplaceError>)
    requires
        registration_accepted(request@) ==> old(state).counter < u64::MAX,
    ensures
        view_result(r) == register_outcome(old(state)@, caller@, now, request@),
        final(state)@ == register_state(old(state)@, caller@, now, request@),
{
    let ghost s = state@;
    match &request.image_url {
        Some(url) => {
            if !validate_image_url(url.as_str()) {
                return Err(IPMarketplaceError::InvalidInput);
            }
        },
        None => {},
    }
    // After each write the state is the one that `register_steps` names for it.
    let ghost steps = register_steps(s, caller@, now, request@);
    let ip_id = generate_id(state, "IP");
    assert(state@ == steps[0]);
    let ip = IntellectualProperty {
        id: ip_id.clone(),
        title: request.title,
        description: request.description,
        ip_type: request.ip_type,
        owner: caller.clone(),
        creator: caller.clone(),
        creation_date: now,
        registration_date: now,
        metadata: request.metadata,
        verification_status: VerificationStatus::Pending,
        nft_id: None,
        image_url: request.image_url,
        additional_files: request.additional_files,
    };
    assert(ip@ == registered_ip(s, caller@, now, request@));
    state.ips.insert(ip_id.clone(), ip.clone());
    assert(state@ == steps[1]);
    add_ip_to_user(state, caller, ip_id);
    assert(state@ == steps[2]);
    Ok(ip)
}

/// What looking up a work hands back.
pub open spec fn ip_of(s: MarketView, ip_id: Seq<char>) -> Result<
    IntellectualPropertyView,
    IPMarketplaceError,
> {
    if s.ips.contains_key(ip_id) {
        Ok(s.ips.map[ip_id])
    } else {
        Err(IPMarketplaceError::NotFound)
    }
}

/// The work under `ip_id`.
pub fn get_ip_by_id(state: &MarketState, ip_id: String) -> (r: Result<
    IntellectualProperty,
    IPMarketplaceError,
>)
    ensures
        view_result(r) == ip_of(state@, ip_id@),
{
    match state.ips.get(&ip_id) {
        Some(ip) => Ok(ip.clone()),
        None => Err(IPMarketplaceError::NotFound),
    }
}

/// The works that meet `pred`, in the order of their identifiers.
pub open spec fn ips_where(
    s: MarketView,
    pred: spec_fn(IntellectualPropertyView) -> bool,
) -> Seq<IntellectualPropertyView> {
    s.ips.values().filter(pred)
}

/// What is true of the works that `user` owns.
pub open spec fn ip_owned_by(user: Seq<u8>) -> spec_fn(IntellectualPropertyView) -> bool {
    |ip: IntellectualPropertyView| ip.owner == user
}

/// The works that `user` owns by the registry of works, in the order of their identifiers.
pub fn get_user_ips(state: &MarketState, user: &Identity) -> (r: Vec<IntellectualProperty>)
    ensures
        r.deep_view() == ips_where(state@, ip_owned_by(user@)),
{
    let ghost pred = ip_owned_by(user@);
    let ghost values = state@.ips.values();
    let n = state.ips.count();
    let mut out: Vec<IntellectualProperty> = Vec::new();
    let mut i: usize = 0;
    proof {
        lemma_filter_ends(values, pred);
    }
    while i < n
        invariant
            i <= n,
            n == state@.ips.len(),
            values == state@.ips.values(),
            out.deep_view() == values.take(i as int).filter(pred),
            pred == ip_owned_by(user@),
        decreases n - i,
    {
        let ip = state.ips.value_at(i);
        proof {
            lemma_filter_step(values, i as int, pred);
        }
        if ip.owner.same(user) {
            let ghost was = out.deep_view();
            out.push(ip.clone());
            assert(out.deep_view() =~= was.push(ip@));
        }
        i += 1;
    }
    proof {
        lemma_filter_ends(values, pred);
    }
    out
}

/// Whether one of the tags holds the query, whatever the case of the letters.
pub open spec fn tag_mentions(tags: Seq<Seq<char>>, query_lower: Seq<char>) -> bool {
    exists|i: int| 0 <= i < tags.len() && mentions(#[trigger] tags[i], query_lower)
}

/// Whether a search finds the work: its title, its description or one of its
/// tags holds the query, whatever the case of the letters; and it is of the
/// kind, where one is asked for. Two kinds `Other` count as the same kind.
pub open spec fn ip_search_hit(
    ip: IntellectualPropertyView,
    query_lower: Seq<char>,
    ip_type: Option<IPTypeView>,
) -> bool {
    &&& mentions(ip.title, query_lower) || mentions(ip.description, query_lower) || tag_mentions(
        ip.metadata.tags,
        query_lower,
    )
    &&& ip_type is Some ==> ip.ip_type.same_variant(ip_type->0)
}

/// What is true of the works that a search for `query_lower` finds.
pub open spec fn ip_found_by(query_lower: Seq<char>, ip_type: Option<IPTypeView>) -> spec_fn(
    IntellectualPropertyView,
) -> bool {
    |ip: IntellectualPropertyView| ip_search_hit(ip, query_lower, ip_type)
}

/// Whether one of the tags holds the query, whatever the case of the letters.
pub fn any_tag_mentions(tags: &Vec<String>, query_lower: &str) -> (r: bool)
    ensures
        r == tag_mentions(tags.deep_view(), query_lower@),
{
    let mut i: usize = 0;
    while i < tags.len()
        invariant
            i <= tags@.len(),
            forall|j: int| 0 <= j < i ==> !mentions(#[trigger] tags.deep_view()[j], query_lower@),
        decreases tags@.len() - i,
    {
        if text_mentions(tags[i].as_str(), query_lower) {
            assert(mentions(tags.deep_view()[i as int], query_lower@));
            return true;
        }
        i += 1;
    }
    false
}

/// The works that a search for `query` finds, in the order of their identifiers.
pub fn search_ips(state: &MarketState, query: String, ip_type: Option<IPType>) -> (r: Vec<
    IntellectualProperty,
>)
    ensures
        r.deep_view() == ips_where(state@, ip_found_by(lowercase(query@), ip_type.deep_view())),
{
    let query_lower = to_lowercase(query.as_str());
    let ghost pred = ip_found_by(lowercase(query@), ip_type.deep_view());
    let ghost values = state@.ips.values();
    let n = state.ips.count();
    let mut out: Vec<IntellectualProperty> = Vec::new();
    let mut i: usize = 0;
    proof {
        lemma_filter_ends(values, pred);
    }
    while i < n
        invariant
            i <= n,
            n == state@.ips.len(),
            values == state@.ips.values(),
            query_lower@ == lowercase(query@),
            out.deep_view() == values.take(i as int).filter(pred),
            pred == ip_found_by(lowercase(query@), ip_type.deep_view()),
        decreases n - i,
    {
        let ip = state.ips.value_at(i);
        proof {
            lemma_filter_step(values, i as int, pred);
        }
        let matches_query = text_mentions(ip.title.as_str(), query_lower.as_str())
            || text_mentions(ip.description.as_str(), query_lower.as_str()) || any_tag_mentions(
            &ip.metadata.tags,
            query_lower.as_str(),
        );
        let matches_type = match &ip_type {
            Some(t) => ip.ip_type.same_variant(t),
            None => true,
        };
        if matches_query && matches_type {
            let ghost was = out.deep_view();
            out.push(ip.clone());
            assert(out.deep_view() =~= was.push(ip@));
        }
        i += 1;
    }
    proof {
        lemma_filter_ends(values, pred);
    }
    out
}

/// What setting the status hands back: `true`, or `NotFound` where the work is not there.
pub open spec fn verify_outcome(s: MarketView, ip_id: Seq<char>) -> Result<bool, IPMarketplaceError> {
    if s.ips.contains_key(ip_id) {
        Ok(true)
    } else {
        Err(IPMarketplaceError::NotFound)
    }
}

/// The state after the status of the work `ip_id` was set.
pub open spec fn verify_state(s: MarketView, ip_id: Seq<char>, status: VerificationStatus) -> MarketView {
    if s.ips.contains_key(ip_id) {
        MarketView {
            ips: s.ips.put(
                ip_id,
                IntellectualPropertyView { verification_status: status, ..s.ips.map[ip_id] },
            ),
            ..s
        }
    } else {
        s
    }
}

/// Sets how far the verification of a work has come. Who may do so is for the
/// caller to see to.
pub fn verify_ip(state: &mut MarketState, ip_id: String, status: VerificationStatus) -> (r: Result<
    bool,
    IPMarketplaceError,
>)
    ensures
        r == verify_outcome(old(state)@, ip_id@),
        final(state)@ == verify_state(old(state)@, ip_id@, status),
{
    let found = match state.ips.get(&ip_id) {
        Some(ip) => Some(ip.clone()),
        None => None,
    };
    match found {
        Some(mut ip) => {
            ip.verification_status = status;
            state.ips.insert(ip_id, ip);
            Ok(true)
        },
        None => Err(IPMarketplaceError::NotFound),
    }
}

} // verus!
