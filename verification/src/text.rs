//! Text helpers: prefixes, substrings, decimal numerals, text in lowercase and
//! in quotes, and digests in hexadecimal.

use vstd::prelude::*;
use vstd::string::*;
use vstd::utf8::*;

verus! {

/// The characters of a string, one element per scalar value.
pub fn chars_of(s: &str) -> (r: Vec<char>)
    ensures
        r@ == s@,
{
    let mut out: Vec<char> = Vec::new();
    for c in it: s.chars()
        invariant
            out@ == it.seq().take(it.index()),
            it.seq() == s@,
    {
        out.push(c);
    }
    out
}

/// Whether `s` begins with `prefix`.
pub fn starts_with(s: &str, prefix: &str) -> (r: bool)
    ensures
        r == prefix@.is_prefix_of(s@),
{
    let hay = chars_of(s);
    let pre = chars_of(prefix);
    if pre.len() > hay.len() {
        return false;
    }
    let mut i: usize = 0;
    while i < pre.len()
        invariant
            i <= pre@.len() <= hay@.len(),
            pre@ == prefix@,
            hay@ == s@,
            pre@.take(i as int) == hay@.take(i as int),
        decreases pre@.len() - i,
    {
        if pre[i] != hay[i] {
            assert(pre@[i as int] != hay@.subrange(0, pre@.len() as int)[i as int]);
            return false;
        }
        assert(pre@.take(i + 1) =~= pre@.take(i as int).push(pre@[i as int]));
        assert(hay@.take(i + 1) =~= hay@.take(i as int).push(hay@[i as int]));
        i += 1;
    }
    assert(pre@ =~= pre@.take(i as int));
    true
}

/// `needle` occurs in `hay` at offset `at`.
pub open spec fn occurs_at(needle: Seq<char>, hay: Seq<char>, at: int) -> bool {
    0 <= at && at + needle.len() <= hay.len() && hay.subrange(at, at + needle.len()) == needle
}

/// `needle` occurs somewhere in `hay` as a contiguous run of characters.
pub open spec fn occurs_in(needle: Seq<char>, hay: Seq<char>) -> bool {
    exists|at: int| occurs_at(needle, hay, at)
}

fn matches_at(needle: &Vec<char>, hay: &Vec<char>, at: usize) -> (r: bool)
    requires
        at + needle@.len() <= hay@.len(),
    ensures
        r == occurs_at(needle@, hay@, at as int),
{
    let mut j: usize = 0;
    while j < needle.len()
        invariant
            j <= needle@.len(),
            at + needle@.len() <= hay.len(),
            hay@.subrange(at as int, at + j) == needle@.take(j as int),
        decreases needle@.len() - j,
    {
        if hay[at + j] != needle[j] {
            assert(hay@.subrange(at as int, at + needle@.len())[j as int] != needle@[j as int]);
            return false;
        }
        assert(hay@.subrange(at as int, at + j + 1) =~= hay@.subrange(at as int, at + j).push(
            hay@[at + j],
        ));
        assert(needle@.take(j + 1) =~= needle@.take(j as int).push(needle@[j as int]));
        j += 1;
    }
    assert(needle@ =~= needle@.take(j as int));
    true
}

/// Whether `needle` occurs in `hay`. The empty string occurs in every string.
pub fn contains(hay: &str, needle: &str) -> (r: bool)
    ensures
        r == occurs_in(needle@, hay@),
{
    let h = chars_of(hay);
    let n = chars_of(needle);
    if n.len() > h.len() {
        return false;
    }
    let last: usize = h.len() - n.len();
    let mut at: usize = 0;
    loop
        invariant
            at <= last,
            last == h@.len() - n@.len(),
            h@ == hay@,
            n@ == needle@,
            forall|k: int| 0 <= k < at ==> !occurs_at(n@, h@, k),
        decreases last - at,
    {
        if matches_at(&n, &h, at) {
            assert(occurs_at(needle@, hay@, at as int));
            return true;
        }
        if at == last {
            assert forall|k: int| !occurs_at(needle@, hay@, k) by {
                if 0 <= k <= last {
                    assert(!occurs_at(n@, h@, k));
                }
            }
            return false;
        }
        at += 1;
    }
}

/// What `str::to_lowercase` returns for a string with these characters.
pub uninterp spec fn lowercase(s: Seq<char>) -> Seq<char>;

/// `str::to_lowercase`: the lowercase form of `s` under Unicode's case mapping.
/// The mapping is not restated here; the result is named by [`lowercase`].
#[verifier::external_body]
pub(crate) fn to_lowercase(s: &str) -> (r: String)
    ensures
        r@ == lowercase(s@),
{
    s.to_lowercase()
}

/// What formatting a string with `{:?}` yields: the text in double quotes, with escapes.
pub uninterp spec fn quoted(s: Seq<char>) -> Seq<char>;

/// `<str as Debug>::fmt`: the quoted, escaped form of `s`. The escaping rules are
/// not restated here; the result is named by [`quoted`].
#[verifier::external_body]
pub(crate) fn to_quoted(s: &str) -> (r: String)
    ensures
        r@ == quoted(s@),
{
    format!("{:?}", s)
}

/// Whether a case-insensitive search for `query` finds it in `text`: the lowercase
/// form of `text` holds the (already lowercase) `query_lower`.
pub open spec fn mentions(text: Seq<char>, query_lower: Seq<char>) -> bool {
    occurs_in(query_lower, lowercase(text))
}

/// Whether the lowercase form of `text` holds `query_lower`.
pub fn text_mentions(text: &str, query_lower: &str) -> (r: bool)
    ensures
        r == mentions(text@, query_lower@),
{
    let lowered = to_lowercase(text);
    contains(lowered.as_str(), query_lower)
}

/// The character for a decimal digit.
pub open spec fn digit_char(d: nat) -> char
    recommends
        d < 10,
{
    if d == 0 {
        '0'
    } else if d == 1 {
        '1'
    } else if d == 2 {
        '2'
    } else if d == 3 {
        '3'
    } else if d == 4 {
        '4'
    } else if d == 5 {
        '5'
    } else if d == 6 {
        '6'
    } else if d == 7 {
        '7'
    } else if d == 8 {
        '8'
    } else {
        '9'
    }
}

/// The decimal numeral of `n`, without leading zeros.
pub open spec fn decimal(n: nat) -> Seq<char>
    decreases n,
{
    if n < 10 {
        seq![digit_char(n)]
    } else {
        decimal(n / 10).push(digit_char(n % 10))
    }
}

fn digit_str(d: u64) -> (r: &'static str)
    requires
        d < 10,
    ensures
        r@ == seq![digit_char(d as nat)],
{
    proof {
        reveal_strlit("0");
        reveal_strlit("1");
        reveal_strlit("2");
        reveal_strlit("3");
        reveal_strlit("4");
        reveal_strlit("5");
        reveal_strlit("6");
        reveal_strlit("7");
        reveal_strlit("8");
        reveal_strlit("9");
    }
    let r = if d == 0 {
        "0"
    } else if d == 1 {
        "1"
    } else if d == 2 {
        "2"
    } else if d == 3 {
        "3"
    } else if d == 4 {
        "4"
    } else if d == 5 {
        "5"
    } else if d == 6 {
        "6"
    } else if d == 7 {
        "7"
    } else if d == 8 {
        "8"
    } else {
        "9"
    };
    assert(r@ =~= seq![digit_char(d as nat)]);
    r
}

/// The decimal numeral of `n`.
pub fn u64_to_decimal(n: u64) -> (r: String)
    ensures
        r@ == decimal(n as nat),
    decreases n,
{
    if n < 10 {
        String::from_str(digit_str(n))
    } else {
        let head = u64_to_decimal(n / 10);
        let r = head.concat(digit_str(n % 10));
        assert(r@ =~= decimal((n / 10) as nat).push(digit_char((n % 10) as nat)));
        r
    }
}

/// The schemes under which an image reference is accepted.
pub open spec fn image_url_accepted(url: Seq<char>) -> bool {
    "http://"@.is_prefix_of(url) || "https://"@.is_prefix_of(url) || "ipfs://"@.is_prefix_of(url)
}

/// Whether an image reference begins with `http://`, `https://` or `ipfs://`.
pub fn validate_image_url(url: &str) -> (r: bool)
    ensures
        r == image_url_accepted(url@),
{
    starts_with(url, "http://") || starts_with(url, "https://") || starts_with(url, "ipfs://")
}

/// Nanoseconds in one second.
pub const NANOS_PER_SECOND: u64 = 1_000_000_000;

/// A timestamp in nanoseconds as the decimal numeral of its whole seconds.
pub fn format_timestamp(timestamp: u64) -> (r: String)
    ensures
        r@ == decimal((timestamp / NANOS_PER_SECOND) as nat),
{
    u64_to_decimal(timestamp / NANOS_PER_SECOND)
}

/// What SHA-256 yields for a message with these bytes.
pub uninterp spec fn sha256(message: Seq<u8>) -> Seq<u8>;

/// `sha2::Sha256`: the digest of `message`, fed in one `update` and read with
/// `finalize`. The hash function is not restated here; the result is named by [`sha256`].
#[verifier::external_body]
fn sha256_digest(message: &[u8]) -> (r: Vec<u8>)
    ensures
        r@ == sha256(message@),
{
    let mut hasher = <sha2::Sha256 as sha2::Digest>::new();
    sha2::Digest::update(&mut hasher, message);
    sha2::Digest::finalize(hasher).to_vec()
}

/// The lowercase hexadecimal digit for a value below 16.
pub open spec fn hex_digit(v: int) -> char
    recommends
        0 <= v < 16,
{
    if v < 10 {
        digit_char(v as nat)
    } else if v == 10 {
        'a'
    } else if v == 11 {
        'b'
    } else if v == 12 {
        'c'
    } else if v == 13 {
        'd'
    } else if v == 14 {
        'e'
    } else {
        'f'
    }
}

/// Lowercase hexadecimal: two digits per byte, the high half first.
pub open spec fn hex_lower(bytes: Seq<u8>) -> Seq<char> {
    Seq::new(
        2 * bytes.len(),
        |i: int|
            if i % 2 == 0 {
                hex_digit(bytes[i / 2] as int / 16)
            } else {
                hex_digit(bytes[i / 2] as int % 16)
            },
    )
}

/// `hex::encode`: each byte as two lowercase hexadecimal digits, in order.
#[verifier::external_body]
fn hex_encode(bytes: &[u8]) -> (r: String)
    ensures
        r@ == hex_lower(bytes@),
{
    hex::encode(bytes)
}

/// The SHA-256 digest of the UTF-8 bytes of `data`, in lowercase hexadecimal.
pub fn generate_hash(data: &str) -> (r: String)
    ensures
        r@ == hex_lower(sha256(encode_utf8(data@))),
{
    let digest = sha256_digest(data.as_bytes());
    hex_encode(digest.as_slice())
}

} // verus!
