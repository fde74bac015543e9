//! The local-network Stage Display server: how a viewer's PIN is checked,
//! which content type an asset is served with, and how connected clients
//! are numbered.
use crate::media::name_extension;
use crate::text::{ascii_lower, chars_of, lit, eq_chars, to_ascii_lowercase};
use sha2::Digest;
use vstd::prelude::*;
use vstd::string::StringSliceAdditionalSpecFns;
use vstd::utf8::encode_utf8;

verus! {

/// Default TCP port of the Stage Display web server.
pub const DEFAULT_STAGE_PORT: u16 = 1426;

/// The SHA-256 digest of a byte string.
pub uninterp spec fn sha256(data: Seq<u8>) -> Seq<u8>;

/// `sha2::Sha256::digest`: the SHA-256 digest of `data`, 32 bytes.
#[verifier::external_body]
fn sha256_digest(data: &[u8]) -> (r: [u8; 32])
    ensures
        r@ == sha256(data@),
{
    sha2::Sha256::digest(data).into()
}

/// The digest a PIN is compared by (SHA-256 of its UTF-8 bytes).
pub fn pin_digest(pin: &str) -> (r: [u8; 32])
    ensures
        r@ == sha256(pin.spec_bytes()),
{
    sha256_digest(pin.as_bytes())
}

fn digests_equal(a: &[u8; 32], b: &[u8; 32]) -> (r: bool)
    ensures
        r == (a@ == b@),
{
    let mut i: usize = 0;
    while i < 32
        invariant
            i <= 32,
            a@.len() == 32,
            b@.len() == 32,
            forall|j: int| 0 <= j < i ==> a@[j] == b@[j],
        decreases 32 - i,
    {
        if a[i] != b[i] {
            return false;
        }
        i = i + 1;
    }
    assert(a@ =~= b@);
    true
}

/// Whether a viewer offering `offered` may watch: any PIN when none is
/// required, else one whose digest equals the required PIN's.
pub open spec fn pin_accepted(required: Seq<char>, offered: Option<Seq<char>>) -> bool {
    required.len() == 0 || (offered matches Some(p) && sha256(encode_utf8(p)) == sha256(encode_utf8(required)))
}

/// See [`pin_accepted`].
pub fn pin_matches(required: &str, offered: Option<&str>) -> (r: bool)
    ensures
        r == pin_accepted(required@, match offered {
            Some(p) => Some(p@),
            None => None,
        }),
{
    if chars_of(required).len() == 0 {
        return true;
    }
    match offered {
        None => false,
        Some(p) => digests_equal(&pin_digest(p), &pin_digest(required)),
    }
}

/// The content type an asset is served with, by its extension (ignoring
/// ASCII case).
pub open spec fn content_type_of(name: Seq<char>) -> Seq<char> {
    match name_extension(name) {
        Some(e) => {
            let l = ascii_lower(e);
            if l == "jpg"@ || l == "jpeg"@ {
                "image/jpeg"@
            } else if l == "png"@ {
                "image/png"@
            } else if l == "gif"@ {
                "image/gif"@
            } else if l == "webp"@ {
                "image/webp"@
            } else if l == "mp4"@ {
                "video/mp4"@
            } else if l == "mov"@ {
                "video/quicktime"@
            } else if l == "webm"@ {
                "video/webm"@
            } else {
                "application/octet-stream"@
            }
        },
        None => "application/octet-stream"@,
    }
}

fn is_lit(v: &Vec<char>, s: &str) -> (r: bool)
    ensures
        r == (v@ == s@),
{
    eq_chars(v, &lit(s))
}

/// See [`content_type_of`].
pub fn content_type(name: &str) -> (r: &'static str)
    ensures
        r@ == content_type_of(name@),
{
    match crate::media::file_extension(name) {
        Some(e) => {
            let l = to_ascii_lowercase(&chars_of(e.as_str()));
            if is_lit(&l, "jpg") || is_lit(&l, "jpeg") {
                "image/jpeg"
            } else if is_lit(&l, "png") {
                "image/png"
            } else if is_lit(&l, "gif") {
                "image/gif"
            } else if is_lit(&l, "webp") {
                "image/webp"
            } else if is_lit(&l, "mp4") {
                "video/mp4"
            } else if is_lit(&l, "mov") {
                "video/quicktime"
            } else if is_lit(&l, "webm") {
                "video/webm"
            } else {
                "application/octet-stream"
            }
        },
        None => "application/octet-stream",
    }
}

/// The largest id, or 0.
pub open spec fn max_id(ids: Seq<u64>) -> nat
    decreases ids.len(),
{
    if ids.len() == 0 {
        0
    } else {
        let m = max_id(ids.drop_last());
        if ids.last() > m { ids.last() as nat } else { m }
    }
}

proof fn lemma_max_id_bounds(ids: Seq<u64>)
    ensures
        forall|i: int| 0 <= i < ids.len() ==> ids[i] <= max_id(ids),
        max_id(ids) <= u64::MAX,
    decreases ids.len(),
{
    if ids.len() > 0 {
        lemma_max_id_bounds(ids.drop_last());
        assert forall|i: int| 0 <= i < ids.len() implies ids[i] <= max_id(ids) by {
            if i < ids.len() - 1 {
                assert(ids[i] == ids.drop_last()[i]);
            }
        }
    }
}

/// The id for a newly connected client: one past the largest id in use, so
/// it is in use by no client.
pub fn next_client_id(ids: &Vec<u64>) -> (r: u64)
    requires
        max_id(ids@) < u64::MAX,
    ensures
        r == max_id(ids@) + 1,
        !ids@.contains(r),
{
    let mut m: u64 = 0;
    let mut i: usize = 0;
    assert(ids@.take(0) =~= Seq::<u64>::empty());
    while i < ids.len()
        invariant
            i <= ids.len(),
            m == max_id(ids@.take(i as int)),
        decreases ids.len() - i,
    {
        assert(ids@.take(i + 1).drop_last() =~= ids@.take(i as int));
        if ids[i] > m {
            m = ids[i];
        }
        i = i + 1;
    }
    assert(ids@.take(ids.len() as int) =~= ids@);
    proof {
        lemma_max_id_bounds(ids@);
        if ids@.contains((m + 1) as u64) {
            let k = choose|k: int| 0 <= k < ids@.len() && ids@[k] == (m + 1) as u64;
            assert(ids@[k] <= max_id(ids@));
        }
    }
    m + 1
}

/// Without a PIN every client is let in; with one, the right PIN always is.
pub proof fn law_right_pin_accepted(required: Seq<char>, offered: Option<Seq<char>>)
    ensures
        pin_accepted(required, Some(required)),
        required.len() == 0 ==> pin_accepted(required, offered),
{
}

/// A hexadecimal digit in lower case.
pub open spec fn hex_digit(n: u8) -> char {
    match n {
        0 => '0', 1 => '1', 2 => '2', 3 => '3', 4 => '4', 5 => '5', 6 => '6', 7 => '7',
        8 => '8', 9 => '9', 10 => 'a', 11 => 'b', 12 => 'c', 13 => 'd', 14 => 'e', _ => 'f',
    }
}

/// Bytes as lower-case hex, two digits per byte.
pub open spec fn hex_lower(bs: Seq<u8>) -> Seq<char>
    decreases bs.len(),
{
    if bs.len() == 0 {
        seq![]
    } else {
        let b = bs.last();
        hex_lower(bs.drop_last()).push(hex_digit(b / 16)).push(hex_digit(b % 16))
    }
}

fn hex_digit_exec(n: u8) -> (r: char)
    ensures
        r == hex_digit(n),
{
    match n {
        0 => '0', 1 => '1', 2 => '2', 3 => '3', 4 => '4', 5 => '5', 6 => '6', 7 => '7',
        8 => '8', 9 => '9', 10 => 'a', 11 => 'b', 12 => 'c', 13 => 'd', 14 => 'e', _ => 'f',
    }
}

/// The SHA-256 digest of `data` in lower-case hex, the form media files are
/// cached under.
pub fn sha256_hex(data: &[u8]) -> (r: String)
    ensures
        r@ == hex_lower(sha256(data@)),
{
    let d = sha256_digest(data);
    let ghost ds = d@;
    let mut out: Vec<char> = Vec::new();
    let mut i: usize = 0;
    while i < 32
        invariant
            i <= 32,
            d@ == ds,
            ds.len() == 32,
            out@ == hex_lower(ds.take(i as int)),
        decreases 32 - i,
    {
        let b = d[i];
        assert(ds.take(i + 1).drop_last() =~= ds.take(i as int));
        assert(ds.take(i + 1).last() == b);
        out.push(hex_digit_exec(b / 16));
        out.push(hex_digit_exec(b % 16));
        i = i + 1;
    }
    assert(ds.take(32) =~= ds);
    crate::text::string_of(&out)
}

} // verus!
