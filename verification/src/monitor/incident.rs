//! The incident model shared by every provider.
use vstd::prelude::*;
use crate::utils::text::string_from_chars;

verus! {

/// One incident as reported by a status page, normalized across providers.
#[derive(Debug, Clone, PartialEq, Eq)]
pub struct Incident {
    pub provider: String,
    pub id: String,
    pub title: String,
    pub description: String,
    pub link: String,
    pub occurred_at: String,
}

impl View for Incident {
    /// Provider, id, title, description, link and timestamp.
    type V = (Seq<char>, Seq<char>, Seq<char>, Seq<char>, Seq<char>, Seq<char>);

    open spec fn view(&self) -> Self::V {
        (
            self.provider@,
            self.id@,
            self.title@,
            self.description@,
            self.link@,
            self.occurred_at@,
        )
    }
}

pub const FNV_OFFSET: u64 = 0xcbf2_9ce4_8422_2325;

pub const FNV_PRIME: u64 = 0x0000_0100_0000_01b3;

/// One FNV-1a step: xor in a byte, multiply by the prime modulo 2^64.
pub open spec fn fnv_step(hash: u64, byte: u8) -> u64 {
    (hash ^ (byte as u64)).wrapping_mul(FNV_PRIME)
}

/// FNV-1a over `bytes`, starting from `hash`.
pub open spec fn fnv_fold(hash: u64, bytes: Seq<u8>) -> u64
    decreases bytes.len(),
{
    if bytes.len() == 0 {
        hash
    } else {
        fnv_fold(fnv_step(hash, bytes[0]), bytes.skip(1))
    }
}

/// Folds `bytes` into `hash`, then a `0xff` separator, so that differing
/// field boundaries do not line up.
pub open spec fn fnv_mix(hash: u64, bytes: Seq<u8>) -> u64 {
    fnv_step(fnv_fold(hash, bytes), 0xff)
}

/// The lower-case hex digit for `d` (below 16).
pub open spec fn hex_digit(d: nat) -> char {
    if d < 10 {
        (48 + d) as char
    } else {
        (87 + d) as char
    }
}

/// The last `n` hex digits of `h`, most significant first.
pub open spec fn hex_digits(h: nat, n: nat) -> Seq<char>
    decreases n,
{
    if n == 0 {
        Seq::empty()
    } else {
        hex_digits(h / 16, (n - 1) as nat).push(hex_digit(h % 16))
    }
}

/// `h` as 16 lower-case hex digits, zero padded.
pub open spec fn hex16(h: u64) -> Seq<char> {
    hex_digits(h as nat, 16)
}

/// The content fingerprint of an incident with these title, description and
/// timestamp texts: FNV-1a over their UTF-8 bytes, each followed by a
/// separator, as 16 hex digits.
pub open spec fn content_fingerprint(
    title: Seq<char>,
    description: Seq<char>,
    occurred_at: Seq<char>,
) -> Seq<char> {
    let h1 = fnv_mix(FNV_OFFSET, vstd::utf8::encode_utf8(title));
    let h2 = fnv_mix(h1, vstd::utf8::encode_utf8(description));
    hex16(fnv_mix(h2, vstd::utf8::encode_utf8(occurred_at)))
}

proof fn lemma_hex_digits_len(h: nat, n: nat)
    ensures
        hex_digits(h, n).len() == n,
    decreases n,
{
    if n > 0 {
        lemma_hex_digits_len(h / 16, (n - 1) as nat);
    }
}

/// A fingerprint is 16 characters long, so it is never the empty text.
pub proof fn lemma_fingerprint_len(title: Seq<char>, description: Seq<char>, occurred_at: Seq<char>)
    ensures
        content_fingerprint(title, description, occurred_at).len() == 16,
{
    let h1 = fnv_mix(FNV_OFFSET, vstd::utf8::encode_utf8(title));
    let h2 = fnv_mix(h1, vstd::utf8::encode_utf8(description));
    lemma_hex_digits_len(fnv_mix(h2, vstd::utf8::encode_utf8(occurred_at)) as nat, 16);
}

/// Two incidents with the same title, description and timestamp have the
/// same fingerprint, whatever their provider, id and link.
pub proof fn lemma_fingerprint_ignores_identity(a: Incident, b: Incident)
    requires
        a.title@ == b.title@,
        a.description@ == b.description@,
        a.occurred_at@ == b.occurred_at@,
    ensures
        content_fingerprint(a.title@, a.description@, a.occurred_at@) == content_fingerprint(
            b.title@,
            b.description@,
            b.occurred_at@,
        ),
{
}

fn mix(hash: u64, bytes: &[u8]) -> (r: u64)
    ensures
        r == fnv_mix(hash, bytes@),
{
    let mut h = hash;
    let mut i: usize = 0;
    assert(bytes@.skip(0) =~= bytes@);
    while i < bytes.len()
        invariant
            0 <= i <= bytes@.len(),
            fnv_fold(h, bytes@.skip(i as int)) == fnv_fold(hash, bytes@),
        decreases bytes.len() - i,
    {
        assert(bytes@.skip(i as int).skip(1) =~= bytes@.skip(i + 1));
        h = (h ^ (bytes[i] as u64)).wrapping_mul(FNV_PRIME);
        i += 1;
    }
    h = (h ^ 0xff).wrapping_mul(FNV_PRIME);
    h
}

fn hex_char(d: u64) -> (c: char)
    requires
        d < 16,
    ensures
        c == hex_digit(d as nat),
{
    if d < 10 {
        ((48 + d) as u8) as char
    } else {
        ((87 + d) as u8) as char
    }
}

/// `h` as 16 lower-case hex digits.
pub fn format_hex16(h: u64) -> (s: String)
    ensures
        s@ == hex16(h),
{
    let mut digits: Vec<char> = Vec::new();
    let mut v = h;
    let mut k: usize = 0;
    while k < 16
        invariant
            0 <= k <= 16,
            hex_digits(h as nat, 16) == hex_digits(v as nat, (16 - k) as nat) + digits@,
        decreases 16 - k,
    {
        let ghost old_digits = digits@;
        let c = hex_char(v % 16);
        digits.insert(0, c);
        proof {
            assert(hex_digits(v as nat, (16 - k) as nat) == hex_digits((v / 16) as nat, (15 - k) as nat).push(
                hex_digit((v % 16) as nat),
            ));
            assert(hex_digits((v / 16) as nat, (15 - k) as nat).push(hex_digit((v % 16) as nat))
                + old_digits =~= hex_digits((v / 16) as nat, (15 - k) as nat) + digits@);
        }
        v = v / 16;
        k += 1;
    }
    assert(hex_digits(v as nat, 0) + digits@ =~= digits@);
    string_from_chars(&digits)
}

impl Incident {
    /// Stable content fingerprint identifying the current state of an incident:
    /// FNV-1a over the title, description and timestamp, as 16 hex digits.
    /// Provider, id and link are identity, not content, and do not enter it.
    pub fn fingerprint(&self) -> (r: String)
        ensures
            r@ == content_fingerprint(self.title@, self.description@, self.occurred_at@),
    {
        let mut hash = FNV_OFFSET;
        hash = mix(hash, self.title.as_str().as_bytes());
        hash = mix(hash, self.description.as_str().as_bytes());
        hash = mix(hash, self.occurred_at.as_str().as_bytes());
        format_hex16(hash)
    }
}

} // verus!
