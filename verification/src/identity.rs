//! Player identifiers and the opaque hashes that stand for them in public.

use vstd::prelude::*;

verus! {

/// A player's identifier: the 128 bits of a UUID.
pub type PlayerId = u128;

/// The lower-case character of one hexadecimal digit (`0 <= nibble < 16`).
pub open spec fn hex_char(nibble: int) -> char {
    if nibble == 0 {
        '0'
    } else if nibble == 1 {
        '1'
    } else if nibble == 2 {
        '2'
    } else if nibble == 3 {
        '3'
    } else if nibble == 4 {
        '4'
    } else if nibble == 5 {
        '5'
    } else if nibble == 6 {
        '6'
    } else if nibble == 7 {
        '7'
    } else if nibble == 8 {
        '8'
    } else if nibble == 9 {
        '9'
    } else if nibble == 10 {
        'a'
    } else if nibble == 11 {
        'b'
    } else if nibble == 12 {
        'c'
    } else if nibble == 13 {
        'd'
    } else if nibble == 14 {
        'e'
    } else {
        'f'
    }
}

/// The last `width` hexadecimal digits of `n`, most significant first.
pub open spec fn hex_digits(n: nat, width: nat) -> Seq<char>
    decreases width,
{
    if width == 0 {
        Seq::empty()
    } else {
        hex_digits(n / 16, (width - 1) as nat).push(hex_char((n % 16) as int))
    }
}

/// The usual text of an identifier: its 32 hexadecimal digits in groups of
/// 8, 4, 4, 4 and 12, with a hyphen between the groups.
pub open spec fn hyphenated(id: PlayerId) -> Seq<char> {
    let digits = hex_digits(id as nat, 32);
    digits.subrange(0, 8) + seq!['-'] + digits.subrange(8, 12) + seq!['-'] + digits.subrange(
        12,
        16,
    ) + seq!['-'] + digits.subrange(16, 20) + seq!['-'] + digits.subrange(20, 32)
}

/// The SHA-256 digest of the UTF-8 bytes of `text`, as 64 hexadecimal digits.
pub uninterp spec fn sha256_hex(text: Seq<char>) -> Seq<char>;

/// The opaque hash that stands for a player in messages to others: the
/// SHA-256 digest of the identifier's text.
pub open spec fn id_digest(id: PlayerId) -> Seq<char> {
    sha256_hex(hyphenated(id))
}

/// Whether `id` carries the version and variant marks of a random
/// (version 4) UUID.
pub open spec fn is_random_uuid(id: PlayerId) -> bool {
    id & 0x0000_0000_0000_f000_c000_0000_0000_0000 == 0x0000_0000_0000_4000_8000_0000_0000_0000
}

/// Formats an identifier through `uuid::Uuid`'s `Display`. Trusted: the
/// text is the hyphenated lower-case form of the 128 bits, most significant
/// digit first.
#[verifier::external_body]
fn uuid_text(id: PlayerId) -> (text: String)
    ensures
        text@ == hyphenated(id),
{
    uuid::Uuid::from_u128(id).to_string()
}

/// Calls `sha256::digest`. Trusted: the result is the digest of the text,
/// which this crate only names.
#[verifier::external_body]
fn sha256_digest(text: String) -> (digest: String)
    ensures
        digest@ == sha256_hex(text@),
{
    sha256::digest(text)
}

/// Calls `uuid::Uuid::new_v4`. Trusted: whatever bits the random source
/// gave, the version and variant marks are those of a random UUID.
#[verifier::external_body]
fn random_uuid() -> (id: PlayerId)
    ensures
        is_random_uuid(id),
{
    uuid::Uuid::new_v4().as_u128()
}

/// A fresh identifier for a player who brings none.
pub fn new_player_id() -> (id: PlayerId)
    ensures
        is_random_uuid(id),
{
    random_uuid()
}

/// The opaque hash of a player's identifier.
pub fn id_hash(id: PlayerId) -> (hash: String)
    ensures
        hash@ == id_digest(id),
{
    sha256_digest(uuid_text(id))
}

} // verus!
