//! The key file: both secrets of an identity as 128 hexadecimal digits.

use crate::identity::Keys;
use crate::text;
use crate::wire;
use vstd::prelude::*;
use vstd::utf8;

verus! {

/// Why a key file cannot be used.
#[derive(Debug, Clone, PartialEq, Eq)]
pub enum KeyFileError {
    /// It does not hold 64 bytes.
    WrongSize,
    /// It is not hexadecimal.
    NotHex(String),
}

/// A text without surrounding white space.
pub open spec fn trimmed(s: Seq<char>) -> Seq<char> {
    text::trim_end(text::trim_start(s))
}

/// Whether keys, or an error, are what a key file holds.
pub open spec fn keys_read(content: Seq<char>, r: Result<Keys, KeyFileError>) -> bool {
    match text::hex_bytes(utf8::encode_utf8(trimmed(content))) {
        Some(b) => if b.len() == 64 {
            r matches Ok(k) && k.signing@ == b.subrange(0, 32) && k.encryption@ == b.subrange(
                32,
                64,
            )
        } else {
            r == Err::<Keys, KeyFileError>(KeyFileError::WrongSize)
        },
        None => r matches Err(KeyFileError::NotHex(m)) && m@ == text::hex_complaint(
            trimmed(content),
        ),
    }
}

/// The key file of some keys.
pub open spec fn key_text(keys: Keys) -> Seq<char> {
    text::hex_text(keys.signing@ + keys.encryption@)
}

/// Reads the keys in a key file.
pub fn parse_keys(content: &str) -> (r: Result<Keys, KeyFileError>)
    ensures
        keys_read(content@, r),
{
    let chars: Vec<char> = text::chars_of(content);
    let (from, to) = text::trim(chars.as_slice());
    let body: String = text::string_of(vstd::slice::slice_subrange(chars.as_slice(), from, to));
    match text::hex_decode(body.as_str()) {
        Ok(bytes) => {
            if bytes.len() != 64 {
                return Err(KeyFileError::WrongSize);
            }
            Ok(
                Keys::from_secrets(
                    wire::read_32(bytes.as_slice(), 0),
                    wire::read_32(bytes.as_slice(), 32),
                ),
            )
        },
        Err(e) => Err(KeyFileError::NotHex(e)),
    }
}

/// The content of the key file of some keys.
pub fn render_keys(keys: &Keys) -> (s: String)
    ensures
        s@ == key_text(*keys),
{
    let mut both: Vec<u8> = Vec::new();
    wire::push_all(&mut both, keys.signing.as_slice());
    wire::push_all(&mut both, keys.encryption.as_slice());
    assert(both@ =~= keys.signing@ + keys.encryption@);
    text::hex_encode(both.as_slice())
}

/// Keys are read back from the key file that they were written to.
pub proof fn law_key_file_roundtrip(keys: Keys)
    ensures
        ({
            let content = text::hex_text(keys.signing@ + keys.encryption@);
            text::hex_bytes(utf8::encode_utf8(trimmed(content))) == Some(
                keys.signing@ + keys.encryption@,
            )
        }),
        (keys.signing@ + keys.encryption@).subrange(0, 32) == keys.signing@,
        (keys.signing@ + keys.encryption@).subrange(32, 64) == keys.encryption@,
{
    let both = keys.signing@ + keys.encryption@;
    let content = text::hex_text(both);
    assert(both.subrange(0, 32) =~= keys.signing@);
    assert(both.subrange(32, 64) =~= keys.encryption@);
    assert(!text::is_space(content[0])) by {
        assert(content[0] == text::hex_digit(both[0] as int / 16));
        assert(0 <= both[0] as int / 16 < 16);
    }
    assert(!text::is_space(content.last())) by {
        let i = content.len() - 1;
        assert(content[i] == text::hex_digit(both[i / 2] as int % 16));
        assert(0 <= both[i / 2] as int % 16 < 16);
    }
    assert(trimmed(content) == content);
    text::law_hex_roundtrip(both);
}

/// A key file has 128 digits: those of the Ed25519 seed, and then those of the X25519
/// secret. What is read from it are these keys.
pub proof fn law_key_file_is_read(keys: Keys, r: Result<Keys, KeyFileError>)
    requires
        keys_read(key_text(keys), r),
    ensures
        key_text(keys).len() == 128,
        key_text(keys).subrange(0, 64) == text::hex_text(keys.signing@),
        key_text(keys).subrange(64, 128) == text::hex_text(keys.encryption@),
        r matches Ok(k) && k.signing@ == keys.signing@ && k.encryption@ == keys.encryption@,
{
    law_key_file_roundtrip(keys);
    assert(key_text(keys).subrange(0, 64) =~= text::hex_text(keys.signing@));
    assert(key_text(keys).subrange(64, 128) =~= text::hex_text(keys.encryption@));
}

/// White space around the digits does not matter.
pub proof fn law_key_file_is_trimmed(content: Seq<char>, other: Seq<char>, r: Result<Keys, KeyFileError>)
    requires
        trimmed(content) == trimmed(other),
    ensures
        keys_read(content, r) == keys_read(other, r),
{
}

/// Keys are read exactly where the file holds 64 bytes in hexadecimal.
pub proof fn law_key_file_size(content: Seq<char>, r: Result<Keys, KeyFileError>)
    requires
        keys_read(content, r),
    ensures
        r is Ok <==> (text::hex_bytes(utf8::encode_utf8(trimmed(content))) matches Some(b)
            && b.len() == 64),
{
}

} // verus!
