//! Authenticated tokens: AES-128-CBC under an HMAC-SHA256 tag.

use crate::crypto::primitives;
use crate::wire;
use vstd::prelude::*;

verus! {

/// Errors that can occur during token decryption.
#[derive(Debug, PartialEq, Eq, Structural, Clone, Copy)]
pub enum TokenError {
    /// The token is shorter than an IV and a tag (48 bytes).
    TooShort,
    /// The tag does not belong to the rest of the token.
    BadHmac,
    /// The ciphertext has a wrong length or padding.
    DecryptionFailed,
}

impl TokenError {
    /// The message that describes the error.
    pub fn to_string(&self) -> (text: String)
        ensures
            text@ == (match *self {
                TokenError::TooShort => "token is too short (must be at least 48 bytes)"@,
                TokenError::BadHmac => "HMAC verification failed"@,
                TokenError::DecryptionFailed => "decryption failed (bad padding or ciphertext)"@,
            }),
    {
        match self {
            TokenError::TooShort => "token is too short (must be at least 48 bytes)".to_owned(),
            TokenError::BadHmac => "HMAC verification failed".to_owned(),
            TokenError::DecryptionFailed => {
                "decryption failed (bad padding or ciphertext)".to_owned()
            },
        }
    }
}

/// The token of `plaintext`: IV, ciphertext, and the tag over both.
pub open spec fn sealed(sign_key: Seq<u8>, enc_key: Seq<u8>, iv: Seq<u8>, plaintext: Seq<u8>) -> Seq<
    u8,
> {
    let body = iv + primitives::cbc_ciphertext(enc_key, iv, plaintext);
    body + primitives::hmac_tag(sign_key, body)
}

/// What a token of at least 48 bytes opens to.
pub open spec fn opened(sign_key: Seq<u8>, enc_key: Seq<u8>, token: Seq<u8>) -> Result<
    Seq<u8>,
    TokenError,
> {
    if token.len() < 48 {
        Err(TokenError::TooShort)
    } else {
        let end = token.len() - 32;
        if token.subrange(end, token.len() as int) != primitives::hmac_tag(
            sign_key,
            token.subrange(0, end),
        ) {
            Err(TokenError::BadHmac)
        } else {
            match primitives::cbc_plaintext(enc_key, token.subrange(0, 16), token.subrange(16, end)) {
                Some(p) => Ok(p),
                None => Err(TokenError::DecryptionFailed),
            }
        }
    }
}

/// Seals `plaintext` with a given IV. Opening the token gives `plaintext` back.
pub(crate) fn seal(sign_key: &[u8; 16], enc_key: &[u8; 16], iv: &[u8; 16], plaintext: &[u8]) -> (token:
    Vec<u8>)
    ensures
        token@ == sealed(sign_key@, enc_key@, iv@, plaintext@),
        token@.len() == 48 + primitives::padded_len(plaintext@.len()),
        opened(sign_key@, enc_key@, token@) == Ok::<Seq<u8>, TokenError>(plaintext@),
{
    let ciphertext: Vec<u8> = primitives::cbc_encrypt(enc_key, iv, plaintext);
    let mut token: Vec<u8> = Vec::new();
    wire::push_all(&mut token, iv.as_slice());
    wire::push_all(&mut token, ciphertext.as_slice());
    let ghost body = iv@ + ciphertext@;
    assert(token@ =~= body);
    let tag: [u8; 32] = primitives::hmac_sha256(sign_key.as_slice(), token.as_slice());
    wire::push_all(&mut token, tag.as_slice());
    proof {
        let end = token@.len() - 32;
        assert(token@.subrange(end, token@.len() as int) =~= tag@);
        assert(token@.subrange(0, end) =~= body);
        assert(token@.subrange(0, 16) =~= iv@);
        assert(token@.subrange(16, end) =~= ciphertext@);
    }
    token
}

/// Opens a token: checks its length, then its tag, then decrypts it.
pub(crate) fn open_token(sign_key: &[u8; 16], enc_key: &[u8; 16], token: &[u8]) -> (r: Result<
    Vec<u8>,
    TokenError,
>)
    ensures
        (match r {
            Ok(p) => opened(sign_key@, enc_key@, token@) == Ok::<Seq<u8>, TokenError>(p@),
            Err(e) => opened(sign_key@, enc_key@, token@) == Err::<Seq<u8>, TokenError>(e),
        }),
{
    if token.len() < 48 {
        return Err(TokenError::TooShort);
    }
    let end: usize = token.len() - 32;
    let body: Vec<u8> = wire::copy_range(token, 0, end);
    let tag: Vec<u8> = wire::copy_range(token, end, token.len());
    if !primitives::hmac_sha256_verify(sign_key.as_slice(), body.as_slice(), tag.as_slice()) {
        return Err(TokenError::BadHmac);
    }
    let iv: [u8; 16] = wire::read_16(token, 0);
    let ciphertext: Vec<u8> = wire::copy_range(token, 16, end);
    match primitives::cbc_decrypt(enc_key, &iv, ciphertext.as_slice()) {
        Some(p) => Ok(p),
        None => Err(TokenError::DecryptionFailed),
    }
}

/// Authenticated encryption under a 32-byte key, of which the first half signs and
/// the second half encrypts.
///
/// Wire format: `[IV(16)] [ciphertext] [HMAC-SHA256(32)]`; the overhead is 48 bytes.
pub struct Token;

impl Token {
    /// Encrypts `plaintext` with a fresh random IV.
    pub fn encrypt(plaintext: &[u8], key: &[u8; 32]) -> (token: Vec<u8>)
        ensures
            exists|iv: Seq<u8>|
                iv.len() == 16 && token@ == #[trigger] sealed(
                    key@.subrange(0, 16),
                    key@.subrange(16, 32),
                    iv,
                    plaintext@,
                ),
            token@.len() == 48 + primitives::padded_len(plaintext@.len()),
            opened(key@.subrange(0, 16), key@.subrange(16, 32), token@) == Ok::<
                Seq<u8>,
                TokenError,
            >(plaintext@),
    {
        let iv: [u8; 16] = primitives::random_16();
        Token::encrypt_with_iv(plaintext, key, &iv)
    }

    /// Encrypts `plaintext` with the given IV.
    pub fn encrypt_with_iv(plaintext: &[u8], key: &[u8; 32], iv: &[u8; 16]) -> (token: Vec<u8>)
        ensures
            token@ == sealed(key@.subrange(0, 16), key@.subrange(16, 32), iv@, plaintext@),
            token@.len() == 48 + primitives::padded_len(plaintext@.len()),
            opened(key@.subrange(0, 16), key@.subrange(16, 32), token@) == Ok::<
                Seq<u8>,
                TokenError,
            >(plaintext@),
    {
        let sign_key: [u8; 16] = wire::read_16(key.as_slice(), 0);
        let enc_key: [u8; 16] = wire::read_16(key.as_slice(), 16);
        seal(&sign_key, &enc_key, iv, plaintext)
    }

    /// Decrypts a token, verifying its tag first.
    pub fn decrypt(token: &[u8], key: &[u8; 32]) -> (r: Result<Vec<u8>, TokenError>)
        ensures
            (match r {
                Ok(p) => opened(key@.subrange(0, 16), key@.subrange(16, 32), token@) == Ok::<
                    Seq<u8>,
                    TokenError,
                >(p@),
                Err(e) => opened(key@.subrange(0, 16), key@.subrange(16, 32), token@) == Err::<
                    Seq<u8>,
                    TokenError,
                >(e),
            }),
    {
        let sign_key: [u8; 16] = wire::read_16(key.as_slice(), 0);
        let enc_key: [u8; 16] = wire::read_16(key.as_slice(), 16);
        open_token(&sign_key, &enc_key, token)
    }
}

/// A token is its IV, the ciphertext under the encryption key, and the tag of both under
/// the signing key.
pub proof fn law_token_layout(sign_key: Seq<u8>, enc_key: Seq<u8>, iv: Seq<u8>, plaintext: Seq<u8>)
    ensures
        ({
            let ct = primitives::cbc_ciphertext(enc_key, iv, plaintext);
            sealed(sign_key, enc_key, iv, plaintext) == iv + ct + primitives::hmac_tag(
                sign_key,
                iv + ct,
            )
        }),
{
}

/// A token is opened only where it ends with the tag of all before it, under the signing
/// key; its message is then what the encryption key finds in it.
pub proof fn law_only_tagged_is_opened(sign_key: Seq<u8>, enc_key: Seq<u8>, token: Seq<u8>)
    ensures
        opened(sign_key, enc_key, token) matches Ok(p) ==> {
            let n = token.len() as int;
            &&& n >= 48
            &&& token.subrange(n - 32, n) == primitives::hmac_tag(
                sign_key,
                token.subrange(0, n - 32),
            )
            &&& primitives::cbc_plaintext(
                enc_key,
                token.subrange(0, 16),
                token.subrange(16, n - 32),
            ) == Some(p)
        },
        token.len() < 48 ==> opened(sign_key, enc_key, token) == Err::<Seq<u8>, TokenError>(
            TokenError::TooShort,
        ),
        token.len() >= 48 && token.subrange(token.len() - 32, token.len() as int)
            != primitives::hmac_tag(sign_key, token.subrange(0, token.len() - 32)) ==> opened(
            sign_key,
            enc_key,
            token,
        ) == Err::<Seq<u8>, TokenError>(TokenError::BadHmac),
{
}

/// What was encrypted under a key is decrypted under it. The first half of the key signs,
/// the second encrypts.
pub proof fn law_encrypted_is_decrypted(
    plaintext: &[u8],
    key: &[u8; 32],
    iv: &[u8; 16],
    token: Vec<u8>,
    bytes: &[u8],
    r: Result<Vec<u8>, TokenError>,
)
    requires
        call_ensures(Token::encrypt_with_iv, (plaintext, key, iv), token),
        bytes@ == token@,
        call_ensures(Token::decrypt, (bytes, key), r),
    ensures
        r matches Ok(p) && p@ == plaintext@,
        token@ == iv@ + primitives::cbc_ciphertext(key@.subrange(16, 32), iv@, plaintext@)
            + primitives::hmac_tag(
            key@.subrange(0, 16),
            iv@ + primitives::cbc_ciphertext(key@.subrange(16, 32), iv@, plaintext@),
        ),
{
}

} // verus!
