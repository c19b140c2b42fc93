//! Decryption of the Pkv2 files in KakaoTalk's media cache.
//!
//! A Pkv2 file is the four bytes `Pkv2`, a 16-byte initialisation vector and an
//! AES-256-CBC ciphertext with PKCS#7 padding. The plaintext starts with a
//! 256-byte wrapper; the media bytes follow it.

use crate::digest::{sha256, sha256_of};
use crate::error::{error_text, Error};
use crate::text::number::{decimal_i64, decimal_int};
use crate::text::{chars_of, owned, string_of};
use aes::Aes256;
use cbc::cipher::block_padding::Pkcs7;
use cbc::cipher::{BlockDecryptMut, KeyIvInit};
use vstd::prelude::*;
use vstd::string::StringSliceAdditionalSpecFns;

verus! {

/// Length of the initialisation vector, and of a cipher block.
pub const IV_LEN: usize = 16;

/// Length of the wrapper before the media bytes.
pub const PLAINTEXT_HEADER_LEN: usize = 256;

/// Why the cipher gave no plaintext.
#[derive(Debug)]
pub enum CipherFailure {
    /// The key is not 32 bytes or the initialisation vector not 16.
    Length,
    /// The padding of the last block is malformed.
    Padding,
}

/// The plaintext that AES-256-CBC with PKCS#7 padding gives back, where the padding is well formed.
pub uninterp spec fn cbc_plaintext(key: Seq<u8>, iv: Seq<u8>, ciphertext: Seq<u8>) -> Option<
    Seq<u8>,
>;

/// `cbc::Decryptor::<aes::Aes256>::new_from_slices`, which refuses exactly a key
/// that is not 32 bytes or a vector that is not 16, then `decrypt_padded_mut`
/// with `Pkcs7`, whose outcome depends on the key, the vector and the ciphertext
/// alone.
#[verifier::external_body]
fn cbc_decrypt(key: &[u8], iv: &[u8], ciphertext: &[u8]) -> (r: Result<Vec<u8>, CipherFailure>)
    ensures
        (r matches Err(CipherFailure::Length)) == (key@.len() != 32 || iv@.len() != 16),
        (r matches Err(CipherFailure::Padding)) == (key@.len() == 32 && iv@.len() == 16
            && cbc_plaintext(key@, iv@, ciphertext@) is None),
        r matches Ok(plaintext) ==> cbc_plaintext(key@, iv@, ciphertext@) == Some(plaintext@),
{
    let mut buf = ciphertext.to_vec();
    match cbc::Decryptor::<Aes256>::new_from_slices(key, iv) {
        Err(_) => Err(CipherFailure::Length),
        Ok(cipher) => match cipher.decrypt_padded_mut::<Pkcs7>(&mut buf) {
            Err(_) => Err(CipherFailure::Padding),
            Ok(plaintext) => Ok(plaintext.to_vec()),
        },
    }
}

/// The key text of a media message: `#<log id>%` read backwards.
pub open spec fn media_key(log_id: int) -> Seq<char> {
    ("#"@ + decimal_int(log_id) + "%"@).reverse()
}

/// The key text that a message's media is encrypted under.
pub fn media_key_string(log_id: i64) -> (key: String)
    ensures
        key@ == media_key(log_id as int),
{
    let mut forward: String = owned("#");
    let digits = decimal_i64(log_id);
    forward.append(digits.as_str());
    forward.append("%");
    let chars = chars_of(forward.as_str());
    let total: usize = chars.len();
    let mut key: Vec<char> = Vec::new();
    for i in 0..total
        invariant
            total == chars@.len(),
            key@ == chars@.reverse().take(i as int),
    {
        key.push(chars[total - 1 - i]);
    }
    proof {
        assert(chars@.reverse().take(total as int) == chars@.reverse());
    }
    string_of(key.as_slice())
}

/// What decrypting the part of a Pkv2 file after its magic gives.
pub open spec fn payload_plaintext(data: Seq<u8>, key: Seq<u8>) -> Result<Seq<u8>, Seq<char>> {
    if data.len() <= IV_LEN {
        Err("invalid Pkv2 payload: missing ciphertext"@)
    } else if (data.len() - IV_LEN) % (IV_LEN as int) != 0 {
        Err("invalid Pkv2 payload: ciphertext is not block-aligned"@)
    } else {
        match cbc_plaintext(sha256(key), data.take(IV_LEN as int), data.skip(IV_LEN as int)) {
            Some(plaintext) => Ok(plaintext),
            None => Err("invalid Pkv2 PKCS7 padding"@),
        }
    }
}

/// What decrypting a whole Pkv2 file gives: the media bytes, or why there are none.
pub open spec fn pkv2_image(file: Seq<u8>, log_id: int) -> Result<Seq<u8>, Seq<char>> {
    if file.len() < 4 || file.take(4) != seq![0x50u8, 0x6b, 0x76, 0x32] {
        Err("not a Pkv2 file"@)
    } else {
        match payload_plaintext(file.skip(4), vstd::utf8::encode_utf8(media_key(log_id))) {
            Err(reason) => Err(reason),
            Ok(plaintext) => image_of_plaintext(plaintext),
        }
    }
}

/// The media bytes of a decrypted payload: what follows the wrapper.
pub open spec fn image_of_plaintext(plaintext: Seq<u8>) -> Result<Seq<u8>, Seq<char>> {
    if plaintext.len() < PLAINTEXT_HEADER_LEN {
        Err("invalid Pkv2 plaintext: missing media wrapper"@)
    } else {
        Ok(plaintext.skip(PLAINTEXT_HEADER_LEN as int))
    }
}

/// Whether `r` is the outcome `expected`.
pub open spec fn bytes_or_reason(
    r: Result<Vec<u8>, Error>,
    expected: Result<Seq<u8>, Seq<char>>,
) -> bool {
    match (r, expected) {
        (Ok(bytes), Ok(expected)) => bytes@ == expected,
        (Err(error), Err(reason)) => error is Kakao && error_text(error) == reason,
        _ => false,
    }
}

/// Decrypts the bytes after the magic of a Pkv2 file, giving wrapper and media bytes.
pub fn mactalk_aes_decrypt(data: &[u8], key_string: &str) -> (r: Result<Vec<u8>, Error>)
    ensures
        bytes_or_reason(r, payload_plaintext(data@, key_string.spec_bytes())),
{
    if data.len() <= IV_LEN {
        return Err(Error::Kakao(owned("invalid Pkv2 payload: missing ciphertext")));
    }
    let (iv, ciphertext) = data.split_at(IV_LEN);
    proof {
        assert(iv@ == data@.take(IV_LEN as int));
        assert(ciphertext@ == data@.skip(IV_LEN as int));
    }
    if ciphertext.len() % IV_LEN != 0 {
        return Err(
            Error::Kakao(owned("invalid Pkv2 payload: ciphertext is not block-aligned")),
        );
    }
    let key = sha256_of(key_string.as_bytes());
    match cbc_decrypt(key.as_slice(), iv, ciphertext) {
        Ok(plaintext) => Ok(plaintext),
        Err(CipherFailure::Length) => Err(Error::Kakao(owned("invalid Pkv2 AES key or IV"))),
        Err(CipherFailure::Padding) => Err(Error::Kakao(owned("invalid Pkv2 PKCS7 padding"))),
    }
}

/// Decrypts a Pkv2 file into its media bytes.
pub fn decrypt_pkv2_image(file_bytes: &[u8], log_id: i64) -> (r: Result<Vec<u8>, Error>)
    ensures
        bytes_or_reason(r, pkv2_image(file_bytes@, log_id as int)),
{
    let magic_ok = file_bytes.len() >= 4 && file_bytes[0] == 0x50 && file_bytes[1] == 0x6b
        && file_bytes[2] == 0x76 && file_bytes[3] == 0x32;
    proof {
        let magic = seq![0x50u8, 0x6b, 0x76, 0x32];
        if file_bytes@.len() >= 4 {
            let head = file_bytes@.take(4);
            assert(head[0] == file_bytes@[0] && head[1] == file_bytes@[1] && head[2]
                == file_bytes@[2] && head[3] == file_bytes@[3]);
            assert(magic[0] == 0x50 && magic[1] == 0x6b && magic[2] == 0x76 && magic[3] == 0x32);
            if magic_ok {
                assert(head =~= magic);
            }
        }
    }
    if !magic_ok {
        return Err(Error::Kakao(owned("not a Pkv2 file")));
    }
    let (magic, payload) = file_bytes.split_at(4);
    proof {
        assert(payload@ == file_bytes@.skip(4));
    }
    let key = media_key_string(log_id);
    let plaintext = match mactalk_aes_decrypt(payload, key.as_str()) {
        Ok(plaintext) => plaintext,
        Err(error) => return Err(error),
    };
    unwrap_plaintext(plaintext)
}

/// Removes the wrapper before the media bytes.
pub fn unwrap_plaintext(plaintext: Vec<u8>) -> (r: Result<Vec<u8>, Error>)
    ensures
        bytes_or_reason(r, image_of_plaintext(plaintext@)),
{
    if plaintext.len() < PLAINTEXT_HEADER_LEN {
        return Err(Error::Kakao(owned("invalid Pkv2 plaintext: missing media wrapper")));
    }
    let (header, image) = plaintext.as_slice().split_at(PLAINTEXT_HEADER_LEN);
    proof {
        assert(image@ == plaintext@.skip(PLAINTEXT_HEADER_LEN as int));
    }
    let mut bytes: Vec<u8> = Vec::new();
    bytes.extend_from_slice(image);
    proof {
        assert(bytes@ == image@);
    }
    Ok(bytes)
}

/// The key text of a message is a per cent sign, the digits of its id from the
/// last to the first, and a number sign.
pub proof fn law_the_key_is_the_id_backwards(log_id: int, i: int)
    ensures
        media_key(log_id).len() == decimal_int(log_id).len() + 2,
        media_key(log_id)[0] == '%',
        media_key(log_id)[media_key(log_id).len() - 1] == '#',
        0 <= i < decimal_int(log_id).len() ==> media_key(log_id)[decimal_int(log_id).len() - i]
            == decimal_int(log_id)[i],
{
    reveal_strlit("#");
    reveal_strlit("%");
}

/// A file that was sealed for a message opens to the media bytes that were sealed
/// in it, whole: the vector is what follows the magic, the ciphertext what follows
/// the vector, and the first 256 bytes of the plaintext are the wrapper.
pub proof fn law_a_sealed_file_opens(
    log_id: int,
    iv: Seq<u8>,
    ciphertext: Seq<u8>,
    wrapper: Seq<u8>,
    media: Seq<u8>,
)
    requires
        iv.len() == 16,
        wrapper.len() == 256,
        ciphertext.len() > 0,
        ciphertext.len() % 16 == 0,
    ensures
        cbc_plaintext(sha256(vstd::utf8::encode_utf8(media_key(log_id))), iv, ciphertext) == Some(
            wrapper + media,
        ) ==> {
            &&& payload_plaintext(iv + ciphertext, vstd::utf8::encode_utf8(media_key(log_id)))
                == Ok::<Seq<u8>, Seq<char>>(wrapper + media)
            &&& pkv2_image(seq![0x50u8, 0x6b, 0x76, 0x32] + iv + ciphertext, log_id) == Ok::<
                Seq<u8>,
                Seq<char>,
            >(media)
        },
{
    let magic = seq![0x50u8, 0x6b, 0x76, 0x32];
    let payload = iv + ciphertext;
    let file = magic + iv + ciphertext;
    assert(payload.take(16) =~= iv);
    assert(payload.skip(16) =~= ciphertext);
    assert(file.take(4) =~= magic);
    assert(file.skip(4) =~= payload);
    assert((wrapper + media).skip(256) =~= media);
}

/// What has no magic, no ciphertext, or a ciphertext that is no whole number of
/// blocks is refused without a key; so is a plaintext without a whole wrapper.
pub proof fn law_what_is_cut_short_is_refused(file: Seq<u8>, log_id: int)
    ensures
        file.len() <= 20 ==> pkv2_image(file, log_id) is Err,
        file.len() % 16 != 4 ==> pkv2_image(file, log_id) is Err,
        file.len() >= 1 && file[0] != 0x50 ==> pkv2_image(file, log_id) == Err::<
            Seq<u8>,
            Seq<char>,
        >("not a Pkv2 file"@),
        image_of_plaintext(file) is Ok <==> file.len() >= 256,
        image_of_plaintext(file) matches Ok(media) ==> file == file.take(256) + media,
{
    let magic = seq![0x50u8, 0x6b, 0x76, 0x32];
    if file.len() >= 4 {
        assert(file.take(4)[0] == file[0]);
        assert(magic[0] == 0x50);
    }
    if let Ok(media) = image_of_plaintext(file) {
        assert(file =~= file.take(256) + media);
    }
}

} // verus!
