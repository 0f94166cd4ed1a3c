use crate::json::JVal;
use crate::json::jget;
use crate::json::jget_i64;
use crate::json::jget_str;
use crate::json::json_of;
use crate::json::parse_json;
use crate::json::spec_get_i64;
use crate::json::spec_get_str;
use crate::json::spec_obj;
use crate::json::jas_obj;
use crate::cache::opt_field;
use crate::models::Credentials;
use crate::models::OAuthToken;
use base64::Engine;
use cbc::cipher::BlockModeDecrypt;
use cbc::cipher::KeyIvInit;
use cbc::cipher::block_padding::Pkcs7;
use vstd::prelude::*;
use vstd::string::StrSliceExecFns;
use vstd::string::StringSliceAdditionalSpecFns;
use vstd::utf8::decode_utf8;
use vstd::utf8::encode_utf8;
use vstd::utf8::valid_utf8;

verus! {

/// What decoding a text from the standard base64 alphabet yields, or
/// nothing where the text is no base64: a pure function of the text.
pub uninterp spec fn base64_decoded(s: Seq<char>) -> Option<Seq<u8>>;

/// Relies on base64: the decode method of the standard-alphabet engine
/// reads padded base64, a pure function of the text, named
/// `base64_decoded`.
#[verifier::external_body]
fn b64_decode(s: &str) -> (r: Option<Vec<u8>>)
    ensures
        match r {
            Some(b) => base64_decoded(s@) == Some(b@),
            None => base64_decoded(s@) is None,
        },
{
    base64::engine::general_purpose::STANDARD.decode(s).ok()
}

/// The key the password-based derivation yields for these inputs: a pure
/// function of password, salt, rounds and length.
pub uninterp spec fn pbkdf2_sha1_key(
    password: Seq<u8>,
    salt: Seq<u8>,
    rounds: u32,
    out_len: usize,
) -> Seq<u8>;

/// Relies on pbkdf2::pbkdf2_hmac with sha1::Sha1: fills the output with
/// the derived key, a pure function of the arguments, named
/// `pbkdf2_sha1_key`.
#[verifier::external_body]
fn pbkdf2_sha1(password: &[u8], salt: &[u8], rounds: u32, out_len: usize) -> (r: Vec<u8>)
    ensures
        r@ == pbkdf2_sha1_key(password@, salt@, rounds, out_len),
        r@.len() == out_len,
{
    let mut buf = vec![0u8; out_len];
    pbkdf2::pbkdf2_hmac::<sha1::Sha1>(password, salt, rounds, &mut buf);
    buf
}

/// What decrypting a buffer under AES-128 in CBC mode and removing the
/// block padding yields, or nothing where the buffer's length or padding
/// is wrong: a pure function of key, initialization vector and buffer.
pub uninterp spec fn aes128_cbc_plain(key: Seq<u8>, iv: Seq<u8>, data: Seq<u8>) -> Option<Seq<u8>>;

/// Relies on cbc::Decryptor over aes::Aes128: new_from_slices accepts
/// the 16-byte key and vector, and decrypt_padded_vec unpads with Pkcs7,
/// failing exactly on a wrong length or padding; the outcome is a pure
/// function of the arguments, named `aes128_cbc_plain`.
#[verifier::external_body]
fn aes128_cbc_decrypt(key: &[u8], iv: &[u8], data: &[u8]) -> (r: Option<Vec<u8>>)
    requires
        key@.len() == 16,
        iv@.len() == 16,
    ensures
        match r {
            Some(p) => aes128_cbc_plain(key@, iv@, data@) == Some(p@),
            None => aes128_cbc_plain(key@, iv@, data@) is None,
        },
{
    let dec = match cbc::Decryptor::<aes::Aes128>::new_from_slices(key, iv) {
        Ok(d) => d,
        Err(_) => return None,
    };
    dec.decrypt_padded_vec::<Pkcs7>(data).ok()
}

/// Relies on String::from_utf8: succeeds exactly on well-formed UTF-8
/// and yields the characters those bytes encode.
#[verifier::external_body]
fn utf8_string(b: Vec<u8>) -> (r: Option<String>)
    ensures
        match r {
            Some(s) => valid_utf8(b@) && s@ == decode_utf8(b@),
            None => !valid_utf8(b@),
        },
{
    String::from_utf8(b).ok()
}

/// The pepper-free vector the scheme fixes: sixteen space bytes.
pub open spec fn spec_space_iv() -> Seq<u8> {
    Seq::new(16, |i: int| 32u8)
}

/// The bytes the scheme encrypts under: derived from the password with
/// the fixed salt and round count, sixteen bytes long.
pub open spec fn spec_v10_key(pw: Seq<char>) -> Seq<u8> {
    pbkdf2_sha1_key(encode_utf8(pw), encode_utf8("saltysalt"@), 1003, 16)
}

/// The plaintext a versioned ciphertext hides: the base64 payload after
/// the three version-prefix bytes, decrypted and unpadded; nothing where
/// the text is no base64, lacks the prefix, or fails to decrypt.
pub open spec fn spec_v10_plain(ct: Seq<char>, pw: Seq<char>) -> Option<Seq<u8>> {
    match base64_decoded(ct) {
        None => None,
        Some(enc) => if enc.len() < 4 || enc[0] != 118 || enc[1] != 49 || enc[2] != 48 {
            None
        } else {
            aes128_cbc_plain(spec_v10_key(pw), spec_space_iv(), enc.skip(3))
        },
    }
}

/// Unwraps the versioned, password-encrypted token cache: base64, a
/// three-byte version prefix, AES-128-CBC under a key derived from the
/// password, and UTF-8. Each failing stage yields its own error text.
pub fn decrypt_chromium_v10(ciphertext_b64: &str, password: &str) -> (r: Result<String, String>)
    ensures
        match r {
            Ok(s) => spec_v10_plain(ciphertext_b64@, password@) matches Some(p) && valid_utf8(p)
                && s@ == decode_utf8(p),
            Err(m) => match base64_decoded(ciphertext_b64@) {
                None => m@ == "Failed to decode OAuth token cache payload"@,
                Some(enc) => if enc.len() < 4 || enc[0] != 118 || enc[1] != 49 || enc[2] != 48 {
                    m@ == "Unsupported OAuth token cache format (expected v10)"@
                } else {
                    match spec_v10_plain(ciphertext_b64@, password@) {
                        None => m@ == "Failed to decrypt OAuth token cache"@,
                        Some(p) => !valid_utf8(p) && m@
                            == "Decrypted OAuth token cache is not valid UTF-8"@,
                    }
                },
            },
        },
{
    let encrypted = match b64_decode(ciphertext_b64) {
        Some(b) => b,
        None => {
            return Err("Failed to decode OAuth token cache payload".to_owned());
        },
    };
    // the version prefix is the three bytes of "v10"
    if encrypted.len() < 4 || encrypted[0] != 118 || encrypted[1] != 49 || encrypted[2] != 48 {
        return Err("Unsupported OAuth token cache format (expected v10)".to_owned());
    }
    let salt = "saltysalt";
    let key = pbkdf2_sha1(password.as_bytes(), salt.as_bytes(), 1003, 16);
    let mut iv: Vec<u8> = Vec::new();
    let mut i: usize = 0;
    while i < 16
        invariant
            0 <= i <= 16,
            iv@.len() == i,
            forall|k: int| 0 <= k < i ==> iv@[k] == 32u8,
        decreases 16 - i,
    {
        iv.push(32);
        i += 1;
    }
    proof {
        assert(iv@ =~= spec_space_iv());
        assert(key@ == spec_v10_key(password@));
    }
    let payload = vstd::slice::slice_subrange(encrypted.as_slice(), 3, encrypted.len());
    let decrypted = match aes128_cbc_decrypt(key.as_slice(), iv.as_slice(), payload) {
        Some(p) => p,
        None => {
            return Err("Failed to decrypt OAuth token cache".to_owned());
        },
    };
    proof {
        assert(payload@ == base64_decoded(ciphertext_b64@)->0.skip(3));
        assert(spec_v10_plain(ciphertext_b64@, password@) == Some(decrypted@));
    }
    match utf8_string(decrypted) {
        Some(s) => Ok(s),
        None => Err("Decrypted OAuth token cache is not valid UTF-8".to_owned()),
    }
}

/// Whether a parsed credentials document is readable: the token object,
/// where there is one, carries its text and its expiry.
pub open spec fn creds_json_ok(v: JVal) -> bool {
    match opt_field(v, "claudeAiOauth"@) {
        Some(o) => spec_get_str(o, "accessToken"@) is Some && spec_get_i64(o, "expiresAt"@)
            is Some,
        None => true,
    }
}

/// The credentials a readable document holds.
pub open spec fn creds_repr(c: Credentials, v: JVal) -> bool {
    match opt_field(v, "claudeAiOauth"@) {
        Some(o) => c.claude_ai_oauth matches Some(t) && spec_get_str(o, "accessToken"@) == Some(
            t.access_token@,
        ) && spec_get_i64(o, "expiresAt"@) == Some(t.expires_at),
        None => c.claude_ai_oauth is None,
    }
}

/// Reads a credentials document, as `creds_repr` describes.
pub fn parse_credentials(v: &JVal) -> (r: Option<Credentials>)
    ensures
        match r {
            Some(c) => creds_json_ok(*v) && creds_repr(c, *v),
            None => !creds_json_ok(*v),
        },
{
    match jget(v, "claudeAiOauth") {
        Some(o) => match o {
            JVal::Null => Some(Credentials { claude_ai_oauth: None }),
            _ => {
                let access_token = match jget_str(o, "accessToken") {
                    Some(t) => t.clone(),
                    None => {
                        return None;
                    },
                };
                let expires_at = match jget_i64(o, "expiresAt") {
                    Some(e) => e,
                    None => {
                        return None;
                    },
                };
                Some(
                    Credentials {
                        claude_ai_oauth: Some(OAuthToken { access_token, expires_at }),
                    },
                )
            },
        },
        None => Some(Credentials { claude_ai_oauth: None }),
    }
}

/// The access token a credentials text yields, or which failure: the
/// text must parse, read as credentials, and hold a token object.
pub open spec fn token_of_creds(data: Seq<char>) -> Result<Seq<char>, int> {
    match json_of(data) {
        None => Err(0),
        Some(v) => if !creds_json_ok(v) {
            Err(0)
        } else {
            match opt_field(v, "claudeAiOauth"@) {
                Some(o) => Ok(spec_get_str(o, "accessToken"@)->0),
                None => Err(1),
            }
        },
    }
}

/// Reads the stored credentials text and hands out its access token:
/// an unreadable text is a parse failure, a readable one without a
/// token object reports the token's absence.
pub fn get_legacy_oauth_token(creds_data: &str) -> (r: Result<String, String>)
    ensures
        match r {
            Ok(t) => token_of_creds(creds_data@) == Ok::<Seq<char>, int>(t@),
            Err(m) => match token_of_creds(creds_data@) {
                Ok(_) => false,
                Err(c) => (c == 0 ==> m@ == "Failed to parse credentials"@) && (c == 1 ==> m@
                    == "No OAuth token found in credentials"@),
            },
        },
{
    let v = match parse_json(creds_data) {
        Some(v) => v,
        None => {
            return Err("Failed to parse credentials".to_owned());
        },
    };
    let creds = match parse_credentials(&v) {
        Some(c) => c,
        None => {
            return Err("Failed to parse credentials".to_owned());
        },
    };
    match creds.claude_ai_oauth {
        Some(tok) => Ok(tok.access_token),
        None => Err("No OAuth token found in credentials".to_owned()),
    }
}

/// Hands out the access token of the stored credentials text, as
/// `token_of_creds` describes. The platform's secret store is read by
/// the caller; this reads only its content.
pub fn get_oauth_token(creds_data: &str) -> (r: Result<String, String>)
    ensures
        match r {
            Ok(t) => token_of_creds(creds_data@) == Ok::<Seq<char>, int>(t@),
            Err(m) => token_of_creds(creds_data@) is Err,
        },
{
    get_legacy_oauth_token(creds_data)
}

/// Reads the keychain credentials text, with its own error texts.
pub fn get_macos_claude_code_oauth_token(keychain_json: &str) -> (r: Result<String, String>)
    ensures
        match r {
            Ok(t) => token_of_creds(keychain_json@) == Ok::<Seq<char>, int>(t@),
            Err(m) => token_of_creds(keychain_json@) is Err,
        },
{
    let v = match parse_json(keychain_json) {
        Some(v) => v,
        None => {
            return Err("Failed to parse keychain credentials JSON".to_owned());
        },
    };
    let creds = match parse_credentials(&v) {
        Some(c) => c,
        None => {
            return Err("Failed to parse keychain credentials JSON".to_owned());
        },
    };
    match creds.claude_ai_oauth {
        Some(tok) => Ok(tok.access_token),
        None => Err("claudeAiOauth missing from keychain credentials".to_owned()),
    }
}

/// Applies one cache entry to the newest-token choice: an entry without
/// a token text changes nothing; a later expiry wins strictly, so the
/// first of equal expiries is kept.
pub open spec fn step_token(
    acc: Option<(i64, Seq<char>)>,
    e: (String, JVal),
) -> Option<(i64, Seq<char>)> {
    match spec_get_str(e.1, "token"@) {
        None => acc,
        Some(tok) => {
            let exp = match spec_get_i64(e.1, "expiresAt"@) {
                Some(x) => x,
                None => i64::MIN,
            };
            match acc {
                None => Some((exp, tok)),
                Some((b, t)) => if exp > b {
                    Some((exp, tok))
                } else {
                    Some((b, t))
                },
            }
        },
    }
}

/// The newest token among the cache's entries, in entry order.
pub open spec fn select_token(
    entries: Seq<(String, JVal)>,
    acc: Option<(i64, Seq<char>)>,
) -> Option<(i64, Seq<char>)>
    decreases entries.len(),
{
    if entries.len() == 0 {
        acc
    } else {
        select_token(entries.drop_first(), step_token(acc, entries[0]))
    }
}

/// Picks the token with the latest expiry out of a decrypted token
/// cache, as `select_token` describes.
fn pick_newest_token(entries: &Vec<(String, JVal)>) -> (r: Option<String>)
    ensures
        match r {
            Some(t) => select_token(entries@, None) matches Some((e, tok)) && tok == t@,
            None => select_token(entries@, None) is None,
        },
{
    let mut acc_exp: i64 = 0;
    let mut acc_tok: Option<String> = None;
    proof {
        assert(entries@.skip(0) =~= entries@);
    }
    let mut i: usize = 0;
    while i < entries.len()
        invariant
            0 <= i <= entries@.len(),
            match acc_tok {
                None => select_token(entries@, None) == select_token(
                    entries@.skip(i as int),
                    None,
                ),
                Some(t) => select_token(entries@, None) == select_token(
                    entries@.skip(i as int),
                    Some((acc_exp, t@)),
                ),
            },
        decreases entries@.len() - i,
    {
        proof {
            assert(entries@.skip(i as int).drop_first() =~= entries@.skip(i + 1));
            assert(entries@.skip(i as int)[0] == entries@[i as int]);
        }
        match jget_str(&entries[i].1, "token") {
            Some(tok) => {
                let exp = match jget_i64(&entries[i].1, "expiresAt") {
                    Some(x) => x,
                    None => i64::MIN,
                };
                match &acc_tok {
                    None => {
                        acc_exp = exp;
                        acc_tok = Some(tok.clone());
                    },
                    Some(_) => {
                        if exp > acc_exp {
                            acc_exp = exp;
                            acc_tok = Some(tok.clone());
                        }
                    },
                }
            },
            None => {},
        }
        i += 1;
    }
    acc_tok
}

/// What the desktop token-cache path yields from the configuration text
/// and the secret: the cache named by the configuration, decrypted and
/// parsed, and its newest token.
pub open spec fn desktop_token(config: Seq<char>, secret: Seq<char>) -> Option<Seq<char>> {
    match json_of(config) {
        None => None,
        Some(cv) => match spec_get_str(cv, "oauth:tokenCache"@) {
            None => None,
            Some(ct) => match spec_v10_plain(ct, secret) {
                None => None,
                Some(p) => if !valid_utf8(p) {
                    None
                } else {
                    match json_of(decode_utf8(p)) {
                        None => None,
                        Some(tc) => match spec_obj(tc) {
                            None => None,
                            Some(entries) => match select_token(entries, None) {
                                Some((e, tok)) => Some(tok),
                                None => None,
                            },
                        },
                    }
                },
            },
        },
    }
}

/// Unwraps the desktop token cache: the configuration names the
/// encrypted cache, the secret decrypts it, and the newest token of the
/// decrypted cache is handed out, as `desktop_token` describes.
pub fn get_macos_desktop_oauth_token(config_json: &str, secret: &str) -> (r: Result<
    String,
    String,
>)
    ensures
        match r {
            Ok(t) => desktop_token(config_json@, secret@) == Some(t@),
            Err(m) => desktop_token(config_json@, secret@) is None,
        },
{
    let cv = match parse_json(config_json) {
        Some(v) => v,
        None => {
            return Err("Failed to parse config.json".to_owned());
        },
    };
    let token_cache_encrypted = match jget_str(&cv, "oauth:tokenCache") {
        Some(t) => t,
        None => {
            return Err("oauth:tokenCache not found in config.json".to_owned());
        },
    };
    let decrypted = match decrypt_chromium_v10(token_cache_encrypted.as_str(), secret) {
        Ok(d) => d,
        Err(e) => {
            return Err(e);
        },
    };
    let tc = match parse_json(decrypted.as_str()) {
        Some(v) => v,
        None => {
            return Err("Failed to parse decrypted OAuth token cache".to_owned());
        },
    };
    let entries = match jas_obj(&tc) {
        Some(o) => o,
        None => {
            return Err("No OAuth token found in decrypted token cache".to_owned());
        },
    };
    match pick_newest_token(entries) {
        Some(t) => Ok(t),
        None => Err("No OAuth token found in decrypted token cache".to_owned()),
    }
}

/// The token acquisition order on the desktop platform: the keychain
/// credentials first, else the desktop token cache, where its two texts
/// are at hand. The secret store itself is read by the caller; this
/// decides and extracts from its contents alone.
pub fn get_macos_oauth_token(
    keychain_json: Option<&String>,
    config_json: Option<&String>,
    secret: Option<&String>,
) -> (r: Result<String, String>)
    ensures
        match r {
            Ok(t) => (match keychain_json {
                Some(k) => token_of_creds(k@) == Ok::<Seq<char>, int>(t@) || (token_of_creds(k@)
                    is Err && fallback_token(config_json, secret) == Some(t@)),
                None => fallback_token(config_json, secret) == Some(t@),
            }),
            Err(m) => (match keychain_json {
                Some(k) => token_of_creds(k@) is Err,
                None => true,
            }) && fallback_token(config_json, secret) is None,
        },
{
    match keychain_json {
        Some(k) => {
            match get_macos_claude_code_oauth_token(k.as_str()) {
                Ok(t) => {
                    return Ok(t);
                },
                Err(_) => {},
            }
        },
        None => {},
    }
    match (config_json, secret) {
        (Some(c), Some(s)) => get_macos_desktop_oauth_token(c.as_str(), s.as_str()),
        _ => Err("oauth:tokenCache not found in config.json".to_owned()),
    }
}

/// What the fallback path yields where its inputs are at hand.
pub open spec fn fallback_token(
    config_json: Option<&String>,
    secret: Option<&String>,
) -> Option<Seq<char>> {
    match (config_json, secret) {
        (Some(c), Some(s)) => desktop_token(c@, s@),
        _ => None,
    }
}

} // verus!
