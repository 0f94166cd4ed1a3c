use base64::Engine;
use brew_status::creds::decrypt_chromium_v10;
use brew_status::creds::get_macos_oauth_token;
use brew_status::creds::get_oauth_token;
use brew_status::event::EventKind;
use brew_status::event::parse_line;
use brew_status::history::get_history;
use brew_status::json::JVal;
use brew_status::json::parse_json;
use brew_status::json::render_json;
use cbc::cipher::BlockModeEncrypt;
use cbc::cipher::KeyIvInit;
use cbc::cipher::block_padding::Pkcs7;

const T0900: &str = "2025-03-10T09:00:00+00:00";

#[test]
fn parse_line_reads_a_user_turn() {
    let line = format!(r#"{{"type":"user","uuid":"u1","timestamp":"{T0900}","sessionId":"S"}}"#);
    let e = parse_line("fallback", 0, &line).unwrap();
    assert_eq!(e.kind, EventKind::User);
    assert_eq!(e.id, "u1");
    assert_eq!(e.session_id, "S");
    assert_eq!(e.ms, 1741597200000);
}

#[test]
fn parse_line_builds_synthetic_identities() {
    let line = format!(r#"{{"type":"user","timestamp":"{T0900}"}}"#);
    let e = parse_line("S", 7, &line).unwrap();
    assert_eq!(e.id, "S:7:user");
    let line = format!(r#"{{"type":"assistant","timestamp":"{T0900}"}}"#);
    let e = parse_line("S", 3, &line).unwrap();
    assert_eq!(e.id, "S:3:assistant");
}

#[test]
fn parse_line_identity_prefers_message_id_then_uuid() {
    let line = format!(
        r#"{{"type":"assistant","uuid":"u1","timestamp":"{T0900}","message":{{"id":"m1"}}}}"#
    );
    assert_eq!(parse_line("S", 0, &line).unwrap().id, "m1");
    let line = format!(r#"{{"type":"assistant","uuid":"u1","timestamp":"{T0900}"}}"#);
    assert_eq!(parse_line("S", 0, &line).unwrap().id, "u1");
}

#[test]
fn parse_line_skips_what_it_cannot_read() {
    assert!(parse_line("S", 0, "{broken").is_none());
    assert!(parse_line("S", 0, r#"{"type":"user","uuid":"u"}"#).is_none());
    assert!(parse_line("S", 0, &format!(r#"{{"type":"other","timestamp":"{T0900}"}}"#)).is_none());
    assert!(parse_line("S", 0, r#"{"type":"user","timestamp":"yesterday"}"#).is_none());
}

#[test]
fn parse_line_collects_tool_identities() {
    let line = format!(
        r#"{{"type":"assistant","timestamp":"{T0900}","message":{{"id":"m","content":[{{"type":"tool_use","id":"t1"}},{{"type":"text"}},{{"type":"tool_use","name":"anon"}}]}}}}"#
    );
    let e = parse_line("S", 0, &line).unwrap();
    assert_eq!(e.tool_uses.len(), 2);
    assert_eq!(e.tool_uses[0], "id:t1");
    assert!(e.tool_uses[1].starts_with("anon:"));
}

#[test]
fn rendering_is_canonical_and_self_delimiting() {
    let v = parse_json(r#"{"b":[1,true,null],"a":"x"}"#).unwrap();
    // object keys arrive sorted from the parser; tokens carry lengths
    assert_eq!(render_json(&v), "{s1:a:s1:x,s1:b:[d1:1,t,n,],}");
    let w = parse_json(r#""x,y""#).unwrap();
    assert_eq!(render_json(&w), "s3:x,y");
}

#[test]
fn parse_json_reads_numbers_both_ways() {
    match parse_json("-5").unwrap() {
        JVal::Num { u, i, .. } => {
            assert_eq!(u, None);
            assert_eq!(i, Some(-5));
        },
        _ => panic!("expected a number"),
    }
    match parse_json("7").unwrap() {
        JVal::Num { u, i, .. } => {
            assert_eq!(u, Some(7));
            assert_eq!(i, Some(7));
        },
        _ => panic!("expected a number"),
    }
}

#[test]
fn history_is_newest_first_ties_in_file_order_and_limited() {
    let lines: Vec<String> = vec![
        format!(r#"{{"display":"a","timestamp":100}}"#),
        format!(r#"{{"display":"b","timestamp":300,"project":"p"}}"#),
        "broken".to_string(),
        format!(r#"{{"display":"c","timestamp":300,"sessionId":"s"}}"#),
        format!(r#"{{"display":"d","timestamp":200}}"#),
    ];
    let all = get_history(&lines, 10);
    let names: Vec<&str> = all.iter().map(|e| e.display.as_str()).collect();
    assert_eq!(names, vec!["b", "c", "d", "a"]);
    assert_eq!(all[0].project.as_deref(), Some("p"));
    assert_eq!(all[1].session_id.as_deref(), Some("s"));
    let two = get_history(&lines, 2);
    let names: Vec<&str> = two.iter().map(|e| e.display.as_str()).collect();
    assert_eq!(names, vec!["b", "c"]);
}

fn encrypt_v10(plain: &[u8], password: &str) -> String {
    let mut key = [0u8; 16];
    pbkdf2::pbkdf2_hmac::<sha1::Sha1>(password.as_bytes(), b"saltysalt", 1003, &mut key);
    let iv = [b' '; 16];
    let enc = cbc::Encryptor::<aes::Aes128>::new_from_slices(&key, &iv)
        .unwrap()
        .encrypt_padded_vec::<Pkcs7>(plain);
    let mut blob = b"v10".to_vec();
    blob.extend_from_slice(&enc);
    base64::engine::general_purpose::STANDARD.encode(blob)
}

#[test]
fn decrypting_the_token_cache_undoes_encryption() {
    let ct = encrypt_v10(br#"{"k":{"token":"tk","expiresAt":5}}"#, "pw");
    let plain = decrypt_chromium_v10(&ct, "pw").unwrap();
    assert_eq!(plain, r#"{"k":{"token":"tk","expiresAt":5}}"#);
}

#[test]
fn decrypt_reports_each_failing_stage() {
    assert_eq!(
        decrypt_chromium_v10("!!!", "pw").unwrap_err(),
        "Failed to decode OAuth token cache payload"
    );
    let no_prefix = base64::engine::general_purpose::STANDARD.encode(b"xyz-without-prefix");
    assert_eq!(
        decrypt_chromium_v10(&no_prefix, "pw").unwrap_err(),
        "Unsupported OAuth token cache format (expected v10)"
    );
    let ct = encrypt_v10(b"whatever", "pw");
    assert_eq!(
        decrypt_chromium_v10(&ct, "wrong password").unwrap_err(),
        "Failed to decrypt OAuth token cache"
    );
}

#[test]
fn stored_credentials_yield_their_access_token() {
    let data = r#"{"claudeAiOauth":{"accessToken":"SECRET-REDACTED","expiresAt":99}}"#;
    assert_eq!(get_oauth_token(data).unwrap(), "SECRET-REDACTED");
    assert_eq!(
        get_oauth_token(r#"{"somethingElse":1}"#).unwrap_err(),
        "No OAuth token found in credentials"
    );
    assert_eq!(
        get_oauth_token("not json").unwrap_err(),
        "Failed to parse credentials"
    );
    assert_eq!(
        get_oauth_token(r#"{"claudeAiOauth":{"expiresAt":99}}"#).unwrap_err(),
        "Failed to parse credentials"
    );
}

#[test]
fn desktop_fallback_picks_the_latest_expiry() {
    let cache = r#"{"a":{"token":"old","expiresAt":10},"b":{"token":"new","expiresAt":20},"c":{"noToken":true}}"#;
    let ct = encrypt_v10(cache.as_bytes(), "pw");
    let config = format!(r#"{{"oauth:tokenCache":"{ct}"}}"#);
    let config_s = config.to_string();
    let secret = "pw".to_string();
    // without keychain credentials the desktop cache decides
    let tok = get_macos_oauth_token(None, Some(&config_s), Some(&secret)).unwrap();
    assert_eq!(tok, "new");
    // readable keychain credentials win over the desktop cache
    let kc = r#"{"claudeAiOauth":{"accessToken":"kc-token","expiresAt":1}}"#.to_string();
    let tok = get_macos_oauth_token(Some(&kc), Some(&config_s), Some(&secret)).unwrap();
    assert_eq!(tok, "kc-token");
    // an unreadable keychain text falls back
    let bad = "nope".to_string();
    let tok = get_macos_oauth_token(Some(&bad), Some(&config_s), Some(&secret)).unwrap();
    assert_eq!(tok, "new");
    // nothing at hand is an error
    assert!(get_macos_oauth_token(None, None, None).is_err());
}
