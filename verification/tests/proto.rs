//! Names, keys and ids.
use sha2::Digest;
use shellglass::proto::{
    api_id, api_id_ext, config_tag, content_key, neuter, serves_client, serves_protocol, session_id,
    session_id_ext, PROTOCOL_VERSION,
};

#[test]
fn id_is_deterministic_and_hides_key() {
    let key = "correct horse battery staple";
    let id = session_id(key);
    assert_eq!(id, session_id(key), "same key -> same id");
    assert_ne!(id, session_id("other"), "different key -> different id");
    assert!(!id.contains(key), "id must not leak the key");
    assert_eq!(id.len(), 64, "argon2id 32 bytes -> 64 hex chars: {id}");
    assert!(
        id.bytes()
            .all(|b| b.is_ascii_hexdigit() && !b.is_ascii_uppercase()),
        "id must be lowercase hex (no '-', CLI/URL safe): {id}"
    );
}

// The per-system salt extension: "" must be byte-identical to the
// un-extended derivation, a set
// extension must diverge in both domains, and domain separation must
// hold under the same extension.
#[test]
fn id_salt_extension_extends_both_domains() {
    let key = "correct horse battery staple";
    assert_eq!(
        session_id_ext(key, ""),
        session_id(key),
        "empty ext = stable ids"
    );
    assert_eq!(
        api_id_ext(key, ""),
        api_id(key),
        "empty ext = stable api ids"
    );
    let (s, a) = (session_id_ext(key, "hub-a"), api_id_ext(key, "hub-a"));
    assert_ne!(s, session_id(key), "ext diverges session ids");
    assert_ne!(a, api_id(key), "ext diverges api ids");
    assert_ne!(s, a, "domains stay separate under one ext");
    assert_ne!(
        s,
        session_id_ext(key, "hub-b"),
        "different systems, different ids"
    );
    assert_eq!(s.len(), 64, "same shape as un-extended ids");
}

#[test]
fn neuter_strips_control_and_bounds() {
    assert_eq!(neuter("0.21.0"), "0.21.0", "ordinary text untouched");
    // A CSI clear-screen: no escape sequence survives to the terminal.
    let out = neuter("\x1b[2J\x1b[1;1Hgotcha");
    assert!(
        !out.chars().any(char::is_control),
        "no controls survive: {out:?}"
    );
    assert_eq!(out, "[2J[1;1Hgotcha");
    assert!(
        neuter(&"x".repeat(10_000)).chars().count() <= 256,
        "bounded so a giant string can't flood the screen"
    );
}

// Domain separation: the same secret yields UNRELATED ids in the session
// and API domains — a leaked session key is not an API credential and
// vice versa.
#[test]
fn api_domain_is_separate() {
    let key = "correct horse battery staple";
    let api = api_id(key);
    assert_eq!(api, api_id(key), "same key -> same api id");
    assert_ne!(api, session_id(key), "domains must not collide");
    assert_eq!(api.len(), 64);
    assert!(
        api.bytes()
            .all(|b| b.is_ascii_hexdigit() && !b.is_ascii_uppercase()),
        "api id must be lowercase hex: {api}"
    );
}

#[test]
fn content_keys_are_hashes_of_type_and_bytes() {
    let k = content_key("font/ttf", b"abc");
    assert_eq!(k.len(), 64);
    assert_eq!(k, content_key("font/ttf", b"abc"));
    assert_ne!(k, content_key("font/otf", b"abc"));
    assert_ne!(k, content_key("font/ttf", b"abd"));
    assert!(k.bytes().all(|b| b.is_ascii_hexdigit() && !b.is_ascii_uppercase()));
}

#[test]
fn parts_are_told_apart() {
    assert_ne!(config_tag(&["ab", "c"]), config_tag(&["a", "bc"]));
    assert_ne!(config_tag(&["a"]), config_tag(&["a", ""]));
    assert_ne!(config_tag(&["a\0b"]), config_tag(&["a", "b"]));
    assert_ne!(config_tag(&[]), config_tag(&[""]));
    assert_ne!(config_tag(&["a\0b", "c"]), config_tag(&["a", "b\0c"]));
    assert_eq!(config_tag(&["a", "b"]), config_tag(&["a", "b"]));
}

#[test]
fn parts_are_joined_with_a_zero_byte() {
    assert_eq!(
        config_tag(&["css", "", "tpl"]),
        content_key("shellglass/reload-config/v1", b"css\0\0tpl")
    );
}

#[test]
fn a_hash_is_the_known_one() {
    let mut h = sha2::Sha256::new();
    h.update(b"font/ttf");
    h.update([0u8]);
    h.update(b"abc");
    let want: String = h.finalize().iter().map(|b| format!("{b:02x}")).collect();
    assert_eq!(content_key("font/ttf", b"abc"), want);
}

#[test]
fn protocols_in_range_are_served() {
    assert!(serves_protocol(PROTOCOL_VERSION));
    assert!(!serves_protocol(0));
    assert!(!serves_protocol(PROTOCOL_VERSION + 1));
}

#[test]
fn clients_say_which_protocol_they_speak() {
    assert!(serves_client(None), "one that does not say speaks the first");
    assert!(serves_client(Some("1")));
    assert!(!serves_client(Some("0")));
    assert!(!serves_client(Some("2")));
    assert!(!serves_client(Some("one")));
    assert!(!serves_client(Some("4294967297")));
}
