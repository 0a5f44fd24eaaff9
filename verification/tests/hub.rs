//! A hub: its registry, its sessions, and what requests are answered.
use shellglass::diff::WireMsg;
use shellglass::hub::{rewrite_font_urls, AddError, HubState};
use shellglass::model::Frame;
use shellglass::proto::{
    api_id, api_id_ext, content_key, session_id, BlobBody, FontAsset, RegisterBody,
};
use shellglass::registry::{
    parse_allow, parse_api_allow, persist_file, restore_sessions, validate_id, validate_slug,
    AllowConfig, PersistEntry, PersistFile, RestoreError,
};
use shellglass::requests::{
    add_reply, error_body, list_body, remove_reply, view_base, view_redirect, Headers,
};

#[test]
fn only_preregistered_keys_are_allowed() {
    let st = HubState::new(
        parse_allow(&vec![session_id("good-secret")]).unwrap(),
        String::new(),
    );
    assert!(
        st.is_allowed(&session_id("good-secret")),
        "registered key allowed"
    );
    assert!(
        !st.is_allowed(&session_id("other-secret")),
        "unregistered key rejected"
    );
    // An empty allowlist rejects everything (no implicit open hub).
    let empty = HubState::new(AllowConfig::new(), String::new());
    assert!(!empty.is_allowed(&session_id("good-secret")));
}

// The management API's runtime mutations: --allow semantics as results.
#[test]
fn runtime_add_and_remove() {
    let a = session_id("a");
    let b = session_id("b");
    let mut st = HubState::new(AllowConfig::new(), String::new());

    // add: un-aliased (slug = id) and aliased
    st.add_session(&a, None).unwrap();
    st.add_session(&b, Some("beta")).unwrap();
    assert!(st.is_allowed(&a) && st.is_allowed(&b));
    assert_eq!(st.id_of_view(&a), Some(a.as_str()));
    assert_eq!(st.id_of_view("beta"), Some(b.as_str()));
    assert_eq!(st.id_of_view(&b), None, "aliased id is not a view route");

    // uniqueness rules, as results not panics
    assert_eq!(st.add_session(&a, None), Err(AddError::IdTaken));
    assert_eq!(
        st.add_session(&session_id("c"), Some("beta")),
        Err(AddError::SlugTaken)
    );
    assert!(matches!(
        st.add_session("not-hex", None),
        Err(AddError::Invalid(_))
    ));
    assert!(matches!(
        st.add_session(&session_id("c"), Some("bad slug")),
        Err(AddError::Invalid(_))
    ));

    // remove BY SLUG: resolves through the view namespace only
    assert_eq!(st.remove_by_slug("beta"), Some(b.clone()));
    assert!(!st.is_allowed(&b), "removed session may not push");
    assert_eq!(st.id_of_view("beta"), None);
    assert_eq!(st.remove_by_slug("beta"), None, "second delete: gone");

    // remove BY ID: works regardless of aliasing
    assert!(st.remove_by_id(&a));
    assert!(!st.is_allowed(&a));
    assert!(!st.remove_by_id(&a), "second delete: gone");

    // the two namespaces stay distinct: removing an ALIASED session by
    // its id-shaped SLUG string must not touch the id namespace
    let d = session_id("d");
    st.add_session(&d, Some("delta")).unwrap();
    assert_eq!(
        st.remove_by_slug(&d),
        None,
        "id is not a slug for an aliased session"
    );
    assert!(
        st.is_allowed(&d),
        "session survives the wrong-namespace call"
    );
}

// --allow seeds are "just another entry": the API deletes them exactly
// like runtime-added ones (a restart re-seeds them — the flags are the
// declarative baseline, the API the runtime layer).
#[test]
fn cli_seeded_sessions_are_api_deletable() {
    let a = session_id("a");
    let mut st = HubState::new(parse_allow(&vec![format!("{a}:alpha")]).unwrap(), String::new());
    assert!(st.live("alpha").is_some(), "seed gets its placeholder stub");
    assert_eq!(st.remove_by_slug("alpha"), Some(a.clone()));
    assert!(!st.is_allowed(&a), "seeded session removed like any other");
    assert!(st.live("alpha").is_none(), "stub gone with it");
}

#[test]
fn list_sessions_reports_registry() {
    let a = session_id("a");
    let mut st = HubState::new(AllowConfig::new(), String::new());
    st.add_session(&a, Some("alpha")).unwrap();
    let list = st.list_sessions();
    assert_eq!(list.len(), 1);
    let (id, slug, live) = &list[0];
    assert_eq!(id, &a);
    assert_eq!(slug, "alpha");
    assert!(!live, "no pusher has registered");
}

#[test]
fn parse_allow_defaults_slug_to_id_and_aliases() {
    let a = session_id("a");
    let b = session_id("b");
    let cfg = parse_allow(&vec![format!("{a}:alpha"), b.clone()]).unwrap();
    // Aliased: the slug is the view handle; the raw id is NOT viewable.
    assert_eq!(cfg.id_of_view("alpha"), Some(a.as_str()));
    assert_eq!(
        cfg.id_of_view(&a),
        None,
        "an aliased id is not a view route"
    );
    assert_eq!(cfg.slug_of(&a), Some("alpha"));
    // Un-aliased: the slug defaults to the id, so `/s/<id>` still resolves.
    assert_eq!(cfg.id_of_view(&b), Some(b.as_str()));
    assert_eq!(cfg.slug_of(&b), Some(b.as_str()));
}

#[test]
fn parse_allow_rejects_collisions() {
    let a = session_id("a");
    let b = session_id("b");
    // Duplicate session id.
    assert!(parse_allow(&vec![a.clone(), a.clone()]).is_err());
    assert!(parse_allow(&vec![format!("{a}:x"), format!("{a}:y")]).is_err());
    // Duplicate slug across two ids.
    assert!(parse_allow(&vec![format!("{a}:same"), format!("{b}:same")]).is_err());
    // One session's slug equal to another un-aliased session's id (= its slug).
    assert!(parse_allow(&vec![a.clone(), format!("{b}:{a}")]).is_err());
    // An id aliased to itself is idempotent, not a collision.
    assert!(parse_allow(&vec![format!("{a}:{a}")]).is_ok());
}

#[test]
fn parse_allow_validates_id_and_slug_shape() {
    let a = session_id("a");
    assert!(parse_allow(&vec!["not-hex".into()]).is_err(), "id not 64 hex");
    assert!(
        parse_allow(&vec![format!("{}:s", &a[..63])]).is_err(),
        "id too short"
    );
    assert!(parse_allow(&vec![format!("{a}:")]).is_err(), "empty slug");
    assert!(
        parse_allow(&vec![format!("{a}:bad/slug")]).is_err(),
        "slug has a '/'"
    );
    assert!(
        parse_allow(&vec![format!("{a}:ok.slug-1_2~3")]).is_ok(),
        "url-safe slug accepted"
    );
}

fn reg(css: &str) -> RegisterBody {
    RegisterBody {
        css: css.into(),
        font_css: String::new(),
        template: String::new(),
        render_cfg: String::new(),
        fonts: vec![],
    }
}

#[test]
fn font_url_rewrite_matches_shape_not_value() {
    // A FOREIGN 64-hex id still rewrites: the client id is a rendezvous token.
    let foreign = "ab".repeat(32);
    assert_eq!(
        rewrite_font_urls(&format!("url(/s/{foreign}/fonts/3)")),
        "url(fonts/3)"
    );
    // Multiple occurrences, all rewritten; surrounding text intact.
    let two = format!("a url(/s/{foreign}/fonts/0) b url(/s/{foreign}/fonts/1) c");
    assert_eq!(rewrite_font_urls(&two), "a url(fonts/0) b url(fonts/1) c");
    // Non-id /s/ paths and short/non-hex segments are left alone.
    for keep in [
        "url(/s/demo/fonts/0)",                          // slug, not a 64-hex id
        "url(/s/abc)",                                   // short
        &format!("url(/s/{}/other/0)", "ab".repeat(32)), // not /fonts/
    ] {
        assert_eq!(rewrite_font_urls(keep), keep, "must not rewrite {keep}");
    }
}

#[test]
fn register_creates_then_reconnect_reuses_the_live() {
    let id = session_id("secret");
    let mut st = HubState::new(parse_allow(&vec![id.clone()]).unwrap(), "http://h".into());
    // Seeding creates a STUB immediately: the view URL and its SSE stream
    // exist before any pusher, operator-offline.
    let stub = st.live(&id).expect("stub Live exists before any register");
    assert!(!stub.is_online(), "stub starts operator-offline");

    // First register (the WS's first message) adopts the stub's Live.
    let first = st.register_session(&id, "http://h", reg("a{}")).unwrap();
    assert_eq!(first, Some(format!("http://h/s/{id}/")), "the address is announced once");
    assert!(st.live(&id).unwrap().is_online(), "register brings the operator online");
    let msg = WireMsg::Banner { html: "hi".into() };
    assert_eq!(st.publish_wire(&id, &msg), Some(1));

    // A reconnect re-registers: the CSS refreshes but the same Live is reused, so
    // viewers already subscribed don't get orphaned.
    assert_eq!(st.register_session(&id, "http://h", reg("b{}")).unwrap(), None);
    assert_eq!(st.live(&id).unwrap().seq(), 1, "reconnect must reuse the session's Live");
    assert_eq!(*st.live(&id).unwrap().current(), Frame::Banner("hi".into()));
    let page = st.view_page(&id, false, "", "").unwrap();
    assert!(page.contains("b{}") && !page.contains("a{}"), "re-register refreshes the pushed CSS");
}

#[test]
fn register_rewrites_font_urls_relative() {
    let id = session_id("secret");
    let mut st =
        HubState::new(parse_allow(&vec![format!("{id}:pretty")]).unwrap(), "http://h".into());
    // The client bakes `/s/<its own id>/fonts/…`; the hub rewrites to the
    // RELATIVE `fonts/`, which the canonical `/s/<slug>/` page resolves —
    // for any slug, and behind any subpath-mounting proxy.
    let css = format!("@font-face{{src:url(/s/{id}/fonts/0)}}");
    st.register_session(&id, "http://h", reg(&css)).unwrap();
    let page = st.view_page("pretty", false, "", "").unwrap();
    assert!(
        page.contains("@font-face{src:url(fonts/0)}"),
        "font URLs rewritten to page-relative"
    );
}

fn headers(proto: &str, fwd_host: &str, prefix: &str, host: &str) -> Headers {
    let some = |s: &str| if s.is_empty() { None } else { Some(s.to_string()) };
    Headers {
        forwarded_proto: some(proto),
        forwarded_host: some(fwd_host),
        forwarded_prefix: some(prefix),
        host: some(host),
    }
}

#[test]
fn view_base_honors_forwarded_headers() {
    let cfg = "http://127.0.0.1:8080";

    // No proxy headers → configured base verbatim.
    assert_eq!(view_base(&headers("", "", "", ""), cfg), cfg);

    // Host header only (no proxy) → configured scheme + that host.
    assert_eq!(view_base(&headers("", "", "", "example.com"), cfg), "http://example.com");

    // Full XFF chain → first token of each, overriding scheme + host.
    let h = headers("https, http", "hub.example.com, internal", "", "internal:8080");
    assert_eq!(view_base(&h, cfg), "https://hub.example.com");

    // The headers ride the /push WebSocket upgrade, where a proxy reports
    // ws/wss — the view link is an HTTP(S) page, so the scheme maps over.
    let h = headers("wss", "hub.example.com", "", "");
    assert_eq!(view_base(&h, cfg), "https://hub.example.com");
    assert_eq!(view_base(&headers("ws", "", "", "example.com"), cfg), "http://example.com");

    // A subpath-mounting proxy announces its prefix: the logged link must
    // spell it out (the pages themselves are prefix-agnostic).
    let h = headers("https", "example.com", "/glass/", "");
    assert_eq!(view_base(&h, cfg), "https://example.com/glass");
}

#[test]
fn management_is_hidden_until_configured() {
    let st = HubState::new(AllowConfig::new(), String::new());
    assert_eq!(st.authorize_api(Some("Bearer whatever")), Err(404));
    assert_eq!(st.authorize_api(None), Err(404));
}

#[test]
fn management_keys_are_checked_in_their_own_domain() {
    let key = "api-secret";
    let mut st = HubState::new(AllowConfig::new(), String::new())
        .with_api_allowed(vec![api_id(key)]);
    assert_eq!(st.authorize_api(None), Err(401));
    assert_eq!(st.authorize_api(Some("Basic x")), Err(401));
    assert_eq!(st.authorize_api(Some("Bearer wrong")), Err(403));
    assert_eq!(st.authorize_api(Some("Bearer api-secret")), Ok(()));
    // A key whose session id is known is no management key.
    st.add_session(&session_id("double-duty-secret"), None).unwrap();
    assert_eq!(st.authorize_api(Some("Bearer double-duty-secret")), Err(403));
}

#[test]
fn a_salted_hub_knows_salted_ids_only() {
    let key = "api-secret";
    let st = HubState::new(AllowConfig::new(), String::new())
        .with_api_allowed(vec![api_id_ext(key, "hub-a")])
        .with_id_salt("hub-a".into());
    assert_eq!(st.authorize_api(Some("Bearer api-secret")), Ok(()));
    let st = HubState::new(AllowConfig::new(), String::new())
        .with_api_allowed(vec![api_id(key)])
        .with_id_salt("hub-a".into());
    assert_eq!(st.authorize_api(Some("Bearer api-secret")), Err(403));
}

#[test]
fn a_key_lets_its_session_push() {
    let id = session_id("pusher");
    let st = HubState::new(parse_allow(&vec![id.clone()]).unwrap(), String::new());
    assert_eq!(st.authorize(None), Err(401));
    assert_eq!(st.authorize(Some("other")), Err(403));
    assert_eq!(st.authorize(Some("pusher")), Ok(id));
}

#[test]
fn an_unregistered_session_serves_a_placeholder() {
    let sid = session_id("pusher");
    let mut st =
        HubState::new(parse_allow(&vec![format!("{sid}:demo")]).unwrap(), "http://h".into());
    assert_eq!(view_redirect("demo", Some("embed")), "demo/?embed");
    let html = st.view_page("demo", false, "", "tag").unwrap();
    assert!(html.contains("attributeFilter"), "placeholder reloads when the operator comes");
    let html = st.view_page("demo", true, "", "tag").unwrap();
    assert!(html.contains("sg-offline"), "embed template served");
    assert!(!html.contains("<nav"), "embed page has no chrome");
    assert!(html.contains("attributeFilter"));
    for frag in ["src=\"/", "href=\"/", "url(/"] {
        assert!(!html.contains(frag), "embed page leaked a root-absolute URL ({frag})");
    }
    assert!(st.view_page("nope", false, "", "tag").is_none());
    st.register_session(&sid, "http://h", reg(".pushed{}")).unwrap();
    let html = st.view_page("demo", false, "", "tag").unwrap();
    assert!(html.contains(".pushed{}"), "registered view serves pushed CSS");
    assert!(!html.contains("attributeFilter"), "no placeholder machinery on the real page");
    st.pusher_gone(&sid);
    assert!(!st.live("demo").unwrap().is_online());
}

#[test]
fn fonts_are_served_decoded() {
    let id = session_id("pusher");
    let mut st = HubState::new(parse_allow(&vec![id.clone()]).unwrap(), String::new());
    let mut body = reg("");
    body.fonts = vec![
        FontAsset { mime: "font/ttf".into(), b64: "QUJD".into() },
        FontAsset { mime: "font/otf".into(), b64: "!!".into() },
    ];
    st.register_session(&id, "", body).unwrap();
    assert_eq!(st.font(&id, "0"), Some(("font/ttf".to_string(), b"ABC".to_vec())));
    assert_eq!(st.font(&id, "1"), None, "what is no base64 is left out");
    assert_eq!(st.font("nope", "0"), None);
}

#[test]
fn requests_are_answered() {
    assert_eq!(
        add_reply(Ok(()), "i", "s"),
        (201, "{\"id\":\"i\",\"slug\":\"s\"}".to_string())
    );
    assert_eq!(add_reply(Err(AddError::IdTaken), "i", "s").0, 409);
    assert_eq!(add_reply(Err(AddError::SlugTaken), "i", "s").0, 409);
    assert_eq!(
        add_reply(Err(AddError::Invalid("bad".into())), "i", "s"),
        (400, error_body("bad"))
    );
    assert_eq!(remove_reply(true, true), (204, String::new()));
    assert_eq!(remove_reply(false, true).0, 404);
    assert_eq!(remove_reply(false, false).1, error_body("unknown slug"));
    let list = vec![("i".to_string(), "s".to_string(), false)];
    assert_eq!(list_body(&list), "[{\"id\":\"i\",\"live\":false,\"slug\":\"s\"}]");
    assert_eq!(list_body(&vec![]), "[]");
}

#[test]
fn a_registry_file_reads_back() {
    let a = session_id("a");
    let b = session_id("b");
    let mut st = HubState::new(parse_allow(&vec![format!("{a}:alpha")]).unwrap(), String::new());
    st.add_session(&b, Some("beta")).unwrap();
    st.remove_by_slug("alpha").unwrap();
    let file = persist_file(st.registry());
    let loaded = restore_sessions(&file).unwrap();
    assert_eq!(loaded.slug_of(&b), Some("beta"));
    assert_eq!(loaded.slug_of(&a), None, "deleting a seeded session sticks across a reload");
}

#[test]
fn a_bad_registry_file_is_an_error() {
    let a = session_id("a");
    let entry = |slug: &str| PersistEntry { id: a.clone(), slug: slug.into() };
    let file = PersistFile { version: 2, sessions: vec![] };
    assert!(matches!(restore_sessions(&file), Err(RestoreError::Version(2))));
    let file = PersistFile { version: 1, sessions: vec![entry("x"), entry("y")] };
    assert!(restore_sessions(&file).is_err(), "duplicate id rejected");
    let file = PersistFile { version: 1, sessions: vec![entry("bad slug")] };
    assert!(restore_sessions(&file).is_err(), "bad slug rejected");
    let file = PersistFile { version: 1, sessions: vec![] };
    assert!(restore_sessions(&file).unwrap().is_empty());
}

#[test]
fn problems_quote_what_is_wrong() {
    assert_eq!(validate_id(&session_id("a")), None);
    assert!(validate_id("no\"").unwrap().contains("\"no\\\"\""));
    assert!(validate_slug("bad slug").unwrap().contains("\"bad slug\""));
    assert_eq!(validate_slug("ok.slug-1_2~3"), None);
    let a = api_id("k");
    assert_eq!(parse_api_allow(&vec![a.clone()]).unwrap(), vec![a]);
    assert!(parse_api_allow(&vec!["nope".to_string()]).is_err());
}

#[test]
fn failures_say_what_is_wrong() {
    let a = session_id("a");
    let b = session_id("b");
    let why = |entries: Vec<String>| {
        parse_allow(&entries).err().unwrap().text("--allow", "session id")
    };
    assert_eq!(
        why(vec![a.clone(), a.clone()]),
        format!("--allow lists session id {a} more than once")
    );
    assert_eq!(
        why(vec![format!("{a}:x"), format!("{b}:x")]),
        format!("--allow slug \"x\" is claimed by two sessions ({a} and {b})")
    );
    assert!(why(vec!["no".to_string()]).starts_with("--allow entry \"no\": session id must be"));
    let file = PersistFile { version: 2, sessions: vec![] };
    assert_eq!(
        restore_sessions(&file).err().unwrap().text("/x"),
        "sessions file \"/x\" has unsupported version 2"
    );
}

#[test]
fn uploaded_images_are_served_by_content() {
    let id = session_id("pusher");
    let mut st = HubState::new(parse_allow(&vec![format!("{id}:demo")]).unwrap(), String::new());
    let blob = |m: &str, d: &str| BlobBody { m: m.into(), d: d.into() };
    st.store_image(&id, &blob("image/png", "QUJD"));
    st.store_image(&id, &blob("image/png", "QUJD"));
    st.store_image(&id, &blob("image/png", "!"));
    st.store_image("nobody", &blob("image/png", "QUJD"));
    let key = content_key("image/png", b"ABC");
    assert_eq!(st.image("demo", &key), Some(("image/png".to_string(), b"ABC".to_vec())));
    assert_eq!(st.image("demo", "0"), None);
    assert_eq!(st.image("nope", &key), None);
    assert_eq!(st.live("demo").unwrap().seq(), 0, "nothing goes to viewers");
    // A pusher that registers again finds its images.
    st.register_session(&id, "", reg("")).unwrap();
    assert!(st.image("demo", &key).is_some());
}

#[test]
fn font_rules_are_served_alone() {
    let id = session_id("pusher");
    let mut st = HubState::new(parse_allow(&vec![format!("{id}:demo")]).unwrap(), String::new());
    assert_eq!(st.style_css("demo").as_deref(), Some(""));
    st.register_session(&id, "", reg("all{}")).unwrap();
    assert_eq!(st.style_css("demo").as_deref(), Some("all{}"), "all styles, where none are alone");
    let mut body = reg("all{}");
    body.font_css = format!("@font-face{{src:url(/s/{id}/fonts/0)}}");
    st.register_session(&id, "", body).unwrap();
    assert_eq!(st.style_css("demo").as_deref(), Some("@font-face{src:url(fonts/0)}"));
    assert_eq!(st.style_css("nope"), None);
}

#[test]
fn a_page_has_another_tag_when_any_part_changes() {
    let id = session_id("pusher");
    let mut st = HubState::new(parse_allow(&vec![id.clone()]).unwrap(), String::new());
    st.register_session(&id, "", reg("a")).unwrap();
    let first = st.reload_tag(&id).unwrap();
    st.register_session(&id, "", reg("a")).unwrap();
    assert_eq!(st.reload_tag(&id).as_ref(), Some(&first), "the same again");
    st.register_session(&id, "", reg("b")).unwrap();
    let second = st.reload_tag(&id).unwrap();
    assert_ne!(second, first);
    let mut body = reg("b");
    body.template = "{{screen}}".into();
    st.register_session(&id, "", body).unwrap();
    assert_ne!(st.reload_tag(&id).unwrap(), second);
    assert_eq!(st.reload_tag("nope"), None);
}
