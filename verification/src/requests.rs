//! What a hub answers: addresses, statuses, texts, and the course of a push connection.
use crate::diff::{joined, json_string, push_joined, push_json_string, text_views, WireMsg};
use crate::hub::AddError;
use crate::proto::{BlobBody, RegisterBody, MAX_WS_MESSAGE};
use crate::text::{
    begins, chars_of, dec, find_char, find_in, find_text, index_of, push_dec, same_text,
    starts_with, string_of, strip_trailing, trim, trimmed, without_trailing,
};
use vstd::prelude::*;
use vstd::slice::slice_subrange;
use vstd::string::*;

verus! {

/// The headers of a request that say how a viewer reaches the hub.
pub struct Headers {
    pub forwarded_proto: Option<String>,
    pub forwarded_host: Option<String>,
    pub forwarded_prefix: Option<String>,
    pub host: Option<String>,
}

/// The text of an optional string.
pub open spec fn opt_text(s: Option<String>) -> Option<Seq<char>> {
    match s {
        Some(t) => Some(t@),
        None => None,
    }
}

/// The first of a list with commas: what the client saw.
pub open spec fn first_hop(s: Seq<char>) -> Seq<char> {
    trim(s.take(index_of(s, ',')))
}

/// The first of a header's list, where the header is there.
pub open spec fn forwarded(h: Option<Seq<char>>) -> Option<Seq<char>> {
    match h {
        Some(s) => Some(first_hop(s)),
        None => None,
    }
}

/// A text, where it is there and not empty.
pub open spec fn nonempty(s: Option<Seq<char>>) -> Option<Seq<char>> {
    match s {
        Some(t) => if t.len() > 0 {
            s
        } else {
            None
        },
        None => None,
    }
}

/// A text, or another one in its place.
pub open spec fn or_else(s: Option<Seq<char>>, d: Seq<char>) -> Seq<char> {
    match s {
        Some(t) => t,
        None => d,
    }
}

/// The scheme and the rest of an address; `http` where it names none.
pub open spec fn scheme_and_host(base: Seq<char>) -> (Seq<char>, Seq<char>) {
    let k = find_in(base, "://"@);
    if k < base.len() {
        (base.take(k), base.skip(k + 3))
    } else {
        ("http"@, base)
    }
}

/// The scheme of a page, for that of a push connection.
pub open spec fn page_scheme(s: Seq<char>) -> Seq<char> {
    if s == "wss"@ {
        "https"@
    } else if s == "ws"@ {
        "http"@
    } else {
        s
    }
}

/// The address by which viewers reach the hub: what proxies say of it, else what was
/// configured.
pub open spec fn public_base(
    proto: Option<Seq<char>>,
    fhost: Option<Seq<char>>,
    prefix: Option<Seq<char>>,
    host: Option<Seq<char>>,
    configured: Seq<char>,
) -> Seq<char> {
    let (scheme, name) = scheme_and_host(configured);
    let given = match forwarded(fhost) {
        Some(h) => Some(h),
        None => host,
    };
    let mount = match forwarded(prefix) {
        Some(p) => without_trailing(p, '/'),
        None => Seq::empty(),
    };
    page_scheme(or_else(nonempty(forwarded(proto)), scheme)) + "://"@ + or_else(nonempty(given), name)
        + mount
}

fn read_forwarded(h: &Option<String>) -> (r: Option<String>)
    ensures
        opt_text(r) == forwarded(opt_text(*h)),
{
    match h {
        Some(s) => {
            let cs = chars_of(s.as_str());
            let k = find_char(cs.as_slice(), ',');
            let head = slice_subrange(cs.as_slice(), 0, k);
            assert(head@ =~= cs@.take(k as int));
            Some(string_of(trimmed(head)))
        },
        None => None,
    }
}

fn kept(s: Option<String>) -> (r: Option<String>)
    ensures
        opt_text(r) == nonempty(opt_text(s)),
{
    match s {
        Some(t) => if t.as_str().is_empty() {
            None
        } else {
            Some(t)
        },
        None => None,
    }
}

/// The address by which viewers reach the hub.
pub fn view_base(headers: &Headers, configured: &str) -> (r: String)
    ensures
        r@ == public_base(
            opt_text(headers.forwarded_proto),
            opt_text(headers.forwarded_host),
            opt_text(headers.forwarded_prefix),
            opt_text(headers.host),
            configured@,
        ),
{
    proof {
        reveal_strlit("://");
    }
    let cs = chars_of(configured);
    let sep = chars_of("://");
    let k = find_text(cs.as_slice(), sep.as_slice());
    let (def_scheme, def_host) = if k < cs.len() {
        let a = slice_subrange(cs.as_slice(), 0, k);
        let b = slice_subrange(cs.as_slice(), k + 3, cs.len());
        assert(a@ =~= cs@.take(k as int));
        assert(b@ =~= cs@.skip(k + 3));
        (string_of(a), string_of(b))
    } else {
        (String::from_str("http"), String::from_str(configured))
    };
    let scheme = match kept(read_forwarded(&headers.forwarded_proto)) {
        Some(s) => s,
        None => def_scheme,
    };
    let given = match read_forwarded(&headers.forwarded_host) {
        Some(h) => Some(h),
        None => headers.host.clone(),
    };
    proof {
        assert(opt_text(given) == (match forwarded(opt_text(headers.forwarded_host)) {
            Some(h) => Some(h),
            None => opt_text(headers.host),
        })) by {
            if headers.forwarded_host is None {
                assert(opt_text(given) == opt_text(headers.host));
            }
        }
    }
    let host = match kept(given) {
        Some(h) => h,
        None => def_host,
    };
    let mut r = if same_text(scheme.as_str(), "wss") {
        String::from_str("https")
    } else if same_text(scheme.as_str(), "ws") {
        String::from_str("http")
    } else {
        scheme
    };
    r.append("://");
    r.append(host.as_str());
    let ghost before = r@;
    if let Some(p) = read_forwarded(&headers.forwarded_prefix) {
        let ps = chars_of(p.as_str());
        r.append(string_of(strip_trailing(ps.as_slice(), '/')).as_str());
    }
    proof {
        let mount = match forwarded(opt_text(headers.forwarded_prefix)) {
            Some(p) => without_trailing(p, '/'),
            None => Seq::empty(),
        };
        assert(r@ =~= before + mount);
    }
    r
}

/// Who sent a refused request: the first of the forwarded addresses, else the peer.
pub open spec fn client_of(forwarded_for: Option<Seq<char>>, peer: Seq<char>) -> Seq<char> {
    or_else(nonempty(forwarded(forwarded_for)), peer)
}

/// The line that is logged for a refused request.
pub open spec fn reject_text(
    code: u16,
    route: Seq<char>,
    forwarded_for: Option<Seq<char>>,
    peer: Seq<char>,
) -> Seq<char> {
    "shellglass: auth failure "@ + dec(code as nat) + " on "@ + route + " client="@ + client_of(
        forwarded_for,
        peer,
    ) + " peer="@ + peer
}

/// The line that is logged for a refused request.
pub fn reject_line(code: u16, route: &str, forwarded_for: &Option<String>, peer: &str) -> (r: String)
    ensures
        r@ == reject_text(code, route@, opt_text(*forwarded_for), peer@),
{
    let mut r = String::from_str("shellglass: auth failure ");
    push_dec(&mut r, code as u64);
    r.append(" on ");
    r.append(route);
    r.append(" client=");
    match kept(read_forwarded(forwarded_for)) {
        Some(c) => r.append(c.as_str()),
        None => r.append(peer),
    }
    r.append(" peer=");
    r.append(peer);
    r
}

/// Where a page without its trailing slash is to be found, relative to where it was asked for.
pub open spec fn redirect_to(slug: Seq<char>, query: Option<Seq<char>>) -> Seq<char> {
    match query {
        Some(q) => slug + "/"@ + "?"@ + q,
        None => slug + "/"@,
    }
}

/// Where a page without its trailing slash is to be found.
pub fn view_redirect(slug: &str, query: Option<&str>) -> (r: String)
    ensures
        r@ == redirect_to(
            slug@,
            match query {
                Some(q) => Some(q@),
                None => None,
            },
        ),
{
    let mut r = String::from_str(slug);
    r.append("/");
    if let Some(q) = query {
        r.append("?");
        r.append(q);
    }
    r
}

// ---- the management interface ----

/// An error as JSON.
pub open spec fn json_error(m: Seq<char>) -> Seq<char> {
    "{\"error\":"@ + json_string(m) + "}"@
}

/// An error as JSON.
pub fn error_body(m: &str) -> (r: String)
    ensures
        r@ == json_error(m@),
{
    let mut r = String::from_str("{\"error\":");
    push_json_string(&mut r, m);
    r.append("}");
    r
}

/// What a request to add a session is answered, by its outcome: the status and the body.
pub open spec fn add_answer(
    outcome: Result<(), crate::hub::AddFailure>,
    id: Seq<char>,
    slug: Seq<char>,
) -> (u16, Seq<char>) {
    match outcome {
        Ok(()) => (
            201,
            "{\"id\":"@ + json_string(id) + ",\"slug\":"@ + json_string(slug) + "}"@,
        ),
        Err(crate::hub::AddFailure::IdTaken) => (409, json_error("session id already registered"@)),
        Err(crate::hub::AddFailure::SlugTaken) => (409, json_error("slug already in use"@)),
        Err(crate::hub::AddFailure::Invalid(m)) => (400, json_error(m)),
    }
}

/// What a request to add a session is answered.
pub fn add_reply(outcome: Result<(), AddError>, id: &str, slug: &str) -> (r: (u16, String))
    ensures
        (r.0, r.1@) == add_answer(
            match outcome {
                Ok(()) => Ok(()),
                Err(e) => Err(e@),
            },
            id@,
            slug@,
        ),
{
    match outcome {
        Ok(()) => {
            let mut t = String::from_str("{\"id\":");
            push_json_string(&mut t, id);
            t.append(",\"slug\":");
            push_json_string(&mut t, slug);
            t.append("}");
            (201, t)
        },
        Err(AddError::IdTaken) => (409, error_body("session id already registered")),
        Err(AddError::SlugTaken) => (409, error_body("slug already in use")),
        Err(AddError::Invalid(m)) => (400, error_body(m.as_str())),
    }
}

/// What a request to remove a session is answered: 204, or 404 with what was not known.
pub open spec fn remove_answer(removed: bool, by_id: bool) -> (u16, Seq<char>) {
    if removed {
        (204, Seq::empty())
    } else if by_id {
        (404, json_error("unknown session id"@))
    } else {
        (404, json_error("unknown slug"@))
    }
}

/// What a request to remove a session is answered.
pub fn remove_reply(removed: bool, by_id: bool) -> (r: (u16, String))
    ensures
        (r.0, r.1@) == remove_answer(removed, by_id),
{
    if removed {
        (204, String::new())
    } else if by_id {
        (404, error_body("unknown session id"))
    } else {
        (404, error_body("unknown slug"))
    }
}

/// A session in a list.
pub open spec fn json_session(s: (Seq<char>, Seq<char>, bool)) -> Seq<char> {
    "{\"id\":"@ + json_string(s.0) + ",\"live\":"@ + (if s.2 {
        "true"@
    } else {
        "false"@
    }) + ",\"slug\":"@ + json_string(s.1) + "}"@
}

/// The models of listed sessions.
pub open spec fn listed(s: Seq<(String, String, bool)>) -> Seq<(Seq<char>, Seq<char>, bool)> {
    Seq::new(s.len(), |i: int| (s[i].0@, s[i].1@, s[i].2))
}

/// A list of sessions as JSON.
pub fn list_body(sessions: &Vec<(String, String, bool)>) -> (r: String)
    ensures
        r@ == "["@ + joined(
            Seq::new(sessions@.len(), |i: int| json_session(listed(sessions@)[i])),
        ) + "]"@,
{
    let ghost want = Seq::new(sessions@.len(), |i: int| json_session(listed(sessions@)[i]));
    let mut items: Vec<String> = Vec::new();
    let mut i: usize = 0;
    while i < sessions.len()
        invariant
            i <= sessions@.len(),
            want == Seq::new(sessions@.len(), |j: int| json_session(listed(sessions@)[j])),
            text_views(items@) == want.take(i as int),
        decreases sessions@.len() - i,
    {
        let mut t = String::from_str("{\"id\":");
        push_json_string(&mut t, sessions[i].0.as_str());
        t.append(",\"live\":");
        if sessions[i].2 {
            t.append("true");
        } else {
            t.append("false");
        }
        t.append(",\"slug\":");
        push_json_string(&mut t, sessions[i].1.as_str());
        t.append("}");
        let ghost was = text_views(items@);
        assert(t@ == want[i as int]);
        items.push(t);
        i += 1;
        assert(text_views(items@) =~= was.push(t@));
        assert(text_views(items@) =~= want.take(i as int));
    }
    assert(want.take(i as int) =~= want);
    let mut r = String::from_str("[");
    push_joined(&mut r, &items);
    r.append("]");
    r
}

// ---- a push connection ----

/// What happens on a push connection.
pub enum PushEvent {
    /// The hub shuts down.
    Shutdown,
    /// The session was removed.
    Removed,
    /// A message over the limit came.
    TooLong,
    /// The connection broke.
    Broken,
    /// The pusher closed it.
    Closed,
    /// The first message, where it can be read.
    Register(RegisterBody),
    /// A message that shows something, where it can be read.
    Wire(WireMsg),
    /// An uploaded image, where it can be read.
    Blob(BlobBody),
    /// A message that cannot be read.
    Unreadable,
    /// Another message.
    Other,
}

/// What is to be done.
pub enum PushAction {
    Nothing,
    /// Register the session with this message.
    Register(RegisterBody),
    /// Show what this message leads to, and pass it on.
    Publish(WireMsg),
    /// Keep this image; it goes to no viewer.
    Store(BlobBody),
    /// Close the connection, and end; the operator goes offline where `offline`.
    Close { offline: bool },
    /// Close the connection as over the limit, and end.
    CloseTooLong { offline: bool },
    /// End.
    End { offline: bool },
}

/// What an event on a push connection asks for. `registered` says whether the first message
/// has been taken. A message that cannot be read ends a connection that has not registered,
/// and is dropped on one that has; the operator of one that has registered goes offline when it
/// ends, unless its session was removed.
pub open spec fn push_next(registered: bool, e: PushEvent) -> PushAction {
    match e {
        PushEvent::Shutdown => PushAction::Close { offline: registered },
        PushEvent::Removed => if registered {
            PushAction::Close { offline: false }
        } else {
            PushAction::Nothing
        },
        PushEvent::TooLong => PushAction::CloseTooLong { offline: registered },
        PushEvent::Broken => PushAction::End { offline: registered },
        PushEvent::Closed => PushAction::End { offline: registered },
        PushEvent::Register(b) => if registered {
            PushAction::Nothing
        } else {
            PushAction::Register(b)
        },
        PushEvent::Wire(m) => if registered {
            PushAction::Publish(m)
        } else {
            PushAction::Close { offline: false }
        },
        PushEvent::Blob(b) => if registered {
            PushAction::Store(b)
        } else {
            PushAction::Close { offline: false }
        },
        PushEvent::Unreadable => if registered {
            PushAction::Nothing
        } else {
            PushAction::Close { offline: false }
        },
        PushEvent::Other => PushAction::Nothing,
    }
}

/// How a message that uploads an image begins.
pub const BLOB_PREFIX: &'static str = "{\"blob\":";

/// Whether a message uploads an image.
pub fn is_blob(text: &str) -> (r: bool)
    ensures
        r == begins(text.spec_bytes(), BLOB_PREFIX.spec_bytes()),
{
    starts_with(text.as_bytes(), BLOB_PREFIX.as_bytes())
}

/// What an event on a push connection asks for.
pub fn push_step(registered: bool, e: PushEvent) -> (r: PushAction)
    ensures
        r == push_next(registered, e),
{
    match e {
        PushEvent::Shutdown => PushAction::Close { offline: registered },
        PushEvent::Removed => if registered {
            PushAction::Close { offline: false }
        } else {
            PushAction::Nothing
        },
        PushEvent::TooLong => PushAction::CloseTooLong { offline: registered },
        PushEvent::Broken => PushAction::End { offline: registered },
        PushEvent::Closed => PushAction::End { offline: registered },
        PushEvent::Register(b) => if registered {
            PushAction::Nothing
        } else {
            PushAction::Register(b)
        },
        PushEvent::Wire(m) => if registered {
            PushAction::Publish(m)
        } else {
            PushAction::Close { offline: false }
        },
        PushEvent::Blob(b) => if registered {
            PushAction::Store(b)
        } else {
            PushAction::Close { offline: false }
        },
        PushEvent::Unreadable => if registered {
            PushAction::Nothing
        } else {
            PushAction::Close { offline: false }
        },
        PushEvent::Other => PushAction::Nothing,
    }
}

/// Why a message over the limit closes a connection.
pub fn too_long_reason() -> (r: String)
    ensures
        r@ == "message exceeds the "@ + dec((MAX_WS_MESSAGE / 1048576) as nat) + " MiB limit"@,
{
    let mut r = String::from_str("message exceeds the ");
    push_dec(&mut r, (MAX_WS_MESSAGE / 1048576) as u64);
    r.append(" MiB limit");
    r
}

} // verus!
