//! What the command line clients of a hub share.
use crate::proto::neuter;
use crate::proto::neutered;
use crate::registry::{debug_quoted, debug_text};
use crate::text::{
    chars_of, dec, dec_text, is_digit, push_bytes, string_of, strip_trailing, without_trailing,
};
use vstd::prelude::*;
use vstd::string::*;

verus! {

/// The most bytes of an answer that are read (8 MiB).
pub const MAX_BODY: usize = 8388608;

/// Whether a text is the name of a recording: digits, then `.sgs`.
pub open spec fn stream_name(s: Seq<char>) -> bool {
    let n = s.len() - 4;
    n > 0 && s.skip(n) == ".sgs"@ && forall|i: int| 0 <= i < n ==> is_digit(#[trigger] s[i])
}

/// Whether a text is the name of a recording.
pub fn valid_stream_name(name: &str) -> (r: bool)
    ensures
        r == stream_name(name@),
{
    proof {
        reveal_strlit(".sgs");
    }
    let cs = chars_of(name);
    if cs.len() <= 4 {
        return false;
    }
    let n: usize = cs.len() - 4;
    if !(cs[n] == '.' && cs[n + 1] == 's' && cs[n + 2] == 'g' && cs[n + 3] == 's') {
        proof {
            let t = name@.skip(n as int);
            assert(t[0] == cs@[n as int] && t[1] == cs@[n + 1] && t[2] == cs@[n + 2] && t[3] == cs@[n
                + 3]);
        }
        return false;
    }
    assert(name@.skip(n as int) =~= ".sgs"@);
    let mut i: usize = 0;
    while i < n
        invariant
            cs@ == name@,
            n + 4 == cs@.len(),
            i <= n,
            name@.skip(n as int) == ".sgs"@,
            forall|j: int| 0 <= j < i ==> is_digit(#[trigger] name@[j]),
        decreases n - i,
    {
        let c = cs[i];
        if !('0' <= c && c <= '9') {
            assert(!is_digit(name@[i as int]));
            return false;
        }
        i += 1;
    }
    true
}

/// What is wrong with the name of a recording.
pub open spec fn name_problem(name: Seq<char>) -> Seq<char> {
    "recording names look like <millis>.sgs, got "@ + debug_text(name) + " (see `list`)"@
}

/// The name of a recording, or what is wrong with it.
pub fn checked_name(name: &str) -> (r: Result<&str, String>)
    ensures
        r is Ok <==> stream_name(name@),
        r matches Ok(n) ==> n@ == name@,
        r matches Err(m) ==> m@ == name_problem(name@),
{
    if valid_stream_name(name) {
        Ok(name)
    } else {
        let mut m = String::from_str("recording names look like <millis>.sgs, got ");
        m.append(debug_quoted(name).as_str());
        m.append(" (see `list`)");
        Err(m)
    }
}

/// Take another piece of an answer, unless it would be too long then: whether it was taken.
pub fn take_chunk(buf: &mut Vec<u8>, chunk: &[u8]) -> (r: bool)
    ensures
        r == (old(buf)@.len() + chunk@.len() <= MAX_BODY),
        final(buf)@ == (if r {
            old(buf)@ + chunk@
        } else {
            old(buf)@
        }),
{
    if buf.len() > MAX_BODY || chunk.len() > MAX_BODY - buf.len() {
        return false;
    }
    push_bytes(buf, chunk);
    true
}

/// `s`, filled up with spaces to `n` characters.
pub open spec fn padded(s: Seq<char>, n: nat) -> Seq<char> {
    if s.len() < n {
        s + Seq::new((n - s.len()) as nat, |i: int| ' ')
    } else {
        s
    }
}

/// `s`, filled up with spaces to `n` characters.
pub fn pad(s: String, n: usize) -> (r: String)
    ensures
        r@ == padded(s@, n as nat),
{
    let len: usize = s.as_str().unicode_len();
    let mut out = s;
    let mut k: usize = len;
    assert(len < n ==> out@ =~= s@ + Seq::new(0, |i: int| ' '));
    while k < n
        invariant
            len == s@.len(),
            len <= k,
            len < n ==> k <= n && out@ == s@ + Seq::new((k - len) as nat, |i: int| ' '),
            len >= n ==> out@ == s@,
        decreases n - k,
    {
        out.push(' ');
        k += 1;
        assert(out@ =~= s@ + Seq::new((k - len) as nat, |i: int| ' '));
    }
    out
}

/// A recording in a list.
pub fn recording_line(name: &str, bytes: u64) -> (r: String)
    ensures
        r@ == padded(neutered(name@), 20) + " "@ + dec(bytes as nat),
{
    let mut r = pad(neuter(name), 20);
    r.append(" ");
    r.append(dec_text(bytes).as_str());
    r
}

/// A session in a list.
pub fn session_line(slug: &str, live: bool, id: &str) -> (r: String)
    ensures
        r@ == padded(slug@, 24) + " "@ + padded(
            if live {
                "live"@
            } else {
                "offline"@
            },
            8,
        ) + " "@ + id@,
{
    let mut r = pad(String::from_str(slug), 24);
    r.append(" ");
    let state = if live {
        String::from_str("live")
    } else {
        String::from_str("offline")
    };
    r.append(pad(state, 8).as_str());
    r.append(" ");
    r.append(id);
    r
}

/// An address on a hub.
pub fn hub_url(hub: &str, path: &str) -> (r: String)
    ensures
        r@ == without_trailing(hub@, '/') + path@,
{
    let cs = chars_of(hub);
    let mut r = string_of(strip_trailing(cs.as_slice(), '/'));
    r.append(path);
    r
}

/// What a failed management request is reported as. `status` is the status as text.
pub open spec fn api_failure(code: u16, status: Seq<char>, msg: Seq<char>) -> Seq<char> {
    if code == 404 && msg.len() == 0 {
        status + ": not found — is the hub's management API enabled (--api-allow)?"@
    } else if code == 401 {
        status + ": missing/unusable API key"@
    } else if code == 403 {
        status + ": key not authorized — is its API id on the hub's --api-allow?"@
    } else if msg.len() == 0 {
        status
    } else {
        status + ": "@ + msg
    }
}

/// What a failed management request is reported as.
pub fn api_failure_text(code: u16, status: &str, msg: &str) -> (r: String)
    ensures
        r@ == api_failure(code, status@, msg@),
{
    let mut r = String::from_str(status);
    if code == 404 && msg.is_empty() {
        r.append(": not found — is the hub's management API enabled (--api-allow)?");
    } else if code == 401 {
        r.append(": missing/unusable API key");
    } else if code == 403 {
        r.append(": key not authorized — is its API id on the hub's --api-allow?");
    } else if !msg.is_empty() {
        r.append(": ");
        r.append(msg);
    }
    r
}

/// What a failed request for recordings is reported as: the hub's own words are made safe.
pub open spec fn recording_failure(code: u16, status: Seq<char>, msg: Seq<char>) -> Seq<char> {
    let m = neutered(msg);
    if code == 401 {
        status + ": missing/unusable session key"@
    } else if code == 403 {
        status + ": key not authorized — is its session id on the hub's --allow?"@
    } else if m.len() == 0 {
        status
    } else {
        status + ": "@ + m
    }
}

/// What a failed request for recordings is reported as.
pub fn recording_failure_text(code: u16, status: &str, msg: &str) -> (r: String)
    ensures
        r@ == recording_failure(code, status@, msg@),
{
    let m = neuter(msg);
    let mut r = String::from_str(status);
    if code == 401 {
        r.append(": missing/unusable session key");
    } else if code == 403 {
        r.append(": key not authorized — is its session id on the hub's --allow?");
    } else if !m.as_str().is_empty() {
        r.append(": ");
        r.append(m.as_str());
    }
    r
}

} // verus!
