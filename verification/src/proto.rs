//! What a pusher and a hub agree on: ids, content keys, and the register message.
//!
//! A secret key is the right to push. Its session id, a one-way and memory-hard hash, is
//! the right to be shown: the key cannot be had from it. A management key is hashed in a
//! domain of its own, so that no key of one kind stands for one of the other.
use crate::text::{
    chars_of, copy_bytes, dec, hex_of, hex_text, index_of, law_decimal_reads_back, lemma_dec_digits,
    lemma_index_of_is, parse_unsigned, push_bytes, push_dec, unsigned,
};
use vstd::prelude::*;
use vstd::string::*;
use vstd::utf8::{encode_utf8, is_ascii_chars};

verus! {

/// A font that a pusher uploads: its MIME type and its file in base64.
pub struct FontAsset {
    pub mime: String,
    pub b64: String,
}

/// The first message of a pusher.
pub struct RegisterBody {
    pub css: String,
    /// The `@font-face` rules alone.
    pub font_css: String,
    /// The page's template; the built-in one where it is empty.
    pub template: String,
    /// What the page's script is configured with, as JSON.
    pub render_cfg: String,
    pub fonts: Vec<FontAsset>,
}

/// An image that a pusher uploads before the first frame that shows it.
pub struct BlobMsg {
    pub blob: BlobBody,
}

/// The MIME type and the file in base64 of an uploaded image.
pub struct BlobBody {
    pub m: String,
    pub d: String,
}

/// The header that carries the key.
pub const KEY_HEADER: &'static str = "x-shellglass-key";

/// The domain of session ids.
pub const SALT: &'static str = "shellglass/session-id/v6";

/// The domain of management ids.
pub const API_SALT: &'static str = "shellglass/api-id/v1";

/// The protocol that this build speaks.
pub const PROTOCOL_VERSION: u32 = 1;

/// The oldest protocol that a hub of this build serves.
pub const HUB_PROTOCOL_MIN: u32 = 1;

/// The request header that carries the protocol.
pub const PROTOCOL_HEADER: &'static str = "x-shellglass-protocol";

/// The response headers of a refused protocol.
pub const HUB_VERSION_HEADER: &'static str = "x-shellglass-hub-version";

pub const PROTOCOL_MIN_HEADER: &'static str = "x-shellglass-protocol-min";

pub const PROTOCOL_MAX_HEADER: &'static str = "x-shellglass-protocol-max";

/// The most bytes of one message that a hub takes (64 MiB).
pub const MAX_WS_MESSAGE: usize = 67108864;

/// The SHA-256 digest.
pub uninterp spec fn sha256_of(data: Seq<u8>) -> Seq<u8>;

/// The Argon2id hash of a password with a salt, default parameters, 32 bytes.
pub uninterp spec fn argon2id_of(password: Seq<u8>, salt: Seq<u8>) -> Seq<u8>;

/// `sha2::Sha256::digest`: the result is [`sha256_of`] and has 32 bytes.
#[verifier::external_body]
fn sha256(data: &[u8]) -> (r: Vec<u8>)
    ensures
        r@ == sha256_of(data@),
        r@.len() == 32,
{
    <sha2::Sha256 as sha2::Digest>::digest(data).to_vec()
}

/// `argon2::Argon2::hash_password_into`, default parameters: the result is [`argon2id_of`]
/// and has 32 bytes. The crate reports an error for a longer password, and for a shorter or
/// longer salt.
#[verifier::external_body]
fn argon2id(password: &[u8], salt: &[u8]) -> (r: Vec<u8>)
    requires
        password@.len() <= 0xffff_ffff,
        8 <= salt@.len() <= 0xffff_ffff,
    ensures
        r@ == argon2id_of(password@, salt@),
        r@.len() == 32,
{
    let mut out = vec![0u8; 32];
    argon2::Argon2::default().hash_password_into(password, salt, &mut out).expect("valid lengths");
    out
}

/// The key of content: the digest of its MIME type, a zero byte and its bytes, in
/// hexadecimal.
pub open spec fn key_of_content(mime: Seq<char>, bytes: Seq<u8>) -> Seq<char> {
    hex_of(sha256_of(encode_utf8(mime).push(0) + bytes))
}

/// The key of content.
pub fn content_key(mime: &str, bytes: &[u8]) -> (r: String)
    ensures
        r@ == key_of_content(mime@, bytes@),
        lower_hex64(r@),
{
    let mut data = copy_bytes(mime.as_bytes());
    data.push(0);
    push_bytes(&mut data, bytes);
    let d = sha256(data.as_slice());
    proof {
        lemma_hex64(d@);
    }
    hex_text(d.as_slice())
}

/// Texts one after the other, each behind its length and a zero character.
pub open spec fn counted_join(parts: Seq<Seq<char>>) -> Seq<char>
    decreases parts.len(),
{
    if parts.len() == 0 {
        Seq::empty()
    } else {
        dec(parts[0].len()).push('\0') + parts[0] + counted_join(parts.drop_first())
    }
}

/// The models of texts.
pub open spec fn str_views(s: Seq<&str>) -> Seq<Seq<char>> {
    Seq::new(s.len(), |i: int| s[i]@)
}

/// Texts with zero characters between them.
pub open spec fn nul_joined(parts: Seq<Seq<char>>) -> Seq<char>
    decreases parts.len(),
{
    if parts.len() == 0 {
        Seq::empty()
    } else if parts.len() == 1 {
        parts[0]
    } else {
        parts[0].push('\0') + nul_joined(parts.drop_first())
    }
}

/// Whether there are texts, and none of them has a zero character.
pub open spec fn nul_free(parts: Seq<Seq<char>>) -> bool {
    parts.len() > 0 && forall|i: int| 0 <= i < parts.len() ==> !(#[trigger] parts[i]).contains('\0')
}

/// What the parts of a configuration are joined to, and what kind of content that is. Zero
/// characters separate the parts; where a part has one itself, or there is no part, each part
/// stands behind its length, as another kind of content.
pub open spec fn config_content(parts: Seq<Seq<char>>) -> (Seq<char>, Seq<char>) {
    if nul_free(parts) {
        ("shellglass/reload-config/v1"@, nul_joined(parts))
    } else {
        ("shellglass/reload-config/v1/counted"@, counted_join(parts))
    }
}

fn has_nul(s: &str) -> (r: bool)
    ensures
        r == s@.contains('\0'),
{
    let cs = chars_of(s);
    let mut i: usize = 0;
    while i < cs.len()
        invariant
            i <= cs@.len(),
            cs@ == s@,
            forall|j: int| 0 <= j < i ==> cs@[j] != '\0',
        decreases cs@.len() - i,
    {
        if cs[i] == '\0' {
            assert(cs@[i as int] == '\0');
            return true;
        }
        i += 1;
    }
    false
}

fn joined_with_nul(parts: &[&str]) -> (r: Option<String>)
    ensures
        r is Some <==> nul_free(str_views(parts@)),
        r matches Some(t) ==> t@ == nul_joined(str_views(parts@)),
{
    let ghost all = str_views(parts@);
    if parts.len() == 0 {
        return None;
    }
    let mut joined = String::new();
    let mut i: usize = 0;
    assert(all.skip(0) =~= all);
    assert(joined@ + nul_joined(all) =~= nul_joined(all));
    while i < parts.len()
        invariant
            i <= parts@.len(),
            parts@.len() > 0,
            all == str_views(parts@),
            forall|j: int| 0 <= j < i ==> !(#[trigger] all[j]).contains('\0'),
            joined@ + nul_joined(all.skip(i as int)) == nul_joined(all),
        decreases parts@.len() - i,
    {
        let ghost rest = all.skip(i as int);
        let ghost before = joined@;
        let part = parts[i];
        assert(rest[0] == part@);
        assert(all[i as int] == part@);
        if has_nul(part) {
            return None;
        }
        joined.append(part);
        i += 1;
        assert(rest.drop_first() =~= all.skip(i as int));
        if i < parts.len() {
            joined.push('\0');
        } else {
            assert(nul_joined(all.skip(i as int)) =~= Seq::<char>::empty());
        }
        assert(joined@ + nul_joined(all.skip(i as int)) =~= before + nul_joined(rest));
    }
    assert(all.skip(i as int) =~= Seq::<Seq<char>>::empty());
    assert(joined@ =~= nul_joined(all));
    Some(joined)
}

fn joined_with_lengths(parts: &[&str]) -> (r: String)
    ensures
        r@ == counted_join(str_views(parts@)),
{
    let ghost all = str_views(parts@);
    let mut joined = String::new();
    let mut i: usize = 0;
    assert(all.skip(0) =~= all);
    assert(joined@ + counted_join(all) =~= counted_join(all));
    while i < parts.len()
        invariant
            i <= parts@.len(),
            all == str_views(parts@),
            joined@ + counted_join(all.skip(i as int)) == counted_join(all),
        decreases parts@.len() - i,
    {
        let ghost rest = all.skip(i as int);
        let ghost before = joined@;
        let part = parts[i];
        push_dec(&mut joined, part.unicode_len() as u64);
        joined.push('\0');
        joined.append(part);
        i += 1;
        assert(rest.drop_first() =~= all.skip(i as int));
        assert(rest[0] == part@);
        assert(joined@ + counted_join(all.skip(i as int)) =~= before + counted_join(rest));
    }
    assert(all.skip(i as int) =~= Seq::<Seq<char>>::empty());
    assert(joined@ =~= counted_join(all));
    joined
}

/// The tag of a page's configuration, which changes when any part of it does.
pub fn config_tag(parts: &[&str]) -> (r: String)
    ensures
        ({
            let (kind, text) = config_content(str_views(parts@));
            r@ == key_of_content(kind, encode_utf8(text))
        }),
{
    match joined_with_nul(parts) {
        Some(t) => content_key("shellglass/reload-config/v1", t.as_str().as_bytes()),
        None => {
            let t = joined_with_lengths(parts);
            content_key("shellglass/reload-config/v1/counted", t.as_str().as_bytes())
        },
    }
}

proof fn lemma_nul_joined_apart(a: Seq<Seq<char>>, b: Seq<Seq<char>>)
    requires
        nul_free(a),
        nul_free(b),
        nul_joined(a) == nul_joined(b),
    ensures
        a == b,
    decreases a.len(),
{
    let x = nul_joined(a);
    let (ka, kb) = (a[0].len() as int, b[0].len() as int);
    assert(!a[0].contains('\0') && !b[0].contains('\0'));
    assert forall|i: int| 0 <= i < ka implies x[i] == a[0][i] && x[i] != '\0' by {
        assert(a[0].contains(a[0][i]));
    }
    assert forall|i: int| 0 <= i < kb implies x[i] == b[0][i] && x[i] != '\0' by {
        assert(b[0].contains(b[0][i]));
    }
    if a.len() > 1 {
        assert(x[ka] == '\0');
    }
    if b.len() > 1 {
        assert(x[kb] == '\0');
    }
    assert(ka == kb);
    assert(x.take(ka) =~= a[0]);
    assert(x.take(kb) =~= b[0]);
    if a.len() > 1 && b.len() > 1 {
        let (ra, rb) = (a.drop_first(), b.drop_first());
        assert(x.skip(ka + 1) =~= nul_joined(ra));
        assert(x.skip(ka + 1) =~= nul_joined(rb));
        assert forall|i: int| 0 <= i < ra.len() implies !(#[trigger] ra[i]).contains('\0') by {
            assert(!a[i + 1].contains('\0'));
        }
        assert forall|i: int| 0 <= i < rb.len() implies !(#[trigger] rb[i]).contains('\0') by {
            assert(!b[i + 1].contains('\0'));
        }
        lemma_nul_joined_apart(ra, rb);
        assert(a =~= seq![a[0]] + ra);
        assert(b =~= seq![b[0]] + rb);
    } else {
        assert(a =~= b);
    }
}

/// What is hashed for a configuration's tag tells its parts apart: two lists of parts give the
/// same kind and text, with a zero character between them, only where they are the same.
pub proof fn law_joined_parts_are_told_apart(a: Seq<Seq<char>>, b: Seq<Seq<char>>)
    requires
        config_content(a).0.push('\0') + config_content(a).1 == config_content(b).0.push('\0')
            + config_content(b).1,
    ensures
        a == b,
{
    reveal_strlit("shellglass/reload-config/v1");
    reveal_strlit("shellglass/reload-config/v1/counted");
    let (ka, ta) = config_content(a);
    let (kb, tb) = config_content(b);
    let x = ka.push('\0') + ta;
    assert(x[27] == (if nul_free(a) {
        '\0'
    } else {
        '/'
    }));
    assert(x[27] == (if nul_free(b) {
        '\0'
    } else {
        '/'
    }));
    let n = ka.len() as int + 1;
    assert(x.skip(n) =~= ta);
    assert(x.skip(n) =~= tb);
    if nul_free(a) {
        lemma_nul_joined_apart(a, b);
    } else {
        lemma_counted_apart(a, b);
    }
}

proof fn lemma_count_is_read(n: nat, rest: Seq<char>)
    ensures
        index_of(dec(n).push('\0') + rest, '\0') == dec(n).len(),
{
    let x = dec(n).push('\0') + rest;
    let k = dec(n).len() as int;
    lemma_dec_digits(n);
    assert forall|i: int| 0 <= i < k implies #[trigger] x[i] != '\0' by {
        assert(x[i] == dec(n)[i]);
    }
    assert(x[k] == '\0');
    lemma_index_of_is(x, '\0', k);
}

proof fn lemma_counted_apart(a: Seq<Seq<char>>, b: Seq<Seq<char>>)
    requires
        counted_join(a) == counted_join(b),
    ensures
        a == b,
    decreases a.len(),
{
    let x = counted_join(a);
    if a.len() == 0 || b.len() == 0 {
        if a.len() > 0 {
            assert(counted_join(a).len() > 0);
        }
        if b.len() > 0 {
            assert(counted_join(b).len() > 0);
        }
        assert(a =~= b);
    } else {
        let ra = a.drop_first();
        let rb = b.drop_first();
        let (na, nb) = (a[0].len(), b[0].len());
        let ta = a[0] + counted_join(ra);
        let tb = b[0] + counted_join(rb);
        assert(x =~= dec(na).push('\0') + ta);
        assert(x =~= dec(nb).push('\0') + tb);
        lemma_count_is_read(na, ta);
        lemma_count_is_read(nb, tb);
        let k = dec(na).len() as int;
        assert(x.take(k) =~= dec(na));
        assert(x.take(k) =~= dec(nb));
        let max = na + nb;
        law_decimal_reads_back(na, max);
        law_decimal_reads_back(nb, max);
        assert(na == nb);
        assert(x.skip(k + 1) =~= ta);
        assert(x.skip(k + 1) =~= tb);
        assert(ta.take(na as int) =~= a[0]);
        assert(tb.take(na as int) =~= b[0]);
        assert(ta.skip(na as int) =~= counted_join(ra));
        assert(tb.skip(na as int) =~= counted_join(rb));
        lemma_counted_apart(ra, rb);
        assert(a =~= seq![a[0]] + ra);
        assert(b =~= seq![b[0]] + rb);
    }
}

/// Whether `s` is 64 digits of lower-case hexadecimal.
pub open spec fn lower_hex64(s: Seq<char>) -> bool {
    s.len() == 64 && forall|i: int|
        0 <= i < s.len() ==> ('0' <= #[trigger] s[i] && s[i] <= '9') || ('a' <= s[i] && s[i] <= 'f')
}

proof fn lemma_hex_of(b: Seq<u8>)
    ensures
        hex_of(b).len() == 2 * b.len(),
        forall|i: int|
            0 <= i < hex_of(b).len() ==> ('0' <= #[trigger] hex_of(b)[i] && hex_of(b)[i] <= '9') || (
            'a' <= hex_of(b)[i] && hex_of(b)[i] <= 'f'),
    decreases b.len(),
{
    if b.len() > 0 {
        lemma_hex_of(b.drop_last());
    }
}

proof fn lemma_hex64(b: Seq<u8>)
    requires
        b.len() == 32,
    ensures
        lower_hex64(hex_of(b)),
{
    lemma_hex_of(b);
}

/// The salt of a domain with a system's extension; an empty extension adds nothing.
pub open spec fn extended_salt(domain: Seq<char>, ext: Seq<char>) -> Seq<char> {
    if ext.len() == 0 {
        domain
    } else {
        domain.push('/') + ext
    }
}

/// The id of a key in a domain: its hash in hexadecimal.
pub open spec fn derived_id(key: Seq<char>, domain: Seq<char>, ext: Seq<char>) -> Seq<char> {
    hex_of(argon2id_of(encode_utf8(key), encode_utf8(extended_salt(domain, ext))))
}

/// Whether a key and an extension have lengths that can be hashed.
pub open spec fn hashable(key: Seq<char>, ext: Seq<char>) -> bool {
    encode_utf8(key).len() <= 0xffff_ffff && encode_utf8(ext).len() <= 0xffff_0000
}

pub(crate) proof fn lemma_encode_concat(a: Seq<char>, b: Seq<char>)
    ensures
        encode_utf8(a + b) == encode_utf8(a) + encode_utf8(b),
    decreases a.len(),
{
    if a.len() == 0 {
        assert(a + b =~= b);
        assert(encode_utf8(a) + encode_utf8(b) =~= encode_utf8(b));
    } else {
        assert((a + b).drop_first() =~= a.drop_first() + b);
        lemma_encode_concat(a.drop_first(), b);
        assert(encode_utf8(a + b) =~= encode_utf8(a) + encode_utf8(b));
    }
}

fn derive_id(key: &str, domain: &str, ext: &str) -> (r: String)
    requires
        hashable(key@, ext@),
        is_ascii(domain),
        8 <= domain@.len() <= 100,
    ensures
        r@ == derived_id(key@, domain@, ext@),
        lower_hex64(r@),
{
    let mut salt = String::from_str(domain);
    if !ext.is_empty() {
        salt.push('/');
        salt.append(ext);
    }
    assert(salt@ == extended_salt(domain@, ext@));
    proof {
        is_ascii_spec_bytes(domain);
        if ext@.len() > 0 {
            lemma_encode_concat(domain@.push('/'), ext@);
            lemma_encode_concat(domain@, seq!['/']);
            assert(domain@.push('/') =~= domain@ + seq!['/']);
            assert(is_ascii_chars(seq!['/']));
            vstd::utf8::is_ascii_chars_encode_utf8(seq!['/']);
        }
    }
    let h = argon2id(key.as_bytes(), salt.as_str().as_bytes());
    proof {
        lemma_hex64(h@);
    }
    hex_text(h.as_slice())
}

proof fn lemma_domains()
    ensures
        is_ascii(SALT),
        SALT@.len() == 24,
        is_ascii(API_SALT),
        API_SALT@.len() == 20,
        SALT@[11] == 's',
        API_SALT@[11] == 'a',
{
    reveal_strlit("shellglass/session-id/v6");
    reveal_strlit("shellglass/api-id/v1");
}

/// The session id of a key.
pub fn session_id(key: &str) -> (r: String)
    requires
        encode_utf8(key@).len() <= 0xffff_ffff,
    ensures
        r@ == derived_id(key@, SALT@, Seq::empty()),
        lower_hex64(r@),
{
    proof {
        reveal_strlit("");
        assert(""@ =~= Seq::<char>::empty());
    }
    session_id_ext(key, "")
}

/// The session id of a key on a system with a salt of its own.
pub fn session_id_ext(key: &str, ext: &str) -> (r: String)
    requires
        hashable(key@, ext@),
    ensures
        r@ == derived_id(key@, SALT@, ext@),
        lower_hex64(r@),
{
    proof {
        lemma_domains();
    }
    derive_id(key, SALT, ext)
}

/// The management id of a key.
pub fn api_id(key: &str) -> (r: String)
    requires
        encode_utf8(key@).len() <= 0xffff_ffff,
    ensures
        r@ == derived_id(key@, API_SALT@, Seq::empty()),
        lower_hex64(r@),
{
    proof {
        reveal_strlit("");
        assert(""@ =~= Seq::<char>::empty());
    }
    api_id_ext(key, "")
}

/// The management id of a key on a system with a salt of its own.
pub fn api_id_ext(key: &str, ext: &str) -> (r: String)
    requires
        hashable(key@, ext@),
    ensures
        r@ == derived_id(key@, API_SALT@, ext@),
        lower_hex64(r@),
{
    proof {
        lemma_domains();
    }
    derive_id(key, API_SALT, ext)
}

/// The two domains are apart: whatever the extensions, no salt of one is a salt of the other.
pub proof fn law_domains_are_apart(session_ext: Seq<char>, api_ext: Seq<char>)
    ensures
        extended_salt(SALT@, session_ext) != extended_salt(API_SALT@, api_ext),
{
    lemma_domains();
    assert(extended_salt(SALT@, session_ext)[11] == 's');
    assert(extended_salt(API_SALT@, api_ext)[11] == 'a');
}

/// Two systems with different extensions have different salts.
pub proof fn law_extensions_are_apart(domain: Seq<char>, a: Seq<char>, b: Seq<char>)
    requires
        a != b,
    ensures
        extended_salt(domain, a) != extended_salt(domain, b),
{
    let x = extended_salt(domain, a);
    let y = extended_salt(domain, b);
    if x == y {
        if a.len() > 0 && b.len() > 0 {
            assert(a =~= x.skip(domain.len() as int + 1));
            assert(b =~= y.skip(domain.len() as int + 1));
        } else if a.len() > 0 {
            assert(x.len() > y.len());
        } else if b.len() > 0 {
            assert(y.len() > x.len());
        } else {
            assert(a =~= b);
        }
    }
}

/// Whether a character is a control character.
pub open spec fn is_control(c: char) -> bool {
    (c as u32) < 0x20 || 0x7f <= c as u32 <= 0x9f
}

/// `s` without its control characters.
pub open spec fn without_controls(s: Seq<char>) -> Seq<char>
    decreases s.len(),
{
    if s.len() == 0 {
        Seq::empty()
    } else if is_control(s.last()) {
        without_controls(s.drop_last())
    } else {
        without_controls(s.drop_last()).push(s.last())
    }
}

/// A text that is safe to print: without control characters, and of at most 256 characters.
pub open spec fn neutered(s: Seq<char>) -> Seq<char> {
    let t = without_controls(s);
    if t.len() > 256 {
        t.take(256)
    } else {
        t
    }
}

proof fn lemma_without_controls_prefix(s: Seq<char>, k: int)
    requires
        0 <= k <= s.len(),
    ensures
        without_controls(s.take(k)).len() <= without_controls(s).len(),
        without_controls(s).take(without_controls(s.take(k)).len() as int) == without_controls(
            s.take(k),
        ),
    decreases s.len() - k,
{
    if k < s.len() {
        lemma_without_controls_prefix(s, k + 1);
        assert(s.take(k + 1).drop_last() =~= s.take(k));
        let a = without_controls(s.take(k));
        let b = without_controls(s.take(k + 1));
        let c = without_controls(s);
        assert(b.take(a.len() as int) =~= a);
        assert(c.take(a.len() as int) =~= c.take(b.len() as int).take(a.len() as int));
    } else {
        assert(s.take(k) =~= s);
        assert(without_controls(s).take(without_controls(s).len() as int) =~= without_controls(s));
    }
}

/// Make a text from elsewhere safe to print.
pub fn neuter(s: &str) -> (r: String)
    ensures
        r@ == neutered(s@),
{
    let cs = crate::text::chars_of(s);
    let mut out = String::new();
    let mut n: usize = 0;
    let mut i: usize = 0;
    assert(cs@.take(0) =~= Seq::<char>::empty());
    while i < cs.len() && n < 256
        invariant
            i <= cs@.len(),
            n <= 256,
            n == out@.len(),
            out@ == without_controls(cs@.take(i as int)),
        decreases cs@.len() - i,
    {
        let c = cs[i];
        let u: u32 = c as u32;
        if !(u < 0x20 || (0x7f <= u && u <= 0x9f)) {
            out.push(c);
            n += 1;
        }
        i += 1;
        assert(cs@.take(i as int).drop_last() =~= cs@.take(i - 1));
    }
    proof {
        lemma_without_controls_prefix(cs@, i as int);
        if i == cs@.len() {
            assert(cs@.take(i as int) =~= cs@);
        }
    }
    out
}

/// A neutered text holds no control character and at most 256 characters.
pub proof fn law_neutered_is_safe(s: Seq<char>)
    ensures
        neutered(s).len() <= 256,
        forall|i: int| 0 <= i < neutered(s).len() ==> !is_control(#[trigger] neutered(s)[i]),
{
    lemma_without_controls(s);
}

proof fn lemma_without_controls(s: Seq<char>)
    ensures
        forall|i: int|
            0 <= i < without_controls(s).len() ==> !is_control(#[trigger] without_controls(s)[i]),
    decreases s.len(),
{
    if s.len() > 0 {
        lemma_without_controls(s.drop_last());
        let p = without_controls(s.drop_last());
        assert forall|i: int| 0 <= i < without_controls(s).len() implies !is_control(
            #[trigger] without_controls(s)[i],
        ) by {
            if i < p.len() {
                assert(without_controls(s)[i] == p[i]);
            }
        }
    }
}

/// The protocol that a client speaks, by its header; one without the header speaks the first.
/// None where the header is no number.
pub open spec fn spoken_protocol(header: Option<Seq<char>>) -> Option<nat> {
    match header {
        Some(t) => unsigned(t, u32::MAX as nat),
        None => Some(1),
    }
}

/// Whether a hub of this build serves the client that sends a header.
pub fn serves_client(header: Option<&str>) -> (r: bool)
    ensures
        r == (spoken_protocol(
            match header {
                Some(t) => Some(t@),
                None => None,
            },
        ) matches Some(v) && HUB_PROTOCOL_MIN <= v <= PROTOCOL_VERSION),
{
    match header {
        Some(t) => {
            let cs = chars_of(t);
            match parse_unsigned(cs.as_slice(), u32::MAX as u64) {
                Some(v) => serves_protocol(v as u32),
                None => false,
            }
        },
        None => serves_protocol(1),
    }
}

/// Whether a hub of this build serves a client's protocol.
pub fn serves_protocol(version: u32) -> (r: bool)
    ensures
        r == (HUB_PROTOCOL_MIN <= version <= PROTOCOL_VERSION),
{
    HUB_PROTOCOL_MIN <= version && version <= PROTOCOL_VERSION
}

} // verus!
