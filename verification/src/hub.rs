//! A hub of sessions: pushers show frames, viewers read them.
//!
//! Every known session has a page from the start, which says that its operator is away; the
//! first pusher to register fills in styles, fonts and template, and comes online. The last
//! frame stays when the pusher goes.
use crate::b64::{standard_b64_bytes, standard_decode};
use crate::diff::{applied, Live, WireMsg};
use crate::model::{Frame, FrameView};
use crate::proto::{
    api_id_ext, config_content, config_tag, content_key, derived_id, hashable, key_of_content,
    lower_hex64, session_id_ext, str_views, BlobBody, FontAsset, RegisterBody, API_SALT, SALT,
};
use crate::registry::{
    among, entry_texts, id_for, id_problem, is_hex64, lemma_place_of_id, lemma_place_of_slug, opt_text,
    place_of_id, place_of_slug, registry_ok, slug_for, slug_problem, validate_id, validate_slug,
    AllowConfig, Known,
};
use crate::render::{
    banner, banner_html, boot_script, page, page_of, sse_script, DEFAULT_TEMPLATE, EMBED_TEMPLATE,
};
use crate::text::{begins, chars_of, copy_bytes, dec, dec_text, same_text, string_of};
use vstd::prelude::*;
use vstd::slice::slice_subrange;
use vstd::string::*;
use vstd::utf8::encode_utf8;

verus! {

// ---- sessions ----

/// A font or an image that a pusher uploaded.
struct Asset {
    key: String,
    mime: String,
    bytes: Vec<u8>,
}

/// The model of an uploaded font or image: the key it is served under, its MIME type and its
/// bytes. A font's key is its place in the upload, an image's the key of its content.
pub ghost struct AssetView {
    pub key: Seq<char>,
    pub mime: Seq<char>,
    pub bytes: Seq<u8>,
}

spec fn asset_contents(s: Seq<Asset>) -> Seq<AssetView> {
    Seq::new(s.len(), |i: int| AssetView { key: s[i].key@, mime: s[i].mime@, bytes: s[i].bytes@ })
}

struct Session {
    css: String,
    font_css: String,
    template: String,
    render_cfg: String,
    live: Live,
    fonts: Vec<Asset>,
    images: Vec<Asset>,
    registered: bool,
}

/// The model of a session.
#[verifier::ext_equal]
pub ghost struct SessionView {
    pub css: Seq<char>,
    /// The rules for fonts alone; empty where the pusher sent none.
    pub font_css: Seq<char>,
    /// The page's template; the built-in one where it is empty.
    pub template: Seq<char>,
    pub render_cfg: Seq<char>,
    pub shown: FrameView,
    /// The number of the frame that is shown.
    pub number: u64,
    pub online: bool,
    pub fonts: Seq<AssetView>,
    /// The images that frames refer to.
    pub images: Seq<AssetView>,
    /// A pusher has registered.
    pub registered: bool,
}

impl Session {
    spec fn model(&self) -> SessionView {
        SessionView {
            css: self.css@,
            font_css: self.font_css@,
            template: self.template@,
            render_cfg: self.render_cfg@,
            shown: self.live.shown(),
            number: self.live.number(),
            online: self.live.connected(),
            fonts: asset_contents(self.fonts@),
            images: asset_contents(self.images@),
            registered: self.registered,
        }
    }
}

spec fn session_views(s: Seq<Session>) -> Seq<SessionView> {
    Seq::new(s.len(), |i: int| s[i].model())
}

/// A session that no pusher has registered: its operator is away.
pub open spec fn stub() -> SessionView {
    SessionView {
        css: Seq::empty(),
        font_css: Seq::empty(),
        template: Seq::empty(),
        render_cfg: Seq::empty(),
        shown: FrameView::Banner(banner_html("waiting for operator…"@)),
        number: 0,
        online: false,
        fonts: Seq::empty(),
        images: Seq::empty(),
        registered: false,
    }
}

fn new_stub() -> (r: Session)
    ensures
        r.model() == stub(),
{
    let mut live = Live::new(Frame::Banner(banner("waiting for operator…")));
    live.set_online(false);
    let r = Session {
        css: String::new(),
        font_css: String::new(),
        template: String::new(),
        render_cfg: String::new(),
        live,
        fonts: Vec::new(),
        images: Vec::new(),
        registered: false,
    };
    assert(r.model().fonts =~= Seq::<AssetView>::empty());
    assert(r.model().images =~= Seq::<AssetView>::empty());
    r
}

/// The state of a hub.
#[verifier::ext_equal]
pub ghost struct HubView {
    /// The known sessions.
    pub known: Seq<Known>,
    /// What each of them shows, in the same order.
    pub sessions: Seq<SessionView>,
    /// The management ids that are allowed; none where there is no management.
    pub api: Seq<Seq<char>>,
    /// The address that the hub was told it has.
    pub base: Seq<char>,
    /// The extension of the salts on this system.
    pub id_salt: Seq<char>,
}

/// Why a session cannot be added.
#[derive(Debug, PartialEq, Eq)]
pub enum AddError {
    /// The id is known.
    IdTaken,
    /// The slug is claimed by another session.
    SlugTaken,
    /// The id or the slug is not well-formed; what is wrong.
    Invalid(String),
}

/// The model of [`AddError`].
pub ghost enum AddFailure {
    IdTaken,
    SlugTaken,
    Invalid(Seq<char>),
}

impl View for AddError {
    type V = AddFailure;

    open spec fn view(&self) -> AddFailure {
        match self {
            AddError::IdTaken => AddFailure::IdTaken,
            AddError::SlugTaken => AddFailure::SlugTaken,
            AddError::Invalid(m) => AddFailure::Invalid(m@),
        }
    }
}

/// The fonts among uploaded ones that can be decoded, each under its place in the upload.
pub open spec fn decoded_fonts(assets: Seq<(Seq<char>, Seq<char>)>) -> Seq<AssetView>
    decreases assets.len(),
{
    if assets.len() == 0 {
        Seq::empty()
    } else {
        let before = decoded_fonts(assets.drop_last());
        match standard_b64_bytes(assets.last().1) {
            Some(bytes) => before.push(
                AssetView {
                    key: dec((assets.len() - 1) as nat),
                    mime: assets.last().0,
                    bytes,
                },
            ),
            None => before,
        }
    }
}

/// What is served under a key: the last one, where several have it.
pub open spec fn asset_under(fonts: Seq<AssetView>, key: Seq<char>) -> Option<AssetView>
    decreases fonts.len(),
{
    if fonts.len() == 0 {
        None
    } else if fonts.last().key == key {
        Some(fonts.last())
    } else {
        asset_under(fonts.drop_last(), key)
    }
}

/// Whether a font's address with a session id begins `s`: `/s/`, the id, `/fonts/`.
pub open spec fn font_address(s: Seq<char>) -> bool {
    s.len() >= 74 && begins(s, "/s/"@) && lower_hex64(s.subrange(3, 67)) && begins(
        s.skip(67),
        "/fonts/"@,
    )
}

/// Styles with the addresses of fonts made relative to the page, whatever the session id in
/// them.
pub open spec fn relative_fonts(s: Seq<char>) -> Seq<char>
    decreases s.len(),
{
    if s.len() == 0 {
        Seq::empty()
    } else if font_address(s) {
        "fonts/"@ + relative_fonts(s.skip(74))
    } else if begins(s, "/s/"@) && s.len() >= 3 {
        "/s/"@ + relative_fonts(s.skip(3))
    } else {
        seq![s[0]] + relative_fonts(s.drop_first())
    }
}

impl HubView {
    /// What holds of every hub: the registry is well-formed, and every known session is there.
    pub open spec fn ok(self) -> bool {
        registry_ok(self.known) && self.sessions.len() == self.known.len()
    }

    /// The hub with one more session, or why it cannot be.
    pub open spec fn added(self, id: Seq<char>, slug: Seq<char>) -> Result<HubView, AddFailure> {
        if id_problem(id) is Some {
            Err(AddFailure::Invalid(id_problem(id)->0))
        } else if slug_problem(slug) is Some {
            Err(AddFailure::Invalid(slug_problem(slug)->0))
        } else if slug_for(self.known, id) is Some {
            Err(AddFailure::IdTaken)
        } else if id_for(self.known, slug) is Some {
            Err(AddFailure::SlugTaken)
        } else {
            Ok(
                HubView {
                    known: self.known.push(Known { id, slug }),
                    sessions: self.sessions.push(stub()),
                    ..self
                },
            )
        }
    }

    /// The hub without the session at a place; the hub itself where there is none.
    pub open spec fn removed(self, k: int) -> HubView {
        if 0 <= k < self.known.len() {
            HubView { known: self.known.remove(k), sessions: self.sessions.remove(k), ..self }
        } else {
            self
        }
    }

    /// The session that a slug stands for.
    pub open spec fn viewed(self, slug: Seq<char>) -> Option<SessionView> {
        let k = place_of_slug(self.known, slug);
        if k < self.known.len() {
            Some(self.sessions[k])
        } else {
            None
        }
    }

    /// The hub with the session of an id changed.
    pub open spec fn with_session(self, id: Seq<char>, s: SessionView) -> HubView {
        HubView { sessions: self.sessions.update(place_of_id(self.known, id), s), ..self }
    }
}

/// A session after a pusher has registered: what it shows stays.
pub open spec fn registered_session(
    s: SessionView,
    css: Seq<char>,
    font_css: Seq<char>,
    template: Seq<char>,
    render_cfg: Seq<char>,
    fonts: Seq<AssetView>,
) -> SessionView {
    SessionView {
        css: relative_fonts(css),
        font_css: relative_fonts(font_css),
        template,
        render_cfg,
        fonts,
        registered: true,
        online: true,
        ..s
    }
}

/// A session with an uploaded image under the key of its content. One that is there already,
/// or cannot be decoded, changes nothing.
pub open spec fn with_image(s: SessionView, mime: Seq<char>, data: Seq<char>) -> SessionView {
    match standard_b64_bytes(data) {
        Some(bytes) => {
            let key = key_of_content(mime, bytes);
            if asset_under(s.images, key) is Some {
                s
            } else {
                SessionView { images: s.images.push(AssetView { key, mime, bytes }), ..s }
            }
        },
        None => s,
    }
}

/// The tag of a session's page, over all that the page is made of.
pub open spec fn page_tag(s: SessionView) -> Seq<char> {
    let (kind, text) = config_content(seq![s.css, s.font_css, s.template, s.render_cfg]);
    key_of_content(kind, encode_utf8(text))
}

/// The rules for a session's fonts: alone, where the pusher sent them so, else all its styles.
pub open spec fn font_rules(s: SessionView) -> Seq<char> {
    if s.font_css.len() == 0 {
        s.css
    } else {
        s.font_css
    }
}

/// A hub.
pub struct HubState {
    registry: AllowConfig,
    sessions: Vec<Session>,
    api_allowed: Vec<String>,
    base: String,
    id_salt: String,
}

impl View for HubState {
    type V = HubView;

    closed spec fn view(&self) -> HubView {
        HubView {
            known: self.registry@,
            sessions: session_views(self.sessions@),
            api: entry_texts(self.api_allowed@),
            base: self.base@,
            id_salt: self.id_salt@,
        }
    }
}

fn starts_at(cs: &Vec<char>, at: usize, pat: &str) -> (r: bool)
    requires
        at <= cs@.len(),
    ensures
        r == begins(cs@.skip(at as int), pat@),
{
    let ps = chars_of(pat);
    let ghost rest = cs@.skip(at as int);
    if cs.len() - at < ps.len() {
        return false;
    }
    let mut i: usize = 0;
    while i < ps.len()
        invariant
            i <= ps@.len(),
            ps@ == pat@,
            at + ps@.len() <= cs.len(),
            rest == cs@.skip(at as int),
            forall|j: int| 0 <= j < i ==> cs@[at + j] == #[trigger] ps@[j],
        decreases ps@.len() - i,
    {
        if cs[at + i] != ps[i] {
            assert(rest.take(ps@.len() as int)[i as int] != ps@[i as int]);
            return false;
        }
        i += 1;
    }
    assert(rest.take(ps@.len() as int) =~= ps@);
    true
}

/// Make the addresses of fonts in pushed styles relative to the page.
pub fn rewrite_font_urls(css: &str) -> (r: String)
    ensures
        r@ == relative_fonts(css@),
{
    proof {
        reveal_strlit("/s/");
        reveal_strlit("/fonts/");
    }
    let cs = chars_of(css);
    let mut out = String::new();
    let mut i: usize = 0;
    assert(cs@.skip(0) =~= cs@);
    assert(out@ + relative_fonts(cs@) =~= relative_fonts(cs@));
    while i < cs.len()
        invariant
            i <= cs@.len(),
            "/s/"@.len() == 3,
            out@ + relative_fonts(cs@.skip(i as int)) == relative_fonts(cs@),
        decreases cs@.len() - i,
    {
        let ghost rest = cs@.skip(i as int);
        let ghost before = out@;
        assert(rest[0] == cs@[i as int]);
        let mut n: usize = 1;
        if starts_at(&cs, i, "/s/") {
            let id = cs.len() - i >= 74 && {
                let part = slice_subrange(cs.as_slice(), i + 3, i + 67);
                assert(part@ =~= rest.subrange(3, 67));
                is_hex64(part)
            } && starts_at(&cs, i + 67, "/fonts/");
            assert(rest.len() >= 74 ==> rest.skip(67) =~= cs@.skip(i + 67));
            if id {
                out.append("fonts/");
                n = 74;
                assert(rest.skip(74) =~= cs@.skip(i + 74));
            } else {
                out.append("/s/");
                n = 3;
                assert(rest.skip(3) =~= cs@.skip(i + 3));
            }
        } else {
            out.push(cs[i]);
            assert(rest.drop_first() =~= cs@.skip(i + 1));
        }
        assert(out@ + relative_fonts(cs@.skip(i + n)) =~= before + relative_fonts(rest));
        i = i + n;
    }
    assert(cs@.skip(i as int) =~= Seq::<char>::empty());
    assert(out@ =~= relative_fonts(cs@));
    out
}

/// The model of what is served: a MIME type and bytes.
pub open spec fn served(r: Option<(String, Vec<u8>)>) -> Option<(Seq<char>, Seq<u8>)> {
    match r {
        Some((m, b)) => Some((m@, b@)),
        None => None,
    }
}

/// The MIME type and the bytes under a key.
pub open spec fn content_under(s: Seq<AssetView>, key: Seq<char>) -> Option<(Seq<char>, Seq<u8>)> {
    match asset_under(s, key) {
        Some(a) => Some((a.mime, a.bytes)),
        None => None,
    }
}

fn find_asset(assets: &Vec<Asset>, key: &str) -> (r: Option<(String, Vec<u8>)>)
    ensures
        served(r) == content_under(asset_contents(assets@), key@),
        r is Some <==> asset_under(asset_contents(assets@), key@) is Some,
{
    let ghost all = asset_contents(assets@);
    let mut n: usize = assets.len();
    assert(all.take(n as int) =~= all);
    while n > 0
        invariant
            n <= assets@.len(),
            all == asset_contents(assets@),
            asset_under(all, key@) == asset_under(all.take(n as int), key@),
        decreases n,
    {
        n -= 1;
        assert(all.take(n + 1).drop_last() =~= all.take(n as int));
        assert(all.take(n + 1).last() == all[n as int]);
        if same_text(assets[n].key.as_str(), key) {
            return Some((assets[n].mime.clone(), copy_bytes(assets[n].bytes.as_slice())));
        }
    }
    None
}

fn decode_fonts(assets: &Vec<FontAsset>) -> (r: Vec<Asset>)
    ensures
        asset_contents(r@) == decoded_fonts(crate::sfnt::asset_views(assets@)),
{
    let ghost all = crate::sfnt::asset_views(assets@);
    let mut out: Vec<Asset> = Vec::new();
    let mut i: usize = 0;
    assert(all.take(0) =~= Seq::<(Seq<char>, Seq<char>)>::empty());
    assert(asset_contents(out@) =~= decoded_fonts(all.take(0)));
    while i < assets.len()
        invariant
            i <= assets@.len(),
            all == crate::sfnt::asset_views(assets@),
            asset_contents(out@) == decoded_fonts(all.take(i as int)),
        decreases assets@.len() - i,
    {
        assert(all.take(i + 1).drop_last() =~= all.take(i as int));
        assert(all.take(i + 1).last() == (assets@[i as int].mime@, assets@[i as int].b64@));
        if let Some(bytes) = standard_decode(assets[i].b64.as_str()) {
            let ghost was = asset_contents(out@);
            let f = Asset { key: dec_text(i as u64), mime: assets[i].mime.clone(), bytes };
            out.push(f);
            assert(asset_contents(out@) =~= was.push(
                AssetView { key: f.key@, mime: f.mime@, bytes: f.bytes@ },
            ));
        }
        i += 1;
    }
    assert(all.take(i as int) =~= all);
    out
}

proof fn lemma_sessions_push(s: Seq<Session>, x: Session)
    ensures
        session_views(s.push(x)) == session_views(s).push(x.model()),
{
    assert(session_views(s.push(x)) =~= session_views(s).push(x.model()));
}

impl HubState {
    /// What holds of every hub.
    pub open spec fn wf(&self) -> bool {
        self@.ok()
    }

    /// A hub of known sessions, none of them registered.
    pub fn new(allow: AllowConfig, base: String) -> (r: Self)
        requires
            allow.wf(),
        ensures
            r.wf(),
            r@ == (HubView {
                known: allow@,
                sessions: Seq::new(allow@.len(), |i: int| stub()),
                api: Seq::empty(),
                base: base@,
                id_salt: Seq::empty(),
            }),
    {
        let n: usize = allow.len();
        let mut sessions: Vec<Session> = Vec::new();
        let mut i: usize = 0;
        assert(session_views(sessions@) =~= Seq::new(0, |j: int| stub()));
        while i < n
            invariant
                i <= n,
                session_views(sessions@) == Seq::new(i as nat, |j: int| stub()),
            decreases n - i,
        {
            let s = new_stub();
            proof {
                lemma_sessions_push(sessions@, s);
            }
            sessions.push(s);
            i += 1;
            assert(session_views(sessions@) =~= Seq::new(i as nat, |j: int| stub()));
        }
        let r = HubState {
            registry: allow,
            sessions,
            api_allowed: Vec::new(),
            base,
            id_salt: String::new(),
        };
        assert(r@.api =~= Seq::<Seq<char>>::empty());
        assert(r@.sessions.len() == r@.known.len());
        r
    }

    /// Let these management ids in.
    pub fn with_api_allowed(self, ids: Vec<String>) -> (r: Self)
        requires
            self.wf(),
        ensures
            r.wf(),
            r@ == (HubView { api: entry_texts(ids@), ..self@ }),
    {
        let mut r = self;
        r.api_allowed = ids;
        r
    }

    /// Hash keys with this extension of the salts.
    pub fn with_id_salt(self, ext: String) -> (r: Self)
        requires
            self.wf(),
        ensures
            r.wf(),
            r@ == (HubView { id_salt: ext@, ..self@ }),
    {
        let mut r = self;
        r.id_salt = ext;
        r
    }

    /// The known sessions.
    pub fn registry(&self) -> (r: &AllowConfig)
        ensures
            r@ == self@.known,
    {
        &self.registry
    }

    /// The slug of a session id.
    pub fn slug_of(&self, id: &str) -> (r: Option<&str>)
        ensures
            r is Some <==> slug_for(self@.known, id@) is Some,
            r matches Some(s) ==> slug_for(self@.known, id@) == Some(s@),
    {
        self.registry.slug_of(id)
    }

    /// The session id that a slug stands for.
    pub fn id_of_view(&self, slug: &str) -> (r: Option<&str>)
        ensures
            r is Some <==> id_for(self@.known, slug@) is Some,
            r matches Some(s) ==> id_for(self@.known, slug@) == Some(s@),
    {
        self.registry.id_of_view(slug)
    }

    /// Whether an id may push.
    pub fn is_allowed(&self, id: &str) -> (r: bool)
        ensures
            r == (slug_for(self@.known, id@) is Some),
    {
        self.registry.slug_of(id).is_some()
    }

    /// Add a session; without a slug it goes by its id.
    pub fn add_session(&mut self, id: &str, slug: Option<&str>) -> (r: Result<(), AddError>)
        requires
            old(self).wf(),
        ensures
            final(self).wf(),
            match old(self)@.added(
                id@,
                match slug {
                    Some(s) => s@,
                    None => id@,
                },
            ) {
                Ok(h) => r is Ok && final(self)@ == h,
                Err(e) => r matches Err(x) && x@ == e && final(self)@ == old(self)@,
            },
    {
        if let Some(problem) = validate_id(id) {
            return Err(AddError::Invalid(problem));
        }
        let slug = match slug {
            Some(s) => s,
            None => id,
        };
        if let Some(problem) = validate_slug(slug) {
            return Err(AddError::Invalid(problem));
        }
        if self.registry.slug_of(id).is_some() {
            return Err(AddError::IdTaken);
        }
        if self.registry.id_of_view(slug).is_some() {
            return Err(AddError::SlugTaken);
        }
        self.registry.push(id, slug);
        let s = new_stub();
        proof {
            lemma_sessions_push(self.sessions@, s);
        }
        self.sessions.push(s);
        assert(self@ =~= old(self)@.added(id@, slug@)->Ok_0);
        Ok(())
    }

    fn remove_place(&mut self, k: usize)
        requires
            old(self).wf(),
            k < old(self)@.known.len(),
        ensures
            final(self).wf(),
            final(self)@ == old(self)@.removed(k as int),
    {
        self.registry.remove_at(k);
        let _gone = self.sessions.remove(k);
        assert(session_views(self.sessions@) =~= old(self)@.sessions.remove(k as int));
        assert(self@ =~= old(self)@.removed(k as int));
    }

    /// Remove the session with this id, whatever its slug: whether there was one. Its pusher
    /// is to be let go.
    pub fn remove_by_id(&mut self, id: &str) -> (r: bool)
        requires
            old(self).wf(),
        ensures
            final(self).wf(),
            r == (slug_for(old(self)@.known, id@) is Some),
            final(self)@ == old(self)@.removed(place_of_id(old(self)@.known, id@)),
    {
        let k = self.registry.find_id(id);
        proof {
            lemma_place_of_id(self@.known, id@);
        }
        if k < self.registry.len() {
            self.remove_place(k);
            true
        } else {
            false
        }
    }

    /// Remove the session with this slug: its id, where there was one. A text that is only an
    /// id is no slug.
    pub fn remove_by_slug(&mut self, slug: &str) -> (r: Option<String>)
        requires
            old(self).wf(),
        ensures
            final(self).wf(),
            opt_text(r) == id_for(old(self)@.known, slug@),
            final(self)@ == old(self)@.removed(place_of_slug(old(self)@.known, slug@)),
    {
        let k = self.registry.find_slug(slug);
        proof {
            lemma_place_of_slug(self@.known, slug@);
        }
        if k < self.registry.len() {
            let (id, _slug) = self.registry.entry(k);
            let id = String::from_str(id);
            self.remove_place(k);
            Some(id)
        } else {
            None
        }
    }

    /// Every session: its id, its slug, and whether its operator is connected.
    pub fn list_sessions(&self) -> (r: Vec<(String, String, bool)>)
        requires
            self.wf(),
        ensures
            r@.len() == self@.known.len(),
            forall|i: int|
                0 <= i < r@.len() ==> (#[trigger] r@[i]).0@ == self@.known[i].id && r@[i].1@
                    == self@.known[i].slug && r@[i].2 == self@.sessions[i].online,
    {
        let mut out: Vec<(String, String, bool)> = Vec::new();
        let mut i: usize = 0;
        while i < self.registry.len()
            invariant
                self.wf(),
                i <= self@.known.len(),
                out@.len() == i,
                forall|j: int|
                    0 <= j < i ==> (#[trigger] out@[j]).0@ == self@.known[j].id && out@[j].1@
                        == self@.known[j].slug && out@[j].2 == self@.sessions[j].online,
            decreases self@.known.len() - i,
        {
            let (id, slug) = self.registry.entry(i);
            assert(self@.sessions[i as int] == self.sessions@[i as int].model());
            out.push(
                (String::from_str(id), String::from_str(slug), self.sessions[i].live.is_online()),
            );
            i += 1;
        }
        out
    }

    /// The frames of the session that a slug stands for.
    pub fn live(&self, slug: &str) -> (r: Option<&Live>)
        requires
            self.wf(),
        ensures
            r is Some <==> self@.viewed(slug@) is Some,
            r matches Some(l) ==> self@.viewed(slug@) matches Some(s) && l.shown() == s.shown
                && l.number() == s.number && l.connected() == s.online,
    {
        let k = self.registry.find_slug(slug);
        if k < self.sessions.len() {
            assert(self@.sessions[k as int] == self.sessions@[k as int].model());
            Some(&self.sessions[k].live)
        } else {
            None
        }
    }

    /// Show what a pushed message leads to: the number under which it goes to the viewers.
    /// `None` where the session is gone, the message cannot be applied, or the numbers are
    /// used up.
    pub fn publish_wire(&mut self, id: &str, msg: &WireMsg) -> (r: Option<u64>)
        requires
            old(self).wf(),
        ensures
            final(self).wf(),
            ({
                let h = old(self)@;
                let k = place_of_id(h.known, id@);
                if k < h.known.len() && h.sessions[k].number < u64::MAX && applied(
                    h.sessions[k].shown,
                    msg@,
                ) is Some {
                    &&& r == Some((h.sessions[k].number + 1) as u64)
                    &&& final(self)@ == h.with_session(
                        id@,
                        SessionView {
                            shown: applied(h.sessions[k].shown, msg@)->0,
                            number: (h.sessions[k].number + 1) as u64,
                            ..h.sessions[k]
                        },
                    )
                } else {
                    r is None && final(self)@ == h
                }
            }),
    {
        let k = self.registry.find_id(id);
        if k >= self.sessions.len() {
            return None;
        }
        let ghost h = self@;
        let ghost s = h.sessions[k as int];
        assert(s == self.sessions@[k as int].model());
        if self.sessions[k].live.seq() == u64::MAX {
            return None;
        }
        let mut session = self.sessions.remove(k);
        let r = session.live.publish_wire(msg);
        let ghost after = session.model();
        self.sessions.insert(k, session);
        assert(session_views(self.sessions@) =~= h.sessions.update(k as int, after));
        proof {
            assert(after.fonts == s.fonts);
            if r is None {
                assert(after =~= s);
                assert(h.sessions.update(k as int, after) =~= h.sessions);
                assert(self@ =~= h);
            } else {
                assert(after =~= (SessionView {
                    shown: applied(s.shown, msg@)->0,
                    number: (s.number + 1) as u64,
                    ..s
                }));
                assert(self@ =~= h.with_session(id@, after));
            }
        }
        r
    }

    /// The pusher of a session has gone: what it showed stays.
    pub fn pusher_gone(&mut self, id: &str)
        requires
            old(self).wf(),
        ensures
            final(self).wf(),
            ({
                let h = old(self)@;
                let k = place_of_id(h.known, id@);
                if k < h.known.len() {
                    final(self)@ == h.with_session(
                        id@,
                        SessionView { online: false, ..h.sessions[k] },
                    )
                } else {
                    final(self)@ == h
                }
            }),
    {
        let k = self.registry.find_id(id);
        if k >= self.sessions.len() {
            return;
        }
        let ghost h = self@;
        let ghost s = h.sessions[k as int];
        assert(s == self.sessions@[k as int].model());
        let mut session = self.sessions.remove(k);
        session.live.set_online(false);
        let ghost after = session.model();
        self.sessions.insert(k, session);
        assert(session_views(self.sessions@) =~= h.sessions.update(k as int, after));
        assert(after =~= (SessionView { online: false, ..s }));
        assert(self@ =~= h.with_session(id@, after));
    }

    /// A pusher registers a session: its styles, template and fonts take the place of those
    /// before, and its operator is connected. `None` where the session is not known any more;
    /// else the address to announce, the first time.
    pub fn register_session(&mut self, id: &str, base: &str, reg: RegisterBody) -> (r: Option<
        Option<String>,
    >)
        requires
            old(self).wf(),
        ensures
            final(self).wf(),
            ({
                let h = old(self)@;
                let k = place_of_id(h.known, id@);
                if k < h.known.len() {
                    &&& final(self)@ == h.with_session(
                        id@,
                        registered_session(
                            h.sessions[k],
                            reg.css@,
                            reg.font_css@,
                            reg.template@,
                            reg.render_cfg@,
                            decoded_fonts(crate::sfnt::asset_views(reg.fonts@)),
                        ),
                    )
                    &&& r matches Some(a) && opt_text(a) == (if h.sessions[k].registered {
                        None
                    } else {
                        Some(base@ + "/s/"@ + h.known[k].slug + "/"@)
                    })
                } else {
                    r is None && final(self)@ == h
                }
            }),
    {
        let k = self.registry.find_id(id);
        if k >= self.registry.len() {
            return None;
        }
        let fonts = decode_fonts(&reg.fonts);
        let css = rewrite_font_urls(reg.css.as_str());
        let font_css = rewrite_font_urls(reg.font_css.as_str());
        let (_id, slug) = self.registry.entry(k);
        let mut url = String::from_str(base);
        url.append("/s/");
        url.append(slug);
        url.append("/");
        let ghost h = self@;
        let ghost s = h.sessions[k as int];
        assert(s == self.sessions@[k as int].model());
        let mut session = self.sessions.remove(k);
        let first = !session.registered;
        session.css = css;
        session.font_css = font_css;
        session.template = reg.template;
        session.render_cfg = reg.render_cfg;
        session.fonts = fonts;
        session.registered = true;
        session.live.set_online(true);
        let ghost after = session.model();
        self.sessions.insert(k, session);
        proof {
            assert(session_views(self.sessions@) =~= h.sessions.update(k as int, after));
            assert(after =~= registered_session(
                s,
                reg.css@,
                reg.font_css@,
                reg.template@,
                reg.render_cfg@,
                decoded_fonts(crate::sfnt::asset_views(reg.fonts@)),
            ));
            assert(self@ =~= h.with_session(id@, after));
        }
        if first {
            Some(Some(url))
        } else {
            Some(None)
        }
    }

    /// A font of the session that a slug stands for: its MIME type and its bytes.
    pub fn font(&self, slug: &str, key: &str) -> (r: Option<(String, Vec<u8>)>)
        requires
            self.wf(),
        ensures
            served(r) == (match self@.viewed(slug@) {
                Some(s) => content_under(s.fonts, key@),
                None => None,
            }),
    {
        let k = self.registry.find_slug(slug);
        if k >= self.sessions.len() {
            return None;
        }
        assert(self@.sessions[k as int] == self.sessions@[k as int].model());
        find_asset(&self.sessions[k].fonts, key)
    }

    /// An uploaded image of the session that a slug stands for: its MIME type and its bytes.
    pub fn image(&self, slug: &str, key: &str) -> (r: Option<(String, Vec<u8>)>)
        requires
            self.wf(),
        ensures
            served(r) == (match self@.viewed(slug@) {
                Some(s) => content_under(s.images, key@),
                None => None,
            }),
    {
        let k = self.registry.find_slug(slug);
        if k >= self.sessions.len() {
            return None;
        }
        assert(self@.sessions[k as int] == self.sessions@[k as int].model());
        find_asset(&self.sessions[k].images, key)
    }

    /// The rules for the fonts of the session that a slug stands for.
    pub fn style_css(&self, slug: &str) -> (r: Option<String>)
        requires
            self.wf(),
        ensures
            opt_text(r) == (match self@.viewed(slug@) {
                Some(s) => Some(font_rules(s)),
                None => None,
            }),
    {
        let k = self.registry.find_slug(slug);
        if k >= self.sessions.len() {
            return None;
        }
        let s = &self.sessions[k];
        assert(self@.sessions[k as int] == self.sessions@[k as int].model());
        if s.font_css.as_str().is_empty() {
            Some(s.css.clone())
        } else {
            Some(s.font_css.clone())
        }
    }

    /// The tag of a session's page: viewers load the page anew when it changes.
    pub fn reload_tag(&self, id: &str) -> (r: Option<String>)
        requires
            self.wf(),
        ensures
            opt_text(r) == ({
                let k = place_of_id(self@.known, id@);
                if k < self@.known.len() {
                    Some(page_tag(self@.sessions[k]))
                } else {
                    None
                }
            }),
    {
        let k = self.registry.find_id(id);
        if k >= self.sessions.len() {
            return None;
        }
        let s = &self.sessions[k];
        assert(self@.sessions[k as int] == self.sessions@[k as int].model());
        let parts: [&str; 4] = [
            s.css.as_str(),
            s.font_css.as_str(),
            s.template.as_str(),
            s.render_cfg.as_str(),
        ];
        assert(str_views(parts@) =~= seq![s.css@, s.font_css@, s.template@, s.render_cfg@]);
        Some(config_tag(&parts))
    }

    /// Keep an image that a pusher uploads, under the key of its content. It goes to no viewer.
    pub fn store_image(&mut self, id: &str, blob: &BlobBody)
        requires
            old(self).wf(),
        ensures
            final(self).wf(),
            ({
                let h = old(self)@;
                let k = place_of_id(h.known, id@);
                if k < h.known.len() {
                    final(self)@ == h.with_session(
                        id@,
                        with_image(h.sessions[k], blob.m@, blob.d@),
                    )
                } else {
                    final(self)@ == h
                }
            }),
    {
        let k = self.registry.find_id(id);
        if k >= self.sessions.len() {
            return;
        }
        let ghost h = self@;
        let ghost s = h.sessions[k as int];
        assert(s == self.sessions@[k as int].model());
        let mut session = self.sessions.remove(k);
        if let Some(bytes) = standard_decode(blob.d.as_str()) {
            let key = content_key(blob.m.as_str(), bytes.as_slice());
            if find_asset(&session.images, key.as_str()).is_none() {
                let a = Asset { key, mime: blob.m.clone(), bytes };
                let ghost v = AssetView { key: a.key@, mime: a.mime@, bytes: a.bytes@ };
                session.images.push(a);
                assert(asset_contents(session.images@) =~= s.images.push(v));
            }
        }
        let ghost after = session.model();
        assert(after =~= with_image(s, blob.m@, blob.d@));
        self.sessions.insert(k, session);
        assert(session_views(self.sessions@) =~= h.sessions.update(k as int, after));
        assert(self@ =~= h.with_session(id@, after));
    }

    /// The page of the session that a slug stands for. One that no pusher has registered shows
    /// the built-in page with `default_css`, and loads anew when the operator comes. `tag` is
    /// the viewer's.
    pub fn view_page(&self, slug: &str, embed: bool, default_css: &str, tag: &str) -> (r: Option<
        String,
    >)
        requires
            self.wf(),
        ensures
            opt_text(r) == (match self@.viewed(slug@) {
                Some(s) => Some(session_page(s, embed, default_css@, tag@)),
                None => None,
            }),
    {
        let k = self.registry.find_slug(slug);
        if k >= self.sessions.len() {
            return None;
        }
        assert(self@.sessions[k as int] == self.sessions@[k as int].model());
        proof {
            reveal_strlit("");
            assert(""@ =~= Seq::<char>::empty());
        }
        let s = &self.sessions[k];
        if !s.registered {
            let mut script = sse_script("events", "", tag);
            script.append(RELOAD_SCRIPT);
            let template = if embed {
                EMBED_TEMPLATE
            } else {
                DEFAULT_TEMPLATE
            };
            return Some(page(template, default_css, "", script.as_str()));
        }
        let script = sse_script("events", s.render_cfg.as_str(), tag);
        let template = if embed {
            EMBED_TEMPLATE
        } else if s.template.as_str().is_empty() {
            DEFAULT_TEMPLATE
        } else {
            s.template.as_str()
        };
        Some(page(template, s.css.as_str(), "", script.as_str()))
    }

    /// Who a key lets push: the session id, or the status to answer with. 401 without a key,
    /// 403 for a key whose id is not known.
    pub fn authorize(&self, key: Option<&str>) -> (r: Result<String, u16>)
        requires
            key matches Some(k) ==> hashable(k@, self@.id_salt),
        ensures
            match key {
                None => r == Result::<String, u16>::Err(401),
                Some(k) => {
                    let id = derived_id(k@, SALT@, self@.id_salt);
                    if slug_for(self@.known, id) is Some {
                        r matches Ok(x) && x@ == id
                    } else {
                        r == Result::<String, u16>::Err(403)
                    }
                },
            },
    {
        match key {
            None => Err(401),
            Some(k) => {
                let id = session_id_ext(k, self.id_salt.as_str());
                if self.is_allowed(id.as_str()) {
                    Ok(id)
                } else {
                    Err(403)
                }
            },
        }
    }

    /// Whether a management request may go on, by its `Authorization` header; else the status
    /// to answer with. 404 where there is no management, 401 without a usable key, 403 for a
    /// key whose management id is not allowed.
    pub fn authorize_api(&self, header: Option<&str>) -> (r: Result<(), u16>)
        requires
            header matches Some(h) ==> hashable(h@.skip(7), self@.id_salt),
        ensures
            r == (if self@.api.len() == 0 {
                Result::<(), u16>::Err(404)
            } else {
                match bearer_key(header) {
                    None => Err(401),
                    Some(k) => if self@.api.contains(derived_id(k, API_SALT@, self@.id_salt)) {
                        Ok(())
                    } else {
                        Err(403)
                    },
                }
            }),
    {
        if self.api_allowed.len() == 0 {
            return Err(404);
        }
        assert(self@.api.len() > 0);
        proof {
            reveal_strlit("Bearer ");
            reveal_strlit("bearer ");
        }
        match header {
            None => Err(401),
            Some(h) => {
                let cs = chars_of(h);
                assert(cs@.skip(0) =~= cs@);
                if starts_at(&cs, 0, "Bearer ") || starts_at(&cs, 0, "bearer ") {
                    let part = slice_subrange(cs.as_slice(), 7, cs.len());
                    assert(part@ =~= cs@.skip(7));
                    let key = string_of(part);
                    let id = api_id_ext(key.as_str(), self.id_salt.as_str());
                    if among(&self.api_allowed, id.as_str()) {
                        Ok(())
                    } else {
                        Err(403)
                    }
                } else {
                    Err(401)
                }
            },
        }
    }
}

/// The key in an `Authorization` header.
pub open spec fn bearer_key(header: Option<&str>) -> Option<Seq<char>> {
    match header {
        None => None,
        Some(h) => if begins(h@, "Bearer "@) || begins(h@, "bearer "@) {
            Some(h@.skip(7))
        } else {
            None
        },
    }
}

/// What a page does that waits for its operator: load anew when the operator comes.
pub const RELOAD_SCRIPT: &'static str = "\n<script>new MutationObserver(() => {\nconst s = document.body.dataset.offline;\nif (s === undefined || s === \"\") location.reload();\n}).observe(document.body, { attributes: true, attributeFilter: [\"data-offline\"] });</script>";

/// The page of a session.
pub open spec fn session_page(
    s: SessionView,
    embed: bool,
    default_css: Seq<char>,
    tag: Seq<char>,
) -> Seq<char> {
    if !s.registered {
        page_of(
            if embed {
                EMBED_TEMPLATE@
            } else {
                DEFAULT_TEMPLATE@
            },
            default_css,
            Seq::empty(),
            boot_script("events"@, Seq::empty(), tag) + RELOAD_SCRIPT@,
        )
    } else {
        page_of(
            if embed {
                EMBED_TEMPLATE@
            } else if s.template.len() == 0 {
                DEFAULT_TEMPLATE@
            } else {
                s.template
            },
            s.css,
            Seq::empty(),
            boot_script("events"@, s.render_cfg, tag),
        )
    }
}

// ---- laws ----

/// A session that was added may push, is viewed by its slug, and shows that its operator is
/// away; every other session stays as it was.
pub proof fn law_added_session_is_known(h: HubView, id: Seq<char>, slug: Seq<char>)
    requires
        h.ok(),
        h.added(id, slug) is Ok,
    ensures
        ({
            let n = h.added(id, slug)->Ok_0;
            &&& n.ok()
            &&& slug_for(n.known, id) == Some(slug)
            &&& id_for(n.known, slug) == Some(id)
            &&& n.viewed(slug) == Some(stub())
            &&& forall|i: Seq<char>| i != id ==> #[trigger] slug_for(n.known, i) == slug_for(h.known, i)
            &&& forall|s: Seq<char>| s != slug ==> #[trigger] n.viewed(s) == h.viewed(s)
        }),
{
    let n = h.added(id, slug)->Ok_0;
    let e = Known { id, slug };
    crate::registry::lemma_registry_push(h.known, e);
    lemma_place_of_id(h.known, id);
    lemma_place_of_slug(h.known, slug);
    lemma_place_pushed(h.known, e, id, slug);
    lemma_place_of_id(n.known, id);
    lemma_place_of_slug(n.known, slug);
    assert forall|i: Seq<char>| i != id implies #[trigger] slug_for(n.known, i) == slug_for(
        h.known,
        i,
    ) by {
        lemma_slug_for_pushed(h.known, e, i);
    }
    assert forall|s: Seq<char>| s != slug implies #[trigger] n.viewed(s) == h.viewed(s) by {
        lemma_place_of_slug(h.known, s);
        lemma_place_pushed(h.known, e, id, s);
        lemma_place_of_slug(n.known, s);
        let k = place_of_slug(h.known, s);
        if k < h.known.len() {
            assert(n.sessions[k] == h.sessions[k]);
        }
    }
}

proof fn lemma_slug_for_pushed(s: Seq<Known>, e: Known, id: Seq<char>)
    requires
        id != e.id,
    ensures
        slug_for(s.push(e), id) == slug_for(s, id),
    decreases s.len(),
{
    let t = s.push(e);
    if s.len() > 0 {
        assert(t.drop_first() =~= s.drop_first().push(e));
        lemma_slug_for_pushed(s.drop_first(), e, id);
    } else {
        assert(t.drop_first() =~= Seq::<Known>::empty());
        assert(slug_for(t.drop_first(), id) is None);
    }
}

proof fn lemma_place_pushed(s: Seq<Known>, e: Known, id: Seq<char>, slug: Seq<char>)
    ensures
        place_of_id(s.push(e), id) == (if place_of_id(s, id) < s.len() || id == e.id {
            place_of_id(s, id)
        } else {
            s.len() as int + 1
        }),
        place_of_slug(s.push(e), slug) == (if place_of_slug(s, slug) < s.len() || slug == e.slug {
            place_of_slug(s, slug)
        } else {
            s.len() as int + 1
        }),
    decreases s.len(),
{
    let t = s.push(e);
    if s.len() > 0 {
        assert(t.drop_first() =~= s.drop_first().push(e));
        lemma_place_pushed(s.drop_first(), e, id, slug);
        lemma_place_of_id(s.drop_first(), id);
        lemma_place_of_slug(s.drop_first(), slug);
    } else {
        assert(t.drop_first() =~= Seq::<Known>::empty());
        assert(place_of_id(t.drop_first(), id) == 0);
        assert(place_of_slug(t.drop_first(), slug) == 0);
    }
}

/// A session that was removed, by its id or by its slug, may not push and is viewed no more.
pub proof fn law_removed_session_is_gone(h: HubView, id: Seq<char>, slug: Seq<char>)
    requires
        h.ok(),
        slug_for(h.known, id) == Some(slug),
    ensures
        h.removed(place_of_id(h.known, id)) == h.removed(place_of_slug(h.known, slug)),
        ({
            let n = h.removed(place_of_id(h.known, id));
            &&& n.ok()
            &&& slug_for(n.known, id) is None
            &&& id_for(n.known, slug) is None
            &&& n.viewed(slug) is None
        }),
{
    crate::registry::law_directions_agree(h.known, id, slug);
    lemma_place_of_id(h.known, id);
    lemma_place_of_slug(h.known, slug);
    let k = place_of_id(h.known, id);
    let b = place_of_slug(h.known, slug);
    if k < b {
        assert(h.known[k].slug != slug);
    }
    if b < k {
        assert(h.known[b].id != id);
        assert(h.known[b].slug != h.known[k].slug);
    }
    crate::registry::lemma_registry_remove(h.known, k);
    let n = h.removed(k);
    lemma_place_of_id(n.known, id);
    lemma_place_of_slug(n.known, slug);
    let i = place_of_id(n.known, id);
    let j = place_of_slug(n.known, slug);
    if i < n.known.len() {
        let o = if i < k {
            i
        } else {
            i + 1
        };
        assert(n.known[i] == h.known[o]);
        assert(h.known[o].id == h.known[k].id);
        if o < k {
            assert(h.known[o].id != h.known[k].id);
        } else {
            assert(h.known[k].id != h.known[o].id);
        }
    }
    if j < n.known.len() {
        let o = if j < k {
            j
        } else {
            j + 1
        };
        assert(n.known[j] == h.known[o]);
        assert(h.known[o].slug == h.known[k].slug);
        if o < k {
            assert(h.known[o].slug != h.known[k].slug);
        } else {
            assert(h.known[k].slug != h.known[o].slug);
        }
    }
}

/// What is no slug removes nothing, even where it is an id.
pub proof fn law_wrong_name_removes_nothing(h: HubView, name: Seq<char>)
    requires
        id_for(h.known, name) is None,
    ensures
        h.removed(place_of_slug(h.known, name)) == h,
{
    lemma_place_of_slug(h.known, name);
}

/// Registering again keeps what is shown, and the images in it: viewers go on from where they
/// were.
pub proof fn law_registering_keeps_the_frame(
    s: SessionView,
    css: Seq<char>,
    font_css: Seq<char>,
    template: Seq<char>,
    render_cfg: Seq<char>,
    fonts: Seq<AssetView>,
)
    ensures
        ({
            let n = registered_session(s, css, font_css, template, render_cfg, fonts);
            n.shown == s.shown && n.number == s.number && n.images == s.images && n.online
                && n.registered
        }),
{
}

/// An uploaded image is served under the key of its content, whatever was there before and
/// whoever claims what: the key comes from the bytes.
pub proof fn law_uploaded_image_is_served(s: SessionView, mime: Seq<char>, data: Seq<char>)
    ensures
        ({
            let n = with_image(s, mime, data);
            match standard_b64_bytes(data) {
                Some(b) => {
                    let key = key_of_content(mime, b);
                    &&& asset_under(n.images, key) is Some
                    &&& asset_under(s.images, key) is None ==> content_under(n.images, key) == Some(
                        (mime, b),
                    )
                    &&& n.shown == s.shown && n.number == s.number
                    &&& with_image(n, mime, data) == n
                },
                None => n == s,
            }
        }),
{
    let n = with_image(s, mime, data);
    if let Some(b) = standard_b64_bytes(data) {
        let key = key_of_content(mime, b);
        if asset_under(s.images, key) is None {
            assert(n.images.last() == (AssetView { key, mime, bytes: b }));
        }
    }
}

/// An image that is there stays, whatever is uploaded later.
pub proof fn law_uploaded_image_stays(
    s: SessionView,
    key: Seq<char>,
    mime: Seq<char>,
    data: Seq<char>,
)
    requires
        asset_under(s.images, key) is Some,
    ensures
        asset_under(with_image(s, mime, data).images, key) == asset_under(s.images, key),
{
    let n = with_image(s, mime, data);
    if n.images.len() > s.images.len() {
        assert(n.images.drop_last() =~= s.images);
    }
}

} // verus!
