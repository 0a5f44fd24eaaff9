//! Which sessions a hub knows: the id that may push, and the slug that views go by.
//!
//! An id is what `session_id` gives, 64 digits of lower-case hexadecimal. A slug is a part of
//! a URL. No two sessions share an id or a slug; a session without an alias goes by its id.
use crate::proto::lower_hex64;
use crate::text::{chars_of, dec, find_char, push_dec, same_text, split_once, string_of};
use vstd::prelude::*;
use vstd::slice::slice_subrange;
use vstd::string::*;

verus! {

/// How `std` shows a text for debugging: in quotes, with escapes.
pub uninterp spec fn debug_text(s: Seq<char>) -> Seq<char>;

/// `std::fmt::Debug` of a text: the result is [`debug_text`].
#[verifier::external_body]
pub(crate) fn debug_quoted(s: &str) -> (r: String)
    ensures
        r@ == debug_text(s@),
{
    format!("{s:?}")
}

/// Whether a character may stand in a slug.
pub open spec fn slug_char(c: char) -> bool {
    ||| '0' <= c && c <= '9'
    ||| 'a' <= c && c <= 'z'
    ||| 'A' <= c && c <= 'Z'
    ||| c == '-'
    ||| c == '_'
    ||| c == '.'
    ||| c == '~'
}

/// Whether every character may stand in a slug.
pub open spec fn slug_chars(s: Seq<char>) -> bool {
    forall|i: int| 0 <= i < s.len() ==> slug_char(#[trigger] s[i])
}

/// Whether a text is a slug: not empty, and of characters that a URL takes as they are.
pub open spec fn valid_slug(s: Seq<char>) -> bool {
    s.len() > 0 && slug_chars(s)
}

/// What is wrong with an id.
pub open spec fn id_problem(id: Seq<char>) -> Option<Seq<char>> {
    if lower_hex64(id) {
        None
    } else {
        Some("session id must be 64 lowercase hex chars (from `print-id`), got "@ + debug_text(id))
    }
}

/// What is wrong with a slug.
pub open spec fn slug_problem(slug: Seq<char>) -> Option<Seq<char>> {
    if slug.len() == 0 {
        Some("slug must not be empty (use `--allow <id>` for no alias)"@)
    } else if !slug_chars(slug) {
        Some("slug "@ + debug_text(slug) + " must be URL-safe: only letters, digits, and -._~"@)
    } else {
        None
    }
}

/// The text of an optional string.
pub open spec fn opt_text(s: Option<String>) -> Option<Seq<char>> {
    match s {
        Some(t) => Some(t@),
        None => None,
    }
}

/// Whether a text is 64 digits of lower-case hexadecimal.
pub fn is_hex64(s: &[char]) -> (r: bool)
    ensures
        r == lower_hex64(s@),
{
    if s.len() != 64 {
        return false;
    }
    let mut i: usize = 0;
    while i < s.len()
        invariant
            i <= s@.len(),
            s@.len() == 64,
            forall|j: int|
                0 <= j < i ==> ('0' <= #[trigger] s@[j] && s@[j] <= '9') || ('a' <= s@[j] && s@[j]
                    <= 'f'),
        decreases s@.len() - i,
    {
        let c = s[i];
        if !(('0' <= c && c <= '9') || ('a' <= c && c <= 'f')) {
            assert(!(('0' <= s@[i as int] && s@[i as int] <= '9') || ('a' <= s@[i as int]
                && s@[i as int] <= 'f')));
            return false;
        }
        i += 1;
    }
    true
}

/// What is wrong with an id; `None` where nothing is.
pub fn validate_id(id: &str) -> (r: Option<String>)
    ensures
        opt_text(r) == id_problem(id@),
{
    let cs = chars_of(id);
    if is_hex64(cs.as_slice()) {
        return None;
    }
    let mut m = String::from_str(
        "session id must be 64 lowercase hex chars (from `print-id`), got ",
    );
    m.append(debug_quoted(id).as_str());
    Some(m)
}

fn all_slug_chars(s: &Vec<char>) -> (r: bool)
    ensures
        r == slug_chars(s@),
{
    let mut i: usize = 0;
    while i < s.len()
        invariant
            i <= s@.len(),
            forall|j: int| 0 <= j < i ==> slug_char(#[trigger] s@[j]),
        decreases s@.len() - i,
    {
        let c = s[i];
        let ok = ('0' <= c && c <= '9') || ('a' <= c && c <= 'z') || ('A' <= c && c <= 'Z') || c
            == '-' || c == '_' || c == '.' || c == '~';
        if !ok {
            assert(!slug_char(s@[i as int]));
            return false;
        }
        i += 1;
    }
    true
}

/// What is wrong with a slug; `None` where nothing is.
pub fn validate_slug(slug: &str) -> (r: Option<String>)
    ensures
        opt_text(r) == slug_problem(slug@),
{
    let cs = chars_of(slug);
    if cs.len() == 0 {
        return Some(String::from_str("slug must not be empty (use `--allow <id>` for no alias)"));
    }
    if !all_slug_chars(&cs) {
        let mut m = String::from_str("slug ");
        m.append(debug_quoted(slug).as_str());
        m.append(" must be URL-safe: only letters, digits, and -._~");
        return Some(m);
    }
    None
}

/// A session: its id and its slug.
pub ghost struct Known {
    pub id: Seq<char>,
    pub slug: Seq<char>,
}

/// The slug of an id.
pub open spec fn slug_for(s: Seq<Known>, id: Seq<char>) -> Option<Seq<char>>
    decreases s.len(),
{
    if s.len() == 0 {
        None
    } else if s[0].id == id {
        Some(s[0].slug)
    } else {
        slug_for(s.drop_first(), id)
    }
}

/// The id that a slug stands for.
pub open spec fn id_for(s: Seq<Known>, slug: Seq<char>) -> Option<Seq<char>>
    decreases s.len(),
{
    if s.len() == 0 {
        None
    } else if s[0].slug == slug {
        Some(s[0].id)
    } else {
        id_for(s.drop_first(), slug)
    }
}

/// The place of an id.
pub open spec fn place_of_id(s: Seq<Known>, id: Seq<char>) -> int
    decreases s.len(),
{
    if s.len() == 0 || s[0].id == id {
        0
    } else {
        1 + place_of_id(s.drop_first(), id)
    }
}

/// The place of a slug.
pub open spec fn place_of_slug(s: Seq<Known>, slug: Seq<char>) -> int
    decreases s.len(),
{
    if s.len() == 0 || s[0].slug == slug {
        0
    } else {
        1 + place_of_slug(s.drop_first(), slug)
    }
}

/// What `place_of_id` and `slug_for` say of each other.
pub proof fn lemma_place_of_id(s: Seq<Known>, id: Seq<char>)
    ensures
        0 <= place_of_id(s, id) <= s.len(),
        forall|i: int| 0 <= i < place_of_id(s, id) ==> (#[trigger] s[i]).id != id,
        place_of_id(s, id) < s.len() ==> s[place_of_id(s, id)].id == id && slug_for(s, id) == Some(
            s[place_of_id(s, id)].slug,
        ),
        place_of_id(s, id) == s.len() <==> slug_for(s, id) is None,
    decreases s.len(),
{
    if s.len() > 0 && s[0].id != id {
        let t = s.drop_first();
        lemma_place_of_id(t, id);
        assert forall|i: int| 0 <= i < place_of_id(s, id) implies (#[trigger] s[i]).id != id by {
            if i > 0 {
                assert(t[i - 1] == s[i]);
            }
        }
    }
}

/// What `place_of_slug` and `id_for` say of each other.
pub proof fn lemma_place_of_slug(s: Seq<Known>, slug: Seq<char>)
    ensures
        0 <= place_of_slug(s, slug) <= s.len(),
        forall|i: int| 0 <= i < place_of_slug(s, slug) ==> (#[trigger] s[i]).slug != slug,
        place_of_slug(s, slug) < s.len() ==> s[place_of_slug(s, slug)].slug == slug && id_for(s, slug)
            == Some(s[place_of_slug(s, slug)].id),
        place_of_slug(s, slug) == s.len() <==> id_for(s, slug) is None,
    decreases s.len(),
{
    if s.len() > 0 && s[0].slug != slug {
        let t = s.drop_first();
        lemma_place_of_slug(t, slug);
        assert forall|i: int| 0 <= i < place_of_slug(s, slug) implies (#[trigger] s[i]).slug
            != slug by {
            if i > 0 {
                assert(t[i - 1] == s[i]);
            }
        }
    }
}

/// What holds of every registry: ids and slugs are well-formed, and none stands twice.
pub open spec fn registry_ok(s: Seq<Known>) -> bool {
    &&& forall|i: int|
        0 <= i < s.len() ==> lower_hex64(#[trigger] s[i].id) && valid_slug(s[i].slug)
    &&& forall|i: int, j: int|
        0 <= i < j < s.len() ==> (#[trigger] s[i]).id != (#[trigger] s[j]).id && s[i].slug != s[j].slug
}

/// Sessions that may push, with their slugs.
pub struct AllowConfig {
    entries: Vec<(String, String)>,
}

spec fn known_views(s: Seq<(String, String)>) -> Seq<Known> {
    Seq::new(s.len(), |i: int| Known { id: s[i].0@, slug: s[i].1@ })
}

impl View for AllowConfig {
    type V = Seq<Known>;

    closed spec fn view(&self) -> Seq<Known> {
        known_views(self.entries@)
    }
}

/// A registry without an entry that had the id or the slug, with that entry.
pub proof fn lemma_registry_push(s: Seq<Known>, e: Known)
    requires
        registry_ok(s),
        lower_hex64(e.id),
        valid_slug(e.slug),
        slug_for(s, e.id) is None,
        id_for(s, e.slug) is None,
    ensures
        registry_ok(s.push(e)),
{
    lemma_place_of_id(s, e.id);
    lemma_place_of_slug(s, e.slug);
    let t = s.push(e);
    assert forall|i: int, j: int| 0 <= i < j < t.len() implies (#[trigger] t[i]).id != (
    #[trigger] t[j]).id && t[i].slug != t[j].slug by {
        assert(t[i] == s[i]);
        if j < s.len() {
            assert(t[j] == s[j]);
        }
    }
    assert forall|i: int| 0 <= i < t.len() implies lower_hex64(#[trigger] t[i].id) && valid_slug(
        t[i].slug,
    ) by {
        if i < s.len() {
            assert(t[i] == s[i]);
        }
    }
}

/// A registry without one of its entries.
pub proof fn lemma_registry_remove(s: Seq<Known>, k: int)
    requires
        registry_ok(s),
        0 <= k < s.len(),
    ensures
        registry_ok(s.remove(k)),
{
    let t = s.remove(k);
    assert forall|i: int| 0 <= i < t.len() implies lower_hex64(#[trigger] t[i].id) && valid_slug(
        t[i].slug,
    ) by {
        if i < k {
            assert(t[i] == s[i]);
        } else {
            assert(t[i] == s[i + 1]);
        }
    }
    assert forall|i: int, j: int| 0 <= i < j < t.len() implies (#[trigger] t[i]).id != (
    #[trigger] t[j]).id && t[i].slug != t[j].slug by {
        let a = if i < k {
            i
        } else {
            i + 1
        };
        let b = if j < k {
            j
        } else {
            j + 1
        };
        assert(t[i] == s[a] && t[j] == s[b]);
    }
}

impl AllowConfig {
    /// What holds of every registry.
    pub open spec fn wf(&self) -> bool {
        registry_ok(self@)
    }

    /// No sessions.
    pub fn new() -> (r: Self)
        ensures
            r@ == Seq::<Known>::empty(),
            r.wf(),
    {
        let r = AllowConfig { entries: Vec::new() };
        assert(r@ =~= Seq::<Known>::empty());
        r
    }

    /// Whether no session may push.
    pub fn is_empty(&self) -> (r: bool)
        ensures
            r == (self@.len() == 0),
    {
        self.entries.len() == 0
    }

    /// How many sessions there are.
    pub fn len(&self) -> (r: usize)
        ensures
            r == self@.len(),
    {
        self.entries.len()
    }

    /// The id and the slug of a session.
    pub fn entry(&self, i: usize) -> (r: (&str, &str))
        requires
            i < self@.len(),
        ensures
            self@[i as int] == (Known { id: r.0@, slug: r.1@ }),
    {
        (self.entries[i].0.as_str(), self.entries[i].1.as_str())
    }

    /// The place of an id, or the number of sessions.
    pub fn find_id(&self, id: &str) -> (r: usize)
        ensures
            r == place_of_id(self@, id@),
            r <= self@.len(),
    {
        let mut i: usize = 0;
        assert(self@.skip(0) =~= self@);
        while i < self.entries.len()
            invariant
                i <= self.entries@.len(),
                place_of_id(self@, id@) == i + place_of_id(self@.skip(i as int), id@),
            decreases self.entries@.len() - i,
        {
            assert(self@.skip(i as int)[0] == self@[i as int]);
            assert(self@.skip(i as int).drop_first() =~= self@.skip(i + 1));
            if same_text(self.entries[i].0.as_str(), id) {
                return i;
            }
            i += 1;
        }
        i
    }

    /// The place of a slug, or the number of sessions.
    pub fn find_slug(&self, slug: &str) -> (r: usize)
        ensures
            r == place_of_slug(self@, slug@),
            r <= self@.len(),
    {
        let mut i: usize = 0;
        assert(self@.skip(0) =~= self@);
        while i < self.entries.len()
            invariant
                i <= self.entries@.len(),
                place_of_slug(self@, slug@) == i + place_of_slug(self@.skip(i as int), slug@),
            decreases self.entries@.len() - i,
        {
            assert(self@.skip(i as int)[0] == self@[i as int]);
            assert(self@.skip(i as int).drop_first() =~= self@.skip(i + 1));
            if same_text(self.entries[i].1.as_str(), slug) {
                return i;
            }
            i += 1;
        }
        i
    }

    /// The slug of an id.
    pub fn slug_of(&self, id: &str) -> (r: Option<&str>)
        ensures
            r is Some <==> slug_for(self@, id@) is Some,
            r matches Some(s) ==> slug_for(self@, id@) == Some(s@),
    {
        let k = self.find_id(id);
        proof {
            lemma_place_of_id(self@, id@);
        }
        if k < self.entries.len() {
            Some(self.entries[k].1.as_str())
        } else {
            None
        }
    }

    /// The id that a slug stands for.
    pub fn id_of_view(&self, slug: &str) -> (r: Option<&str>)
        ensures
            r is Some <==> id_for(self@, slug@) is Some,
            r matches Some(s) ==> id_for(self@, slug@) == Some(s@),
    {
        let k = self.find_slug(slug);
        proof {
            lemma_place_of_slug(self@, slug@);
        }
        if k < self.entries.len() {
            Some(self.entries[k].0.as_str())
        } else {
            None
        }
    }

    /// Add a session that is not there.
    pub(crate) fn push(&mut self, id: &str, slug: &str)
        requires
            old(self).wf(),
            lower_hex64(id@),
            valid_slug(slug@),
            slug_for(old(self)@, id@) is None,
            id_for(old(self)@, slug@) is None,
        ensures
            final(self)@ == old(self)@.push(Known { id: id@, slug: slug@ }),
            final(self).wf(),
    {
        let ghost e = Known { id: id@, slug: slug@ };
        proof {
            lemma_registry_push(self@, e);
        }
        self.entries.push((String::from_str(id), String::from_str(slug)));
        assert(self@ =~= old(self)@.push(e));
    }

    /// Remove the session at a place.
    pub(crate) fn remove_at(&mut self, k: usize)
        requires
            old(self).wf(),
            k < old(self)@.len(),
        ensures
            final(self)@ == old(self)@.remove(k as int),
            final(self).wf(),
    {
        proof {
            lemma_registry_remove(self@, k as int);
        }
        let _gone = self.entries.remove(k);
        assert(self@ =~= old(self)@.remove(k as int));
    }
}

/// Why a session cannot be known.
#[derive(Debug)]
pub enum AllowError {
    /// The id or the slug of an entry is not well-formed.
    Invalid { entry: String, problem: String },
    /// An id stands twice.
    DuplicateId(String),
    /// Two sessions claim a slug.
    DuplicateSlug { slug: String, other: String, id: String },
}

/// The model of [`AllowError`].
pub ghost enum AllowFailure {
    Invalid { entry: Seq<char>, problem: Seq<char> },
    DuplicateId(Seq<char>),
    DuplicateSlug { slug: Seq<char>, other: Seq<char>, id: Seq<char> },
}

impl View for AllowError {
    type V = AllowFailure;

    open spec fn view(&self) -> AllowFailure {
        match self {
            AllowError::Invalid { entry, problem } => AllowFailure::Invalid {
                entry: entry@,
                problem: problem@,
            },
            AllowError::DuplicateId(id) => AllowFailure::DuplicateId(id@),
            AllowError::DuplicateSlug { slug, other, id } => AllowFailure::DuplicateSlug {
                slug: slug@,
                other: other@,
                id: id@,
            },
        }
    }
}

/// What a failure says of the option that named the sessions.
pub open spec fn allow_text(e: AllowFailure, option: Seq<char>, noun: Seq<char>) -> Seq<char> {
    match e {
        AllowFailure::Invalid { entry, problem } => option + " entry "@ + debug_text(entry) + ": "@
            + problem,
        AllowFailure::DuplicateId(id) => option + " lists "@ + noun + " "@ + id
            + " more than once"@,
        AllowFailure::DuplicateSlug { slug, other, id } => option + " slug "@ + debug_text(slug)
            + " is claimed by two sessions ("@ + other + " and "@ + id + ")"@,
    }
}

impl AllowError {
    /// What the failure says of the option that named the sessions; `noun` is what it names.
    pub fn text(&self, option: &str, noun: &str) -> (r: String)
        ensures
            r@ == allow_text(self@, option@, noun@),
    {
        let mut r = String::from_str(option);
        match self {
            AllowError::Invalid { entry, problem } => {
                r.append(" entry ");
                r.append(debug_quoted(entry.as_str()).as_str());
                r.append(": ");
                r.append(problem.as_str());
            },
            AllowError::DuplicateId(id) => {
                r.append(" lists ");
                r.append(noun);
                r.append(" ");
                r.append(id.as_str());
                r.append(" more than once");
            },
            AllowError::DuplicateSlug { slug, other, id } => {
                r.append(" slug ");
                r.append(debug_quoted(slug.as_str()).as_str());
                r.append(" is claimed by two sessions (");
                r.append(other.as_str());
                r.append(" and ");
                r.append(id.as_str());
                r.append(")");
            },
        }
        r
    }
}

/// A registry with one more session, or why it cannot be.
pub open spec fn admitted(s: Seq<Known>, entry: Seq<char>, id: Seq<char>, slug: Seq<char>) -> Result<
    Seq<Known>,
    AllowFailure,
> {
    if id_problem(id) is Some {
        Err(AllowFailure::Invalid { entry, problem: id_problem(id)->0 })
    } else if slug_problem(slug) is Some {
        Err(AllowFailure::Invalid { entry, problem: slug_problem(slug)->0 })
    } else if slug_for(s, id) is Some {
        Err(AllowFailure::DuplicateId(id))
    } else if id_for(s, slug) is Some {
        Err(AllowFailure::DuplicateSlug { slug, other: id_for(s, slug)->0, id })
    } else {
        Ok(s.push(Known { id, slug }))
    }
}

/// The id and the slug of an entry `id:slug`; an entry without a colon is both.
pub open spec fn entry_parts(entry: Seq<char>) -> (Seq<char>, Seq<char>) {
    match split_once(entry, ':') {
        Some((a, b)) => (a, b),
        None => (entry, entry),
    }
}

/// The registry that entries give, or what is wrong with the first bad one.
pub open spec fn allowed(entries: Seq<Seq<char>>) -> Result<Seq<Known>, AllowFailure>
    decreases entries.len(),
{
    if entries.len() == 0 {
        Ok(Seq::empty())
    } else {
        match allowed(entries.drop_last()) {
            Ok(s) => {
                let (id, slug) = entry_parts(entries.last());
                admitted(s, entries.last(), id, slug)
            },
            Err(e) => Err(e),
        }
    }
}

proof fn lemma_allowed_fails(entries: Seq<Seq<char>>, k: int)
    requires
        0 <= k <= entries.len(),
        allowed(entries.take(k)) is Err,
    ensures
        allowed(entries) == allowed(entries.take(k)),
    decreases entries.len() - k,
{
    if k < entries.len() {
        assert(entries.take(k + 1).drop_last() =~= entries.take(k));
        lemma_allowed_fails(entries, k + 1);
    } else {
        assert(entries.take(k) =~= entries);
    }
}

fn take_in(cfg: &mut AllowConfig, entry: &str, id: &str, slug: &str) -> (r: Result<(), AllowError>)
    requires
        old(cfg).wf(),
    ensures
        final(cfg).wf(),
        match admitted(old(cfg)@, entry@, id@, slug@) {
            Ok(s) => r is Ok && final(cfg)@ == s,
            Err(e) => r matches Err(x) && x@ == e && final(cfg)@ == old(cfg)@,
        },
{
    if let Some(problem) = validate_id(id) {
        return Err(AllowError::Invalid { entry: String::from_str(entry), problem });
    }
    if let Some(problem) = validate_slug(slug) {
        return Err(AllowError::Invalid { entry: String::from_str(entry), problem });
    }
    if cfg.slug_of(id).is_some() {
        return Err(AllowError::DuplicateId(String::from_str(id)));
    }
    if let Some(other) = cfg.id_of_view(slug) {
        return Err(
            AllowError::DuplicateSlug {
                slug: String::from_str(slug),
                other: String::from_str(other),
                id: String::from_str(id),
            },
        );
    }
    cfg.push(id, slug);
    Ok(())
}

/// The models of texts.
pub open spec fn entry_texts(s: Seq<String>) -> Seq<Seq<char>> {
    Seq::new(s.len(), |i: int| s[i]@)
}

/// Read the sessions that may push, each as `id` or `id:slug`. The first that is not
/// well-formed, or that claims what another one has, is an error.
pub fn parse_allow(entries: &Vec<String>) -> (r: Result<AllowConfig, AllowError>)
    ensures
        match allowed(entry_texts(entries@)) {
            Ok(s) => r matches Ok(c) && c@ == s && c.wf(),
            Err(e) => r matches Err(x) && x@ == e,
        },
{
    let ghost all = entry_texts(entries@);
    let mut cfg = AllowConfig::new();
    let mut i: usize = 0;
    assert(all.take(0) =~= Seq::<Seq<char>>::empty());
    while i < entries.len()
        invariant
            i <= entries@.len(),
            all == entry_texts(entries@),
            cfg.wf(),
            allowed(all.take(i as int)) == Result::<Seq<Known>, AllowFailure>::Ok(cfg@),
        decreases entries@.len() - i,
    {
        let entry = &entries[i];
        let cs = chars_of(entry.as_str());
        let k = find_char(cs.as_slice(), ':');
        let (id, slug) = if k < cs.len() {
            let a = slice_subrange(cs.as_slice(), 0, k);
            let b = slice_subrange(cs.as_slice(), k + 1, cs.len());
            assert(a@ =~= cs@.take(k as int));
            assert(b@ =~= cs@.skip(k + 1));
            (string_of(a), string_of(b))
        } else {
            (entry.clone(), entry.clone())
        };
        assert((id@, slug@) == entry_parts(entry@));
        assert(all.take(i + 1).drop_last() =~= all.take(i as int));
        assert(all.take(i + 1).last() == entry@);
        match take_in(&mut cfg, entry.as_str(), id.as_str(), slug.as_str()) {
            Ok(()) => {
                i += 1;
            },
            Err(e) => {
                proof {
                    lemma_allowed_fails(all, i + 1);
                }
                return Err(e);
            },
        }
    }
    assert(all.take(i as int) =~= all);
    Ok(cfg)
}

/// Read the management ids that are allowed, or what is wrong with the first bad one.
pub open spec fn api_allowed(entries: Seq<Seq<char>>) -> Result<Seq<Seq<char>>, AllowFailure>
    decreases entries.len(),
{
    if entries.len() == 0 {
        Ok(Seq::empty())
    } else {
        match api_allowed(entries.drop_last()) {
            Ok(s) => {
                let id = entries.last();
                if id_problem(id) is Some {
                    Err(AllowFailure::Invalid { entry: id, problem: id_problem(id)->0 })
                } else if s.contains(id) {
                    Err(AllowFailure::DuplicateId(id))
                } else {
                    Ok(s.push(id))
                }
            },
            Err(e) => Err(e),
        }
    }
}

proof fn lemma_api_allowed_fails(entries: Seq<Seq<char>>, k: int)
    requires
        0 <= k <= entries.len(),
        api_allowed(entries.take(k)) is Err,
    ensures
        api_allowed(entries) == api_allowed(entries.take(k)),
    decreases entries.len() - k,
{
    if k < entries.len() {
        assert(entries.take(k + 1).drop_last() =~= entries.take(k));
        lemma_api_allowed_fails(entries, k + 1);
    } else {
        assert(entries.take(k) =~= entries);
    }
}

/// Whether a text is among others.
pub fn among(v: &Vec<String>, t: &str) -> (r: bool)
    ensures
        r == entry_texts(v@).contains(t@),
{
    let mut i: usize = 0;
    while i < v.len()
        invariant
            i <= v@.len(),
            forall|j: int| 0 <= j < i ==> #[trigger] entry_texts(v@)[j] != t@,
        decreases v@.len() - i,
    {
        if same_text(v[i].as_str(), t) {
            assert(entry_texts(v@)[i as int] == t@);
            return true;
        }
        i += 1;
    }
    false
}

/// Read the management ids that are allowed. An id that is not well-formed, or stands twice,
/// is an error.
pub fn parse_api_allow(entries: &Vec<String>) -> (r: Result<Vec<String>, AllowError>)
    ensures
        match api_allowed(entry_texts(entries@)) {
            Ok(s) => r matches Ok(v) && entry_texts(v@) == s,
            Err(e) => r matches Err(x) && x@ == e,
        },
{
    let ghost all = entry_texts(entries@);
    let mut out: Vec<String> = Vec::new();
    let mut i: usize = 0;
    assert(all.take(0) =~= Seq::<Seq<char>>::empty());
    assert(entry_texts(out@) =~= Seq::<Seq<char>>::empty());
    while i < entries.len()
        invariant
            i <= entries@.len(),
            all == entry_texts(entries@),
            api_allowed(all.take(i as int)) == Result::<Seq<Seq<char>>, AllowFailure>::Ok(
                entry_texts(out@),
            ),
        decreases entries@.len() - i,
    {
        let id = &entries[i];
        assert(all.take(i + 1).drop_last() =~= all.take(i as int));
        assert(all.take(i + 1).last() == id@);
        if let Some(problem) = validate_id(id.as_str()) {
            proof {
                lemma_api_allowed_fails(all, i + 1);
            }
            return Err(AllowError::Invalid { entry: id.clone(), problem });
        }
        if among(&out, id.as_str()) {
            proof {
                lemma_api_allowed_fails(all, i + 1);
            }
            return Err(AllowError::DuplicateId(id.clone()));
        }
        let ghost was = entry_texts(out@);
        out.push(id.clone());
        assert(entry_texts(out@) =~= was.push(id@));
        i += 1;
    }
    assert(all.take(i as int) =~= all);
    Ok(out)
}

/// Whatever entries are read, the registry is well-formed: no id and no slug stands twice.
pub proof fn law_read_registry_is_ok(entries: Seq<Seq<char>>)
    ensures
        allowed(entries) matches Ok(s) ==> registry_ok(s),
    decreases entries.len(),
{
    if entries.len() > 0 {
        law_read_registry_is_ok(entries.drop_last());
        if let Ok(s) = allowed(entries.drop_last()) {
            let (id, slug) = entry_parts(entries.last());
            if admitted(s, entries.last(), id, slug) is Ok {
                lemma_registry_push(s, Known { id, slug });
            }
        }
    }
}

/// A slug leads to the id whose slug it is, and back: the two directions agree.
pub proof fn law_directions_agree(s: Seq<Known>, id: Seq<char>, slug: Seq<char>)
    requires
        registry_ok(s),
    ensures
        slug_for(s, id) == Some(slug) <==> id_for(s, slug) == Some(id),
{
    lemma_place_of_id(s, id);
    lemma_place_of_slug(s, slug);
    let a = place_of_id(s, id);
    let b = place_of_slug(s, slug);
    if slug_for(s, id) == Some(slug) {
        if b < a {
            assert(s[b].slug != s[a].slug);
        }
        if a < b {
            assert(s[a].slug != slug);
        }
    }
    if id_for(s, slug) == Some(id) {
        if a < b {
            assert(s[a].id != s[b].id);
        }
        if b < a {
            assert(s[b].id != id);
        }
    }
}

/// A session with an alias is not viewed by its id, unless another session goes by that text.
pub proof fn law_aliased_id_is_no_view(s: Seq<Known>, id: Seq<char>, slug: Seq<char>)
    requires
        registry_ok(s),
        slug_for(s, id) == Some(slug),
        slug != id,
    ensures
        id_for(s, id) != Some(id),
{
    if id_for(s, id) == Some(id) {
        law_directions_agree(s, id, id);
    }
}

// ---- the sessions file ----

/// One session in the sessions file.
pub struct PersistEntry {
    pub id: String,
    pub slug: String,
}

/// The sessions file.
pub struct PersistFile {
    pub version: u32,
    pub sessions: Vec<PersistEntry>,
}

/// The models of the file's sessions.
pub open spec fn persist_views(s: Seq<PersistEntry>) -> Seq<Known> {
    Seq::new(s.len(), |i: int| Known { id: s[i].id@, slug: s[i].slug@ })
}

/// Why a sessions file cannot be taken.
#[derive(Debug)]
pub enum RestoreError {
    Version(u32),
    Invalid(String),
    Duplicate(String),
}

/// The model of [`RestoreError`].
pub ghost enum RestoreFailure {
    Version(u32),
    Invalid(Seq<char>),
    Duplicate(Seq<char>),
}

impl View for RestoreError {
    type V = RestoreFailure;

    open spec fn view(&self) -> RestoreFailure {
        match self {
            RestoreError::Version(v) => RestoreFailure::Version(*v),
            RestoreError::Invalid(p) => RestoreFailure::Invalid(p@),
            RestoreError::Duplicate(id) => RestoreFailure::Duplicate(id@),
        }
    }
}

/// What a failure says of the file.
pub open spec fn restore_text(e: RestoreFailure, path: Seq<char>) -> Seq<char> {
    "sessions file "@ + debug_text(path) + (match e {
        RestoreFailure::Version(v) => " has unsupported version "@ + dec(v as nat),
        RestoreFailure::Invalid(m) => ": "@ + m,
        RestoreFailure::Duplicate(id) => " has a duplicate id or slug ("@ + id + ")"@,
    })
}

impl RestoreError {
    /// What the failure says of the file.
    pub fn text(&self, path: &str) -> (r: String)
        ensures
            r@ == restore_text(self@, path@),
    {
        let mut t = String::new();
        match self {
            RestoreError::Version(v) => {
                t.append(" has unsupported version ");
                push_dec(&mut t, *v as u64);
            },
            RestoreError::Invalid(m) => {
                t.append(": ");
                t.append(m.as_str());
            },
            RestoreError::Duplicate(id) => {
                t.append(" has a duplicate id or slug (");
                t.append(id.as_str());
                t.append(")");
            },
        }
        let mut r = String::from_str("sessions file ");
        r.append(debug_quoted(path).as_str());
        r.append(t.as_str());
        assert(r@ =~= restore_text(self@, path@));
        r
    }
}

/// The registry that sessions of a file give, or what is wrong with the first bad one.
pub open spec fn restored(s: Seq<Known>) -> Result<Seq<Known>, RestoreFailure>
    decreases s.len(),
{
    if s.len() == 0 {
        Ok(Seq::empty())
    } else {
        match restored(s.drop_last()) {
            Ok(before) => {
                let e = s.last();
                if id_problem(e.id) is Some {
                    Err(RestoreFailure::Invalid(id_problem(e.id)->0))
                } else if slug_problem(e.slug) is Some {
                    Err(RestoreFailure::Invalid(slug_problem(e.slug)->0))
                } else if slug_for(before, e.id) is Some || id_for(before, e.slug) is Some {
                    Err(RestoreFailure::Duplicate(e.id))
                } else {
                    Ok(before.push(e))
                }
            },
            Err(x) => Err(x),
        }
    }
}

/// The registry that a file gives: only version 1 is known.
pub open spec fn restored_file(version: u32, s: Seq<Known>) -> Result<Seq<Known>, RestoreFailure> {
    if version != 1 {
        Err(RestoreFailure::Version(version))
    } else {
        restored(s)
    }
}

proof fn lemma_restored_fails(s: Seq<Known>, k: int)
    requires
        0 <= k <= s.len(),
        restored(s.take(k)) is Err,
    ensures
        restored(s) == restored(s.take(k)),
    decreases s.len() - k,
{
    if k < s.len() {
        assert(s.take(k + 1).drop_last() =~= s.take(k));
        lemma_restored_fails(s, k + 1);
    } else {
        assert(s.take(k) =~= s);
    }
}

/// Take the registry from a sessions file. A file that cannot be taken is an error.
pub fn restore_sessions(file: &PersistFile) -> (r: Result<AllowConfig, RestoreError>)
    ensures
        match restored_file(file.version, persist_views(file.sessions@)) {
            Ok(s) => r matches Ok(c) && c@ == s && c.wf(),
            Err(e) => r matches Err(x) && x@ == e,
        },
{
    if file.version != 1 {
        return Err(RestoreError::Version(file.version));
    }
    let ghost all = persist_views(file.sessions@);
    let mut cfg = AllowConfig::new();
    let mut i: usize = 0;
    assert(all.take(0) =~= Seq::<Known>::empty());
    while i < file.sessions.len()
        invariant
            i <= file.sessions@.len(),
            file.version == 1,
            all == persist_views(file.sessions@),
            cfg.wf(),
            restored(all.take(i as int)) == Result::<Seq<Known>, RestoreFailure>::Ok(cfg@),
        decreases file.sessions@.len() - i,
    {
        let e = &file.sessions[i];
        assert(all.take(i + 1).drop_last() =~= all.take(i as int));
        assert(all.take(i + 1).last() == (Known { id: e.id@, slug: e.slug@ }));
        if let Some(problem) = validate_id(e.id.as_str()) {
            proof {
                lemma_restored_fails(all, i + 1);
            }
            return Err(RestoreError::Invalid(problem));
        }
        if let Some(problem) = validate_slug(e.slug.as_str()) {
            proof {
                lemma_restored_fails(all, i + 1);
            }
            return Err(RestoreError::Invalid(problem));
        }
        if cfg.slug_of(e.id.as_str()).is_some() || cfg.id_of_view(e.slug.as_str()).is_some() {
            proof {
                lemma_restored_fails(all, i + 1);
            }
            return Err(RestoreError::Duplicate(e.id.clone()));
        }
        cfg.push(e.id.as_str(), e.slug.as_str());
        i += 1;
    }
    assert(all.take(i as int) =~= all);
    Ok(cfg)
}

/// Whether a text comes before another one in the order of their characters.
pub open spec fn text_before(a: Seq<char>, b: Seq<char>) -> bool
    decreases a.len(),
{
    if b.len() == 0 {
        false
    } else if a.len() == 0 {
        true
    } else if a[0] != b[0] {
        a[0] < b[0]
    } else {
        text_before(a.drop_first(), b.drop_first())
    }
}

fn comes_before(a: &str, b: &str) -> (r: bool)
    ensures
        r == text_before(a@, b@),
{
    let x = chars_of(a);
    let y = chars_of(b);
    let mut i: usize = 0;
    assert(x@.skip(0) =~= x@);
    assert(y@.skip(0) =~= y@);
    while i < x.len() && i < y.len()
        invariant
            x@ == a@,
            y@ == b@,
            i <= x@.len(),
            i <= y@.len(),
            text_before(a@, b@) == text_before(x@.skip(i as int), y@.skip(i as int)),
        decreases x@.len() - i,
    {
        assert(x@.skip(i as int)[0] == x@[i as int]);
        assert(y@.skip(i as int)[0] == y@[i as int]);
        if x[i] != y[i] {
            return x[i] < y[i];
        }
        assert(x@.skip(i as int).drop_first() =~= x@.skip(i + 1));
        assert(y@.skip(i as int).drop_first() =~= y@.skip(i + 1));
        i += 1;
    }
    i < y.len()
}

/// Where a session goes among sessions that are in order: before the first whose slug comes
/// after its own.
pub open spec fn slot_for(s: Seq<Known>, e: Known) -> int
    decreases s.len(),
{
    if s.len() == 0 || text_before(e.slug, s[0].slug) {
        0
    } else {
        1 + slot_for(s.drop_first(), e)
    }
}

proof fn lemma_slot(s: Seq<Known>, e: Known)
    ensures
        0 <= slot_for(s, e) <= s.len(),
    decreases s.len(),
{
    if s.len() > 0 && !text_before(e.slug, s[0].slug) {
        lemma_slot(s.drop_first(), e);
    }
}

/// Sessions in the order of their slugs.
pub open spec fn in_order(s: Seq<Known>) -> Seq<Known>
    decreases s.len(),
{
    if s.len() == 0 {
        Seq::empty()
    } else {
        let before = in_order(s.drop_last());
        before.insert(slot_for(before, s.last()), s.last())
    }
}

/// The sessions file for a registry: its sessions in the order of their slugs.
pub fn persist_file(cfg: &AllowConfig) -> (r: PersistFile)
    ensures
        r.version == 1,
        persist_views(r.sessions@) == in_order(cfg@),
{
    let mut out: Vec<PersistEntry> = Vec::new();
    let mut i: usize = 0;
    assert(cfg@.take(0) =~= Seq::<Known>::empty());
    assert(persist_views(out@) =~= in_order(cfg@.take(0)));
    while i < cfg.len()
        invariant
            i <= cfg@.len(),
            persist_views(out@) == in_order(cfg@.take(i as int)),
        decreases cfg@.len() - i,
    {
        let (id, slug) = cfg.entry(i);
        let ghost e = cfg@[i as int];
        let ghost before = persist_views(out@);
        let mut k: usize = 0;
        assert(before.skip(0) =~= before);
        while k < out.len() && !comes_before(slug, out[k].slug.as_str())
            invariant
                k <= out@.len(),
                before == persist_views(out@),
                e == (Known { id: id@, slug: slug@ }),
                slot_for(before, e) == k + slot_for(before.skip(k as int), e),
            decreases out@.len() - k,
        {
            assert(before.skip(k as int)[0] == before[k as int]);
            assert(before.skip(k as int).drop_first() =~= before.skip(k + 1));
            k += 1;
        }
        proof {
            if k < out@.len() {
                assert(before.skip(k as int)[0] == before[k as int]);
            }
            assert(slot_for(before, e) == k);
        }
        out.insert(k, PersistEntry { id: String::from_str(id), slug: String::from_str(slug) });
        assert(persist_views(out@) =~= before.insert(k as int, e));
        assert(cfg@.take(i + 1).drop_last() =~= cfg@.take(i as int));
        assert(cfg@.take(i + 1).last() == e);
        i += 1;
    }
    assert(cfg@.take(i as int) =~= cfg@);
    PersistFile { version: 1, sessions: out }
}

proof fn lemma_insert_contains(s: Seq<Known>, k: int, e: Known, x: Known)
    requires
        0 <= k <= s.len(),
    ensures
        s.insert(k, e).contains(x) <==> s.contains(x) || x == e,
{
    let t = s.insert(k, e);
    if s.contains(x) {
        let i = choose|i: int| 0 <= i < s.len() && s[i] == x;
        if i < k {
            assert(t[i] == x);
        } else {
            assert(t[i + 1] == x);
        }
    }
    if x == e {
        assert(t[k] == x);
    }
    if t.contains(x) && x != e {
        let i = choose|i: int| 0 <= i < t.len() && t[i] == x;
        if i < k {
            assert(s[i] == x);
        } else {
            assert(s[i - 1] == x);
        }
    }
}

proof fn lemma_in_order_contains(s: Seq<Known>, x: Known)
    ensures
        in_order(s).contains(x) <==> s.contains(x),
    decreases s.len(),
{
    if s.len() > 0 {
        let p = s.drop_last();
        let before = in_order(p);
        lemma_in_order_contains(p, x);
        lemma_slot(before, s.last());
        lemma_insert_contains(before, slot_for(before, s.last()), s.last(), x);
        if s.contains(x) {
            let i = choose|i: int| 0 <= i < s.len() && s[i] == x;
            if i < p.len() {
                assert(p[i] == x);
            }
        }
        if p.contains(x) {
            let i = choose|i: int| 0 <= i < p.len() && p[i] == x;
            assert(s[i] == x);
        }
        assert(s[s.len() - 1] == s.last());
    } else {
        assert(in_order(s) =~= s);
    }
}

proof fn lemma_ok_insert(s: Seq<Known>, k: int, e: Known)
    requires
        registry_ok(s),
        0 <= k <= s.len(),
        lower_hex64(e.id),
        valid_slug(e.slug),
        forall|i: int| 0 <= i < s.len() ==> (#[trigger] s[i]).id != e.id && s[i].slug != e.slug,
    ensures
        registry_ok(s.insert(k, e)),
{
    let t = s.insert(k, e);
    assert forall|i: int| 0 <= i < t.len() implies lower_hex64(#[trigger] t[i].id) && valid_slug(
        t[i].slug,
    ) by {
        if i < k {
            assert(t[i] == s[i]);
        } else if i > k {
            assert(t[i] == s[i - 1]);
        }
    }
    assert forall|i: int, j: int| 0 <= i < j < t.len() implies (#[trigger] t[i]).id != (
    #[trigger] t[j]).id && t[i].slug != t[j].slug by {
        if i < k {
            assert(t[i] == s[i]);
        } else if i > k {
            assert(t[i] == s[i - 1]);
        }
        if j < k {
            assert(t[j] == s[j]);
        } else if j > k {
            assert(t[j] == s[j - 1]);
        }
    }
}

proof fn lemma_in_order_ok(s: Seq<Known>)
    requires
        registry_ok(s),
    ensures
        registry_ok(in_order(s)),
    decreases s.len(),
{
    if s.len() > 0 {
        let p = s.drop_last();
        let e = s.last();
        assert(registry_ok(p)) by {
            assert forall|i: int| 0 <= i < p.len() implies lower_hex64(#[trigger] p[i].id)
                && valid_slug(p[i].slug) by {
                assert(p[i] == s[i]);
            }
            assert forall|i: int, j: int| 0 <= i < j < p.len() implies (#[trigger] p[i]).id != (
            #[trigger] p[j]).id && p[i].slug != p[j].slug by {
                assert(p[i] == s[i] && p[j] == s[j]);
            }
        }
        lemma_in_order_ok(p);
        let before = in_order(p);
        lemma_slot(before, e);
        assert(s[s.len() - 1] == e);
        assert forall|i: int| 0 <= i < before.len() implies (#[trigger] before[i]).id != e.id
            && before[i].slug != e.slug by {
            assert(before.contains(before[i]));
            lemma_in_order_contains(p, before[i]);
            let k = choose|k: int| 0 <= k < p.len() && p[k] == before[i];
            assert(s[k] == before[i]);
        }
        lemma_ok_insert(before, slot_for(before, e), e);
    }
}

proof fn lemma_restored_ok(s: Seq<Known>, n: int)
    requires
        registry_ok(s),
        0 <= n <= s.len(),
    ensures
        restored(s.take(n)) == Result::<Seq<Known>, RestoreFailure>::Ok(s.take(n)),
    decreases n,
{
    if n > 0 {
        lemma_restored_ok(s, n - 1);
        let t = s.take(n);
        assert(t.drop_last() =~= s.take(n - 1));
        let before = s.take(n - 1);
        let e = s[n - 1];
        assert(t.last() == e);
        assert(lower_hex64(e.id) && valid_slug(e.slug));
        lemma_place_of_id(before, e.id);
        lemma_place_of_slug(before, e.slug);
        let a = place_of_id(before, e.id);
        let b = place_of_slug(before, e.slug);
        if a < before.len() {
            assert(s[a].id != s[n - 1].id);
        }
        if b < before.len() {
            assert(s[b].slug != s[n - 1].slug);
        }
        assert(before.push(e) =~= t);
    } else {
        assert(s.take(0) =~= Seq::<Known>::empty());
    }
}

proof fn lemma_slug_for_contains(s: Seq<Known>, id: Seq<char>, slug: Seq<char>)
    requires
        registry_ok(s),
    ensures
        slug_for(s, id) == Some(slug) <==> s.contains(Known { id, slug }),
{
    lemma_place_of_id(s, id);
    let a = place_of_id(s, id);
    if slug_for(s, id) == Some(slug) {
        assert(s[a] == (Known { id, slug }));
    }
    if s.contains(Known { id, slug }) {
        let i = choose|i: int| 0 <= i < s.len() && s[i] == (Known { id, slug });
        if a < i {
            assert(s[a].id != s[i].id);
        }
        if i < a {
            assert(s[i].id != id);
        }
    }
}

/// A registry comes back from its file: the file is taken, and every id has the slug it had.
pub proof fn law_file_reads_back(s: Seq<Known>, id: Seq<char>)
    requires
        registry_ok(s),
    ensures
        restored_file(1, in_order(s)) == Result::<Seq<Known>, RestoreFailure>::Ok(in_order(s)),
        slug_for(in_order(s), id) == slug_for(s, id),
{
    let t = in_order(s);
    lemma_in_order_ok(s);
    lemma_restored_ok(t, t.len() as int);
    assert(t.take(t.len() as int) =~= t);
    if let Some(slug) = slug_for(s, id) {
        lemma_slug_for_contains(s, id, slug);
        lemma_in_order_contains(s, Known { id, slug });
        lemma_slug_for_contains(t, id, slug);
    }
    if let Some(slug) = slug_for(t, id) {
        lemma_slug_for_contains(t, id, slug);
        lemma_in_order_contains(s, Known { id, slug });
        lemma_slug_for_contains(s, id, slug);
    }
}

proof fn lemma_before_order(a: Seq<char>, b: Seq<char>, c: Seq<char>)
    ensures
        text_before(a, b) && text_before(b, c) ==> text_before(a, c),
        text_before(a, b) ==> !text_before(b, a),
        !text_before(a, b) && !text_before(b, a) ==> a == b,
    decreases a.len() + b.len() + c.len(),
{
    if a.len() > 0 && b.len() > 0 && c.len() > 0 {
        lemma_before_order(a.drop_first(), b.drop_first(), c.drop_first());
    } else if a.len() > 0 && b.len() > 0 {
        lemma_before_order(a.drop_first(), b.drop_first(), c);
    }
    if a.len() > 0 && b.len() > 0 && a[0] == b[0] {
        if a.drop_first() == b.drop_first() {
            assert(a =~= seq![a[0]] + a.drop_first());
            assert(b =~= seq![b[0]] + b.drop_first());
        }
    } else if a.len() == 0 && b.len() == 0 {
        assert(a =~= b);
    }
}

/// Whether slugs ascend.
pub open spec fn ascending(s: Seq<Known>) -> bool {
    forall|i: int, j: int|
        0 <= i < j < s.len() ==> !text_before((#[trigger] s[j]).slug, (#[trigger] s[i]).slug)
}

proof fn lemma_slot_splits(s: Seq<Known>, e: Known)
    requires
        ascending(s),
    ensures
        forall|i: int| 0 <= i < slot_for(s, e) ==> !text_before(e.slug, (#[trigger] s[i]).slug),
        forall|i: int| slot_for(s, e) <= i < s.len() ==> text_before(e.slug, (#[trigger] s[i]).slug),
    decreases s.len(),
{
    if s.len() > 0 {
        let t = s.drop_first();
        assert(ascending(t)) by {
            assert forall|i: int, j: int| 0 <= i < j < t.len() implies !text_before(
                (#[trigger] t[j]).slug,
                (#[trigger] t[i]).slug,
            ) by {
                assert(t[i] == s[i + 1] && t[j] == s[j + 1]);
            }
        }
        if text_before(e.slug, s[0].slug) {
            assert forall|i: int| 0 <= i < s.len() implies text_before(
                e.slug,
                (#[trigger] s[i]).slug,
            ) by {
                if i > 0 {
                    assert(!text_before(s[i].slug, s[0].slug));
                    lemma_before_order(s[0].slug, s[i].slug, e.slug);
                    lemma_before_order(e.slug, s[0].slug, s[i].slug);
                }
            }
        } else {
            lemma_slot_splits(t, e);
            lemma_slot(t, e);
            assert forall|i: int| 0 <= i < slot_for(s, e) implies !text_before(
                e.slug,
                (#[trigger] s[i]).slug,
            ) by {
                if i > 0 {
                    assert(t[i - 1] == s[i]);
                }
            }
            assert forall|i: int| slot_for(s, e) <= i < s.len() implies text_before(
                e.slug,
                (#[trigger] s[i]).slug,
            ) by {
                assert(t[i - 1] == s[i]);
            }
        }
    }
}

/// The sessions of a file are in the order of their slugs.
pub proof fn law_file_is_in_order(s: Seq<Known>)
    ensures
        ascending(in_order(s)),
    decreases s.len(),
{
    if s.len() > 0 {
        law_file_is_in_order(s.drop_last());
        let b = in_order(s.drop_last());
        let e = s.last();
        lemma_slot(b, e);
        lemma_slot_splits(b, e);
        let k = slot_for(b, e);
        let t = b.insert(k, e);
        assert forall|i: int, j: int| 0 <= i < j < t.len() implies !text_before(
            (#[trigger] t[j]).slug,
            (#[trigger] t[i]).slug,
        ) by {
            if j < k {
                assert(t[i] == b[i] && t[j] == b[j]);
            } else if j == k {
                assert(t[i] == b[i]);
                assert(!text_before(e.slug, b[i].slug));
            } else {
                assert(t[j] == b[j - 1]);
                if i < k {
                    assert(t[i] == b[i]);
                } else if i == k {
                    assert(text_before(e.slug, b[j - 1].slug));
                    lemma_before_order(e.slug, b[j - 1].slug, e.slug);
                } else {
                    assert(t[i] == b[i - 1]);
                }
            }
        }
    }
}

} // verus!
