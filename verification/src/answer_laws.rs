//! What the hub's answers and the recorded messages say, read as JSON.
use crate::b64::standard_b64_text;
use crate::diff::{joined, json_string};
use crate::fonts::Override;
use crate::hub::AddFailure;
use crate::json::{
    json_of, law_string_reads_back, lemma_dec_says, lemma_list, lemma_member, lemma_object, lemma_says_whole,
    lemma_words_say, members_say, plain, says, Json,
};
use crate::record::blob_text;
use crate::render::{
    hex_color, json_config, json_override, json_overrides, quoted_family, DEFAULT_BG, DEFAULT_FG,
};
use crate::requests::{add_answer, json_error, json_session, remove_answer};
use crate::text::dec;
use crate::wire_laws::Members;
use vstd::prelude::*;

verus! {

proof fn lemma_one(t: Seq<char>, name: Seq<char>, value: Seq<char>, j: Json)
    requires
        plain(name),
        says(value, j),
        t == seq!['"'] + name + seq!['"', ':'] + value,
    ensures
        members_say(seq![t], seq![(name, j)]),
{
    reveal(members_say);
    lemma_member(t, name, value, j);
}

proof fn lemma_and(a: Seq<Seq<char>>, x: Members, t: Seq<char>, name: Seq<char>, value: Seq<char>, j: Json)
    requires
        members_say(a, x),
        plain(name),
        says(value, j),
        t == seq!['"'] + name + seq!['"', ':'] + value,
    ensures
        members_say(a.push(t), x.push((name, j))),
{
    reveal(members_say);
    lemma_member(t, name, value, j);
}

/// An error says its message under `error`.
pub proof fn law_error_says_its_message(m: Seq<char>)
    ensures
        json_of(json_error(m)) == Some(Json::Object(seq![(seq!['e', 'r', 'r', 'o', 'r'], Json::Text(m))])),
{
    reveal_strlit("{\"error\":");
    reveal_strlit("{");
    let name = seq!['e', 'r', 'r', 'o', 'r'];
    law_string_reads_back(m);
    let t = seq!['"'] + name + seq!['"', ':'] + json_string(m);
    lemma_one(t, name, json_string(m), Json::Text(m));
    lemma_object(seq![t], seq![(name, Json::Text(m))]);
    assert(joined(seq![t]) == t);
    assert(json_error(m) =~= "{"@ + joined(seq![t]) + "}"@);
    lemma_says_whole(json_error(m), Json::Object(seq![(name, Json::Text(m))]));
}

/// A session that was added is answered with `201`, its id under `id` and its name under
/// `slug`; an id or a name that is taken with `409`, and what is not valid with `400`, each with
/// a message.
pub proof fn law_added_session_is_answered(id: Seq<char>, slug: Seq<char>, m: Seq<char>)
    ensures
        add_answer(Ok(()), id, slug).0 == 201,
        json_of(add_answer(Ok(()), id, slug).1) == Some(
            Json::Object(
                seq![
                    (seq!['i', 'd'], Json::Text(id)),
                    (seq!['s', 'l', 'u', 'g'], Json::Text(slug)),
                ],
            ),
        ),
        add_answer(Err(AddFailure::IdTaken), id, slug).0 == 409,
        add_answer(Err(AddFailure::SlugTaken), id, slug).0 == 409,
        add_answer(Err(AddFailure::IdTaken), id, slug).1 != add_answer(
            Err(AddFailure::SlugTaken),
            id,
            slug,
        ).1,
        add_answer(Err(AddFailure::Invalid(m)), id, slug).0 == 400,
        json_of(add_answer(Err(AddFailure::Invalid(m)), id, slug).1) == Some(
            Json::Object(seq![(seq!['e', 'r', 'r', 'o', 'r'], Json::Text(m))]),
        ),
{
    reveal_strlit("{\"id\":");
    reveal_strlit(",\"slug\":");
    reveal_strlit("{");
    reveal_strlit(",");
    let (ki, ks) = (seq!['i', 'd'], seq!['s', 'l', 'u', 'g']);
    law_string_reads_back(id);
    law_string_reads_back(slug);
    let ti = seq!['"'] + ki + seq!['"', ':'] + json_string(id);
    let ts = seq!['"'] + ks + seq!['"', ':'] + json_string(slug);
    let x = seq![(ki, Json::Text(id))];
    lemma_one(ti, ki, json_string(id), Json::Text(id));
    lemma_and(seq![ti], x, ts, ks, json_string(slug), Json::Text(slug));
    let a = seq![ti].push(ts);
    let y = x.push((ks, Json::Text(slug)));
    lemma_object(a, y);
    assert(a.drop_last() =~= seq![ti]);
    assert(joined(a.drop_last()) == ti);
    assert(joined(a) == ti + ","@ + ts);
    let text = add_answer(Ok(()), id, slug).1;
    assert(text =~= "{"@ + joined(a) + "}"@);
    lemma_says_whole(text, Json::Object(y));
    assert(y =~= seq![(ki, Json::Text(id)), (ks, Json::Text(slug))]);
    law_error_says_its_message(m);
    reveal_strlit("session id already registered");
    reveal_strlit("slug already in use");
    law_error_says_its_message("session id already registered"@);
    law_error_says_its_message("slug already in use"@);
    let (p, q) = ("session id already registered"@, "slug already in use"@);
    assert(p.len() != q.len());
    let name = seq!['e', 'r', 'r', 'o', 'r'];
    let (u, v) = (seq![(name, Json::Text(p))], seq![(name, Json::Text(q))]);
    assert(u[0].1 != v[0].1);
}

/// A session that was removed is answered with `204` and nothing; one that is not known with
/// `404` and a message.
pub proof fn law_removed_session_is_answered(by_id: bool)
    ensures
        remove_answer(true, by_id).0 == 204,
        remove_answer(true, by_id).1.len() == 0,
        remove_answer(false, by_id).0 == 404,
        json_of(remove_answer(false, by_id).1) matches Some(Json::Object(m)) && m.len() == 1 && m[0].0
            == seq!['e', 'r', 'r', 'o', 'r'],
{
    law_error_says_its_message("unknown session id"@);
    law_error_says_its_message("unknown slug"@);
}

/// What an entry of the list of sessions says.
pub open spec fn entry_of(s: (Seq<char>, Seq<char>, bool)) -> Json {
    Json::Object(
        seq![
            (seq!['i', 'd'], Json::Text(s.0)),
            (seq!['l', 'i', 'v', 'e'], Json::Bool(s.2)),
            (seq!['s', 'l', 'u', 'g'], Json::Text(s.1)),
        ],
    )
}

/// An entry of the list of sessions says the session's id, whether it is live, and its name.
pub proof fn law_listed_session_reads_back(s: (Seq<char>, Seq<char>, bool))
    ensures
        json_of(json_session(s)) == Some(entry_of(s)),
        says(json_session(s), entry_of(s)),
{
    reveal_strlit("{\"id\":");
    reveal_strlit(",\"live\":");
    reveal_strlit(",\"slug\":");
    reveal_strlit("{");
    reveal_strlit(",");
    let (ki, kl, ks) = (seq!['i', 'd'], seq!['l', 'i', 'v', 'e'], seq!['s', 'l', 'u', 'g']);
    law_string_reads_back(s.0);
    law_string_reads_back(s.1);
    lemma_words_say();
    crate::json::lemma_false_says();
    let word = if s.2 {
        "true"@
    } else {
        "false"@
    };
    let ti = seq!['"'] + ki + seq!['"', ':'] + json_string(s.0);
    let tl = seq!['"'] + kl + seq!['"', ':'] + word;
    let ts = seq!['"'] + ks + seq!['"', ':'] + json_string(s.1);
    let x = seq![(ki, Json::Text(s.0))];
    lemma_one(ti, ki, json_string(s.0), Json::Text(s.0));
    lemma_and(seq![ti], x, tl, kl, word, Json::Bool(s.2));
    let b = seq![ti].push(tl);
    let y = x.push((kl, Json::Bool(s.2)));
    lemma_and(b, y, ts, ks, json_string(s.1), Json::Text(s.1));
    let a = b.push(ts);
    let z = y.push((ks, Json::Text(s.1)));
    lemma_object(a, z);
    assert(a.drop_last() =~= b);
    assert(b.drop_last() =~= seq![ti]);
    assert(joined(seq![ti]) == ti);
    assert(joined(b) == ti + ","@ + tl);
    assert(joined(a) == ti + ","@ + tl + ","@ + ts);
    assert(json_session(s) =~= "{"@ + joined(a) + "}"@);
    assert(z =~= seq![(ki, Json::Text(s.0)), (kl, Json::Bool(s.2)), (ks, Json::Text(s.1))]);
    lemma_says_whole(json_session(s), Json::Object(z));
}

/// An image that is sent apart from the screen says, under `blob`, its type under `m` and its
/// data, in base64, under `d`.
pub proof fn law_sent_image_reads_back(mime: Seq<char>, bytes: Seq<u8>)
    ensures
        json_of(blob_text(mime, bytes)) == Some(
            Json::Object(
                seq![
                    (
                        seq!['b', 'l', 'o', 'b'],
                        Json::Object(
                            seq![
                                (seq!['m'], Json::Text(mime)),
                                (seq!['d'], Json::Text(standard_b64_text(bytes))),
                            ],
                        ),
                    ),
                ],
            ),
        ),
{
    reveal_strlit("{\"blob\":{\"m\":");
    reveal_strlit(",\"d\":");
    reveal_strlit("}}");
    reveal_strlit("}");
    reveal_strlit("{");
    reveal_strlit(",");
    let (kb, km, kd) = (seq!['b', 'l', 'o', 'b'], seq!['m'], seq!['d']);
    let d = standard_b64_text(bytes);
    law_string_reads_back(mime);
    law_string_reads_back(d);
    let tm = seq!['"'] + km + seq!['"', ':'] + json_string(mime);
    let td = seq!['"'] + kd + seq!['"', ':'] + json_string(d);
    let x = seq![(km, Json::Text(mime))];
    lemma_one(tm, km, json_string(mime), Json::Text(mime));
    lemma_and(seq![tm], x, td, kd, json_string(d), Json::Text(d));
    let a = seq![tm].push(td);
    let y = x.push((kd, Json::Text(d)));
    lemma_object(a, y);
    assert(a.drop_last() =~= seq![tm]);
    assert(joined(seq![tm]) == tm);
    assert(joined(a) == tm + ","@ + td);
    let inner = "{"@ + joined(a) + "}"@;
    let tb = seq!['"'] + kb + seq!['"', ':'] + inner;
    lemma_one(tb, kb, inner, Json::Object(y));
    let whole = seq![(kb, Json::Object(y))];
    lemma_object(seq![tb], whole);
    assert(joined(seq![tb]) == tb);
    assert(blob_text(mime, bytes) =~= "{"@ + joined(seq![tb]) + "}"@);
    lemma_says_whole(blob_text(mime, bytes), Json::Object(whole));
    assert(y =~= seq![(km, Json::Text(mime)), (kd, Json::Text(d))]);
}

/// What an override of the viewer's configuration says: its first and last symbol, and the
/// families for them.
pub open spec fn override_of(e: Override, stack: Seq<char>) -> Json {
    Json::List(
        seq![
            Json::Num(e.lo as int),
            Json::Num(e.hi as int),
            Json::Text(quoted_family(e.family) + ","@ + stack),
        ],
    )
}

proof fn lemma_override_says(e: Override, stack: Seq<char>)
    ensures
        says(json_override(e, stack), override_of(e, stack)),
{
    reveal_strlit(",");
    let f = quoted_family(e.family) + ","@ + stack;
    lemma_dec_says(e.lo);
    lemma_dec_says(e.hi);
    law_string_reads_back(f);
    let t = seq![dec(e.lo), dec(e.hi), json_string(f)];
    let j = seq![Json::Num(e.lo as int), Json::Num(e.hi as int), Json::Text(f)];
    assert(t.drop_last() =~= seq![dec(e.lo), dec(e.hi)]);
    assert(t.drop_last().drop_last() =~= seq![dec(e.lo)]);
    reveal_with_fuel(joined, 3);
    assert(joined(t) =~= dec(e.lo) + ","@ + dec(e.hi) + ","@ + json_string(f));
    lemma_list(t, j);
    assert(json_override(e, stack) =~= "["@ + joined(t) + "]"@);
}

/// The viewer's configuration says the default colours of text and background, the families for
/// glyphs that fill their cell, and the overrides in order.
pub proof fn law_configuration_reads_back(stack: Seq<char>, entries: Seq<Override>)
    ensures
        json_of(json_config(stack, entries)) == Some(
            Json::Object(
                seq![
                    (seq!['d', 'e', 'f', 'F', 'g'], Json::Text(hex_color(DEFAULT_FG))),
                    (seq!['d', 'e', 'f', 'B', 'g'], Json::Text(hex_color(DEFAULT_BG))),
                    (seq!['f', 'i', 'l', 'l', 'F', 'o', 'n', 't'], Json::Text(stack)),
                    (
                        seq!['s', 'y', 'm'],
                        Json::List(Seq::new(entries.len(), |i: int| override_of(entries[i], stack))),
                    ),
                ],
            ),
        ),
{
    let kf = seq!['d', 'e', 'f', 'F', 'g'];
    let kb = seq!['d', 'e', 'f', 'B', 'g'];
    let ki = seq!['f', 'i', 'l', 'l', 'F', 'o', 'n', 't'];
    let ks = seq!['s', 'y', 'm'];
    let (f, b) = (hex_color(DEFAULT_FG), hex_color(DEFAULT_BG));
    law_string_reads_back(f);
    law_string_reads_back(b);
    law_string_reads_back(stack);
    let items = json_overrides(entries, stack);
    let trees = Seq::new(entries.len(), |i: int| override_of(entries[i], stack));
    assert forall|i: int| 0 <= i < items.len() implies says(#[trigger] items[i], trees[i]) by {
        lemma_override_says(entries[i], stack);
    }
    lemma_list(items, trees);
    let list = "["@ + joined(items) + "]"@;
    let tf = seq!['"'] + kf + seq!['"', ':'] + json_string(f);
    let tb = seq!['"'] + kb + seq!['"', ':'] + json_string(b);
    let ti = seq!['"'] + ki + seq!['"', ':'] + json_string(stack);
    let ts = seq!['"'] + ks + seq!['"', ':'] + list;
    let x1 = seq![(kf, Json::Text(f))];
    lemma_one(tf, kf, json_string(f), Json::Text(f));
    lemma_and(seq![tf], x1, tb, kb, json_string(b), Json::Text(b));
    let (a2, x2) = (seq![tf].push(tb), x1.push((kb, Json::Text(b))));
    lemma_and(a2, x2, ti, ki, json_string(stack), Json::Text(stack));
    let (a3, x3) = (a2.push(ti), x2.push((ki, Json::Text(stack))));
    lemma_and(a3, x3, ts, ks, list, Json::List(trees));
    let (a4, x4) = (a3.push(ts), x3.push((ks, Json::List(trees))));
    lemma_object(a4, x4);
    assert(a4.drop_last() =~= a3);
    assert(a3.drop_last() =~= a2);
    assert(a2.drop_last() =~= seq![tf]);
    assert(joined(seq![tf]) == tf);
    assert(joined(a2) == tf + ","@ + tb);
    assert(joined(a3) == tf + ","@ + tb + ","@ + ti);
    assert(joined(a4) == tf + ","@ + tb + ","@ + ti + ","@ + ts);
    lemma_config_text(f, b, stack, joined(items), tf, tb, ti, ts);
    lemma_says_whole(json_config(stack, entries), Json::Object(x4));
    assert(x4 =~= seq![
        (kf, Json::Text(f)),
        (kb, Json::Text(b)),
        (ki, Json::Text(stack)),
        (ks, Json::List(trees)),
    ]);
}

proof fn lemma_config_text(
    f: Seq<char>,
    b: Seq<char>,
    stack: Seq<char>,
    items: Seq<char>,
    tf: Seq<char>,
    tb: Seq<char>,
    ti: Seq<char>,
    ts: Seq<char>,
)
    requires
        tf == seq!['"'] + seq!['d', 'e', 'f', 'F', 'g'] + seq!['"', ':'] + json_string(f),
        tb == seq!['"'] + seq!['d', 'e', 'f', 'B', 'g'] + seq!['"', ':'] + json_string(b),
        ti == seq!['"'] + seq!['f', 'i', 'l', 'l', 'F', 'o', 'n', 't'] + seq!['"', ':'] + json_string(stack),
        ts == seq!['"'] + seq!['s', 'y', 'm'] + seq!['"', ':'] + ("["@ + items + "]"@),
    ensures
        "{\"defFg\":"@ + json_string(f) + ",\"defBg\":"@ + json_string(b) + ",\"fillFont\":"@ + json_string(
            stack,
        ) + ",\"sym\":["@ + items + "]}"@ == "{"@ + (tf + ","@ + tb + ","@ + ti + ","@ + ts) + "}"@,
{
    reveal_strlit("{\"defFg\":");
    reveal_strlit(",\"defBg\":");
    reveal_strlit(",\"fillFont\":");
    reveal_strlit(",\"sym\":[");
    reveal_strlit("]}");
    reveal_strlit("{");
    reveal_strlit("}");
    reveal_strlit("[");
    reveal_strlit("]");
    reveal_strlit(",");
    let (jf, jb, js) = (json_string(f), json_string(b), json_string(stack));
    assert("{\"defFg\":"@ + jf =~= "{"@ + tf);
    assert(",\"defBg\":"@ + jb =~= ","@ + tb);
    assert(",\"fillFont\":"@ + js =~= ","@ + ti);
    assert(",\"sym\":["@ + items + "]}"@ =~= ","@ + ts + "}"@);
    let a = "{\"defFg\":"@ + jf;
    let bb = ",\"defBg\":"@ + jb;
    let c = ",\"fillFont\":"@ + js;
    let d = ",\"sym\":["@ + items + "]}"@;
    assert(a + ",\"defBg\":"@ + jb + ",\"fillFont\":"@ + js + ",\"sym\":["@ + items + "]}"@ =~= a + bb + c
        + d);
    assert("{"@ + (tf + ","@ + tb + ","@ + ti + ","@ + ts) + "}"@ =~= ("{"@ + tf) + (","@ + tb) + (","@
        + ti) + (","@ + ts + "}"@));
}

} // verus!
