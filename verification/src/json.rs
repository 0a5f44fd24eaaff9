//! Reading JSON: what a text in that notation says.
use crate::diff::{joined, json_char, json_chars, json_string};
use crate::text::{dec, digit_char, hex_char, is_digit};
use vstd::prelude::*;

verus! {

/// What a JSON text says. The numbers are whole ones.
pub ghost enum Json {
    Null,
    Bool(bool),
    Num(int),
    Text(Seq<char>),
    List(Seq<Json>),
    Object(Seq<(Seq<char>, Json)>),
}

/// How many digits a text starts with.
pub open spec fn digits_ahead(s: Seq<char>) -> int
    decreases s.len(),
{
    if s.len() > 0 && is_digit(s[0]) {
        1 + digits_ahead(s.skip(1))
    } else {
        0
    }
}

/// The number that digits spell.
pub open spec fn number_of(s: Seq<char>) -> int
    decreases s.len(),
{
    if s.len() == 0 {
        0
    } else {
        10 * number_of(s.drop_last()) + (s.last() as int - '0' as int)
    }
}

/// The value of a hexadecimal digit.
pub open spec fn hex_value(c: char) -> int {
    if '0' <= c && c <= '9' {
        c as int - '0' as int
    } else if 'a' <= c && c <= 'f' {
        10 + (c as int - 'a' as int)
    } else {
        10 + (c as int - 'A' as int)
    }
}

/// The character that stands behind a backslash.
pub open spec fn escape_of(c: char) -> char {
    if c == 'b' {
        '\x08'
    } else if c == 'f' {
        '\x0c'
    } else if c == 'n' {
        '\n'
    } else if c == 'r' {
        '\r'
    } else if c == 't' {
        '\t'
    } else {
        c
    }
}

/// The rest of a string, behind its first quote: its text, and what follows its last quote.
pub open spec fn read_text(s: Seq<char>) -> Option<(Seq<char>, Seq<char>)>
    decreases s.len(),
{
    if s.len() == 0 {
        None
    } else if s[0] == '"' {
        Some((Seq::empty(), s.skip(1)))
    } else if s[0] == '\\' {
        if s.len() >= 6 && s[1] == 'u' {
            let n = 4096 * hex_value(s[2]) + 256 * hex_value(s[3]) + 16 * hex_value(s[4]) + hex_value(
                s[5],
            );
            match read_text(s.skip(6)) {
                Some((t, rest)) => Some((seq![n as char] + t, rest)),
                None => None,
            }
        } else if s.len() >= 2 {
            match read_text(s.skip(2)) {
                Some((t, rest)) => Some((seq![escape_of(s[1])] + t, rest)),
                None => None,
            }
        } else {
            None
        }
    } else {
        match read_text(s.skip(1)) {
            Some((t, rest)) => Some((seq![s[0]] + t, rest)),
            None => None,
        }
    }
}

/// The value that a text starts with, and what follows it.
pub open spec fn read_value(s: Seq<char>) -> Option<(Json, Seq<char>)>
    decreases s.len(), 0int,
{
    if s.len() == 0 {
        None
    } else if s[0] == 'n' {
        if s.len() >= 4 && s.take(4) == seq!['n', 'u', 'l', 'l'] {
            Some((Json::Null, s.skip(4)))
        } else {
            None
        }
    } else if s[0] == 't' {
        if s.len() >= 4 && s.take(4) == seq!['t', 'r', 'u', 'e'] {
            Some((Json::Bool(true), s.skip(4)))
        } else {
            None
        }
    } else if s[0] == 'f' {
        if s.len() >= 5 && s.take(5) == seq!['f', 'a', 'l', 's', 'e'] {
            Some((Json::Bool(false), s.skip(5)))
        } else {
            None
        }
    } else if s[0] == '"' {
        match read_text(s.skip(1)) {
            Some((t, rest)) => Some((Json::Text(t), rest)),
            None => None,
        }
    } else if s[0] == '[' {
        if s.len() >= 2 && s[1] == ']' {
            Some((Json::List(Seq::empty()), s.skip(2)))
        } else {
            match read_items(s.skip(1)) {
                Some((v, rest)) => Some((Json::List(v), rest)),
                None => None,
            }
        }
    } else if s[0] == '{' {
        if s.len() >= 2 && s[1] == '}' {
            Some((Json::Object(Seq::empty()), s.skip(2)))
        } else {
            match read_members(s.skip(1)) {
                Some((v, rest)) => Some((Json::Object(v), rest)),
                None => None,
            }
        }
    } else if s[0] == '-' {
        let k = digits_ahead(s.skip(1));
        if k > 0 {
            Some((Json::Num(-number_of(s.subrange(1, 1 + k))), s.skip(1 + k)))
        } else {
            None
        }
    } else if is_digit(s[0]) {
        let k = digits_ahead(s);
        Some((Json::Num(number_of(s.take(k))), s.skip(k)))
    } else {
        None
    }
}

/// The items of a list up to its closing bracket, at least one of them, and what follows.
pub open spec fn read_items(s: Seq<char>) -> Option<(Seq<Json>, Seq<char>)>
    decreases s.len(), 1int,
{
    match read_value(s) {
        Some((v, r)) => if r.len() < s.len() && r.len() > 0 && r[0] == ']' {
            Some((seq![v], r.skip(1)))
        } else if r.len() < s.len() && r.len() > 0 && r[0] == ',' {
            match read_items(r.skip(1)) {
                Some((more, rest)) => Some((seq![v] + more, rest)),
                None => None,
            }
        } else {
            None
        },
        None => None,
    }
}

/// A name, a colon and a value, and what follows.
pub open spec fn read_member(s: Seq<char>) -> Option<((Seq<char>, Json), Seq<char>)>
    decreases s.len(), 1int,
{
    if s.len() > 0 && s[0] == '"' {
        match read_text(s.skip(1)) {
            Some((name, r)) => if r.len() < s.len() && r.len() > 0 && r[0] == ':' {
                match read_value(r.skip(1)) {
                    Some((v, rest)) => Some(((name, v), rest)),
                    None => None,
                }
            } else {
                None
            },
            None => None,
        }
    } else {
        None
    }
}

/// The members of an object up to its closing brace, at least one of them, and what follows.
pub open spec fn read_members(s: Seq<char>) -> Option<(Seq<(Seq<char>, Json)>, Seq<char>)>
    decreases s.len(), 2int,
{
    match read_member(s) {
        Some((v, r)) => if r.len() < s.len() && r.len() > 0 && r[0] == '}' {
            Some((seq![v], r.skip(1)))
        } else if r.len() < s.len() && r.len() > 0 && r[0] == ',' {
            match read_members(r.skip(1)) {
                Some((more, rest)) => Some((seq![v] + more, rest)),
                None => None,
            }
        } else {
            None
        },
        None => None,
    }
}

/// What a whole text says.
pub open spec fn json_of(s: Seq<char>) -> Option<Json> {
    match read_value(s) {
        Some((j, rest)) => if rest.len() == 0 {
            Some(j)
        } else {
            None
        },
        None => None,
    }
}

/// Whether a value may end before a text.
pub open spec fn ends(rest: Seq<char>) -> bool {
    rest.len() == 0 || rest[0] == ',' || rest[0] == ']' || rest[0] == '}'
}

/// Whether a text is a value that says `j`, whatever follows.
#[verifier::opaque]
pub open spec fn says(t: Seq<char>, j: Json) -> bool {
    &&& t.len() > 0
    &&& t[0] != ']' && t[0] != '}'
    &&& forall|rest: Seq<char>| ends(rest) ==> #[trigger] read_value(t + rest) == Some((j, rest))
}

/// Whether a text is a member of an object that says `m`, whatever follows.
#[verifier::opaque]
pub open spec fn member_says(t: Seq<char>, m: (Seq<char>, Json)) -> bool {
    &&& t.len() > 0
    &&& t[0] != ']' && t[0] != '}'
    &&& forall|rest: Seq<char>| ends(rest) ==> #[trigger] read_member(t + rest) == Some((m, rest))
}

/// Whether texts are members that say `m`.
#[verifier::opaque]
pub open spec fn members_say(t: Seq<Seq<char>>, m: Seq<(Seq<char>, Json)>) -> bool {
    &&& t.len() == m.len()
    &&& forall|i: int| 0 <= i < t.len() ==> member_says(#[trigger] t[i], m[i])
}

/// Whether texts are values that say `j`.
pub open spec fn all_say(t: Seq<Seq<char>>, j: Seq<Json>) -> bool {
    &&& t.len() == j.len()
    &&& forall|i: int| 0 <= i < t.len() ==> says(#[trigger] t[i], j[i])
}

proof fn lemma_joined_first(items: Seq<Seq<char>>)
    requires
        items.len() > 1,
    ensures
        joined(items) == items[0] + ","@ + joined(items.skip(1)),
    decreases items.len(),
{
    if items.len() == 2 {
        assert(items.drop_last() =~= seq![items[0]]);
        assert(items.skip(1) =~= seq![items[1]]);
        assert(joined(items.drop_last()) == items[0]);
    } else {
        lemma_joined_first(items.drop_last());
        assert(items.drop_last().skip(1) =~= items.skip(1).drop_last());
        assert(items.skip(1).last() == items.last());
        assert(joined(items) =~= items[0] + ","@ + joined(items.skip(1)));
    }
}

proof fn lemma_items(t: Seq<Seq<char>>, j: Seq<Json>, rest: Seq<char>)
    requires
        t.len() > 0,
        all_say(t, j),
    ensures
        read_items(joined(t) + seq![']'] + rest) == Some((j, rest)),
        joined(t).len() > 0,
        joined(t)[0] == t[0][0],
        t[0].len() > 0,
        t[0][0] != ']',
    decreases t.len(),
{
    reveal(says);
    assert(says(t[0], j[0]));
    if t.len() == 1 {
        let r = seq![']'] + rest;
        assert(joined(t) + seq![']'] + rest =~= t[0] + r);
        assert(read_value(t[0] + r) == Some((j[0], r)));
        assert(r.skip(1) =~= rest);
        assert(j =~= seq![j[0]]);
    } else {
        reveal_strlit(",");
        lemma_joined_first(t);
        assert forall|i: int| 0 <= i < t.skip(1).len() implies says(
            #[trigger] t.skip(1)[i],
            j.skip(1)[i],
        ) by {
            assert(says(t[i + 1], j[i + 1]));
        }
        lemma_items(t.skip(1), j.skip(1), rest);
        let more = joined(t.skip(1)) + seq![']'] + rest;
        let r = seq![','] + more;
        assert(joined(t) + seq![']'] + rest =~= t[0] + r);
        assert(read_value(t[0] + r) == Some((j[0], r)));
        assert(r.skip(1) =~= more);
        assert(j =~= seq![j[0]] + j.skip(1));
    }
}

proof fn lemma_members(t: Seq<Seq<char>>, m: Seq<(Seq<char>, Json)>, rest: Seq<char>)
    requires
        t.len() > 0,
        members_say(t, m),
    ensures
        read_members(joined(t) + seq!['}'] + rest) == Some((m, rest)),
        joined(t).len() > 0,
        joined(t)[0] == t[0][0],
        t[0].len() > 0,
        t[0][0] != '}',
    decreases t.len(),
{
    reveal(member_says);
    reveal(members_say);
    assert(member_says(t[0], m[0]));
    if t.len() == 1 {
        let r = seq!['}'] + rest;
        assert(joined(t) + seq!['}'] + rest =~= t[0] + r);
        assert(read_member(t[0] + r) == Some((m[0], r)));
        assert(r.skip(1) =~= rest);
        assert(m =~= seq![m[0]]);
    } else {
        reveal_strlit(",");
        lemma_joined_first(t);
        assert forall|i: int| 0 <= i < t.skip(1).len() implies member_says(
            #[trigger] t.skip(1)[i],
            m.skip(1)[i],
        ) by {
            assert(member_says(t[i + 1], m[i + 1]));
        }
        lemma_members(t.skip(1), m.skip(1), rest);
        let more = joined(t.skip(1)) + seq!['}'] + rest;
        let r = seq![','] + more;
        assert(joined(t) + seq!['}'] + rest =~= t[0] + r);
        assert(read_member(t[0] + r) == Some((m[0], r)));
        assert(r.skip(1) =~= more);
        assert(m =~= seq![m[0]] + m.skip(1));
    }
}

/// A list in brackets says the list of what its items say.
pub proof fn lemma_list(t: Seq<Seq<char>>, j: Seq<Json>)
    requires
        all_say(t, j),
    ensures
        says("["@ + joined(t) + "]"@, Json::List(j)),
{
    reveal(says);
    reveal_strlit("[");
    reveal_strlit("]");
    let u = "["@ + joined(t) + "]"@;
    assert(u[0] == '[');
    assert forall|rest: Seq<char>| ends(rest) implies #[trigger] read_value(u + rest) == Some(
        (Json::List(j), rest),
    ) by {
        let s = u + rest;
        assert(s[0] == '[');
        if t.len() == 0 {
            assert(s[1] == ']');
            assert(s.skip(2) =~= rest);
            assert(j =~= Seq::empty());
        } else {
            lemma_items(t, j, rest);
            assert(s[1] == joined(t)[0]);
            assert(s.skip(1) =~= joined(t) + seq![']'] + rest);
        }
    }
}

/// Members in braces say the object that has them.
pub proof fn lemma_object(t: Seq<Seq<char>>, m: Seq<(Seq<char>, Json)>)
    requires
        members_say(t, m),
    ensures
        says("{"@ + joined(t) + "}"@, Json::Object(m)),
{
    reveal(says);
    reveal(members_say);
    reveal_strlit("{");
    reveal_strlit("}");
    let u = "{"@ + joined(t) + "}"@;
    assert(u[0] == '{');
    assert forall|rest: Seq<char>| ends(rest) implies #[trigger] read_value(u + rest) == Some(
        (Json::Object(m), rest),
    ) by {
        let s = u + rest;
        assert(s[0] == '{');
        if t.len() == 0 {
            assert(s[1] == '}');
            assert(s.skip(2) =~= rest);
            assert(m =~= Seq::empty());
        } else {
            lemma_members(t, m, rest);
            assert(s[1] == joined(t)[0]);
            assert(s.skip(1) =~= joined(t) + seq!['}'] + rest);
        }
    }
}

proof fn lemma_digits_ahead(s: Seq<char>, rest: Seq<char>)
    requires
        forall|i: int| 0 <= i < s.len() ==> is_digit(#[trigger] s[i]),
        rest.len() == 0 || !is_digit(rest[0]),
    ensures
        digits_ahead(s + rest) == s.len(),
    decreases s.len(),
{
    if s.len() > 0 {
        assert forall|i: int| 0 <= i < s.skip(1).len() implies is_digit(#[trigger] s.skip(1)[i]) by {
            assert(is_digit(s[i + 1]));
        }
        lemma_digits_ahead(s.skip(1), rest);
        assert((s + rest).skip(1) =~= s.skip(1) + rest);
        assert((s + rest)[0] == s[0]);
    } else {
        assert(s + rest =~= rest);
    }
}

/// The decimal digits of a number spell it.
pub proof fn lemma_number(n: nat)
    ensures
        dec(n).len() > 0,
        forall|i: int| 0 <= i < dec(n).len() ==> is_digit(#[trigger] dec(n)[i]),
        number_of(dec(n)) == n,
    decreases n,
{
    if n < 10 {
        assert(dec(n).drop_last() =~= Seq::<char>::empty());
        assert(number_of(dec(n).drop_last()) == 0);
        assert(dec(n).last() == digit_char(n));
    } else {
        lemma_number(n / 10);
        assert(dec(n).drop_last() =~= dec(n / 10));
        assert(dec(n).last() == digit_char(n % 10));
    }
}

/// Decimal digits say their number.
pub proof fn lemma_dec_says(n: nat)
    ensures
        says(dec(n), Json::Num(n as int)),
        says("-"@ + dec(n), Json::Num(-(n as int))),
{
    reveal(says);
    reveal_strlit("-");
    let t = dec(n);
    lemma_number(n);
    assert(is_digit(t[0]));
    assert forall|rest: Seq<char>| ends(rest) implies #[trigger] read_value(t + rest) == Some(
        (Json::Num(n as int), rest),
    ) by {
        let s = t + rest;
        lemma_digits_ahead(t, rest);
        assert(s[0] == t[0]);
        assert(s.take(t.len() as int) =~= t);
        assert(s.skip(t.len() as int) =~= rest);
    }
    let u = "-"@ + t;
    assert(u[0] == '-');
    assert forall|rest: Seq<char>| ends(rest) implies #[trigger] read_value(u + rest) == Some(
        (Json::Num(-(n as int)), rest),
    ) by {
        let s = u + rest;
        lemma_digits_ahead(t, rest);
        assert(s[0] == '-');
        assert(s.skip(1) =~= t + rest);
        assert(s.subrange(1, 1 + t.len() as int) =~= t);
        assert(s.skip(1 + t.len() as int) =~= rest);
    }
}

/// `null` says nothing, `true` says yes.
pub proof fn lemma_words_say()
    ensures
        says("null"@, Json::Null),
        says("true"@, Json::Bool(true)),
        says("0"@, Json::Num(0)),
{
    reveal(says);
    reveal_strlit("null");
    reveal_strlit("true");
    reveal_strlit("0");
    assert forall|rest: Seq<char>| ends(rest) implies #[trigger] read_value("null"@ + rest) == Some(
        (Json::Null, rest),
    ) by {
        let s = "null"@ + rest;
        assert(s.take(4) =~= seq!['n', 'u', 'l', 'l']);
        assert(s.skip(4) =~= rest);
    }
    assert forall|rest: Seq<char>| ends(rest) implies #[trigger] read_value("true"@ + rest) == Some(
        (Json::Bool(true), rest),
    ) by {
        let s = "true"@ + rest;
        assert(s.take(4) =~= seq!['t', 'r', 'u', 'e']);
        assert(s.skip(4) =~= rest);
    }
    lemma_dec_says(0);
    assert(dec(0) =~= "0"@);
}

/// `false` says no.
pub proof fn lemma_false_says()
    ensures
        says("false"@, Json::Bool(false)),
{
    reveal(says);
    reveal_strlit("false");
    assert forall|rest: Seq<char>| ends(rest) implies #[trigger] read_value("false"@ + rest) == Some(
        (Json::Bool(false), rest),
    ) by {
        let s = "false"@ + rest;
        assert(s.take(5) =~= seq!['f', 'a', 'l', 's', 'e']);
        assert(s.skip(5) =~= rest);
    }
}

proof fn lemma_chars_first(s: Seq<char>)
    requires
        s.len() > 0,
    ensures
        json_chars(s) == json_char(s[0]) + json_chars(s.skip(1)),
    decreases s.len(),
{
    if s.len() > 1 {
        lemma_chars_first(s.drop_last());
        assert(s.drop_last().skip(1) =~= s.skip(1).drop_last());
        assert(s.skip(1).last() == s.last());
        assert(json_chars(s) =~= json_char(s[0]) + json_chars(s.skip(1)));
    } else {
        assert(s.drop_last() =~= Seq::empty());
        assert(s.skip(1) =~= Seq::empty());
        assert(json_chars(s) =~= json_char(s[0]) + json_chars(s.skip(1)));
    }
}

proof fn lemma_char_reads(c: char, more: Seq<char>)
    ensures
        read_text(json_char(c) + more) == match read_text(more) {
            Some((t, rest)) => Some((seq![c] + t, rest)),
            None => None,
        },
{
    reveal_strlit("\\\"");
    reveal_strlit("\\\\");
    reveal_strlit("\\b");
    reveal_strlit("\\f");
    reveal_strlit("\\n");
    reveal_strlit("\\r");
    reveal_strlit("\\t");
    reveal_strlit("\\u00");
    let e = json_char(c);
    let s = e + more;
    assert(s.skip(e.len() as int) =~= more);
    assert(s[0] == e[0]);
    if e.len() == 2 {
        assert(s[1] == e[1]);
        assert(escape_of(e[1]) == c);
    } else if e.len() == 6 {
        let b = c as u8;
        assert(e[1] == 'u' && e[2] == '0' && e[3] == '0');
        assert(e[4] == hex_char((b / 16) as nat) && e[5] == hex_char((b % 16) as nat));
        assert(s[1] == e[1] && s[2] == e[2] && s[3] == e[3] && s[4] == e[4] && s[5] == e[5]);
        assert(hex_value(e[4]) == b / 16 && hex_value(e[5]) == b % 16);
        assert(16 * (b / 16) + b % 16 == b);
        assert((b as int) as char == c);
    }
}

proof fn lemma_text_reads(s: Seq<char>, rest: Seq<char>)
    ensures
        read_text(json_chars(s) + seq!['"'] + rest) == Some((s, rest)),
    decreases s.len(),
{
    if s.len() > 0 {
        lemma_text_reads(s.skip(1), rest);
        lemma_chars_first(s);
        let more = json_chars(s.skip(1)) + seq!['"'] + rest;
        assert(json_chars(s) + seq!['"'] + rest =~= json_char(s[0]) + more);
        lemma_char_reads(s[0], more);
        assert(s =~= seq![s[0]] + s.skip(1));
    } else {
        let u = json_chars(s) + seq!['"'] + rest;
        assert(u =~= seq!['"'] + rest);
        assert(u.skip(1) =~= rest);
        assert(s =~= Seq::empty());
    }
}

/// A text as a JSON string reads back as it is.
pub proof fn law_string_reads_back(s: Seq<char>)
    ensures
        json_of(json_string(s)) == Some(Json::Text(s)),
        says(json_string(s), Json::Text(s)),
{
    reveal(says);
    reveal_strlit("\"");
    let t = json_string(s);
    assert(t[0] == '"');
    assert forall|rest: Seq<char>| ends(rest) implies #[trigger] read_value(t + rest) == Some(
        (Json::Text(s), rest),
    ) by {
        lemma_text_reads(s, rest);
        assert((t + rest)[0] == '"');
        assert((t + rest).skip(1) =~= json_chars(s) + seq!['"'] + rest);
    }
    assert(t + Seq::<char>::empty() =~= t);
}

/// Whether a text stands for itself in a JSON string.
pub open spec fn plain(s: Seq<char>) -> bool {
    forall|i: int| 0 <= i < s.len() ==> 32 <= #[trigger] s[i] as u32 && s[i] != '"' && s[i] != '\\'
}

/// A plain text is itself in a JSON string.
pub proof fn lemma_plain_chars(s: Seq<char>)
    requires
        plain(s),
    ensures
        json_chars(s) == s,
    decreases s.len(),
{
    if s.len() > 0 {
        assert forall|i: int| 0 <= i < s.drop_last().len() implies 32 <= #[trigger] s.drop_last()[i]
            as u32 && s.drop_last()[i] != '"' && s.drop_last()[i] != '\\' by {
            assert(s.drop_last()[i] == s[i]);
        }
        lemma_plain_chars(s.drop_last());
        let c = s[s.len() - 1];
        assert(json_char(c) =~= seq![c]);
        assert(s =~= s.drop_last() + seq![c]);
    }
}

/// A quoted plain name, a colon and a value are a member with that name.
pub proof fn lemma_member(t: Seq<char>, name: Seq<char>, value: Seq<char>, j: Json)
    requires
        plain(name),
        says(value, j),
        t == seq!['"'] + name + seq!['"', ':'] + value,
    ensures
        member_says(t, (name, j)),
{
    reveal(says);
    reveal(member_says);
    assert(t[0] == '"');
    assert forall|rest: Seq<char>| ends(rest) implies #[trigger] read_member(t + rest) == Some(
        ((name, j), rest),
    ) by {
        let s = t + rest;
        let more = seq![':'] + (value + rest);
        lemma_text_reads(name, more);
        lemma_plain_chars(name);
        assert(s[0] == '"');
        assert(s.skip(1) =~= name + seq!['"'] + more);
        assert(more.skip(1) =~= value + rest);
        assert(read_value(value + rest) == Some((j, rest)));
    }
}

/// What a value says is what its whole text says.
pub proof fn lemma_says_whole(t: Seq<char>, j: Json)
    requires
        says(t, j),
    ensures
        json_of(t) == Some(j),
{
    reveal(says);
    assert(t + Seq::<char>::empty() =~= t);
    assert(read_value(t + Seq::<char>::empty()) == Some((j, Seq::<char>::empty())));
}

} // verus!
