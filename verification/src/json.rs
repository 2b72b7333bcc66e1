use vstd::prelude::*;

use crate::text::text_less;

verus! {

/// The lowercase hexadecimal digit for `d` (below sixteen).
pub open spec fn hex_digit(d: int) -> char {
    if d < 10 {
        (48 + d) as char
    } else {
        (97 + d - 10) as char
    }
}

/// How serde_json writes one character inside a JSON string: `"` and `\`
/// behind a backslash, the control characters with a short escape where JSON
/// has one and as `\u00XX` otherwise, every other character as itself.
pub open spec fn json_escape_char(c: char) -> Seq<char> {
    if c == '"' {
        seq!['\\', '"']
    } else if c == '\\' {
        seq!['\\', '\\']
    } else if c == '\u{8}' {
        seq!['\\', 'b']
    } else if c == '\t' {
        seq!['\\', 't']
    } else if c == '\n' {
        seq!['\\', 'n']
    } else if c == '\u{c}' {
        seq!['\\', 'f']
    } else if c == '\r' {
        seq!['\\', 'r']
    } else if (c as int) < 32 {
        seq!['\\', 'u', '0', '0', hex_digit((c as int) / 16), hex_digit((c as int) % 16)]
    } else {
        seq![c]
    }
}

/// The characters of `s`, each escaped for a JSON string.
pub open spec fn json_escaped(s: Seq<char>) -> Seq<char>
    decreases s.len(),
{
    if s.len() == 0 {
        Seq::empty()
    } else {
        json_escape_char(s[0]) + json_escaped(s.drop_first())
    }
}

/// The JSON string literal for `s`.
pub open spec fn json_string_literal(s: Seq<char>) -> Seq<char> {
    seq!['"'] + json_escaped(s) + seq!['"']
}

/// One member of a JSON object: key, colon, value.
pub open spec fn json_member(e: (Seq<char>, Seq<char>)) -> Seq<char> {
    json_string_literal(e.0) + seq![':'] + json_string_literal(e.1)
}

/// The members of a JSON object, separated by commas.
pub open spec fn json_members(es: Seq<(Seq<char>, Seq<char>)>) -> Seq<char>
    decreases es.len(),
{
    if es.len() == 0 {
        Seq::empty()
    } else if es.len() == 1 {
        json_member(es[0])
    } else {
        json_member(es[0]) + seq![','] + json_members(es.drop_first())
    }
}

/// The compact JSON object with string members `es`, in order.
pub open spec fn json_object(es: Seq<(Seq<char>, Seq<char>)>) -> Seq<char> {
    seq!['{'] + json_members(es) + seq!['}']
}

/// Keys that run in strictly ascending order, so no key repeats.
pub open spec fn keys_ascending(es: Seq<(Seq<char>, Seq<char>)>) -> bool {
    forall|i: int, j: int| 0 <= i < j < es.len() ==> text_less(#[trigger] es[i].0, #[trigger] es[j].0)
}

/// Trusted: `serde_json::to_string` of a `serde_json::Value::Object` holding
/// each `(key, value)` of `members` as a string member. Without serde_json's
/// `preserve_order` feature its map is a `BTreeMap`, which orders keys by
/// `String`'s order (`text_less`), so with keys already ascending the members
/// come out in the order given; compact output writes `{`, the members joined
/// by `,`, each as key `:` value, then `}`, every string escaped as
/// `json_escape_char` says. Serializing such a value does not fail.
#[verifier::external_body]
pub(crate) fn json_object_text(members: &Vec<(String, String)>) -> (text: String)
    requires
        keys_ascending(members.deep_view()),
    ensures
        text@ == json_object(members.deep_view()),
{
    let mut object = serde_json::Map::new();
    for (key, value) in members {
        object.insert(key.clone(), serde_json::Value::String(value.clone()));
    }
    serde_json::to_string(&serde_json::Value::Object(object)).unwrap_or_default()
}

/// The value of a hexadecimal digit, either case.
pub open spec fn hex_value(c: char) -> Option<int> {
    let u = c as int;
    if 48 <= u <= 57 {
        Some(u - 48)
    } else if 97 <= u <= 102 {
        Some(u - 87)
    } else if 65 <= u <= 70 {
        Some(u - 55)
    } else {
        None
    }
}

/// The character a one-letter JSON escape stands for.
pub open spec fn short_escape(e: char) -> Option<char> {
    if e == '"' {
        Some('"')
    } else if e == '\\' {
        Some('\\')
    } else if e == '/' {
        Some('/')
    } else if e == 'b' {
        Some('\u{8}')
    } else if e == 'f' {
        Some('\u{c}')
    } else if e == 'n' {
        Some('\n')
    } else if e == 'r' {
        Some('\r')
    } else if e == 't' {
        Some('\t')
    } else {
        None
    }
}

/// The code point of a `\uXXXX` escape whose four digits begin `t`, when it
/// is not a surrogate.
pub open spec fn unicode_escape(t: Seq<char>) -> Option<char> {
    if t.len() >= 4 {
        match (hex_value(t[0]), hex_value(t[1]), hex_value(t[2]), hex_value(t[3])) {
            (Some(a), Some(b), Some(c), Some(d)) => {
                let v = a * 4096 + b * 256 + c * 16 + d;
                if v < 0xd800 || v > 0xdfff {
                    Some(v as char)
                } else {
                    None
                }
            },
            _ => None,
        }
    } else {
        None
    }
}

/// Reads the rest of a JSON string after its opening quote: the characters
/// it stands for, and how many characters it takes up to and including the
/// closing quote.
pub open spec fn json_string_rest(t: Seq<char>) -> Option<(Seq<char>, int)>
    decreases t.len(),
{
    if t.len() == 0 {
        None
    } else if t[0] == '"' {
        Some((Seq::empty(), 1))
    } else if t[0] == '\\' {
        if t.len() < 2 {
            None
        } else if let Some(c) = short_escape(t[1]) {
            match json_string_rest(t.skip(2)) {
                Some((s, n)) => Some((seq![c] + s, n + 2)),
                None => None,
            }
        } else if t[1] == 'u' && t.len() >= 6 {
            match unicode_escape(t.skip(2)) {
                Some(c) => match json_string_rest(t.skip(6)) {
                    Some((s, n)) => Some((seq![c] + s, n + 6)),
                    None => None,
                },
                None => None,
            }
        } else {
            None
        }
    } else if (t[0] as int) < 32 {
        None
    } else {
        match json_string_rest(t.skip(1)) {
            Some((s, n)) => Some((seq![t[0]] + s, n + 1)),
            None => None,
        }
    }
}

/// Reads a JSON string at the start of `t`: its characters and its length.
pub open spec fn json_string_at(t: Seq<char>) -> Option<(Seq<char>, int)> {
    if t.len() > 0 && t[0] == '"' {
        match json_string_rest(t.skip(1)) {
            Some((s, n)) => Some((s, n + 1)),
            None => None,
        }
    } else {
        None
    }
}

/// Reads the members of a JSON object with string values, up to and
/// including its closing brace, which must end `t`.
pub open spec fn json_members_at(t: Seq<char>) -> Option<Seq<(Seq<char>, Seq<char>)>>
    decreases t.len(),
{
    match json_string_at(t) {
        Some((k, n1)) => if 0 < n1 < t.len() && t[n1] == ':' {
            match json_string_at(t.skip(n1 + 1)) {
                Some((v, n2)) => if 0 < n2 && n1 + 1 + n2 < t.len() {
                    let at = n1 + 1 + n2;
                    if t[at] == '}' && at + 1 == t.len() {
                        Some(seq![(k, v)])
                    } else if t[at] == ',' {
                        match json_members_at(t.skip(at + 1)) {
                            Some(rest) => Some(seq![(k, v)] + rest),
                            None => None,
                        }
                    } else {
                        None
                    }
                } else {
                    None
                },
                None => None,
            }
        } else {
            None
        },
        None => None,
    }
}

/// Reads a whole text as a JSON object whose values are all strings.
pub open spec fn json_object_members(t: Seq<char>) -> Option<Seq<(Seq<char>, Seq<char>)>> {
    if t.len() == 2 && t[0] == '{' && t[1] == '}' {
        Some(Seq::empty())
    } else if t.len() > 0 && t[0] == '{' {
        json_members_at(t.skip(1))
    } else {
        None
    }
}

/// A hexadecimal digit reads back as the number it was written for.
proof fn lemma_hex_digit_value(d: int)
    requires
        0 <= d < 16,
    ensures
        hex_value(hex_digit(d)) == Some(d),
{
}

/// The escaped form of a character reads back as that character, whatever
/// follows it.
proof fn lemma_escape_char_reads_back(c: char, u: Seq<char>, tail: Seq<char>, n: int)
    requires
        json_string_rest(u) == Some((tail, n)),
    ensures
        json_string_rest(json_escape_char(c) + u) == Some((seq![c] + tail, json_escape_char(c).len() + n)),
{
    let e = json_escape_char(c);
    let t = e + u;
    if e.len() == 2 {
        assert(t.skip(2) =~= u);
    } else if e.len() == 6 {
        let hi = (c as int) / 16;
        let lo = (c as int) % 16;
        lemma_hex_digit_value(hi);
        lemma_hex_digit_value(lo);
        lemma_hex_digit_value(0);
        assert(t.skip(6) =~= u);
        assert(t.skip(2).subrange(0, 4) =~= seq!['0', '0', hex_digit(hi), hex_digit(lo)]);
        assert(t.skip(2)[0] == '0');
        assert(t.skip(2)[1] == '0');
        assert(t.skip(2)[2] == hex_digit(hi));
        assert(t.skip(2)[3] == hex_digit(lo));
        assert(hi * 16 + lo == c as int);
        assert(unicode_escape(t.skip(2)) == Some(c));
    } else {
        assert(t.skip(1) =~= u);
    }
}

/// Reading the escaped characters of `s` and a closing quote gives back `s`
/// and the length up to and including the quote.
pub proof fn lemma_json_string_rest_round_trip(s: Seq<char>, rest: Seq<char>)
    ensures
        json_string_rest(json_escaped(s) + seq!['"'] + rest) == Some((s, json_escaped(s).len() + 1int)),
    decreases s.len(),
{
    if s.len() == 0 {
        assert(json_escaped(s) + seq!['"'] + rest =~= seq!['"'] + rest);
    } else {
        let tail = s.drop_first();
        let u = json_escaped(tail) + seq!['"'] + rest;
        lemma_json_string_rest_round_trip(tail, rest);
        lemma_escape_char_reads_back(s[0], u, tail, json_escaped(tail).len() + 1int);
        assert(json_escaped(s) + seq!['"'] + rest =~= json_escape_char(s[0]) + u);
        assert(seq![s[0]] + tail =~= s);
    }
}

/// A JSON string literal, whatever follows it, reads back as the text it was
/// written for, and its length.
pub proof fn lemma_json_string_literal_round_trip(s: Seq<char>, rest: Seq<char>)
    ensures
        json_string_at(json_string_literal(s) + rest) == Some((s, json_string_literal(s).len() as int)),
{
    let t = json_string_literal(s) + rest;
    lemma_json_string_rest_round_trip(s, rest);
    assert(t.skip(1) =~= json_escaped(s) + seq!['"'] + rest);
}

/// The members of a non-empty object and its closing brace read back as the
/// members they were written from.
proof fn lemma_json_members_round_trip(es: Seq<(Seq<char>, Seq<char>)>)
    requires
        es.len() > 0,
    ensures
        json_members_at(json_members(es) + seq!['}']) == Some(es),
    decreases es.len(),
{
    let e = es[0];
    let k = json_string_literal(e.0);
    let v = json_string_literal(e.1);
    let after = if es.len() == 1 {
        seq!['}']
    } else {
        seq![','] + json_members(es.drop_first()) + seq!['}']
    };
    let t = json_members(es) + seq!['}'];
    assert(t =~= k + (seq![':'] + v + after));
    lemma_json_string_literal_round_trip(e.0, seq![':'] + v + after);
    let n1 = k.len() as int;
    assert(t.skip(n1 + 1) =~= v + after);
    lemma_json_string_literal_round_trip(e.1, after);
    let at = n1 + 1 + v.len();
    assert(t[at] == after[0]);
    if es.len() == 1 {
        assert(seq![e] =~= es);
    } else {
        lemma_json_members_round_trip(es.drop_first());
        assert(t.skip(at + 1) =~= json_members(es.drop_first()) + seq!['}']);
        assert(seq![e] + es.drop_first() =~= es);
    }
}

/// A compact JSON object with string members reads back as exactly those
/// members, in order.
pub proof fn lemma_json_object_round_trip(es: Seq<(Seq<char>, Seq<char>)>)
    ensures
        json_object_members(json_object(es)) == Some(es),
{
    let t = json_object(es);
    if es.len() == 0 {
        assert(t =~= seq!['{', '}']);
        assert(es =~= Seq::<(Seq<char>, Seq<char>)>::empty());
    } else {
        lemma_json_members_round_trip(es);
        assert(t.skip(1) =~= json_members(es) + seq!['}']);
        assert(t[1] == '"');
    }
}

} // verus!
