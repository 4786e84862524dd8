//! JSON strings and flat JSON objects.

use crate::hex::{hex_char, hex_digit, hex_value};
use crate::text::{
    chars_of, decimal, digits_value, is_digit, is_hex_digit, lemma_contains_concat, lemma_decimal,
    lemma_decimal_lacks, lemma_run_end_is, occurs_at, push_decimal, push_signed, push_text, run_end,
    signed_decimal, CharClass,
};
use vstd::prelude::*;

verus! {

/// One character as it stands inside a JSON string.
pub open spec fn json_char(c: char) -> Seq<char> {
    if c == '"' {
        "\\\""@
    } else if c == '\\' {
        "\\\\"@
    } else if c == '\n' {
        "\\n"@
    } else if c == '\r' {
        "\\r"@
    } else if c == '\t' {
        "\\t"@
    } else if c == '\u{08}' {
        "\\b"@
    } else if c == '\u{0c}' {
        "\\f"@
    } else if (c as u32) < 0x20 {
        "\\u00"@ + seq![hex_char(c as u32 as nat / 16), hex_char(c as u32 as nat % 16)]
    } else {
        seq![c]
    }
}

/// `s` as the interior of a JSON string.
pub open spec fn json_text(s: Seq<char>) -> Seq<char>
    decreases s.len(),
{
    if s.len() == 0 {
        seq![]
    } else {
        json_text(s.drop_last()) + json_char(s.last())
    }
}

/// Appends `s` to `out` as the interior of a JSON string (no surrounding quotes),
/// escaping per RFC 8259.
pub fn json_escape(out: &mut String, s: &str)
    ensures
        final(out)@ == old(out)@ + json_text(s@),
{
    let c: Vec<char> = chars_of(s);
    let mut i: usize = 0;
    assert(c@.take(0) =~= Seq::<char>::empty());
    assert(out@ =~= old(out)@ + json_text(c@.take(0)));
    while i < c.len()
        invariant
            i <= c@.len(),
            out@ == old(out)@ + json_text(c@.take(i as int)),
        decreases c@.len() - i,
    {
        let ghost before = out@;
        match c[i] {
            '"' => push_text(out, "\\\""),
            '\\' => push_text(out, "\\\\"),
            '\n' => push_text(out, "\\n"),
            '\r' => push_text(out, "\\r"),
            '\t' => push_text(out, "\\t"),
            '\u{08}' => push_text(out, "\\b"),
            '\u{0c}' => push_text(out, "\\f"),
            x => if (x as u32) < 0x20 {
                let n: u32 = x as u32;
                push_text(out, "\\u00");
                out.push(hex_digit((n / 16) as u8));
                out.push(hex_digit((n % 16) as u8));
                assert(out@ =~= before + json_char(c@[i as int]));
            } else {
                out.push(x);
            },
        }
        proof {
            assert(c@.take(i + 1).drop_last() =~= c@.take(i as int));
            assert(out@ =~= before + json_char(c@[i as int]));
            assert(out@ =~= old(out)@ + json_text(c@.take(i + 1)));
        }
        i += 1;
    }
    assert(c@.take(i as int) =~= c@);
}

/// The character that a short escape stands for.
pub open spec fn short_escape(c: char) -> Option<char> {
    if c == '"' || c == '\\' || c == '/' {
        Some(c)
    } else if c == 'n' {
        Some('\n')
    } else if c == 'r' {
        Some('\r')
    } else if c == 't' {
        Some('\t')
    } else if c == 'b' {
        Some('\u{08}')
    } else if c == 'f' {
        Some('\u{0c}')
    } else {
        None
    }
}

/// The text that the interior of a JSON string stands for, by RFC 8259; nothing where
/// it holds a bare quote, a bare control character or an escape that is none. (Escaped
/// surrogates are left out.)
pub open spec fn json_read(s: Seq<char>) -> Option<Seq<char>>
    decreases s.len(),
{
    if s.len() == 0 {
        Some(seq![])
    } else if s[0] == '"' || (s[0] as u32) < 0x20 {
        None
    } else if s[0] != '\\' {
        match json_read(s.skip(1)) {
            Some(rest) => Some(seq![s[0]] + rest),
            None => None,
        }
    } else if s.len() >= 6 && s[1] == 'u' && is_hex_digit(s[2]) && is_hex_digit(s[3])
        && is_hex_digit(s[4]) && is_hex_digit(s[5]) {
        let u = (((hex_value(s[2]) * 16 + hex_value(s[3])) * 16 + hex_value(s[4])) * 16
            + hex_value(s[5])) as u32;
        match json_read(s.skip(6)) {
            Some(rest) => if 0xd800 <= u <= 0xdfff {
                None
            } else {
                Some(seq![u as char] + rest)
            },
            None => None,
        }
    } else if s.len() >= 2 && short_escape(s[1]) is Some {
        match json_read(s.skip(2)) {
            Some(rest) => Some(seq![short_escape(s[1])->0] + rest),
            None => None,
        }
    } else {
        None
    }
}

proof fn lemma_json_text_front(s: Seq<char>)
    requires
        s.len() > 0,
    ensures
        json_text(s) == json_char(s[0]) + json_text(s.drop_first()),
    decreases s.len(),
{
    if s.len() == 1 {
        assert(s.drop_last() =~= Seq::<char>::empty());
        assert(s.drop_first() =~= Seq::<char>::empty());
        assert(json_text(s) =~= json_char(s[0]) + json_text(s.drop_first()));
    } else {
        lemma_json_text_front(s.drop_last());
        assert(s.drop_last().drop_first() =~= s.drop_first().drop_last());
        assert(json_text(s) =~= json_char(s[0]) + json_text(s.drop_first()));
    }
}

/// Reading one escaped character gives it back, and leaves what follows.
proof fn lemma_json_char_read(c: char, rest: Seq<char>)
    requires
        json_read(rest) is Some,
    ensures
        json_read(json_char(c) + rest) == Some(seq![c] + json_read(rest)->0),
{
    reveal_strlit("\\\"");
    reveal_strlit("\\\\");
    reveal_strlit("\\n");
    reveal_strlit("\\r");
    reveal_strlit("\\t");
    reveal_strlit("\\b");
    reveal_strlit("\\f");
    reveal_strlit("\\u00");
    let all = json_char(c) + rest;
    let short = c == '"' || c == '\\' || c == '\n' || c == '\r' || c == '\t' || c == '\u{08}' || c
        == '\u{0c}';
    if short {
        assert(all.skip(2) =~= rest);
    } else if (c as u32) < 0x20 {
        assert(all.skip(6) =~= rest);
    } else {
        assert(all.skip(1) =~= rest);
    }
}

/// What is written into a JSON string reads back as the text it was written from: in
/// particular no bare quote and no bare control character is ever written.
pub proof fn law_json_round_trip(s: Seq<char>)
    ensures
        json_read(json_text(s)) == Some(s),
    decreases s.len(),
{
    if s.len() > 0 {
        law_json_round_trip(s.drop_first());
        lemma_json_text_front(s);
        lemma_json_char_read(s[0], json_text(s.drop_first()));
        assert(seq![s[0]] + s.drop_first() =~= s);
    } else {
        assert(s =~= Seq::<char>::empty());
    }
}

/// No control character stands inside a JSON string.
proof fn lemma_json_text_has_no_controls(s: Seq<char>, c: char)
    requires
        (c as u32) < 0x20,
    ensures
        !json_text(s).contains(c),
    decreases s.len(),
{
    if s.len() > 0 {
        lemma_json_text_has_no_controls(s.drop_last(), c);
        reveal_strlit("\\\"");
        reveal_strlit("\\\\");
        reveal_strlit("\\n");
        reveal_strlit("\\r");
        reveal_strlit("\\t");
        reveal_strlit("\\b");
        reveal_strlit("\\f");
        reveal_strlit("\\u00");
        let e = json_char(s.last());
        if e.contains(c) {
            let i = choose|i: int| 0 <= i < e.len() && e[i] == c;
            assert(e[i] as u32 >= 0x20);
        }
        lemma_contains_concat(json_text(s.drop_last()), e, c);
    }
}

/// A value in a JSON object.
pub enum JsonValue {
    Text(Seq<char>),
    Number(int),
    Bool(bool),
}

/// A member of a JSON object: its key and its value.
pub type JsonField = (Seq<char>, JsonValue);

/// Text as a JSON string.
pub open spec fn json_quoted(s: Seq<char>) -> Seq<char> {
    seq!['"'] + json_text(s) + seq!['"']
}

/// A value as JSON has it.
pub open spec fn json_value(v: JsonValue) -> Seq<char> {
    match v {
        JsonValue::Text(s) => json_quoted(s),
        JsonValue::Number(n) => signed_decimal(n),
        JsonValue::Bool(b) => if b {
            "true"@
        } else {
            "false"@
        },
    }
}

/// A member as JSON has it.
pub open spec fn json_member(f: JsonField) -> Seq<char> {
    json_quoted(f.0) + seq![':'] + json_value(f.1)
}

/// The members from the `k`-th on, with commas between them.
pub open spec fn json_members(fields: Seq<JsonField>, k: int) -> Seq<char>
    decreases fields.len() - k,
{
    if k < 0 || k >= fields.len() {
        seq![]
    } else if k == fields.len() - 1 {
        json_member(fields[k])
    } else {
        json_member(fields[k]) + seq![','] + json_members(fields, k + 1)
    }
}

/// An object as JSON has it.
pub open spec fn json_object(fields: Seq<JsonField>) -> Seq<char> {
    seq!['{'] + json_members(fields, 0) + seq!['}']
}

/// What stands between a new member and those before it.
pub open spec fn comma_behind(fields: Seq<JsonField>) -> Seq<char> {
    if fields.len() > 0 {
        seq![',']
    } else {
        seq![]
    }
}

proof fn lemma_members_push(fields: Seq<JsonField>, f: JsonField, k: int)
    requires
        0 <= k <= fields.len(),
    ensures
        json_members(fields.push(f), k) == json_members(fields, k) + (if k < fields.len() {
            seq![',']
        } else {
            seq![]
        }) + json_member(f),
    decreases fields.len() - k,
{
    let all = fields.push(f);
    if k < fields.len() {
        lemma_members_push(fields, f, k + 1);
        assert(all[k] == fields[k]);
        if k == fields.len() - 1 {
            assert(json_members(fields, k + 1) =~= Seq::<char>::empty());
        }
        assert(json_members(all, k) =~= json_members(fields, k) + seq![','] + json_member(f));
    } else {
        assert(all[k] == f);
        assert(json_members(all, k) =~= json_members(fields, k) + Seq::<char>::empty()
            + json_member(f));
    }
}

/// A JSON object under construction.
pub struct JsonObject {
    text: String,
    empty: bool,
    fields: Ghost<Seq<JsonField>>,
}

impl View for JsonObject {
    type V = Seq<JsonField>;

    closed spec fn view(&self) -> Seq<JsonField> {
        self.fields@
    }
}

impl JsonObject {
    /// The text is that of the members so far, behind the opening brace.
    pub closed spec fn wf(&self) -> bool {
        &&& self.text@ == seq!['{'] + json_members(self@, 0)
        &&& self.empty == (self@.len() == 0)
    }

    /// An object without members.
    pub fn new() -> (r: Self)
        ensures
            r.wf(),
            r@ == Seq::<JsonField>::empty(),
    {
        let mut text: String = String::new();
        text.push('{');
        let r = JsonObject { text, empty: true, fields: Ghost(Seq::empty()) };
        assert(r.text@ =~= seq!['{'] + json_members(r@, 0));
        r
    }

    /// Appends what comes before a value: a comma where one is needed, the key and a colon.
    fn start_member(&mut self, key: &str)
        requires
            old(self).wf(),
        ensures
            final(self).text@ == old(self).text@ + comma_behind(old(self)@) + json_quoted(key@)
                + seq![':'],
            final(self).fields == old(self).fields,
            !final(self).empty,
    {
        if !self.empty {
            self.text.push(',');
        }
        self.empty = false;
        assert(self.text@ =~= old(self).text@ + comma_behind(old(self)@));
        push_quoted(&mut self.text, key);
        self.text.push(':');
        assert(self.text@ =~= old(self).text@ + comma_behind(old(self)@) + json_quoted(key@)
            + seq![':']);
    }

    /// Appends a member with a string.
    pub fn text_field(&mut self, key: &str, value: &str)
        requires
            old(self).wf(),
        ensures
            final(self).wf(),
            final(self)@ == old(self)@.push((key@, JsonValue::Text(value@))),
    {
        self.start_member(key);
        push_quoted(&mut self.text, value);
        let ghost f: JsonField = (key@, JsonValue::Text(value@));
        self.fields = Ghost(self.fields@.push(f));
        proof {
            lemma_members_push(old(self)@, f, 0);
            assert(self.text@ =~= seq!['{'] + json_members(self@, 0));
        }
    }

    /// Appends a member with a number.
    pub fn number_field(&mut self, key: &str, value: i64)
        requires
            old(self).wf(),
        ensures
            final(self).wf(),
            final(self)@ == old(self)@.push((key@, JsonValue::Number(value as int))),
    {
        self.start_member(key);
        push_signed(&mut self.text, value);
        let ghost f: JsonField = (key@, JsonValue::Number(value as int));
        self.fields = Ghost(self.fields@.push(f));
        proof {
            lemma_members_push(old(self)@, f, 0);
            assert(self.text@ =~= seq!['{'] + json_members(self@, 0));
        }
    }

    /// Appends a member with a count.
    pub fn count_field(&mut self, key: &str, value: usize)
        requires
            old(self).wf(),
        ensures
            final(self).wf(),
            final(self)@ == old(self)@.push((key@, JsonValue::Number(value as int))),
    {
        self.start_member(key);
        push_decimal(&mut self.text, value as u64);
        let ghost f: JsonField = (key@, JsonValue::Number(value as int));
        self.fields = Ghost(self.fields@.push(f));
        proof {
            lemma_members_push(old(self)@, f, 0);
            assert(self.text@ =~= seq!['{'] + json_members(self@, 0));
        }
    }

    /// Appends a member with a truth value.
    pub fn bool_field(&mut self, key: &str, value: bool)
        requires
            old(self).wf(),
        ensures
            final(self).wf(),
            final(self)@ == old(self)@.push((key@, JsonValue::Bool(value))),
    {
        self.start_member(key);
        if value {
            push_text(&mut self.text, "true");
        } else {
            push_text(&mut self.text, "false");
        }
        let ghost f: JsonField = (key@, JsonValue::Bool(value));
        self.fields = Ghost(self.fields@.push(f));
        proof {
            lemma_members_push(old(self)@, f, 0);
            assert(self.text@ =~= seq!['{'] + json_members(self@, 0));
        }
    }

    /// The object's text.
    pub fn finish(self) -> (r: String)
        requires
            self.wf(),
        ensures
            r@ == json_object(self@),
    {
        let mut text: String = self.text;
        text.push('}');
        assert(text@ =~= json_object(self@));
        text
    }
}

/// Appends `s` as a JSON string, with its quotes.
fn push_quoted(out: &mut String, s: &str)
    ensures
        final(out)@ == old(out)@ + json_quoted(s@),
{
    out.push('"');
    json_escape(out, s);
    out.push('"');
    assert(out@ =~= old(out)@ + json_quoted(s@));
}

/// The position of the quote that ends the JSON string whose interior goes on at `j`.
pub open spec fn quote_from(s: Seq<char>, j: int) -> Option<int>
    decreases s.len() - j + 1,
{
    if j < 0 || j >= s.len() {
        None
    } else if s[j] == '"' {
        Some(j)
    } else if s[j] == '\\' {
        quote_from(s, j + 2)
    } else {
        quote_from(s, j + 1)
    }
}

/// The JSON string at `i`, and the position behind it.
pub open spec fn string_at(s: Seq<char>, i: int) -> Option<(Seq<char>, int)> {
    if 0 <= i < s.len() && s[i] == '"' {
        match quote_from(s, i + 1) {
            Some(end) => match json_read(s.subrange(i + 1, end)) {
                Some(text) => Some((text, end + 1)),
                None => None,
            },
            None => None,
        }
    } else {
        None
    }
}

/// The whole number at `i`, and the position behind it: digits without a needless zero at
/// the front, after a minus or not.
pub open spec fn number_at(s: Seq<char>, i: int) -> Option<(int, int)> {
    let minus = 0 <= i < s.len() && s[i] == '-';
    let from = if minus {
        i + 1
    } else {
        i
    };
    let end = run_end(s, CharClass::Digit, from);
    let n = digits_value(s.subrange(from, end)) as int;
    if 0 <= from < end && (end == from + 1 || s[from] != '0') {
        Some(
            (
                if minus {
                    -n
                } else {
                    n
                },
                end,
            ),
        )
    } else {
        None
    }
}

/// The JSON string, truth value or whole number at `i`, and the position behind it.
pub open spec fn value_at(s: Seq<char>, i: int) -> Option<(JsonValue, int)> {
    if 0 <= i < s.len() && s[i] == '"' {
        match string_at(s, i) {
            Some((text, end)) => Some((JsonValue::Text(text), end)),
            None => None,
        }
    } else if occurs_at(s, "true"@, i) {
        Some((JsonValue::Bool(true), i + 4))
    } else if occurs_at(s, "false"@, i) {
        Some((JsonValue::Bool(false), i + 5))
    } else {
        match number_at(s, i) {
            Some((n, end)) => Some((JsonValue::Number(n), end)),
            None => None,
        }
    }
}

/// The member of a JSON object at `i`, and the position behind it.
pub open spec fn member_at(s: Seq<char>, i: int) -> Option<(JsonField, int)> {
    match string_at(s, i) {
        Some((key, colon)) => if 0 <= colon < s.len() && s[colon] == ':' {
            match value_at(s, colon + 1) {
                Some((value, end)) => Some(((key, value), end)),
                None => None,
            }
        } else {
            None
        },
        None => None,
    }
}

/// The members of a JSON object from the one at `i` on, where the object ends with the
/// text.
pub open spec fn members_at(s: Seq<char>, i: int) -> Option<Seq<JsonField>>
    decreases s.len() - i,
{
    match member_at(s, i) {
        Some((f, end)) => if end <= i || end >= s.len() {
            None
        } else if s[end] == '}' && end == s.len() - 1 {
            Some(seq![f])
        } else if s[end] == ',' {
            match members_at(s, end + 1) {
                Some(rest) => Some(seq![f] + rest),
                None => None,
            }
        } else {
            None
        },
        None => None,
    }
}

/// The members of the JSON object that is all of `s`, by RFC 8259, where each value is a
/// string, a truth value or a whole number, and no white space stands between the tokens.
pub open spec fn object_read(s: Seq<char>) -> Option<Seq<JsonField>> {
    if s == seq!['{', '}'] {
        Some(seq![])
    } else if s.len() > 0 && s[0] == '{' {
        members_at(s, 1)
    } else {
        None
    }
}

/// One escaped character is passed over on the way to the closing quote.
proof fn lemma_quote_passes_char(s: Seq<char>, j: int, c: char)
    requires
        0 <= j,
        j + json_char(c).len() <= s.len(),
        s.subrange(j, j + json_char(c).len()) == json_char(c),
    ensures
        quote_from(s, j) == quote_from(s, j + json_char(c).len()),
{
    reveal_strlit("\\\"");
    reveal_strlit("\\\\");
    reveal_strlit("\\n");
    reveal_strlit("\\r");
    reveal_strlit("\\t");
    reveal_strlit("\\b");
    reveal_strlit("\\f");
    reveal_strlit("\\u00");
    let e = json_char(c);
    let sub = s.subrange(j, j + e.len());
    assert forall|k: int| 0 <= k < e.len() implies s[j + k] == e[k] by {
        assert(sub[k] == s[j + k]);
    }
    assert(s[j + 0] == e[0]);
    if e.len() == 6 {
        assert(s[j + 2] == e[2] && s[j + 3] == e[3] && s[j + 4] == e[4] && s[j + 5] == e[5]);
        assert(e[2] == '0' && e[3] == '0');
        assert(e[4] != '"' && e[4] != '\\' && e[5] != '"' && e[5] != '\\');
        reveal_with_fuel(quote_from, 6);
    }
}

/// The interior of a JSON string is passed over on the way to the closing quote.
proof fn lemma_quote_passes(s: Seq<char>, j: int, t: Seq<char>)
    requires
        0 <= j,
        j + json_text(t).len() <= s.len(),
        s.subrange(j, j + json_text(t).len()) == json_text(t),
    ensures
        quote_from(s, j) == quote_from(s, j + json_text(t).len()),
    decreases t.len(),
{
    if t.len() > 0 {
        lemma_json_text_front(t);
        let e = json_char(t[0]);
        let rest = json_text(t.drop_first());
        let all = json_text(t);
        assert(s.subrange(j, j + e.len()) =~= all.subrange(0, e.len() as int));
        assert(all.subrange(0, e.len() as int) =~= e);
        lemma_quote_passes_char(s, j, t[0]);
        let k = j + e.len();
        assert(s.subrange(k, k + rest.len()) =~= all.subrange(e.len() as int, all.len() as int));
        assert(all.subrange(e.len() as int, all.len() as int) =~= rest);
        lemma_quote_passes(s, k, t.drop_first());
    }
}

/// A JSON string reads back from where it stands.
proof fn lemma_string_read(s: Seq<char>, i: int, t: Seq<char>)
    requires
        0 <= i,
        i + json_quoted(t).len() <= s.len(),
        s.subrange(i, i + json_quoted(t).len()) == json_quoted(t),
    ensures
        string_at(s, i) == Some((t, i + json_quoted(t).len())),
{
    let q = json_quoted(t);
    let n = json_text(t).len() as int;
    let sub = s.subrange(i, i + q.len());
    assert(sub[0] == s[i]);
    assert(sub[n + 1] == s[i + 1 + n]);
    assert(s.subrange(i + 1, i + 1 + n) =~= q.subrange(1, 1 + n));
    assert(q.subrange(1, 1 + n) =~= json_text(t));
    lemma_quote_passes(s, i + 1, t);
    law_json_round_trip(t);
}

/// A number in decimal has no needless zero at its front.
proof fn lemma_no_leading_zero(n: nat)
    ensures
        n > 0 ==> decimal(n)[0] != '0',
        n < 10 ==> decimal(n).len() == 1,
    decreases n,
{
    if n >= 10 {
        lemma_no_leading_zero(n / 10);
        lemma_decimal(n / 10);
        assert(decimal(n)[0] == decimal(n / 10)[0]);
    }
}

/// A number reads back from where it stands, where no digit follows it.
proof fn lemma_number_read(s: Seq<char>, i: int, n: int)
    requires
        0 <= i,
        i + signed_decimal(n).len() < s.len(),
        s.subrange(i, i + signed_decimal(n).len()) == signed_decimal(n),
        !is_digit(s[i + signed_decimal(n).len()]),
    ensures
        number_at(s, i) == Some((n, i + signed_decimal(n).len())),
        is_digit(s[i]) || s[i] == '-',
{
    let text = signed_decimal(n);
    let m = if n < 0 {
        (-n) as nat
    } else {
        n as nat
    };
    let digits = decimal(m);
    let from = if n < 0 {
        i + 1
    } else {
        i
    };
    let end = i + text.len();
    lemma_decimal(m);
    lemma_no_leading_zero(m);
    assert(s.subrange(i, end)[0] == s[i]);
    assert(s.subrange(from, end) =~= digits) by {
        assert forall|k: int| 0 <= k < digits.len() implies s[from + k] == digits[k] by {
            assert(s.subrange(i, end)[from - i + k] == s[from + k]);
        }
    }
    assert forall|j: int| from <= j < end implies CharClass::Digit.holds(s[j]) by {
        assert(s.subrange(from, end)[j - from] == s[j]);
        assert(is_digit(digits[j - from]));
    }
    lemma_run_end_is(s, CharClass::Digit, from, end);
    assert(s[from] == s.subrange(from, end)[0]);
    if n >= 0 {
        assert(is_digit(digits[0]));
    }
}

/// A value reads back from where it stands, where a comma or a brace follows it.
proof fn lemma_value_read(s: Seq<char>, i: int, v: JsonValue)
    requires
        0 <= i,
        i + json_value(v).len() < s.len(),
        s.subrange(i, i + json_value(v).len()) == json_value(v),
        s[i + json_value(v).len()] == ',' || s[i + json_value(v).len()] == '}',
    ensures
        value_at(s, i) == Some((v, i + json_value(v).len())),
{
    reveal_strlit("true");
    reveal_strlit("false");
    let text = json_value(v);
    let sub = s.subrange(i, i + text.len());
    match v {
        JsonValue::Text(t) => {
            lemma_string_read(s, i, t);
            assert(sub[0] == s[i]);
        },
        JsonValue::Number(n) => {
            lemma_number_read(s, i, n);
            if occurs_at(s, "true"@, i) {
                assert(s.subrange(i, i + 4)[0] == s[i]);
            }
            if occurs_at(s, "false"@, i) {
                assert(s.subrange(i, i + 5)[0] == s[i]);
            }
        },
        JsonValue::Bool(b) => {
            assert(sub[0] == s[i]);
            if !b && occurs_at(s, "true"@, i) {
                assert(s.subrange(i, i + 4)[0] == s[i]);
            }
        },
    }
}

/// A member reads back from where it stands, where a comma or a brace follows it.
proof fn lemma_member_read(s: Seq<char>, i: int, f: JsonField)
    requires
        0 <= i,
        i + json_member(f).len() < s.len(),
        s.subrange(i, i + json_member(f).len()) == json_member(f),
        s[i + json_member(f).len()] == ',' || s[i + json_member(f).len()] == '}',
    ensures
        member_at(s, i) == Some((f, i + json_member(f).len())),
{
    let key = json_quoted(f.0);
    let value = json_value(f.1);
    let all = json_member(f);
    let sub = s.subrange(i, i + all.len());
    let colon = i + key.len();
    assert(s.subrange(i, colon) =~= all.subrange(0, key.len() as int));
    assert(all.subrange(0, key.len() as int) =~= key);
    lemma_string_read(s, i, f.0);
    assert(sub[key.len() as int] == s[colon]);
    assert(s.subrange(colon + 1, i + all.len()) =~= all.subrange(
        key.len() as int + 1,
        all.len() as int,
    ));
    assert(all.subrange(key.len() as int + 1, all.len() as int) =~= value);
    lemma_value_read(s, colon + 1, f.1);
}

proof fn lemma_members_read(s: Seq<char>, i: int, fields: Seq<JsonField>, k: int)
    requires
        0 <= k < fields.len(),
        0 <= i,
        i + json_members(fields, k).len() == s.len() - 1,
        s.subrange(i, s.len() - 1) == json_members(fields, k),
        s.last() == '}',
    ensures
        members_at(s, i) == Some(fields.skip(k)),
    decreases fields.len() - k,
{
    let all = json_members(fields, k);
    let m = json_member(fields[k]);
    let end = i + m.len();
    assert(all.subrange(0, m.len() as int) =~= m);
    assert(s.subrange(i, end) =~= all.subrange(0, m.len() as int));
    assert(m.len() > 0);
    if k == fields.len() - 1 {
        lemma_member_read(s, i, fields[k]);
        assert(fields.skip(k) =~= seq![fields[k]]);
    } else {
        assert(s.subrange(i, s.len() - 1)[m.len() as int] == s[end]);
        lemma_member_read(s, i, fields[k]);
        let rest = json_members(fields, k + 1);
        assert(s.subrange(end + 1, s.len() - 1) =~= all.subrange(
            m.len() as int + 1,
            all.len() as int,
        ));
        assert(all.subrange(m.len() as int + 1, all.len() as int) =~= rest);
        lemma_members_read(s, end + 1, fields, k + 1);
        assert(fields.skip(k) =~= seq![fields[k]] + fields.skip(k + 1));
    }
}

proof fn lemma_object_members(fields: Seq<JsonField>)
    requires
        fields.len() > 0,
    ensures
        json_object(fields).len() > 2,
        json_object(fields)[0] == '{',
        members_at(json_object(fields), 1) == Some(fields),
{
    let s = json_object(fields);
    let m = json_members(fields, 0);
    assert(json_quoted(fields[0].0).len() > 0);
    assert(m.len() > 0);
    assert(s.subrange(1, s.len() - 1) =~= m);
    assert(s.last() == '}');
    assert(fields.skip(0) =~= fields);
    lemma_members_read(s, 1, fields, 0);
}

/// An object that is written is well formed, and reads back with every member: each key,
/// each string, each number and each truth value.
pub proof fn law_object_round_trip(fields: Seq<JsonField>)
    ensures
        object_read(json_object(fields)) == Some(fields),
{
    if fields.len() == 0 {
        assert(json_object(fields) =~= seq!['{', '}']);
        assert(fields =~= Seq::<JsonField>::empty());
    } else {
        lemma_object_members(fields);
        assert(json_object(fields).len() != seq!['{', '}'].len());
    }
}

/// No control character stands in a number.
proof fn lemma_number_has_no_controls(n: int, c: char)
    requires
        (c as u32) < 0x20,
    ensures
        !signed_decimal(n).contains(c),
{
    if n < 0 {
        lemma_decimal_lacks((-n) as nat, c);
        lemma_contains_concat(seq!['-'], decimal((-n) as nat), c);
    } else {
        lemma_decimal_lacks(n as nat, c);
    }
}

/// No control character stands in a member.
proof fn lemma_member_has_no_controls(f: JsonField, c: char)
    requires
        (c as u32) < 0x20,
    ensures
        !json_member(f).contains(c),
{
    reveal_strlit("true");
    reveal_strlit("false");
    lemma_quoted_has_no_controls(f.0, c);
    lemma_contains_concat(json_quoted(f.0), seq![':'], c);
    match f.1 {
        JsonValue::Text(t) => {
            lemma_quoted_has_no_controls(t, c);
        },
        JsonValue::Number(n) => {
            lemma_number_has_no_controls(n, c);
        },
        JsonValue::Bool(_) => {},
    }
    lemma_contains_concat(json_quoted(f.0) + seq![':'], json_value(f.1), c);
}

proof fn lemma_quoted_has_no_controls(t: Seq<char>, c: char)
    requires
        (c as u32) < 0x20,
    ensures
        !json_quoted(t).contains(c),
{
    lemma_json_text_has_no_controls(t, c);
    lemma_contains_concat(seq!['"'], json_text(t), c);
    lemma_contains_concat(seq!['"'] + json_text(t), seq!['"'], c);
}

proof fn lemma_members_have_no_controls(fields: Seq<JsonField>, k: int, c: char)
    requires
        (c as u32) < 0x20,
        0 <= k,
    ensures
        !json_members(fields, k).contains(c),
    decreases fields.len() - k,
{
    if k < fields.len() {
        lemma_member_has_no_controls(fields[k], c);
        lemma_members_have_no_controls(fields, k + 1, c);
        lemma_contains_concat(json_member(fields[k]), seq![','], c);
        lemma_contains_concat(
            json_member(fields[k]) + seq![','],
            json_members(fields, k + 1),
            c,
        );
    }
}

/// An object that is written is one line: it holds no control character, whatever its
/// members hold.
pub proof fn law_object_has_no_controls(fields: Seq<JsonField>, c: char)
    requires
        (c as u32) < 0x20,
    ensures
        !json_object(fields).contains(c),
{
    lemma_members_have_no_controls(fields, 0, c);
    lemma_contains_concat(seq!['{'], json_members(fields, 0), c);
    lemma_contains_concat(seq!['{'] + json_members(fields, 0), seq!['}'], c);
}

} // verus!
