//! A model of the JSON values that the Tophub API answers with, and their
//! JSON text as `serde_json` writes it.
use vstd::prelude::*;
use crate::dump::text_before;

verus! {

/// A JSON value.
///
/// A number is held as its JSON text (such as `42` or `1.5`). In a valid
/// value (see `json_valid`) that text is a JSON number and the members of an
/// object have distinct keys; a value converted from a `serde_json` map holds
/// them sorted by key, as that map keeps them.
pub enum Json {
    Null,
    Bool(bool),
    Number(String),
    Str(String),
    Array(Vec<Json>),
    Object(Vec<(String, Json)>),
}

/// The mathematical form of a `Json` value.
pub enum JsonView {
    Null,
    Bool(bool),
    Number(Seq<char>),
    Str(Seq<char>),
    Array(Seq<JsonView>),
    Object(Seq<(Seq<char>, JsonView)>),
}

impl View for Json {
    type V = JsonView;

    open spec fn view(&self) -> JsonView {
        json_view(*self)
    }
}

/// The mathematical form of a value.
pub open spec fn json_view(value: Json) -> JsonView
    decreases value,
{
    match value {
        Json::Null => JsonView::Null,
        Json::Bool(b) => JsonView::Bool(b),
        Json::Number(t) => JsonView::Number(t@),
        Json::Str(s) => JsonView::Str(s@),
        Json::Array(items) => JsonView::Array(items_view(items@)),
        Json::Object(fields) => JsonView::Object(fields_view(fields@)),
    }
}

/// The mathematical forms of a sequence of values.
pub open spec fn items_view(items: Seq<Json>) -> Seq<JsonView>
    decreases items,
{
    if items.len() == 0 {
        Seq::<JsonView>::empty()
    } else {
        items_view(items.drop_last()).push(json_view(items.last()))
    }
}

/// The mathematical forms of a sequence of object members.
pub open spec fn fields_view(fields: Seq<(String, Json)>) -> Seq<(Seq<char>, JsonView)>
    decreases fields,
{
    if fields.len() == 0 {
        Seq::<(Seq<char>, JsonView)>::empty()
    } else {
        fields_view(fields.drop_last()).push((fields.last().0@, json_view(fields.last().1)))
    }
}

/// `items_view` maps each value to its view.
pub proof fn lemma_items_view(items: Seq<Json>)
    ensures
        items_view(items).len() == items.len(),
        forall|i: int| 0 <= i < items.len() ==> #[trigger] items_view(items)[i] == items[i]@,
    decreases items.len(),
{
    if items.len() > 0 {
        lemma_items_view(items.drop_last());
    }
}

/// `fields_view` maps each member to the view of its key and value.
pub proof fn lemma_fields_view(fields: Seq<(String, Json)>)
    ensures
        fields_view(fields).len() == fields.len(),
        forall|i: int|
            0 <= i < fields.len() ==> #[trigger] fields_view(fields)[i] == (
                fields[i].0@,
                fields[i].1@,
            ),
    decreases fields.len(),
{
    if fields.len() > 0 {
        lemma_fields_view(fields.drop_last());
    }
}

// ---------------------------------------------------------------------------
// Valid values
// ---------------------------------------------------------------------------

/// Where the reading of a JSON number stands, after the characters read so
/// far (the number grammar of RFC 8259).
pub enum NumberPart {
    Start,
    Minus,
    Zero,
    Integer,
    Point,
    Fraction,
    ExponentMark,
    ExponentSign,
    Exponent,
}

/// Whether `c` is a decimal digit.
pub open spec fn is_digit(c: char) -> bool {
    '0' <= c && c <= '9'
}

/// The part reached by reading `c` in `part`; `None` where the grammar
/// allows no such character.
pub open spec fn number_step(part: NumberPart, c: char) -> Option<NumberPart> {
    match part {
        NumberPart::Start => if c == '-' {
            Some(NumberPart::Minus)
        } else if c == '0' {
            Some(NumberPart::Zero)
        } else if is_digit(c) {
            Some(NumberPart::Integer)
        } else {
            None
        },
        NumberPart::Minus => if c == '0' {
            Some(NumberPart::Zero)
        } else if is_digit(c) {
            Some(NumberPart::Integer)
        } else {
            None
        },
        NumberPart::Zero => if c == '.' {
            Some(NumberPart::Point)
        } else if c == 'e' || c == 'E' {
            Some(NumberPart::ExponentMark)
        } else {
            None
        },
        NumberPart::Integer => if is_digit(c) {
            Some(NumberPart::Integer)
        } else if c == '.' {
            Some(NumberPart::Point)
        } else if c == 'e' || c == 'E' {
            Some(NumberPart::ExponentMark)
        } else {
            None
        },
        NumberPart::Point => if is_digit(c) {
            Some(NumberPart::Fraction)
        } else {
            None
        },
        NumberPart::Fraction => if is_digit(c) {
            Some(NumberPart::Fraction)
        } else if c == 'e' || c == 'E' {
            Some(NumberPart::ExponentMark)
        } else {
            None
        },
        NumberPart::ExponentMark => if c == '+' || c == '-' {
            Some(NumberPart::ExponentSign)
        } else if is_digit(c) {
            Some(NumberPart::Exponent)
        } else {
            None
        },
        NumberPart::ExponentSign => if is_digit(c) {
            Some(NumberPart::Exponent)
        } else {
            None
        },
        NumberPart::Exponent => if is_digit(c) {
            Some(NumberPart::Exponent)
        } else {
            None
        },
    }
}

/// Whether a number may end in `part`.
pub open spec fn number_may_end(part: NumberPart) -> bool {
    match part {
        NumberPart::Zero | NumberPart::Integer | NumberPart::Fraction | NumberPart::Exponent => true,
        _ => false,
    }
}

/// Whether the characters `s`, read from `part`, complete a number.
pub open spec fn number_from(part: NumberPart, s: Seq<char>) -> bool
    decreases s.len(),
{
    if s.len() == 0 {
        number_may_end(part)
    } else {
        match number_step(part, s[0]) {
            Some(next) => number_from(next, s.drop_first()),
            None => false,
        }
    }
}

/// Whether `t` is the text of a JSON number: an optional minus, an integer
/// part without leading zeros, an optional fraction and an optional
/// exponent.
pub open spec fn is_number_literal(t: Seq<char>) -> bool {
    number_from(NumberPart::Start, t)
}

/// Whether the keys of the members are pairwise distinct.
pub open spec fn keys_distinct(fields: Seq<(Seq<char>, JsonView)>) -> bool {
    forall|i: int, j: int| 0 <= i < j < fields.len() ==> fields[i].0 != fields[j].0
}

/// Whether a value is valid JSON: every number is held as a JSON number's
/// text, and the keys of every object are distinct.
pub open spec fn json_valid(value: JsonView) -> bool
    decreases value,
{
    match value {
        JsonView::Number(t) => is_number_literal(t),
        JsonView::Array(items) => items_valid(items),
        JsonView::Object(fields) => keys_distinct(fields) && fields_valid(fields),
        _ => true,
    }
}

/// Whether every value of a sequence is valid.
pub open spec fn items_valid(items: Seq<JsonView>) -> bool
    decreases items,
{
    if items.len() == 0 {
        true
    } else {
        items_valid(items.drop_last()) && json_valid(items.last())
    }
}

/// Whether the value of every member is valid.
pub open spec fn fields_valid(fields: Seq<(Seq<char>, JsonView)>) -> bool
    decreases fields,
{
    if fields.len() == 0 {
        true
    } else {
        fields_valid(fields.drop_last()) && json_valid(fields.last().1)
    }
}

/// Whether `s` holds no line break (`\n` or `\r`).
pub open spec fn single_line(s: Seq<char>) -> bool {
    forall|i: int| 0 <= i < s.len() ==> s[i] != '\n' && s[i] != '\r'
}

/// The text of a number holds no line break.
pub proof fn lemma_number_single_line(part: NumberPart, s: Seq<char>)
    requires
        number_from(part, s),
    ensures
        single_line(s),
    decreases s.len(),
{
    if s.len() > 0 {
        let next = number_step(part, s[0])->Some_0;
        lemma_number_single_line(next, s.drop_first());
        assert forall|i: int| 0 <= i < s.len() implies s[i] != '\n' && s[i] != '\r' by {
            if i > 0 {
                assert(s[i] == s.drop_first()[i - 1]);
            }
        }
    }
}

// ---------------------------------------------------------------------------
// JSON text
// ---------------------------------------------------------------------------

/// The declaration of `serde_json::Value`, which the JSON text is written from.
#[verifier::external_type_specification]
#[verifier::external_body]
pub struct ExValue(serde_json::Value);

/// What `serde_json::to_string` writes for a value: its compact JSON text.
pub uninterp spec fn compact_json(value: JsonView) -> Seq<char>;

/// What `serde_json::to_string_pretty` writes for a value: its JSON text,
/// indented by two spaces per level.
pub uninterp spec fn pretty_json(value: JsonView) -> Seq<char>;

// ---------------------------------------------------------------------------
// How the JSON text is laid out
// ---------------------------------------------------------------------------

/// The lowercase hexadecimal digit of `d` (below 16).
pub open spec fn hex_digit(d: int) -> char {
    if d < 10 {
        (48 + d) as char
    } else {
        (87 + d) as char
    }
}

/// Whether a character stands for itself inside a JSON string: it is no
/// quote, no backslash and no control character below `0x20`.
pub open spec fn plain_char(c: char) -> bool {
    c != '"' && c != '\\' && (c as u32) >= 0x20
}

/// How a character is written inside a JSON string (RFC 8259, section 7,
/// with the short escapes where there are some): itself when plain, else
/// a backslash escape, `\u00XX` for the other control characters.
pub open spec fn escape_char(c: char) -> Seq<char> {
    if plain_char(c) {
        seq![c]
    } else if c == '"' {
        seq!['\\', '"']
    } else if c == '\\' {
        seq!['\\', '\\']
    } else if (c as u32) == 8 {
        seq!['\\', 'b']
    } else if (c as u32) == 9 {
        seq!['\\', 't']
    } else if (c as u32) == 10 {
        seq!['\\', 'n']
    } else if (c as u32) == 12 {
        seq!['\\', 'f']
    } else if (c as u32) == 13 {
        seq!['\\', 'r']
    } else {
        seq!['\\', 'u', '0', '0', hex_digit((c as int) / 16), hex_digit((c as int) % 16)]
    }
}

/// The characters of a string, each written as `escape_char` says.
pub open spec fn escaped(s: Seq<char>) -> Seq<char>
    decreases s.len(),
{
    if s.len() == 0 {
        Seq::<char>::empty()
    } else {
        escaped(s.drop_last()) + escape_char(s.last())
    }
}

/// The JSON text of a string: its escaped characters between quotes.
pub open spec fn quoted(s: Seq<char>) -> Seq<char> {
    seq!['"'] + escaped(s) + seq!['"']
}

/// Whether the keys of the members ascend strictly, in the order of their
/// characters (the order in which a `serde_json` map holds its keys).
pub open spec fn keys_ascending(fields: Seq<(Seq<char>, JsonView)>) -> bool {
    forall|i: int, j: int| 0 <= i < j < fields.len() ==> text_before(fields[i].0, fields[j].0)
}

/// Whether a value is written member for member in the order it holds
/// them: every number is the text of a JSON number and the keys of every
/// object ascend (as they do in a value read from JSON text).
pub open spec fn json_canonical(value: JsonView) -> bool
    decreases value,
{
    match value {
        JsonView::Number(t) => is_number_literal(t),
        JsonView::Array(items) => items_canonical(items),
        JsonView::Object(fields) => keys_ascending(fields) && fields_canonical(fields),
        _ => true,
    }
}

/// Whether every value of a sequence is canonical.
pub open spec fn items_canonical(items: Seq<JsonView>) -> bool
    decreases items,
{
    if items.len() == 0 {
        true
    } else {
        items_canonical(items.drop_last()) && json_canonical(items.last())
    }
}

/// Whether the value of every member is canonical.
pub open spec fn fields_canonical(fields: Seq<(Seq<char>, JsonView)>) -> bool
    decreases fields,
{
    if fields.len() == 0 {
        true
    } else {
        fields_canonical(fields.drop_last()) && json_canonical(fields.last().1)
    }
}

/// The compact JSON text of a value: `null`, `true`, `false`, a number's
/// text as written, a quoted string, and the members of an array or object
/// joined by commas inside brackets or braces, each member of an object as
/// its quoted key, a colon and its value, with no whitespace.
pub open spec fn compact_layout(value: JsonView) -> Seq<char>
    decreases value,
{
    match value {
        JsonView::Null => seq!['n', 'u', 'l', 'l'],
        JsonView::Bool(b) => if b {
            seq!['t', 'r', 'u', 'e']
        } else {
            seq!['f', 'a', 'l', 's', 'e']
        },
        JsonView::Number(_) => compact_json(value),
        JsonView::Str(s) => quoted(s),
        JsonView::Array(items) => seq!['['] + compact_items(items) + seq![']'],
        JsonView::Object(fields) => seq!['{'] + compact_members(fields) + seq!['}'],
    }
}

/// The compact texts of values, joined by commas.
pub open spec fn compact_items(items: Seq<JsonView>) -> Seq<char>
    decreases items,
{
    if items.len() == 0 {
        Seq::<char>::empty()
    } else if items.len() == 1 {
        compact_layout(items.last())
    } else {
        compact_items(items.drop_last()) + seq![','] + compact_layout(items.last())
    }
}

/// The compact texts of members, joined by commas.
pub open spec fn compact_members(fields: Seq<(Seq<char>, JsonView)>) -> Seq<char>
    decreases fields,
{
    if fields.len() == 0 {
        Seq::<char>::empty()
    } else if fields.len() == 1 {
        quoted(fields.last().0) + seq![':'] + compact_layout(fields.last().1)
    } else {
        compact_members(fields.drop_last()) + seq![','] + quoted(fields.last().0) + seq![':']
            + compact_layout(fields.last().1)
    }
}

/// Two spaces for each level of nesting.
pub open spec fn indent(level: nat) -> Seq<char> {
    Seq::new(2 * level, |i: int| ' ')
}

/// The indented JSON text of a value nested `level` deep: an empty array or
/// object is `[]` or `{}`; another holds each member on a line of its own,
/// indented one level deeper, the lines joined by commas, and its closing
/// bracket or brace on a line at its own level; a member of an object is its
/// quoted key, `": "` and its value. Other values are written as in the
/// compact text.
pub open spec fn pretty_layout(value: JsonView, level: nat) -> Seq<char>
    decreases value,
{
    match value {
        JsonView::Array(items) => if items.len() == 0 {
            seq!['[', ']']
        } else {
            seq!['['] + pretty_items(items, level + 1) + seq!['\n'] + indent(level) + seq![']']
        },
        JsonView::Object(fields) => if fields.len() == 0 {
            seq!['{', '}']
        } else {
            seq!['{'] + pretty_members(fields, level + 1) + seq!['\n'] + indent(level) + seq!['}']
        },
        _ => compact_layout(value),
    }
}

/// The lines of values at `level`, each led by a line break (after a comma
/// but for the first) and the level's indentation.
pub open spec fn pretty_items(items: Seq<JsonView>, level: nat) -> Seq<char>
    decreases items,
{
    if items.len() == 0 {
        Seq::<char>::empty()
    } else {
        pretty_items(items.drop_last(), level) + (if items.len() == 1 {
            seq!['\n']
        } else {
            seq![',', '\n']
        }) + indent(level) + pretty_layout(items.last(), level)
    }
}

/// The lines of members at `level`, each led like those of `pretty_items`.
pub open spec fn pretty_members(fields: Seq<(Seq<char>, JsonView)>, level: nat) -> Seq<char>
    decreases fields,
{
    if fields.len() == 0 {
        Seq::<char>::empty()
    } else {
        pretty_members(fields.drop_last(), level) + (if fields.len() == 1 {
            seq!['\n']
        } else {
            seq![',', '\n']
        }) + indent(level) + quoted(fields.last().0) + seq![':', ' '] + pretty_layout(
            fields.last().1,
            level,
        )
    }
}

/// A string's JSON text holds every character of it, in order: the text of
/// a concatenation is the concatenation of the texts, a plain character is
/// written as itself, and no character is written as nothing.
pub proof fn lemma_escaped_keeps_characters(a: Seq<char>, b: Seq<char>)
    ensures
        escaped(a + b) == escaped(a) + escaped(b),
        (forall|i: int| 0 <= i < a.len() ==> plain_char(#[trigger] a[i])) ==> escaped(a) == a,
        escaped(a).len() >= a.len(),
    decreases a.len() + b.len(),
{
    if b.len() == 0 {
        assert(a + b =~= a);
        assert(escaped(a) + escaped(b) =~= escaped(a));
        if a.len() > 0 {
            lemma_escaped_keeps_characters(a.drop_last(), b);
            if forall|i: int| 0 <= i < a.len() ==> plain_char(#[trigger] a[i]) {
                assert forall|i: int| 0 <= i < a.drop_last().len() implies plain_char(
                    #[trigger] a.drop_last()[i],
                ) by {
                    assert(a.drop_last()[i] == a[i]);
                }
                assert(plain_char(a[a.len() - 1]));
                assert(escaped(a) =~= a.drop_last().push(a.last()));
                assert(a.drop_last().push(a.last()) =~= a);
            }
        }
    } else {
        lemma_escaped_keeps_characters(a, b.drop_last());
        assert((a + b).drop_last() =~= a + b.drop_last());
        assert((a + b).last() == b.last());
        assert(escaped(a) + escaped(b.drop_last()) + escape_char(b.last()) =~= escaped(a) + (
        escaped(b.drop_last()) + escape_char(b.last())));
    }
}

/// Writing an array with one more member at its end adds a comma (but for
/// the first member) and the member's compact text before the closing
/// bracket; every member is written.
pub proof fn lemma_compact_array_push(items: Seq<JsonView>, x: JsonView)
    ensures
        compact_layout(JsonView::Array(items.push(x))) == if items.len() == 0 {
            seq!['['] + compact_layout(x) + seq![']']
        } else {
            compact_layout(JsonView::Array(items)).drop_last() + seq![','] + compact_layout(x)
                + seq![']']
        },
{
    assert(items.push(x).drop_last() =~= items);
    assert(items.push(x).last() == x);
    let before = compact_layout(JsonView::Array(items));
    assert((seq!['['] + compact_items(items) + seq![']']).drop_last() =~= seq!['[']
        + compact_items(items));
    if items.len() == 0 {
        assert(compact_items(items.push(x)) == compact_layout(x));
    }
}

/// Writing an object with one more member at its end adds a comma (but for
/// the first member), the member's quoted key, a colon and its compact text
/// before the closing brace; every member is written.
pub proof fn lemma_compact_object_push(fields: Seq<(Seq<char>, JsonView)>, key: Seq<char>, x: JsonView)
    ensures
        compact_layout(JsonView::Object(fields.push((key, x)))) == if fields.len() == 0 {
            seq!['{'] + quoted(key) + seq![':'] + compact_layout(x) + seq!['}']
        } else {
            compact_layout(JsonView::Object(fields)).drop_last() + seq![','] + quoted(key) + seq![
                ':',
            ] + compact_layout(x) + seq!['}']
        },
{
    assert(fields.push((key, x)).drop_last() =~= fields);
    assert(fields.push((key, x)).last() == (key, x));
    assert((seq!['{'] + compact_members(fields) + seq!['}']).drop_last() =~= seq!['{']
        + compact_members(fields));
}

/// The closing line of an array or object at `level`, after its members.
pub open spec fn closing(level: nat, bracket: char) -> Seq<char> {
    seq!['\n'] + indent(level) + seq![bracket]
}

/// Writing a non-empty array with one more member at its end adds, before
/// its closing line, a comma, a line break, the indentation of the next
/// level and the member's indented text; every member is written.
pub proof fn lemma_pretty_array_push(items: Seq<JsonView>, x: JsonView, level: nat)
    requires
        items.len() > 0,
    ensures
        ({
            let before = pretty_layout(JsonView::Array(items), level);
            let tail = closing(level, ']');
            &&& before.len() >= tail.len()
            &&& pretty_layout(JsonView::Array(items.push(x)), level) == before.take(
                before.len() - tail.len(),
            ) + seq![',', '\n'] + indent(level + 1) + pretty_layout(x, level + 1) + tail
        }),
{
    let tail = closing(level, ']');
    assert(items.push(x).drop_last() =~= items);
    assert(items.push(x).last() == x);
    let head = seq!['['] + pretty_items(items, level + 1);
    let before = pretty_layout(JsonView::Array(items), level);
    assert(before =~= head + tail);
    assert(before.take(before.len() - tail.len()) =~= head);
    assert(pretty_layout(JsonView::Array(items.push(x)), level) =~= head + seq![',', '\n'] + indent(
        level + 1,
    ) + pretty_layout(x, level + 1) + tail);
}

/// Writing a non-empty object with one more member at its end adds, before
/// its closing line, a comma, a line break, the indentation of the next
/// level, the member's quoted key, `": "` and its indented text; every
/// member is written, whatever its value.
pub proof fn lemma_pretty_object_push(
    fields: Seq<(Seq<char>, JsonView)>,
    key: Seq<char>,
    x: JsonView,
    level: nat,
)
    requires
        fields.len() > 0,
    ensures
        ({
            let before = pretty_layout(JsonView::Object(fields), level);
            let tail = closing(level, '}');
            &&& before.len() >= tail.len()
            &&& pretty_layout(JsonView::Object(fields.push((key, x))), level) == before.take(
                before.len() - tail.len(),
            ) + seq![',', '\n'] + indent(level + 1) + quoted(key) + seq![':', ' '] + pretty_layout(
                x,
                level + 1,
            ) + tail
        }),
{
    let tail = closing(level, '}');
    assert(fields.push((key, x)).drop_last() =~= fields);
    assert(fields.push((key, x)).last() == (key, x));
    let head = seq!['{'] + pretty_members(fields, level + 1);
    let before = pretty_layout(JsonView::Object(fields), level);
    assert(before =~= head + tail);
    assert(before.take(before.len() - tail.len()) =~= head);
    assert(pretty_layout(JsonView::Object(fields.push((key, x))), level) =~= head + seq![',', '\n']
        + indent(level + 1) + quoted(key) + seq![':', ' '] + pretty_layout(x, level + 1) + tail);
}

/// Converts a value to `serde_json::Value`, variant for variant (a number by
/// parsing its JSON text). Nothing is stated of the result: it only carries
/// the value into the calls of `serde_json` below.
#[verifier::external_body]
fn to_serde_value(value: &Json) -> serde_json::Value {
    match value {
        Json::Null => serde_json::Value::Null,
        Json::Bool(b) => serde_json::Value::Bool(*b),
        Json::Number(t) => serde_json::from_str(t).unwrap_or(serde_json::Value::Null),
        Json::Str(s) => serde_json::Value::String(s.clone()),
        Json::Array(items) => serde_json::Value::Array(items.iter().map(to_serde_value).collect()),
        Json::Object(fields) => serde_json::Value::Object(
            fields.iter().map(|(k, v)| (k.clone(), to_serde_value(v))).collect(),
        ),
    }
}

/// Calls `serde_json::to_string` on the value. Its result is named
/// `compact_json` of the value (it depends on the value alone; writing a
/// `serde_json::Value` cannot fail). It holds no line break: the compact
/// formatter writes no whitespace, and a string's `\n` and `\r` are written
/// escaped. For a canonical value the text is laid out as `compact_layout`
/// says: `serde_json`'s `CompactFormatter` and `format_escaped_str` write
/// the members in the order a `serde_json` map holds them, which for
/// ascending keys is the value's own.
#[verifier::external_body]
pub(crate) fn to_compact_text(value: &Json) -> (r: String)
    ensures
        r@ == compact_json(value@),
        single_line(r@),
        json_canonical(value@) ==> r@ == compact_layout(value@),
{
    serde_json::to_string(&to_serde_value(value)).unwrap_or_default()
}

/// Calls `serde_json::to_string_pretty` on the value. Its result is named
/// `pretty_json` of the value (it depends on the value alone; writing a
/// `serde_json::Value` cannot fail). For a canonical value the text is laid
/// out as `pretty_layout` says at level 0, as `serde_json`'s
/// `PrettyFormatter` (two spaces of indentation) writes it.
#[verifier::external_body]
pub(crate) fn to_pretty_text(value: &Json) -> (r: String)
    ensures
        r@ == pretty_json(value@),
        json_canonical(value@) ==> r@ == pretty_layout(value@, 0),
{
    serde_json::to_string_pretty(&to_serde_value(value)).unwrap_or_default()
}

/// The text of a list of values in JSON Lines: the compact JSON text of each,
/// each followed by a line break.
pub open spec fn json_lines(values: Seq<JsonView>) -> Seq<char>
    decreases values.len(),
{
    if values.len() == 0 {
        Seq::<char>::empty()
    } else {
        json_lines(values.drop_last()) + compact_json(values.last()) + "\n"@
    }
}

/// Writes a list of values in JSON Lines (see `json_lines`).
pub fn to_json_lines(values: &Vec<Json>) -> (r: String)
    ensures
        r@ == json_lines(items_view(values@)),
        forall|k: int|
            0 <= k < values@.len() && json_canonical(#[trigger] values@[k]@) ==> compact_json(
                values@[k]@,
            ) == compact_layout(values@[k]@),
{
    let mut r = String::new();
    let n = values.len();
    let mut i: usize = 0;
    proof {
        lemma_items_view(values@);
    }
    assert(items_view(values@).take(0) =~= Seq::<JsonView>::empty());
    while i < n
        invariant
            n == values@.len(),
            i <= n,
            items_view(values@).len() == n,
            forall|k: int| 0 <= k < n ==> #[trigger] items_view(values@)[k] == values@[k]@,
            r@ == json_lines(items_view(values@).take(i as int)),
            forall|k: int|
                0 <= k < i && json_canonical(#[trigger] values@[k]@) ==> compact_json(values@[k]@)
                    == compact_layout(values@[k]@),
        decreases n - i,
    {
        let line = to_compact_text(&values[i]);
        r.append(line.as_str());
        r.append("\n");
        assert(items_view(values@).take(i + 1).drop_last() =~= items_view(values@).take(i as int));
        i = i + 1;
    }
    assert(items_view(values@).take(n as int) =~= items_view(values@));
    r
}

/// The text in which an answer of the API is shown: its JSON text, indented.
pub fn answer_text(value: &Json) -> (r: String)
    ensures
        r@ == pretty_json(value@),
        json_canonical(value@) ==> r@ == pretty_layout(value@, 0),
{
    to_pretty_text(value)
}

/// The value stored under `key` among `fields` (the first such member).
pub open spec fn field_lookup(fields: Seq<(Seq<char>, JsonView)>, key: Seq<char>) -> Option<
    JsonView,
>
    decreases fields.len(),
{
    if fields.len() == 0 {
        None
    } else if fields[0].0 == key {
        Some(fields[0].1)
    } else {
        field_lookup(fields.drop_first(), key)
    }
}

/// What `value.get(key)` gives for a string key: the member of an object
/// stored under `key`, and nothing for any other kind of value.
pub open spec fn get(value: JsonView, key: Seq<char>) -> Option<JsonView> {
    match value {
        JsonView::Object(fields) => field_lookup(fields, key),
        _ => None,
    }
}

/// The text of a value, as a cell shows it: nothing for `null`, the string
/// itself (unquoted) for a string, the JSON text of a number, `true` or
/// `false`, and the compact JSON text of an array or object.
pub open spec fn value_text(value: JsonView) -> Seq<char> {
    match value {
        JsonView::Null => Seq::<char>::empty(),
        JsonView::Str(s) => s,
        JsonView::Number(t) => t,
        JsonView::Bool(b) => if b {
            "true"@
        } else {
            "false"@
        },
        JsonView::Array(_) => compact_json(value),
        JsonView::Object(_) => compact_json(value),
    }
}

/// The text of an optional value: `value_text` of it, or nothing if absent.
pub open spec fn text_or_empty(value: Option<JsonView>) -> Seq<char> {
    match value {
        Some(v) => value_text(v),
        None => Seq::<char>::empty(),
    }
}

/// The string held by an optional value, or `default` if it is absent or not
/// a string (`value.and_then(Value::as_str).unwrap_or(default)`).
pub open spec fn str_or(value: Option<JsonView>, default: Seq<char>) -> Seq<char> {
    match value {
        Some(JsonView::Str(s)) => s,
        _ => default,
    }
}

/// The members of an optional value that is an array.
pub open spec fn as_array(value: Option<JsonView>) -> Option<Seq<JsonView>> {
    match value {
        Some(JsonView::Array(items)) => Some(items),
        _ => None,
    }
}

/// The mathematical form of an optional reference to a value.
pub open spec fn opt_view(value: Option<&Json>) -> Option<JsonView> {
    match value {
        Some(v) => Some(v@),
        None => None,
    }
}

impl Json {
    /// A copy of the value, member by member.
    pub fn duplicate(&self) -> (r: Json)
        ensures
            r@ == self@,
        decreases self,
    {
        match self {
            Json::Null => Json::Null,
            Json::Bool(b) => Json::Bool(*b),
            Json::Number(t) => Json::Number(t.clone()),
            Json::Str(t) => Json::Str(t.clone()),
            Json::Array(items) => {
                let mut out: Vec<Json> = Vec::new();
                let n = items.len();
                let mut i: usize = 0;
                while i < n
                    invariant
                        n == items@.len(),
                        i <= n,
                        *self == Json::Array(*items),
                        out@.len() == i,
                        forall|k: int| 0 <= k < i ==> #[trigger] out@[k]@ == items@[k]@,
                    decreases n - i,
                {
                    assert(decreases_to!(*self => self->Array_0));
                    assert(decreases_to!(*items => items@));
                    assert(decreases_to!(items@ => items@[i as int]));
                    let copy = items[i].duplicate();
                    out.push(copy);
                    i = i + 1;
                }
                proof {
                    lemma_items_view(out@);
                    lemma_items_view(items@);
                }
                assert(items_view(out@) =~= items_view(items@));
                Json::Array(out)
            },
            Json::Object(fields) => {
                let mut out: Vec<(String, Json)> = Vec::new();
                let n = fields.len();
                let mut i: usize = 0;
                while i < n
                    invariant
                        n == fields@.len(),
                        i <= n,
                        *self == Json::Object(*fields),
                        out@.len() == i,
                        forall|k: int|
                            0 <= k < i ==> #[trigger] out@[k].0@ == fields@[k].0@ && out@[k].1@
                                == fields@[k].1@,
                    decreases n - i,
                {
                    assert(decreases_to!(*self => self->Object_0));
                    assert(decreases_to!(*fields => fields@));
                    assert(decreases_to!(fields@ => fields@[i as int]));
                    assert(decreases_to!(fields@[i as int] => fields@[i as int].1));
                    let key = fields[i].0.clone();
                    let value = fields[i].1.duplicate();
                    out.push((key, value));
                    i = i + 1;
                }
                proof {
                    lemma_fields_view(out@);
                    lemma_fields_view(fields@);
                }
                assert(fields_view(out@) =~= fields_view(fields@));
                Json::Object(out)
            },
        }
    }

    /// The member of an object stored under `key` (`serde_json::Value::get`
    /// with a string key); `None` for any other kind of value.
    pub fn get(&self, key: &str) -> (r: Option<&Json>)
        ensures
            opt_view(r) == get(self@, key@),
    {
        match self {
            Json::Object(fields) => {
                let key_text = String::from_str(key);
                let ghost all = self@->Object_0;
                proof {
                    lemma_fields_view(fields@);
                }
                let n = fields.len();
                let mut i: usize = 0;
                assert(all.skip(0) =~= all);
                while i < n
                    invariant
                        n == fields@.len(),
                        all.len() == n,
                        i <= n,
                        all == self@->Object_0,
                        *self == Json::Object(*fields),
                        key_text@ == key@,
                        field_lookup(all, key@) == field_lookup(all.skip(i as int), key@),
                        forall|j: int|
                            0 <= j < n ==> #[trigger] all[j] == (fields@[j].0@, fields@[j].1@),
                    decreases n - i,
                {
                    assert(all[i as int] == (fields@[i as int].0@, fields@[i as int].1@));
                    if fields[i].0 == key_text {
                        return Some(&fields[i].1);
                    }
                    assert(all.skip(i as int).drop_first() =~= all.skip(i + 1));
                    i = i + 1;
                }
                None
            },
            _ => None,
        }
    }

    /// The members of an array (`serde_json::Value::as_array`); `None` for any
    /// other kind of value.
    pub fn as_array(&self) -> (r: Option<&Vec<Json>>)
        ensures
            r.is_some() <==> self@ is Array,
            r matches Some(items) ==> items@.len() == (self@->Array_0).len() && forall|i: int|
                0 <= i < items@.len() ==> #[trigger] items@[i]@ == (self@->Array_0)[i],
    {
        match self {
            Json::Array(items) => {
                proof {
                    lemma_items_view(items@);
                }
                Some(items)
            },
            _ => None,
        }
    }
}

/// Renders a value as cell text (see `value_text`). Only a string can give
/// text with a line break, when the value is valid.
pub fn value_to_text(value: &Json) -> (r: String)
    ensures
        r@ == value_text(value@),
        json_valid(value@) && !(value@ is Str) ==> single_line(r@),
        json_canonical(value@) && (value@ is Array || value@ is Object) ==> r@ == compact_layout(
            value@,
        ),
{
    proof {
        reveal_strlit("true");
        reveal_strlit("false");
        if let JsonView::Number(t) = value@ {
            if json_valid(value@) {
                lemma_number_single_line(NumberPart::Start, t);
            }
        }
    }
    match value {
        Json::Null => String::new(),
        Json::Str(s) => s.clone(),
        Json::Number(t) => t.clone(),
        Json::Bool(b) => {
            if *b {
                String::from_str("true")
            } else {
                String::from_str("false")
            }
        },
        Json::Array(_) => to_compact_text(value),
        Json::Object(_) => to_compact_text(value),
    }
}

/// Renders an optional value as cell text, empty when absent
/// (`value.map(value_to_text).unwrap_or_default()`).
pub fn text_of(value: Option<&Json>) -> (r: String)
    ensures
        r@ == text_or_empty(opt_view(value)),
{
    match value {
        Some(v) => value_to_text(v),
        None => String::new(),
    }
}

/// The string held by an optional value, or a copy of `default`
/// (`value.and_then(Value::as_str).unwrap_or(default)`).
pub fn str_or_default(value: Option<&Json>, default: &str) -> (r: String)
    ensures
        r@ == str_or(opt_view(value), default@),
{
    match value {
        Some(Json::Str(s)) => s.clone(),
        _ => String::from_str(default),
    }
}

} // verus!
