//! TOML texts, read and complained of by the `toml` and `serde` crates.
use crate::text;
use vstd::prelude::*;
use vstd::string::*;

verus! {

/// A value of the `toml` crate with the place in the text where it stands.
#[verifier::external_type_specification]
#[verifier::external_body]
#[verifier::reject_recursive_types(T)]
pub struct ExSpanned<T>(toml::Spanned<T>);

/// A parsed value of the `toml` crate, not yet decoded.
#[verifier::external_type_specification]
#[verifier::external_body]
pub struct ExDeValue<'i>(toml::de::DeValue<'i>);

/// What a value holds. Numbers and times are held as they are written.
pub enum Kind {
    Text(Seq<char>),
    Truth(bool),
    /// The digits of an integer, and their base.
    Integer(Seq<char>, u32),
    Float(Seq<char>),
    Datetime(Seq<char>),
    List(Seq<Node>),
    /// Members under distinct keys, in the order in which they are walked.
    Record(Seq<(KeyView, Node)>),
}

/// A value, and the bytes of the text between which it stands.
pub struct Node {
    pub start: int,
    pub end: int,
    pub kind: Kind,
}

/// A key, and the bytes of the text between which it stands.
#[derive(Debug)]
pub struct Key {
    pub name: String,
    pub start: usize,
    pub end: usize,
}

/// What a key says.
pub struct KeyView {
    pub name: Seq<char>,
    pub start: int,
    pub end: int,
}

impl View for Key {
    type V = KeyView;

    open spec fn view(&self) -> KeyView {
        KeyView { name: self.name@, start: self.start as int, end: self.end as int }
    }
}

/// What the parsed value `v` holds.
pub uninterp spec fn node(v: toml::Spanned<toml::de::DeValue<'_>>) -> Node;

/// What the TOML text `s` holds, or the complaint where it is no TOML.
pub uninterp spec fn toml_node(s: Seq<char>) -> Result<Node, Seq<char>>;

/// The complaint about a value that is no text.
pub uninterp spec fn text_complaint(n: Node) -> Seq<char>;

/// The complaint about a value that is no truth value.
pub uninterp spec fn truth_complaint(n: Node) -> Seq<char>;

/// The number from 0 to `u64::MAX` in a value, or the complaint where it is none.
pub uninterp spec fn number_in(n: Node) -> Result<u64, Seq<char>>;

/// The complaint about a value where none is expected at all.
pub uninterp spec fn unit_complaint(n: Node) -> Seq<char>;

/// The lines that point at the bytes from `start` to `end` of the text `raw`.
pub uninterp spec fn pointer(raw: Seq<char>, start: int, end: int) -> Seq<char>;

/// Read a TOML text with `toml::de::DeTable::parse`. What it makes of the text,
/// and how it complains of a text that it does not take, is `toml_node`.
#[verifier::external_body]
pub(crate) fn read_toml(s: &str) -> (r: Result<toml::Spanned<toml::de::DeValue<'_>>, String>)
    ensures
        match r {
            Ok(v) => toml_node(s@) == Ok::<Node, Seq<char>>(node(v)),
            Err(e) => toml_node(s@) == Err::<Node, Seq<char>>(e@),
        },
{
    match toml::de::DeTable::parse(s) {
        Ok(t) => Ok(toml::Spanned::new(t.span(), toml::de::DeValue::Table(t.into_inner()))),
        Err(e) => Err(e.to_string()),
    }
}

/// Where a value stands, by `toml::Spanned::span`.
#[verifier::external_body]
pub(crate) fn span(v: &toml::Spanned<toml::de::DeValue<'_>>) -> (r: (usize, usize))
    ensures
        r.0 == node(*v).start,
        r.1 == node(*v).end,
{
    (v.span().start, v.span().end)
}

/// What several values hold.
pub open spec fn nodes(v: Seq<&toml::Spanned<toml::de::DeValue<'_>>>) -> Seq<Node> {
    v.map_values(|x: &toml::Spanned<toml::de::DeValue<'_>>| node(*x))
}

/// What several values under keys hold.
pub open spec fn keyed_nodes(v: Seq<(Key, &toml::Spanned<toml::de::DeValue<'_>>)>) -> Seq<
    (KeyView, Node),
> {
    v.map_values(|m: (Key, &toml::Spanned<toml::de::DeValue<'_>>)| (m.0@, node(*m.1)))
}

/// The members of a table, by `DeValue::as_table` and `DeTable::iter`: all of
/// them, in the table's order.
#[verifier::external_body]
pub(crate) fn members<'a, 'i>(v: &'a toml::Spanned<toml::de::DeValue<'i>>) -> (r: Option<
    Vec<(Key, &'a toml::Spanned<toml::de::DeValue<'i>>)>,
>)
    ensures
        match r {
            Some(m) => node(*v).kind == Kind::Record(keyed_nodes(m@)),
            None => !(node(*v).kind is Record),
        },
{
    v.get_ref().as_table().map(
        |t|
            t.iter().map(
                |m|
                    (
                        Key {
                            name: m.0.get_ref().to_string(),
                            start: m.0.span().start,
                            end: m.0.span().end,
                        },
                        m.1,
                    ),
            ).collect(),
    )
}

/// The items of an array, by `DeValue::as_array` and the array's `iter`.
#[verifier::external_body]
pub(crate) fn items<'a, 'i>(v: &'a toml::Spanned<toml::de::DeValue<'i>>) -> (r: Option<
    Vec<&'a toml::Spanned<toml::de::DeValue<'i>>>,
>)
    ensures
        match r {
            Some(a) => node(*v).kind == Kind::List(nodes(a@)),
            None => !(node(*v).kind is List),
        },
{
    v.get_ref().as_array().map(|a| a.iter().collect())
}

/// The date or time in a value as the `toml` crate writes it, by
/// `DeValue::as_datetime`.
#[verifier::external_body]
pub(crate) fn datetime(v: &toml::Spanned<toml::de::DeValue<'_>>) -> (r: Option<String>)
    ensures
        match r {
            Some(t) => node(*v).kind == Kind::Datetime(t@),
            None => !(node(*v).kind is Datetime),
        },
{
    v.get_ref().as_datetime().map(|t| t.to_string())
}

/// Decode a text with `String`'s `serde::Deserialize`: just the TOML strings are
/// texts. How it complains of another value is `text_complaint`.
#[verifier::external_body]
pub(crate) fn read_text(v: &toml::Spanned<toml::de::DeValue<'_>>) -> (r: Result<String, String>)
    ensures
        match r {
            Ok(s) => node(*v).kind == Kind::Text(s@),
            Err(e) => !(node(*v).kind is Text) && e@ == text_complaint(node(*v)),
        },
{
    <String as serde::Deserialize>::deserialize(
        toml::de::ValueDeserializer::from(v.clone()),
    ).map_err(|e| e.message().to_owned())
}

/// Decode a truth value with `bool`'s `serde::Deserialize`: just the TOML booleans
/// are truth values. How it complains of another value is `truth_complaint`.
#[verifier::external_body]
pub(crate) fn read_truth(v: &toml::Spanned<toml::de::DeValue<'_>>) -> (r: Result<bool, String>)
    ensures
        match r {
            Ok(b) => node(*v).kind == Kind::Truth(b),
            Err(e) => !(node(*v).kind is Truth) && e@ == truth_complaint(node(*v)),
        },
{
    <bool as serde::Deserialize>::deserialize(
        toml::de::ValueDeserializer::from(v.clone()),
    ).map_err(|e| e.message().to_owned())
}

/// Decode a number with `u64`'s `serde::Deserialize`. Which values it takes, and
/// how it complains of the others, is `number_in`.
#[verifier::external_body]
pub(crate) fn read_number(v: &toml::Spanned<toml::de::DeValue<'_>>) -> (r: Result<u64, String>)
    ensures
        match r {
            Ok(n) => number_in(node(*v)) == Ok::<u64, Seq<char>>(n),
            Err(e) => number_in(node(*v)) == Err::<u64, Seq<char>>(e@),
        },
{
    <u64 as serde::Deserialize>::deserialize(
        toml::de::ValueDeserializer::from(v.clone()),
    ).map_err(|e| e.message().to_owned())
}

/// Refuse a value with the unit type's `serde::Deserialize`, which takes no TOML
/// value. How it complains is `unit_complaint`.
#[verifier::external_body]
pub(crate) fn refuse(v: &toml::Spanned<toml::de::DeValue<'_>>) -> (r: String)
    ensures
        r@ == unit_complaint(node(*v)),
{
    let refused = <() as serde::Deserialize>::deserialize(
        toml::de::ValueDeserializer::from(v.clone()),
    );
    refused.unwrap_err().message().to_owned()
}

/// An error of `toml` at the bytes from `start` to `end` of the text `raw`: as its
/// `Display` writes it, and its message. It is written as lines that point at the
/// place, which are `pointer`, then the message and a line break.
#[verifier::external_body]
fn pointed(raw: &str, start: usize, end: usize) -> (r: (String, String))
    requires
        is_place(raw@, start as int, end as int),
    ensures
        r.0@ == pointer(raw@, start as int, end as int) + r.1@ + "\n"@,
{
    let v = toml::Spanned::new(start..end, toml::de::DeValue::Boolean(false));
    let refused = <() as serde::Deserialize>::deserialize(toml::de::ValueDeserializer::from(v));
    let mut e = refused.unwrap_err();
    e.set_input(Some(raw));
    (e.to_string(), e.message().to_owned())
}

/// `serde::de::Error::unknown_field`, for the errors of `toml`: it quotes the
/// field and the names, of which there are at least three, in order.
#[verifier::external_body]
pub(crate) fn unknown_field(field: &str, names: &'static [&'static str]) -> (r: String)
    requires
        names@.len() >= 3,
    ensures
        r@ == unknown_field_message(field@, text::views(names@)),
{
    <toml::de::Error as serde::de::Error>::unknown_field(field, names).message().to_owned()
}

/// `serde::de::Error::missing_field`, for the errors of `toml`: it quotes the field.
#[verifier::external_body]
pub(crate) fn missing_field(field: &'static str) -> (r: String)
    ensures
        r@ == missing_field_message(field@),
{
    <toml::de::Error as serde::de::Error>::missing_field(field).message().to_owned()
}

/// `serde::de::Error::invalid_length`, for the errors of `toml`: it gives the
/// length in decimal, and what was expected.
#[verifier::external_body]
pub(crate) fn invalid_length(len: usize, expected: &str) -> (r: String)
    ensures
        r@ == invalid_length_message(len as nat, expected@),
{
    <toml::de::Error as serde::de::Error>::invalid_length(len, &expected).message().to_owned()
}

/// Names in quotes, with commas between them.
pub open spec fn quoted_names(names: Seq<Seq<char>>) -> Seq<char>
    decreases names.len(),
{
    if names.len() == 0 {
        Seq::empty()
    } else if names.len() == 1 {
        "`"@ + names[0] + "`"@
    } else {
        quoted_names(names.drop_last()) + ", `"@ + names.last() + "`"@
    }
}

/// The complaint about a field that a record does not have.
pub open spec fn unknown_field_message(field: Seq<char>, names: Seq<Seq<char>>) -> Seq<char> {
    "unknown field `"@ + field + "`, expected one of "@ + quoted_names(names)
}

/// The complaint about a field that a record must have.
pub open spec fn missing_field_message(field: Seq<char>) -> Seq<char> {
    "missing field `"@ + field + "`"@
}

/// The complaint about too few items.
pub open spec fn invalid_length_message(len: nat, expected: Seq<char>) -> Seq<char> {
    "invalid length "@ + text::decimal(len) + ", expected "@ + expected
}

/// Whether `start` and `end` delimit bytes of the text `raw`.
pub open spec fn is_place(raw: Seq<char>, start: int, end: int) -> bool {
    0 <= start <= end <= vstd::utf8::encode_utf8(raw).len()
}

/// The complaint `message` about the bytes from `start` to `end` of the text
/// `raw`, if it has such bytes to point at.
pub open spec fn complaint_at(raw: Seq<char>, start: int, end: int, message: Seq<char>) -> Seq<
    char,
> {
    if is_place(raw, start, end) {
        pointer(raw, start, end) + message + "\n"@
    } else {
        message + "\n"@
    }
}

/// The complaint `message` about a place in the text `raw`.
pub(crate) fn complain_at(raw: &str, start: usize, end: usize, message: &str) -> (r: String)
    ensures
        r@ == complaint_at(raw@, start as int, end as int, message@),
{
    if start <= end && end <= raw.as_bytes().len() {
        let (whole, other) = pointed(raw, start, end);
        proof {
            reveal_strlit("\n");
        }
        let n: usize = whole.as_str().unicode_len() - other.as_str().unicode_len() - 1;
        let lines: &str = whole.as_str().substring_char(0, n);
        assert(lines@ =~= pointer(raw@, start as int, end as int));
        lines.to_owned().concat(message).concat("\n")
    } else {
        message.to_owned().concat("\n")
    }
}

/// The complaint about a value `n` where `what` is expected. Only what is expected
/// differs from one kind to the other, where the complaint says so at all.
pub open spec fn expecting(n: Node, what: Seq<char>) -> Seq<char> {
    let m = unit_complaint(n);
    let tail = ", expected unit"@;
    if tail.is_suffix_of(m) {
        m.take(m.len() - 4) + what
    } else {
        m
    }
}

/// The complaint about a value where something else is expected.
pub(crate) fn expect(v: &toml::Spanned<toml::de::DeValue<'_>>, what: &str) -> (r: String)
    ensures
        r@ == expecting(node(*v), what@),
{
    let m: String = refuse(v);
    let len: usize = m.as_str().unicode_len();
    proof {
        reveal_strlit(", expected unit");
    }
    if len >= 15 {
        let end: &str = m.as_str().substring_char(len - 15, len);
        if text::same(end, ", expected unit") {
            assert(", expected unit"@.is_suffix_of(m@)) by {
                assert(m@.subrange(m@.len() - 15, m@.len() as int) =~= ", expected unit"@);
            }
            return m.as_str().substring_char(0, len - 4).to_owned().concat(what);
        }
    }
    assert(!", expected unit"@.is_suffix_of(m@)) by {
        if ", expected unit"@.is_suffix_of(m@) {
            assert(m@.subrange(m@.len() - 15, m@.len() as int) =~= ", expected unit"@);
        }
    }
    m
}

/// What is expected is told in place of the unit, where a complaint ends in it; a
/// complaint that says nothing of that stays.
pub proof fn law_only_what_is_expected_differs(n: Node, what: Seq<char>, head: Seq<char>)
    ensures
        unit_complaint(n) == head + ", expected unit"@ ==> expecting(n, what) == head
            + ", expected "@ + what,
        !", expected unit"@.is_suffix_of(unit_complaint(n)) ==> expecting(n, what)
            == unit_complaint(n),
{
    reveal_strlit(", expected unit");
    reveal_strlit(", expected ");
    let m = unit_complaint(n);
    if m == head + ", expected unit"@ {
        assert(m.subrange(m.len() - 15, m.len() as int) =~= ", expected unit"@);
        assert(", expected unit"@.is_suffix_of(m));
        assert(m.take(m.len() - 4) =~= head + ", expected "@);
        assert(expecting(n, what) =~= head + ", expected "@ + what);
    }
}

/// A complaint is its message on a line, behind the lines that point at the place if
/// the text has that place.
pub proof fn law_complaints_point_at_the_place(
    raw: Seq<char>,
    start: int,
    end: int,
    message: Seq<char>,
)
    ensures
        0 <= start <= end <= vstd::utf8::encode_utf8(raw).len() ==> complaint_at(
            raw,
            start,
            end,
            message,
        ) == pointer(raw, start, end) + message + seq!['\n'],
        start < 0 || end < start || end > vstd::utf8::encode_utf8(raw).len() ==> complaint_at(
            raw,
            start,
            end,
            message,
        ) == message + seq!['\n'],
{
    reveal_strlit("\n");
    assert("\n"@ =~= seq!['\n']);
}

} // verus!
