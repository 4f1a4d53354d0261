//! What the command line computes: the reading of a `|`-delimited FIX line and
//! the search of the dictionary.
use vstd::prelude::*;

use crate::schema::{
    describe, find_enum, number_is, Field, FixSchema, FixSchemaView,
    FieldView, Message, MessageView,
};
use crate::services::converter::converted;
use crate::text::{
    chars_of, first_where, lemma_first_where_scan, pieces, split_at_equals, split_equals,
    split_pieces,
};

verus! {

/// The value that the command line shows for `tag=value`: the description of
/// the enumerated value when the dictionary defines the tag and enumerates the
/// value, the value itself otherwise.
pub open spec fn shown_value(s: FixSchemaView, tag: Seq<char>, value: Seq<char>) -> Seq<char> {
    match first_where(s.fields, number_is(tag)) {
        Some(i) => describe(s.fields[i], value),
        None => value,
    }
}

/// The command line shows for a pair the same value that the converter
/// reports for it, whatever message type the converter found.
pub proof fn law_command_line_agrees_with_converter(
    s: FixSchemaView,
    msg: Option<MessageView>,
    tag: Seq<char>,
    value: Seq<char>,
)
    ensures
        shown_value(s, tag, value) == converted(s, msg, tag, value).value,
{
}

/// The command line shows the description of the value when the tag is
/// exactly the number of a field definition (the first such), and the value
/// itself when it is the number of none.
pub proof fn law_shown_value_is_by_whole_tag(s: FixSchemaView, tag: Seq<char>, value: Seq<char>)
    ensures
        forall|i: int|
            0 <= i < s.fields.len() && (#[trigger] s.fields[i]).number == tag && (forall|j: int|
                0 <= j < i ==> (#[trigger] s.fields[j]).number != tag) ==> shown_value(s, tag, value)
                == describe(s.fields[i], value),
        (forall|j: int| 0 <= j < s.fields.len() ==> (#[trigger] s.fields[j]).number != tag)
            ==> shown_value(s, tag, value) == value,
{
    crate::schema::law_field_lookup_is_by_whole_tag(s.fields, tag);
    assert forall|i: int|
        0 <= i < s.fields.len() && (#[trigger] s.fields[i]).number == tag && (forall|j: int|
            0 <= j < i ==> (#[trigger] s.fields[j]).number != tag) implies shown_value(s, tag, value)
        == describe(s.fields[i], value) by {
        if let Some(f) = first_where(s.fields, number_is(tag)) {
            if f > i {
                assert(s.fields[i].number != tag);
            }
        }
    }
}

/// The line printed for one piece of a FIX line: `tag = value`, or the error
/// for a piece without `=`.
pub open spec fn piece_result(s: FixSchemaView, piece: Seq<char>) -> Result<Seq<char>, Seq<char>> {
    match split_at_equals(piece) {
        Some(p) => Ok(p.0 + " = "@ + shown_value(s, p.0, p.1)),
        None => Err("Error parsing the item '"@ + piece + "'"@),
    }
}

/// The successful lines, in order.
pub open spec fn oks_of(rs: Seq<Result<Seq<char>, Seq<char>>>) -> Seq<Seq<char>>
    decreases rs.len(),
{
    if rs.len() == 0 {
        Seq::empty()
    } else {
        match rs.last() {
            Ok(t) => oks_of(rs.drop_last()).push(t),
            Err(_) => oks_of(rs.drop_last()),
        }
    }
}

/// The error lines, in order.
pub open spec fn errs_of(rs: Seq<Result<Seq<char>, Seq<char>>>) -> Seq<Seq<char>>
    decreases rs.len(),
{
    if rs.len() == 0 {
        Seq::empty()
    } else {
        match rs.last() {
            Ok(_) => errs_of(rs.drop_last()),
            Err(t) => errs_of(rs.drop_last()).push(t),
        }
    }
}

/// The results for every piece of `line` split at `|`.
pub open spec fn line_results(s: FixSchemaView, line: Seq<char>) -> Seq<Result<Seq<char>, Seq<char>>> {
    pieces(line, "|"@).map_values(|p: Seq<char>| piece_result(s, p))
}

/// The tag, and the value shown for it: the description of the enumerated
/// value when the dictionary defines the tag and enumerates the value.
pub fn parse_tag<'a>(schema: &'a FixSchema, tag: &'a str, value: &'a str) -> (r: (&'a str, &'a str))
    ensures
        r.0@ == tag@,
        r.1@ == shown_value(schema@, tag@, value@),
{
    proof {
        crate::text::lemma_first_where_found(schema@.fields, number_is(tag@));
        if let Some(i) = first_where(schema@.fields, number_is(tag@)) {
            assert(schema@.fields[i] == schema.fields.values@[i]@);
        }
    }
    match schema.find_field_by_tag(tag) {
        Some(field) => {
            let value_text = String::from_str(value);
            proof {
                crate::text::lemma_first_where_found(field@.values, crate::schema::enum_is(value@));
                if let Some(k) = first_where(field@.values, crate::schema::enum_is(value@)) {
                    assert(field@.values[k] == field.values@[k]@);
                }
            }
            match find_enum(field, &value_text) {
                Some(e) => (tag, e.description.as_str()),
                None => (tag, value),
            }
        },
        None => (tag, value),
    }
}

/// The lines that the command line prints for one `|`-delimited FIX line:
/// `tag = value` for each piece with an `=`, and an error line for each piece
/// without one, both in order.
pub fn fixread_line(schema: &FixSchema, line: &str) -> (r: (Vec<String>, Vec<String>))
    ensures
        r.0.deep_view() == oks_of(line_results(schema@, line@)),
        r.1.deep_view() == errs_of(line_results(schema@, line@)),
{
    let chars = chars_of(line);
    let separator = chars_of("|");
    let parts = split_pieces(&chars, &separator);
    let ghost dv = parts.deep_view();
    let ghost rs = dv.map_values(|p: Seq<char>| piece_result(schema@, p));
    assert(rs == line_results(schema@, line@));
    let mut oks: Vec<String> = Vec::new();
    let mut errors: Vec<String> = Vec::new();
    let mut i: usize = 0;
    while i < parts.len()
        invariant
            i <= parts.len(),
            dv == parts.deep_view(),
            rs == dv.map_values(|p: Seq<char>| piece_result(schema@, p)),
            oks.deep_view() == oks_of(rs.take(i as int)),
            errors.deep_view() == errs_of(rs.take(i as int)),
        decreases parts.len() - i,
    {
        assert(rs.take(i + 1).drop_last() =~= rs.take(i as int));
        assert(rs.take(i + 1).last() == piece_result(schema@, dv[i as int]));
        let piece_chars = chars_of(parts[i].as_str());
        match split_equals(&piece_chars) {
            Some(pair) => {
                let (tag, value) = parse_tag(schema, pair.0.as_str(), pair.1.as_str());
                let mut text = String::from_str(tag);
                text.append(" = ");
                text.append(value);
                let ghost before = oks.deep_view();
                oks.push(text);
                assert(oks.deep_view() =~= before.push(text@));
            },
            None => {
                let mut text = String::from_str("Error parsing the item '");
                text.append(parts[i].as_str());
                text.append("'");
                let ghost before = errors.deep_view();
                errors.push(text);
                assert(errors.deep_view() =~= before.push(text@));
            },
        }
        i += 1;
    }
    assert(rs.take(i as int) =~= rs);
    (oks, errors)
}

/// What a search of the dictionary found.
pub enum Search<'a> {
    Field(Option<&'a Field>),
    Message(Option<&'a Message>),
    NotFound,
}

/// The field definition has name `name`.
pub open spec fn field_named(name: Seq<char>) -> spec_fn(FieldView) -> bool {
    |f: FieldView| f.name == name
}

/// The message has name `name`.
pub open spec fn message_named(name: Seq<char>) -> spec_fn(MessageView) -> bool {
    |m: MessageView| m.name == name
}

/// The message has `MsgType` code `code`.
pub open spec fn message_coded(code: Seq<char>) -> spec_fn(MessageView) -> bool {
    |m: MessageView| m.msgtype == code
}

/// A search finds the first entry whose name, or `MsgType` code, is exactly the
/// key (the whole text, not a prefix of it), and finds nothing when no entry
/// has it.
pub proof fn law_search_is_by_whole_key(s: FixSchemaView, key: Seq<char>)
    ensures
        first_where(s.fields, field_named(key)) matches Some(i) ==> {
            &&& 0 <= i < s.fields.len()
            &&& s.fields[i].name == key
            &&& forall|j: int| 0 <= j < i ==> (#[trigger] s.fields[j]).name != key
        },
        first_where(s.fields, field_named(key)) is None <==> forall|j: int|
            0 <= j < s.fields.len() ==> (#[trigger] s.fields[j]).name != key,
        first_where(s.messages, message_named(key)) matches Some(i) ==> {
            &&& 0 <= i < s.messages.len()
            &&& s.messages[i].name == key
            &&& forall|j: int| 0 <= j < i ==> (#[trigger] s.messages[j]).name != key
        },
        first_where(s.messages, message_named(key)) is None <==> forall|j: int|
            0 <= j < s.messages.len() ==> (#[trigger] s.messages[j]).name != key,
        first_where(s.messages, message_coded(key)) matches Some(i) ==> {
            &&& 0 <= i < s.messages.len()
            &&& s.messages[i].msgtype == key
            &&& forall|j: int| 0 <= j < i ==> (#[trigger] s.messages[j]).msgtype != key
        },
        first_where(s.messages, message_coded(key)) is None <==> forall|j: int|
            0 <= j < s.messages.len() ==> (#[trigger] s.messages[j]).msgtype != key,
{
    crate::text::lemma_first_where_found(s.fields, field_named(key));
    crate::text::lemma_first_where_found(s.messages, message_named(key));
    crate::text::lemma_first_where_found(s.messages, message_coded(key));
    if let Some(i) = first_where(s.fields, field_named(key)) {
        assert(s.fields[i].name == key);
    }
    if let Some(i) = first_where(s.messages, message_named(key)) {
        assert(s.messages[i].name == key);
    }
    if let Some(i) = first_where(s.messages, message_coded(key)) {
        assert(s.messages[i].msgtype == key);
    }
}

/// The search found the field at `found` (by index into the dictionary).
pub open spec fn found_field(schema: &FixSchema, r: Option<&Field>, found: Option<int>) -> bool {
    match found {
        Some(i) => r matches Some(f) && f == schema.fields.values@[i],
        None => r is None,
    }
}

/// The search found the message at `found` (by index into the dictionary).
pub open spec fn found_message(schema: &FixSchema, r: Option<&Message>, found: Option<int>) -> bool {
    match found {
        Some(i) => r matches Some(m) && m == schema.messages.values@[i],
        None => r is None,
    }
}

/// The first field with name `key`.
fn field_by_name<'a>(schema: &'a FixSchema, key: &String) -> (r: Option<&'a Field>)
    ensures
        found_field(schema, r, first_where(schema@.fields, field_named(key@))),
{
    let mut i: usize = 0;
    while i < schema.fields.values.len()
        invariant
            i <= schema.fields.values.len(),
            forall|j: int| 0 <= j < i ==> !field_named(key@)(#[trigger] schema@.fields[j]),
        decreases schema.fields.values.len() - i,
    {
        if schema.fields.values[i].name == *key {
            proof {
                lemma_first_where_scan(schema@.fields, field_named(key@), i as int);
            }
            return Some(&schema.fields.values[i]);
        }
        i += 1;
    }
    proof {
        lemma_first_where_scan(schema@.fields, field_named(key@), i as int);
    }
    None
}

/// The first message whose name (when `by_code` is false) or `MsgType` code
/// (when it is true) is `key`.
fn message_by<'a>(schema: &'a FixSchema, key: &String, by_code: bool) -> (r: Option<&'a Message>)
    ensures
        found_message(
            schema,
            r,
            first_where(
                schema@.messages,
                if by_code {
                    message_coded(key@)
                } else {
                    message_named(key@)
                },
            ),
        ),
{
    let ghost p = if by_code {
        message_coded(key@)
    } else {
        message_named(key@)
    };
    let mut i: usize = 0;
    while i < schema.messages.values.len()
        invariant
            i <= schema.messages.values.len(),
            p == (if by_code {
                message_coded(key@)
            } else {
                message_named(key@)
            }),
            forall|j: int| 0 <= j < i ==> !p(#[trigger] schema@.messages[j]),
        decreases schema.messages.values.len() - i,
    {
        let m = &schema.messages.values[i];
        let hit = if by_code {
            m.msgtype == *key
        } else {
            m.name == *key
        };
        assert(hit == p(schema@.messages[i as int]));
        if hit {
            proof {
                lemma_first_where_scan(schema@.messages, p, i as int);
            }
            return Some(m);
        }
        i += 1;
    }
    proof {
        lemma_first_where_scan(schema@.messages, p, i as int);
    }
    None
}

/// Searches the dictionary: mode `0` a field by name, `1` a field by tag
/// number, `2` a message by name, `3` a message by `MsgType` code; an empty
/// mode is the default, `1`; any other mode finds nothing.
pub fn search<'a>(schema: &'a FixSchema, search_mode: &str, key: &str) -> (r: Search<'a>)
    ensures
        search_mode@ == "0"@ ==> (r matches Search::Field(f) && found_field(
            schema,
            f,
            first_where(schema@.fields, field_named(key@)),
        )),
        search_mode@ == "1"@ || search_mode@.len() == 0 ==> (r matches Search::Field(f) && found_field(
            schema,
            f,
            first_where(schema@.fields, number_is(key@)),
        )),
        search_mode@ == "2"@ ==> (r matches Search::Message(m) && found_message(
            schema,
            m,
            first_where(schema@.messages, message_named(key@)),
        )),
        search_mode@ == "3"@ ==> (r matches Search::Message(m) && found_message(
            schema,
            m,
            first_where(schema@.messages, message_coded(key@)),
        )),
        search_mode@.len() != 0 && search_mode@ != "0"@ && search_mode@ != "1"@ && search_mode@
            != "2"@ && search_mode@ != "3"@ ==> r is NotFound,
        r matches Search::Field(Some(f)) ==> (search_mode@ == "0"@ ==> f.name@ == key@) && (
        search_mode@ != "0"@ ==> f.number@ == key@),
        r matches Search::Message(Some(m)) ==> (search_mode@ == "2"@ ==> m.name@ == key@) && (
        search_mode@ != "2"@ ==> m.msgtype@ == key@),
        search_mode@ == "0"@ && (r matches Search::Field(None)) ==> forall|j: int|
            0 <= j < schema.fields.values.len() ==> (#[trigger] schema.fields.values@[j]).name@
                != key@,
        search_mode@ != "0"@ && (r matches Search::Field(None)) ==> forall|j: int|
            0 <= j < schema.fields.values.len() ==> (#[trigger] schema.fields.values@[j]).number@
                != key@,
        search_mode@ == "2"@ && (r matches Search::Message(None)) ==> forall|j: int|
            0 <= j < schema.messages.values.len() ==> (#[trigger] schema.messages.values@[j]).name@
                != key@,
        search_mode@ != "2"@ && (r matches Search::Message(None)) ==> forall|j: int|
            0 <= j < schema.messages.values.len() ==> (
            #[trigger] schema.messages.values@[j]).msgtype@ != key@,
{
    proof {
        law_search_is_by_whole_key(schema@, key@);
        crate::schema::law_field_lookup_is_by_whole_tag(schema@.fields, key@);
        assert forall|j: int| 0 <= j < schema.fields.values.len() implies (#[trigger] schema.fields.values@[j])@
            == schema@.fields[j] by {}
        assert forall|j: int| 0 <= j < schema.messages.values.len() implies (
        #[trigger] schema.messages.values@[j])@ == schema@.messages[j] by {}
        reveal_strlit("0");
        reveal_strlit("1");
        reveal_strlit("2");
        reveal_strlit("3");
        assert("0"@ != "1"@ && "0"@ != "2"@ && "1"@ != "2"@) by {
            assert("0"@[0] != "1"@[0]);
            assert("0"@[0] != "2"@[0]);
            assert("1"@[0] != "2"@[0]);
        }
        assert("0"@ != "3"@ && "1"@ != "3"@ && "2"@ != "3"@) by {
            assert("0"@[0] != "3"@[0]);
            assert("1"@[0] != "3"@[0]);
            assert("2"@[0] != "3"@[0]);
        }
    }
    let mode = String::from_str(search_mode);
    let key_text = String::from_str(key);
    if mode == String::from_str("0") {
        let f = field_by_name(schema, &key_text);
        Search::Field(f)
    } else if mode == String::from_str("1") || search_mode.is_empty() {
        let f = schema.find_field_by_tag(key);
        assert(found_field(schema, f, first_where(schema@.fields, number_is(key@))));
        Search::Field(f)
    } else if mode == String::from_str("2") {
        let m = message_by(schema, &key_text, false);
        assert(found_message(schema, m, first_where(schema@.messages, message_named(key@))));
        Search::Message(m)
    } else if mode == String::from_str("3") {
        let m = message_by(schema, &key_text, true);
        Search::Message(m)
    } else {
        Search::NotFound
    }
}

} // verus!
