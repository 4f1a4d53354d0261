//! Converting raw FIX messages with a loaded dictionary.
use vstd::prelude::*;

use crate::models::error::AppError;
use crate::models::message::{FieldConverted, FieldConvertedView, FixMessage};
use crate::schema::{
    describe, enum_is, find_enum, find_named, message_for, named, number_is,
    law_named_lookup_is_by_whole_name, pairs_view, translate, Field, FixSchema, FixSchemaView, Message, MessageView,
};
use crate::text::{
    chars_of, contains, contains_seq, first_where, lemma_first_where_found,
    lemma_first_where_scan, pieces, split_at_equals, split_equals, split_pieces,
};

verus! {

/// A converter: the dictionary it has loaded, if any, and the file it came from.
pub struct FixConverter {
    pub schema: Option<FixSchema>,
    pub filename: String,
}

/// What a `FixConverter` holds, as plain values.
pub struct FixConverterView {
    pub schema: Option<FixSchemaView>,
    pub filename: Seq<char>,
}

impl View for FixConverter {
    type V = FixConverterView;

    open spec fn view(&self) -> FixConverterView {
        FixConverterView {
            schema: match self.schema {
                Some(s) => Some(s@),
                None => None,
            },
            filename: self.filename@,
        }
    }
}

/// The text of the error for a message without a known delimiter.
pub open spec fn invalid_separator_text() -> Seq<char> {
    "Separador inv\u{e1}lido"@
}

/// The first of the known delimiters (`|`, `^A `, the SOH character, and the
/// four characters `\x01`) that occurs in `input`.
pub open spec fn delimiter_of(input: Seq<char>) -> Option<Seq<char>> {
    if contains(input, "|"@) {
        Some("|"@)
    } else if contains(input, "^A "@) {
        Some("^A "@)
    } else if contains(input, "\x01"@) {
        Some("\x01"@)
    } else if contains(input, "\\x01"@) {
        Some("\\x01"@)
    } else {
        None
    }
}

/// The `(tag, value)` pairs of the pieces that hold an `=`, in order.
pub open spec fn pairs_of(pieces: Seq<Seq<char>>) -> Seq<(Seq<char>, Seq<char>)>
    decreases pieces.len(),
{
    if pieces.len() == 0 {
        Seq::empty()
    } else {
        match split_at_equals(pieces.last()) {
            Some(p) => pairs_of(pieces.drop_last()).push(p),
            None => pairs_of(pieces.drop_last()),
        }
    }
}

/// The pair has tag `tag`.
pub open spec fn tag_is(tag: Seq<char>) -> spec_fn((Seq<char>, Seq<char>)) -> bool {
    |p: (Seq<char>, Seq<char>)| p.0 == tag
}

/// The message type that the first pair with tag `35` names, looked up in the
/// dictionary.
pub open spec fn message_of_pairs(s: FixSchemaView, pairs: Seq<(Seq<char>, Seq<char>)>) -> Option<
    MessageView,
> {
    match first_where(pairs, tag_is("35"@)) {
        Some(i) => message_for(s, pairs[i].1),
        None => None,
    }
}

/// Whether the field named `name` is required: by the first header entry with
/// that name, else the first trailer entry, else the first field of the
/// message; a field that none of them lists is not required.
pub open spec fn requirement(s: FixSchemaView, name: Seq<char>, m: MessageView) -> bool {
    match first_where(s.header, named(name)) {
        Some(i) => s.header[i].required == "Y"@,
        None => match first_where(s.trailer, named(name)) {
            Some(i) => s.trailer[i].required == "Y"@,
            None => match first_where(m.fields, named(name)) {
                Some(i) => m.fields[i].required == "Y"@,
                None => false,
            },
        },
    }
}

/// One pair as the converter reports it.
pub open spec fn converted(
    s: FixSchemaView,
    msg: Option<MessageView>,
    tag: Seq<char>,
    value: Seq<char>,
) -> FieldConvertedView {
    match first_where(s.fields, number_is(tag)) {
        None => FieldConvertedView { tag, title: Seq::empty(), value, required: false },
        Some(i) => FieldConvertedView {
            tag,
            title: s.fields[i].name,
            value: describe(s.fields[i], value),
            required: match msg {
                Some(m) => requirement(s, s.fields[i].name, m),
                None => false,
            },
        },
    }
}

/// Every pair converted, in order.
pub open spec fn converted_all(
    s: FixSchemaView,
    msg: Option<MessageView>,
    pairs: Seq<(Seq<char>, Seq<char>)>,
) -> Seq<FieldConvertedView> {
    pairs.map_values(|p: (Seq<char>, Seq<char>)| converted(s, msg, p.0, p.1))
}

/// The `(tag, value)` pairs of `input` split at `delimiter`.
pub open spec fn message_pairs(input: Seq<char>, delimiter: Seq<char>) -> Seq<
    (Seq<char>, Seq<char>),
> {
    pairs_of(pieces(input, delimiter))
}

/// What `FixConverter::from_str` gives for `input` with the dictionary `s`:
/// the converted pairs, or the text of its error.
pub open spec fn conversion(s: FixSchemaView, input: Seq<char>) -> Result<
    Seq<FieldConvertedView>,
    Seq<char>,
> {
    match delimiter_of(input) {
        None => Err(invalid_separator_text()),
        Some(d) => {
            let pairs = message_pairs(input, d);
            Ok(converted_all(s, message_of_pairs(s, pairs), pairs))
        },
    }
}

/// `from_str` reaches the dictionary: the input has a delimiter and at least
/// one `tag=value` pair.
pub open spec fn needs_schema(input: Seq<char>) -> bool {
    match delimiter_of(input) {
        None => false,
        Some(d) => message_pairs(input, d).len() > 0,
    }
}

/// A conversion reports one entry per `tag=value` pair, in order, with the tag
/// as written; a tag that the dictionary does not define keeps its value, has
/// no title and is not required.
pub proof fn law_conversion_keeps_every_pair(s: FixSchemaView, input: Seq<char>)
    ensures
        conversion(s, input) matches Ok(v) ==> {
            let pairs = message_pairs(input, delimiter_of(input)->0);
            &&& v.len() == pairs.len()
            &&& forall|k: int| 0 <= k < pairs.len() ==> (#[trigger] v[k]).tag == pairs[k].0
            &&& forall|k: int|
                0 <= k < pairs.len() && first_where(s.fields, number_is(pairs[k].0)) is None ==> {
                    &&& (#[trigger] v[k]).value == pairs[k].1
                    &&& v[k].title.len() == 0
                    &&& !v[k].required
                }
        },
        conversion(s, input) is Err <==> delimiter_of(input) is None,
{
}

/// The converter and `FixSchema::parse_tags` translate a pair alike: for a
/// tag that the dictionary defines, the converter's title and value are the
/// name and value that `parse_tags` gives; for any other tag both keep the
/// value as written.
pub proof fn law_converter_translates_like_parse_tags(
    s: FixSchemaView,
    msg: Option<MessageView>,
    tag: Seq<char>,
    value: Seq<char>,
)
    ensures
        first_where(s.fields, number_is(tag)) is Some ==> {
            &&& converted(s, msg, tag, value).title == translate(s, tag, value).0
            &&& converted(s, msg, tag, value).value == translate(s, tag, value).1
        },
        first_where(s.fields, number_is(tag)) is None ==> {
            &&& translate(s, tag, value) == (tag, value)
            &&& converted(s, msg, tag, value).value == value
        },
{
}

/// The message type of a conversion is named by the first pair whose tag is
/// exactly `35`; without such a pair there is none.
pub proof fn law_message_type_comes_from_first_tag_35(
    s: FixSchemaView,
    pairs: Seq<(Seq<char>, Seq<char>)>,
)
    ensures
        (forall|j: int| 0 <= j < pairs.len() ==> (#[trigger] pairs[j]).0 != "35"@)
            ==> message_of_pairs(s, pairs) is None,
        forall|i: int|
            0 <= i < pairs.len() && (#[trigger] pairs[i]).0 == "35"@ && (forall|j: int|
                0 <= j < i ==> (#[trigger] pairs[j]).0 != "35"@) ==> message_of_pairs(s, pairs)
                == message_for(s, pairs[i].1),
{
    lemma_first_where_found(pairs, tag_is("35"@));
    assert forall|i: int|
        0 <= i < pairs.len() && (#[trigger] pairs[i]).0 == "35"@ && (forall|j: int|
            0 <= j < i ==> (#[trigger] pairs[j]).0 != "35"@) implies message_of_pairs(s, pairs)
        == message_for(s, pairs[i].1) by {
        assert(tag_is("35"@)(pairs[i]));
        if let Some(f) = first_where(pairs, tag_is("35"@)) {
            if f < i {
                assert(pairs[f].0 != "35"@);
            }
            if f > i {
                assert(!tag_is("35"@)(pairs[i]));
            }
        }
    }
    if let Some(f) = first_where(pairs, tag_is("35"@)) {
        assert(pairs[f].0 == "35"@);
    }
}

/// Whether a field is required follows the first header entry with exactly
/// its name, else the first trailer entry with it, else the first field of the
/// message with it; a name that none of them lists is not required.
pub proof fn law_requirement_is_by_whole_name(s: FixSchemaView, name: Seq<char>, m: MessageView)
    ensures
        forall|i: int|
            0 <= i < s.header.len() && (#[trigger] s.header[i]).name == name && (forall|j: int|
                0 <= j < i ==> (#[trigger] s.header[j]).name != name) ==> requirement(s, name, m)
                == (s.header[i].required == "Y"@),
        (forall|j: int| 0 <= j < s.header.len() ==> (#[trigger] s.header[j]).name != name)
            ==> forall|i: int|
            0 <= i < s.trailer.len() && (#[trigger] s.trailer[i]).name == name && (forall|j: int|
                0 <= j < i ==> (#[trigger] s.trailer[j]).name != name) ==> requirement(s, name, m)
                == (s.trailer[i].required == "Y"@),
        (forall|j: int| 0 <= j < s.header.len() ==> (#[trigger] s.header[j]).name != name) && (
        forall|j: int| 0 <= j < s.trailer.len() ==> (#[trigger] s.trailer[j]).name != name)
            ==> forall|i: int|
            0 <= i < m.fields.len() && (#[trigger] m.fields[i]).name == name && (forall|j: int|
                0 <= j < i ==> (#[trigger] m.fields[j]).name != name) ==> requirement(s, name, m)
                == (m.fields[i].required == "Y"@),
        (forall|j: int| 0 <= j < s.header.len() ==> (#[trigger] s.header[j]).name != name) && (
        forall|j: int| 0 <= j < s.trailer.len() ==> (#[trigger] s.trailer[j]).name != name) && (
        forall|j: int| 0 <= j < m.fields.len() ==> (#[trigger] m.fields[j]).name != name)
            ==> !requirement(s, name, m),
{
    law_named_lookup_is_by_whole_name(s.header, name);
    law_named_lookup_is_by_whole_name(s.trailer, name);
    law_named_lookup_is_by_whole_name(m.fields, name);
    assert forall|i: int|
        0 <= i < s.header.len() && (#[trigger] s.header[i]).name == name && (forall|j: int|
            0 <= j < i ==> (#[trigger] s.header[j]).name != name) implies requirement(s, name, m)
        == (s.header[i].required == "Y"@) by {
        if let Some(f) = first_where(s.header, named(name)) {
            if f > i {
                assert(s.header[i].name != name);
            }
        }
    }
    assert forall|i: int|
        0 <= i < s.trailer.len() && (#[trigger] s.trailer[i]).name == name && (forall|j: int|
            0 <= j < i ==> (#[trigger] s.trailer[j]).name != name) && (forall|j: int|
            0 <= j < s.header.len() ==> (#[trigger] s.header[j]).name != name) implies requirement(
        s,
        name,
        m,
    ) == (s.trailer[i].required == "Y"@) by {
        if let Some(f) = first_where(s.trailer, named(name)) {
            if f > i {
                assert(s.trailer[i].name != name);
            }
        }
    }
    assert forall|i: int|
        0 <= i < m.fields.len() && (#[trigger] m.fields[i]).name == name && (forall|j: int|
            0 <= j < i ==> (#[trigger] m.fields[j]).name != name) && (forall|j: int|
            0 <= j < s.header.len() ==> (#[trigger] s.header[j]).name != name) && (forall|j: int|
            0 <= j < s.trailer.len() ==> (#[trigger] s.trailer[j]).name != name) implies requirement(
        s,
        name,
        m,
    ) == (m.fields[i].required == "Y"@) by {
        if let Some(f) = first_where(m.fields, named(name)) {
            if f > i {
                assert(m.fields[i].name != name);
            }
        }
    }
}

/// A pair whose tag is exactly the number of a field definition (the first
/// such) gets that field's name as title, the described value, and, with a
/// message type, the field's requirement; a pair whose tag is the number of no
/// definition keeps its value, has no title and is not required.
pub proof fn law_converted_is_by_whole_tag(
    s: FixSchemaView,
    msg: Option<MessageView>,
    tag: Seq<char>,
    value: Seq<char>,
)
    ensures
        forall|i: int|
            0 <= i < s.fields.len() && (#[trigger] s.fields[i]).number == tag && (forall|j: int|
                0 <= j < i ==> (#[trigger] s.fields[j]).number != tag) ==> converted(s, msg, tag, value)
                == (FieldConvertedView {
                tag,
                title: s.fields[i].name,
                value: describe(s.fields[i], value),
                required: match msg {
                    Some(m) => requirement(s, s.fields[i].name, m),
                    None => false,
                },
            }),
        (forall|j: int| 0 <= j < s.fields.len() ==> (#[trigger] s.fields[j]).number != tag)
            ==> converted(s, msg, tag, value) == (FieldConvertedView {
            tag,
            title: Seq::empty(),
            value,
            required: false,
        }),
{
    crate::schema::law_field_lookup_is_by_whole_tag(s.fields, tag);
    assert forall|i: int|
        0 <= i < s.fields.len() && (#[trigger] s.fields[i]).number == tag && (forall|j: int|
            0 <= j < i ==> (#[trigger] s.fields[j]).number != tag) implies converted(s, msg, tag, value)
        == (FieldConvertedView {
        tag,
        title: s.fields[i].name,
        value: describe(s.fields[i], value),
        required: match msg {
            Some(m) => requirement(s, s.fields[i].name, m),
            None => false,
        },
    }) by {
        if let Some(f) = first_where(s.fields, number_is(tag)) {
            if f > i {
                assert(s.fields[i].number != tag);
            }
        }
    }
}

/// The `(tag, value)` pairs of the pieces that hold an `=`.
pub fn pairs_of_pieces(pieces: &Vec<String>) -> (r: Vec<(String, String)>)
    ensures
        pairs_view(r@) == pairs_of(pieces.deep_view()),
{
    let ghost dv = pieces.deep_view();
    let mut r: Vec<(String, String)> = Vec::new();
    let mut i: usize = 0;
    while i < pieces.len()
        invariant
            i <= pieces.len(),
            dv == pieces.deep_view(),
            pairs_view(r@) == pairs_of(dv.take(i as int)),
        decreases pieces.len() - i,
    {
        assert(dv.take(i + 1).drop_last() =~= dv.take(i as int));
        let chars = chars_of(pieces[i].as_str());
        let ghost before = pairs_view(r@);
        match split_equals(&chars) {
            Some(pair) => {
                r.push(pair);
                assert(pairs_view(r@) =~= before.push(split_at_equals(dv[i as int])->0));
            },
            None => {},
        }
        i += 1;
    }
    assert(dv.take(i as int) =~= dv);
    r
}

impl FixConverter {
    /// A converter with no dictionary loaded and an empty file name.
    pub fn new() -> (r: Self)
        ensures
            r@ == (FixConverterView { schema: None, filename: Seq::empty() }),
    {
        FixConverter { schema: None, filename: String::new() }
    }

    /// Takes the dictionary read from `file_path`: on success the converter
    /// holds it and remembers the path; a failed read is handed back and the
    /// converter is left as it was.
    pub fn load_from(&mut self, file_path: &str, schema: Result<FixSchema, AppError>) -> (r: Result<
        (),
        AppError,
    >)
        ensures
            match schema {
                Ok(s) => r is Ok && final(self)@ == (FixConverterView {
                    schema: Some(s@),
                    filename: file_path@,
                }),
                Err(e) => r matches Err(got) && got == e && final(self)@ == old(self)@,
            },
    {
        match schema {
            Ok(s) => {
                self.schema = Some(s);
                self.filename = String::from_str(file_path);
                Ok(())
            },
            Err(e) => Err(e),
        }
    }

    /// Loads the dictionary from the file named in the cache: a failed cache
    /// read is handed back, otherwise as `load_from` with that path.
    pub fn try_load(
        &mut self,
        schema_file: Result<String, AppError>,
        schema: Result<FixSchema, AppError>,
    ) -> (r: Result<(), AppError>)
        ensures
            match schema_file {
                Err(e) => r matches Err(got) && got == e && final(self)@ == old(self)@,
                Ok(path) => match schema {
                    Ok(s) => r is Ok && final(self)@ == (FixConverterView {
                        schema: Some(s@),
                        filename: path@,
                    }),
                    Err(e) => r matches Err(got) && got == e && final(self)@ == old(self)@,
                },
            },
    {
        match schema_file {
            Err(e) => Err(e),
            Ok(path) => self.load_from(path.as_str(), schema),
        }
    }

    /// The first known delimiter that occurs in `input`.
    pub fn get_delimiter(input: &str) -> (r: Result<&'static str, AppError>)
        ensures
            match delimiter_of(input@) {
                Some(d) => r matches Ok(got) && got@ == d,
                None => r matches Err(e) && e@ == invalid_separator_text(),
            },
    {
        let chars = chars_of(input);
        let pipe = "|";
        if contains_seq(&chars, &chars_of(pipe)) {
            return Ok(pipe);
        }
        let caret = "^A ";
        if contains_seq(&chars, &chars_of(caret)) {
            return Ok(caret);
        }
        let soh = "\x01";
        if contains_seq(&chars, &chars_of(soh)) {
            return Ok(soh);
        }
        let escaped = "\\x01";
        if contains_seq(&chars, &chars_of(escaped)) {
            return Ok(escaped);
        }
        Err(AppError::new("Separador inv\u{e1}lido"))
    }

    /// Whether converting `input` reaches the dictionary: the input has a
    /// known delimiter and at least one `tag=value` pair.
    pub fn reaches_schema(input: &str) -> (r: bool)
        ensures
            r == needs_schema(input@),
    {
        match Self::get_delimiter(input) {
            Err(_) => false,
            Ok(delimiter) => {
                let chars = chars_of(input);
                let sep = chars_of(delimiter);
                let pieces = split_pieces(&chars, &sep);
                let tag_values = pairs_of_pieces(&pieces);
                tag_values.len() > 0
            },
        }
    }

    /// Converts a raw FIX message: splits it at its delimiter, keeps the
    /// pieces before the first empty one that hold an `=`, looks up the
    /// message type that the first tag `35` names, and converts every pair.
    pub fn from_str(&self, input: &str) -> (r: Result<FixMessage, AppError>)
        requires
            self.schema is Some || !needs_schema(input@),
        ensures
            match conversion(self@.schema->0, input@) {
                Ok(v) => r matches Ok(m) && m@ == v,
                Err(t) => r matches Err(e) && e@ == t,
            },
    {
        let delimiter = match Self::get_delimiter(input) {
            Ok(d) => d,
            Err(e) => return Err(e),
        };
        let chars = chars_of(input);
        let sep = chars_of(delimiter);
        let pieces = split_pieces(&chars, &sep);
        let tag_values = pairs_of_pieces(&pieces);
        let ghost pv = pairs_view(tag_values@);
        let msg_schema = self.message_of(&tag_values);
        let values = self.parse_tags(&tag_values, msg_schema.as_ref());
        proof {
            if msg_schema is Some {
                assert(msg_schema->0@ == message_of_pairs(self@.schema->0, pv)->0);
            }
        }
        Ok(FixMessage { values })
    }

    /// The message type named by the first pair with tag `35`, looked up in
    /// the dictionary.
    fn message_of(&self, tag_values: &Vec<(String, String)>) -> (r: Option<Message>)
        requires
            self.schema is Some || first_where(pairs_view(tag_values@), tag_is("35"@)) is None,
        ensures
            match message_of_pairs(self@.schema->0, pairs_view(tag_values@)) {
                Some(m) => r matches Some(found) && found@ == m,
                None => r is None,
            },
    {
        let ghost pv = pairs_view(tag_values@);
        let thirty_five = String::from_str("35");
        let mut i: usize = 0;
        while i < tag_values.len()
            invariant
                i <= tag_values.len(),
                pv == pairs_view(tag_values@),
                thirty_five@ == "35"@,
                self.schema is Some || first_where(pv, tag_is("35"@)) is None,
                forall|j: int| 0 <= j < i ==> !tag_is("35"@)(#[trigger] pv[j]),
            decreases tag_values.len() - i,
        {
            if tag_values[i].0 == thirty_five {
                proof {
                    lemma_first_where_scan(pv, tag_is("35"@), i as int);
                }
                return self.find_msgtype(tag_values[i].1.as_str());
            }
            i += 1;
        }
        proof {
            lemma_first_where_scan(pv, tag_is("35"@), i as int);
        }
        None
    }

    /// Converts every pair: the tag stays, a tag that the dictionary defines
    /// gets the field's name, an enumerated value its description, and, when
    /// the message type is known, whether the field is required.
    pub fn parse_tags(&self, tag_values: &Vec<(String, String)>, msg_schema: Option<&Message>) -> (r:
        Vec<FieldConverted>)
        requires
            self.schema is Some || tag_values.len() == 0,
        ensures
            r@.map_values(|f: FieldConverted| f@) == converted_all(
                self@.schema->0,
                match msg_schema {
                    Some(m) => Some(m@),
                    None => None,
                },
                pairs_view(tag_values@),
            ),
    {
        let ghost pv = pairs_view(tag_values@);
        let ghost msg = match msg_schema {
            Some(m) => Some(m@),
            None => None,
        };
        let ghost s = self@.schema->0;
        let mut r: Vec<FieldConverted> = Vec::new();
        let mut i: usize = 0;
        while i < tag_values.len()
            invariant
                i <= tag_values.len(),
                self.schema is Some || tag_values.len() == 0,
                s == self@.schema->0,
                pv == pairs_view(tag_values@),
                msg == match msg_schema {
                    Some(m) => Some(m@),
                    None => None,
                },
                r@.map_values(|f: FieldConverted| f@) == converted_all(s, msg, pv.take(i as int)),
            decreases tag_values.len() - i,
        {
            let tag = &tag_values[i].0;
            let value = &tag_values[i].1;
            assert(pv[i as int] == (tag@, value@));
            assert(converted_all(s, msg, pv.take(i + 1)) =~= converted_all(
                s,
                msg,
                pv.take(i as int),
            ).push(converted(s, msg, tag@, value@)));
            let mut field_name = String::new();
            let mut description = value.clone();
            let mut requirement = false;
            proof {
                lemma_first_where_found(s.fields, number_is(tag@));
                if let Some(idx) = first_where(s.fields, number_is(tag@)) {
                    assert(s.fields[idx] == self.schema->0.fields.values@[idx]@);
                }
            }
            if let Some(field) = self.find_field_by_tag(tag.as_str()) {
                if let Some(field_description) = Self::find_field_description(
                    value.as_str(),
                    field,
                ) {
                    description = field_description;
                }
                if let Some(m) = msg_schema {
                    requirement = self.find_requirement(field, m);
                }
                field_name = field.name.clone();
            }
            let ghost before = r@.map_values(|f: FieldConverted| f@);
            r.push(FieldConverted::from((tag.clone(), field_name, description, requirement)));
            assert(r@.map_values(|f: FieldConverted| f@) =~= before.push(
                converted(s, msg, tag@, value@),
            ));
            i += 1;
        }
        assert(pv.take(i as int) =~= pv);
        r
    }

    /// The first message whose `MsgType` code is `msgtype`, with the fields of
    /// its groups appended to its own fields.
    pub fn find_msgtype(&self, msgtype: &str) -> (r: Option<Message>)
        requires
            self.schema is Some,
        ensures
            match message_for(self@.schema->0, msgtype@) {
                Some(m) => r matches Some(found) && found@ == m,
                None => r is None,
            },
    {
        match &self.schema {
            Some(schema) => schema.find_msgtype(msgtype),
            None => None,
        }
    }

    /// The first field definition whose tag number is `tag`.
    pub fn find_field_by_tag(&self, tag: &str) -> (r: Option<&Field>)
        requires
            self.schema is Some,
        ensures
            match first_where(self@.schema->0.fields, number_is(tag@)) {
                Some(i) => r matches Some(f) && f == self.schema->0.fields.values@[i],
                None => r is None,
            },
    {
        match &self.schema {
            Some(schema) => schema.find_field_by_tag(tag),
            None => None,
        }
    }

    /// The description of the enumerated value `key` of `field`, if it has one.
    pub fn find_field_description(key: &str, field: &Field) -> (r: Option<String>)
        ensures
            match first_where(field@.values, enum_is(key@)) {
                Some(k) => r matches Some(d) && d@ == field@.values[k].description,
                None => r is None,
            },
    {
        let key_text = String::from_str(key);
        proof {
            lemma_first_where_found(field@.values, enum_is(key@));
            if let Some(k) = first_where(field@.values, enum_is(key@)) {
                assert(field@.values[k] == field.values@[k]@);
            }
        }
        match find_enum(field, &key_text) {
            Some(e) => Some(e.description.clone()),
            None => None,
        }
    }

    /// Whether `field` is required: by the first header entry with its name,
    /// else the first trailer entry, else the first field of `msg_schema`.
    pub fn find_requirement(&self, field: &Field, msg_schema: &Message) -> (r: bool)
        requires
            self.schema is Some,
        ensures
            r == requirement(self@.schema->0, field.name@, msg_schema@),
    {
        let yes = String::from_str("Y");
        match &self.schema {
            None => false,
            Some(schema) => {
                let ghost s = schema@;
                proof {
                    lemma_first_where_found(s.header, named(field.name@));
                    lemma_first_where_found(s.trailer, named(field.name@));
                    lemma_first_where_found(msg_schema@.fields, named(field.name@));
                }
                if let Some(header_field) = find_named(&schema.header.values, &field.name) {
                    return header_field.required == yes;
                }
                if let Some(trailer_field) = find_named(&schema.trailer.values, &field.name) {
                    return trailer_field.required == yes;
                }
                if let Some(message_field) = find_named(&msg_schema.fields, &field.name) {
                    return message_field.required == yes;
                }
                false
            },
        }
    }
}

} // verus!
