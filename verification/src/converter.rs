//! Reading a FIX message straight from the dictionary, with the required
//! fields checked.
use vstd::prelude::*;

use crate::models::error::AppError;
use crate::schema::{
    find_last_msgtype, has_text, last_msgtype, message_for, pairs_view, parse_outcome,
    law_required_of_lists_required_names, required_list, required_names, required_of, FixSchema,
    FixSchemaView,
};
use crate::text::{chars_of, contains, contains_seq, pieces, split_at_equals, split_equals, split_pieces};

verus! {

/// A message read from the dictionary: one entry per pair, in order.
pub struct FixMsg {
    pub values: Vec<Field>,
}

/// One pair of a message: the field's name (or the tag when the dictionary
/// does not define it), the value or its description, and `"Y"` when the
/// message type requires the field, `"N"` otherwise.
pub struct Field {
    pub tag: String,
    pub value: String,
    pub required: String,
}

/// What a `Field` holds, as plain text.
pub struct FieldTextView {
    pub tag: Seq<char>,
    pub value: Seq<char>,
    pub required: Seq<char>,
}

impl View for Field {
    type V = FieldTextView;

    open spec fn view(&self) -> FieldTextView {
        FieldTextView { tag: self.tag@, value: self.value@, required: self.required@ }
    }
}

impl View for FixMsg {
    type V = Seq<FieldTextView>;

    open spec fn view(&self) -> Seq<FieldTextView> {
        self.values@.map_values(|f: Field| f@)
    }
}

/// The shape of a message: its name and its fields.
pub struct MessageSchema {
    pub name: String,
    pub fields: Vec<FieldSchema>,
}

/// A field of a message shape: its name and whether it is required.
pub struct FieldSchema {
    pub name: String,
    pub required: String,
}

/// A piece as a pair: split at its first `=`, or, without one, the pair
/// `("Error splitting ", piece)`.
pub open spec fn piece_pair(piece: Seq<char>) -> (Seq<char>, Seq<char>) {
    match split_at_equals(piece) {
        Some(p) => p,
        None => ("Error splitting "@, piece),
    }
}

/// The pairs of `input` split at `separator`.
pub open spec fn input_pairs(input: Seq<char>, separator: Seq<char>) -> Seq<(Seq<char>, Seq<char>)> {
    pieces(input, separator).map_values(|p: Seq<char>| piece_pair(p))
}

/// A translated pair with its requirement marked.
pub open spec fn marked(pair: (Seq<char>, Seq<char>), required: Seq<Seq<char>>) -> FieldTextView {
    FieldTextView {
        tag: pair.0,
        value: pair.1,
        required: if required.contains(pair.0) {
            "Y"@
        } else {
            "N"@
        },
    }
}

/// The entries of the message read from `input`, given the translated pairs.
pub open spec fn message_entries(
    s: FixSchemaView,
    input: Seq<char>,
    separator: Seq<char>,
    values: Seq<(Seq<char>, Seq<char>)>,
) -> Seq<FieldTextView> {
    let required = match message_for(s, last_msgtype(input_pairs(input, separator))) {
        Some(m) => required_names(s, m),
        None => Seq::empty(),
    };
    values.map_values(|p: (Seq<char>, Seq<char>)| marked(p, required))
}

/// `from_string` reports one entry per translated pair, in order, with the
/// pair's name and value; an entry is marked `"Y"` exactly when the header, or
/// the message type found (its own fields and their groups' members), marks a
/// reference of that name `"Y"`, and `"N"` otherwise; every entry is marked
/// `"N"` when the message type is unknown.
pub proof fn law_from_string_marks_required_fields(
    s: FixSchemaView,
    input: Seq<char>,
    separator: Seq<char>,
    values: Seq<(Seq<char>, Seq<char>)>,
)
    ensures
        message_entries(s, input, separator, values).len() == values.len(),
        forall|k: int|
            0 <= k < values.len() ==> {
                &&& (#[trigger] message_entries(s, input, separator, values)[k]).tag == values[k].0
                &&& message_entries(s, input, separator, values)[k].value == values[k].1
            },
        message_for(s, last_msgtype(input_pairs(input, separator))) matches Some(m) ==> forall|k: int|
            0 <= k < values.len() ==> ((#[trigger] message_entries(s, input, separator, values)[k]).required
                == "Y"@ <==> (exists|j: int|
                0 <= j < s.header.len() && s.header[j].required == "Y"@ && s.header[j].name
                    == values[k].0) || (exists|j: int|
                0 <= j < m.fields.len() && m.fields[j].required == "Y"@ && m.fields[j].name
                    == values[k].0)),
        message_for(s, last_msgtype(input_pairs(input, separator))) is None ==> forall|k: int|
            0 <= k < values.len() ==> (#[trigger] message_entries(s, input, separator, values)[k]).required
                == "N"@,
{
    reveal_strlit("Y");
    reveal_strlit("N");
    assert("Y"@ != "N"@) by {
        assert("Y"@[0] != "N"@[0]);
    }
    if let Some(m) = message_for(s, last_msgtype(input_pairs(input, separator))) {
        law_required_of_lists_required_names(s.header);
        law_required_of_lists_required_names(m.fields);
        let a = required_of(s.header);
        let b = required_of(m.fields);
        let req = required_names(s, m);
        assert(req == a + a + b);
        assert forall|n: Seq<char>| req.contains(n) <==> a.contains(n) || b.contains(n) by {
            if req.contains(n) {
                let i = choose|i: int| 0 <= i < req.len() && req[i] == n;
                if i < a.len() {
                    assert(a[i] == n);
                } else if i < 2 * a.len() {
                    assert(a[i - a.len()] == n);
                } else {
                    assert(b[i - 2 * a.len()] == n);
                }
            }
            if a.contains(n) {
                let i = choose|i: int| 0 <= i < a.len() && a[i] == n;
                assert(req[i] == n);
            }
            if b.contains(n) {
                let i = choose|i: int| 0 <= i < b.len() && b[i] == n;
                assert(req[2 * a.len() + i] == n);
            }
        }
    }
}

/// The text of the error for a separator that the input lacks.
pub open spec fn separator_missing_text() -> Seq<char> {
    "Separador inv\u{e1}lido"@
}

impl FixSchema {
    /// Reads `input`, whose pairs are separated by `separator`: the pieces
    /// before the first empty one become pairs (a piece without `=` becomes
    /// `("Error splitting ", piece)`), which `parse_tags` translates and
    /// checks. Each entry is marked `"Y"` when its name is among the names
    /// that `validate` requires for the message type, `"N"` otherwise; this
    /// marking is this library's own rule for the `required` text of an entry.
    /// Input on which `parse_tags` fails is left out: reading it is an error
    /// of the caller, who can ask `parse_tags` first.
    pub fn from_string(&self, input: &str, separator: &str) -> (r: Result<FixMsg, AppError>)
        requires
            contains(input@, separator@) ==> parse_outcome(self@, input_pairs(input@, separator@)) is Ok,
        ensures
            !contains(input@, separator@) ==> (r matches Err(e) && e@ == separator_missing_text()),
            contains(input@, separator@) ==> (r matches Ok(m) && m@ == message_entries(
                self@,
                input@,
                separator@,
                parse_outcome(self@, input_pairs(input@, separator@))->Ok_0,
            )),
    {
        let chars = chars_of(input);
        let sep = chars_of(separator);
        if !contains_seq(&chars, &sep) {
            return Err(AppError::new("Separador inv\u{e1}lido"));
        }
        let parts = split_pieces(&chars, &sep);
        let ghost dv = parts.deep_view();
        let mut pairs: Vec<(String, String)> = Vec::new();
        let mut i: usize = 0;
        while i < parts.len()
            invariant
                i <= parts.len(),
                dv == parts.deep_view(),
                pairs_view(pairs@) == dv.take(i as int).map_values(|p: Seq<char>| piece_pair(p)),
            decreases parts.len() - i,
        {
            let piece = chars_of(parts[i].as_str());
            let ghost before = pairs_view(pairs@);
            match split_equals(&piece) {
                Some(pair) => pairs.push(pair),
                None => pairs.push((String::from_str("Error splitting "), parts[i].clone())),
            }
            assert(pairs_view(pairs@) =~= before.push(piece_pair(dv[i as int])));
            i += 1;
            assert(pairs_view(pairs@) =~= dv.take(i as int).map_values(|p: Seq<char>| piece_pair(p)));
        }
        assert(dv.take(i as int) =~= dv);
        let values = match self.parse_tags(&pairs) {
            Ok(values) => values,
            Err(e) => return Err(e),
        };
        let msgtype = find_last_msgtype(&pairs);
        let required = match self.find_msgtype(msgtype.as_str()) {
            Some(msg) => required_list(self, &msg),
            None => Vec::new(),
        };
        let ghost req = required.deep_view();
        let ghost vv = pairs_view(values@);
        let mut fields: Vec<Field> = Vec::new();
        let mut k: usize = 0;
        while k < values.len()
            invariant
                k <= values.len(),
                req == required.deep_view(),
                vv == pairs_view(values@),
                fields@.map_values(|f: Field| f@) == vv.take(k as int).map_values(
                    |p: (Seq<char>, Seq<char>)| marked(p, req),
                ),
            decreases values.len() - k,
        {
            let flag = if has_text(&required, &values[k].0) {
                String::from_str("Y")
            } else {
                String::from_str("N")
            };
            let ghost before = fields@.map_values(|f: Field| f@);
            fields.push(Field { tag: values[k].0.clone(), value: values[k].1.clone(), required: flag });
            assert(fields@.map_values(|f: Field| f@) =~= before.push(marked(vv[k as int], req)));
            k += 1;
            assert(fields@.map_values(|f: Field| f@) =~= vv.take(k as int).map_values(
                |p: (Seq<char>, Seq<char>)| marked(p, req),
            ));
        }
        assert(vv.take(k as int) =~= vv);
        Ok(FixMsg { values: fields })
    }
}

} // verus!
