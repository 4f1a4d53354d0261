//! A FIX message as the converter reports it.
use vstd::prelude::*;
use vstd::std_specs::convert::FromSpecImpl;

verus! {

/// A converted message: one entry per `tag=value` pair of the input, in order.
pub struct FixMessage {
    pub values: Vec<FieldConverted>,
}

/// One converted pair: the tag as written, the field's name in the schema
/// (empty when the schema does not know the tag), the value or the description
/// of the enumerated value, and whether the message type requires the field.
pub struct FieldConverted {
    pub tag: String,
    pub title: String,
    pub value: String,
    pub required: bool,
}

/// What a `FieldConverted` holds, as plain text.
pub struct FieldConvertedView {
    pub tag: Seq<char>,
    pub title: Seq<char>,
    pub value: Seq<char>,
    pub required: bool,
}

impl View for FieldConverted {
    type V = FieldConvertedView;

    open spec fn view(&self) -> FieldConvertedView {
        FieldConvertedView {
            tag: self.tag@,
            title: self.title@,
            value: self.value@,
            required: self.required,
        }
    }
}

impl View for FixMessage {
    type V = Seq<FieldConvertedView>;

    open spec fn view(&self) -> Seq<FieldConvertedView> {
        self.values@.map_values(|f: FieldConverted| f@)
    }
}

impl From<(String, String, String, bool)> for FieldConverted {
    fn from(value: (String, String, String, bool)) -> (r: Self) {
        FieldConverted { tag: value.0, title: value.1, value: value.2, required: value.3 }
    }
}

impl FromSpecImpl<(String, String, String, bool)> for FieldConverted {
    open spec fn obeys_from_spec() -> bool {
        true
    }

    open spec fn from_spec(value: (String, String, String, bool)) -> Self {
        FieldConverted { tag: value.0, title: value.1, value: value.2, required: value.3 }
    }
}

/// The shape of a message: its name and its fields.
pub struct MessageSchema {
    pub name: String,
    pub fields: Vec<FieldSchema>,
}

/// A field of a message shape: its name and whether it is required.
pub struct FieldSchema {
    pub name: String,
    pub required: String,
}

} // verus!
