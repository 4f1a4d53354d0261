//! The text that the command line prints for the entries of the dictionary:
//! the same text that `{:#?}` gives with the dictionary's own `Debug` layout.
use vstd::prelude::*;

use crate::schema::{
    Field, FieldHeader, FieldHeaderView, FieldValues, FieldValuesView, FieldView, Message,
    MessageView,
};
use crate::text::{chars_of, push_char};

verus! {

/// `s` with four spaces put before its first character and before every
/// character that follows a line break (what `{:#?}` does to a list entry).
pub open spec fn indent(s: Seq<char>) -> Seq<char>
    decreases s.len(),
{
    if s.len() == 0 {
        Seq::empty()
    } else {
        indent(s.drop_last()) + (if s.len() == 1 || s[s.len() - 2] == '\n' {
            "    "@
        } else {
            Seq::empty()
        }) + seq![s.last()]
    }
}

/// The entries of a pretty-printed list, each followed by `,` and a line break
/// and indented on its own.
pub open spec fn pretty_entries(items: Seq<Seq<char>>) -> Seq<char>
    decreases items.len(),
{
    if items.len() == 0 {
        Seq::empty()
    } else {
        pretty_entries(items.drop_last()) + indent(items.last() + ",\n"@)
    }
}

/// A list as `{:#?}` prints it, given the text of each entry.
pub open spec fn pretty_list(items: Seq<Seq<char>>) -> Seq<char> {
    if items.len() == 0 {
        "[]"@
    } else {
        "[\n"@ + pretty_entries(items) + "]"@
    }
}

/// `value - description`.
pub open spec fn field_values_text(v: FieldValuesView) -> Seq<char> {
    v.value + " - "@ + v.description
}

/// `,\nname (required)` for each field of a group.
pub open spec fn group_text(g: Seq<FieldHeaderView>) -> Seq<char>
    decreases g.len(),
{
    if g.len() == 0 {
        Seq::empty()
    } else {
        group_text(g.drop_last()) + ",\n"@ + g.last().name + " ("@ + g.last().required + ")"@
    }
}

/// `name (required)`, then the fields of its group, one per line.
pub open spec fn field_header_text(h: FieldHeaderView) -> Seq<char> {
    h.name + " ("@ + h.required + ")"@ + group_text(h.group)
}

/// `msgtype - name` and the pretty-printed list of its fields.
pub open spec fn message_text(m: MessageView) -> Seq<char> {
    m.msgtype + " - "@ + m.name + " "@ + pretty_list(
        m.fields.map_values(|h: FieldHeaderView| field_header_text(h)),
    )
}

/// `number - name [type]`, then the pretty-printed list of its enumerated
/// values when it has any.
pub open spec fn field_text(f: FieldView) -> Seq<char> {
    f.number + " - "@ + f.name + " ["@ + f.field_type + "]"@ + (if f.values.len() == 0 {
        Seq::empty()
    } else {
        pretty_list(f.values.map_values(|v: FieldValuesView| field_values_text(v)))
    })
}

/// `s` indented as a list entry.
pub fn indent_text(s: &String) -> (r: String)
    ensures
        r@ == indent(s@),
{
    let v = chars_of(s.as_str());
    let mut r = String::new();
    let mut i: usize = 0;
    while i < v.len()
        invariant
            i <= v.len(),
            v@ == s@,
            r@ == indent(v@.take(i as int)),
        decreases v.len() - i,
    {
        assert(v@.take(i + 1).drop_last() =~= v@.take(i as int));
        if i == 0 || v[i - 1] == '\n' {
            r.append("    ");
        }
        push_char(&mut r, v[i]);
        i += 1;
        assert(r@ =~= indent(v@.take(i as int)));
    }
    assert(v@.take(i as int) =~= v@);
    r
}

/// Appends the entry `item` of a pretty-printed list to `out`.
fn append_entry(out: &mut String, item: &String)
    ensures
        final(out)@ == old(out)@ + indent(item@ + ",\n"@),
{
    let mut entry = item.clone();
    entry.append(",\n");
    let ind = indent_text(&entry);
    out.append(ind.as_str());
}

/// The pretty-printed list of the given entries.
pub fn pretty_list_text(items: &Vec<String>) -> (r: String)
    ensures
        r@ == pretty_list(items.deep_view()),
{
    if items.len() == 0 {
        return String::from_str("[]");
    }
    let ghost dv = items.deep_view();
    let mut r = String::from_str("[\n");
    let mut i: usize = 0;
    while i < items.len()
        invariant
            i <= items.len(),
            dv == items.deep_view(),
            r@ == "[\n"@ + pretty_entries(dv.take(i as int)),
        decreases items.len() - i,
    {
        assert(dv.take(i + 1).drop_last() =~= dv.take(i as int));
        append_entry(&mut r, &items[i]);
        i += 1;
        assert(r@ =~= "[\n"@ + pretty_entries(dv.take(i as int)));
    }
    assert(dv.take(i as int) =~= dv);
    r.append("]");
    r
}

impl FieldValues {
    /// The text of this enumerated value: `value - description`.
    pub fn fmt(&self) -> (r: String)
        ensures
            r@ == field_values_text(self@),
    {
        let mut r = self.value.clone();
        r.append(" - ");
        r.append(self.description.as_str());
        r
    }
}

impl FieldHeader {
    /// The text of this field reference: `name (required)`, then the fields of
    /// its group, one per line.
    pub fn fmt(&self) -> (r: String)
        ensures
            r@ == field_header_text(self@),
    {
        let mut r = self.name.clone();
        r.append(" (");
        r.append(self.required.as_str());
        r.append(")");
        let ghost g = self@.group;
        let ghost start = r@;
        let mut i: usize = 0;
        while i < self.group.len()
            invariant
                i <= self.group.len(),
                g == self@.group,
                g.len() == self.group.len(),
                start == self.name@ + " ("@ + self.required@ + ")"@,
                r@ == start + group_text(g.take(i as int)),
            decreases self.group.len() - i,
        {
            assert(g.take(i + 1).drop_last() =~= g.take(i as int));
            assert(g[i as int] == self.group[i as int]@);
            r.append(",\n");
            r.append(self.group[i].name.as_str());
            r.append(" (");
            r.append(self.group[i].required.as_str());
            r.append(")");
            i += 1;
            assert(r@ =~= start + group_text(g.take(i as int)));
        }
        assert(g.take(i as int) =~= g);
        r
    }
}

impl Message {
    /// The text of this message: `msgtype - name` and the pretty-printed list
    /// of its fields.
    pub fn fmt(&self) -> (r: String)
        ensures
            r@ == message_text(self@),
    {
        let mut items: Vec<String> = Vec::new();
        let mut i: usize = 0;
        while i < self.fields.len()
            invariant
                i <= self.fields.len(),
                items.len() == i,
                forall|j: int|
                    0 <= j < i ==> (#[trigger] items@[j])@ == field_header_text(
                        self.fields@[j]@,
                    ),
            decreases self.fields.len() - i,
        {
            items.push(self.fields[i].fmt());
            i += 1;
        }
        assert(items.deep_view() =~= self@.fields.map_values(
            |h: FieldHeaderView| field_header_text(h),
        ));
        let list = pretty_list_text(&items);
        let mut r = self.msgtype.clone();
        r.append(" - ");
        r.append(self.name.as_str());
        r.append(" ");
        r.append(list.as_str());
        r
    }
}

impl Field {
    /// The text of this field definition: `number - name [type]`, then the
    /// pretty-printed list of its enumerated values when it has any.
    pub fn fmt(&self) -> (r: String)
        ensures
            r@ == field_text(self@),
    {
        let mut r = self.number.clone();
        r.append(" - ");
        r.append(self.name.as_str());
        r.append(" [");
        r.append(self.field_type.as_str());
        r.append("]");
        if self.values.len() != 0 {
            let mut items: Vec<String> = Vec::new();
            let mut i: usize = 0;
            while i < self.values.len()
                invariant
                    i <= self.values.len(),
                    items.len() == i,
                    forall|j: int|
                        0 <= j < i ==> (#[trigger] items@[j])@ == field_values_text(
                            self.values@[j]@,
                        ),
                decreases self.values.len() - i,
            {
                items.push(self.values[i].fmt());
                i += 1;
            }
            assert(items.deep_view() =~= self@.values.map_values(
                |v: FieldValuesView| field_values_text(v),
            ));
            let list = pretty_list_text(&items);
            r.append(list.as_str());
        }
        r
    }
}

} // verus!
