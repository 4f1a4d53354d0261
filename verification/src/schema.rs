//! The FIX dictionary: header, trailer, messages, components and fields, as the
//! XML schema describes them, with the views the contracts speak of.
use vstd::prelude::*;

use crate::models::error::AppError;
use crate::text::{debug_escape, debug_escaped, first_where, lemma_first_where_found, lemma_first_where_scan};

verus! {

broadcast use vstd::std_specs::vec::axiom_vec_index_decreases;

/// The whole dictionary.
pub struct FixSchema {
    pub header: Header,
    pub trailer: Trailer,
    pub messages: Messages,
    pub components: Components,
    pub fields: Fields,
}

/// The fields of the standard header.
pub struct Header {
    pub values: Vec<FieldHeader>,
}

/// The fields of the standard trailer.
pub struct Trailer {
    pub values: Vec<FieldHeader>,
}

/// The message types of the dictionary.
pub struct Messages {
    pub values: Vec<Message>,
}

/// The components of the dictionary.
pub struct Components {
    pub values: Vec<Component>,
}

/// The field definitions of the dictionary.
pub struct Fields {
    pub values: Vec<Field>,
}

/// A reference to a field inside a header, trailer, message or component, with
/// whether it is required (`"Y"`) and, for a group, the fields of the group.
pub struct FieldHeader {
    pub name: String,
    pub required: String,
    pub group: Vec<FieldHeader>,
}

/// A message type: its name, its `MsgType` code, its category and its fields.
pub struct Message {
    pub name: String,
    pub msgtype: String,
    pub msgcat: String,
    pub fields: Vec<FieldHeader>,
}

/// A component: a named list of fields.
pub struct Component {
    pub name: String,
    pub fields: Vec<FieldHeader>,
}

/// A field definition: its tag number, its name, its type and the enumerated
/// values it may take.
pub struct Field {
    pub number: String,
    pub name: String,
    pub field_type: String,
    pub values: Vec<FieldValues>,
}

/// An enumerated value of a field and its description.
pub struct FieldValues {
    pub value: String,
    pub description: String,
}

/// A `FieldHeader` as plain text, groups included.
pub struct FieldHeaderView {
    pub name: Seq<char>,
    pub required: Seq<char>,
    pub group: Seq<FieldHeaderView>,
}

/// A `Message` as plain text.
pub struct MessageView {
    pub name: Seq<char>,
    pub msgtype: Seq<char>,
    pub msgcat: Seq<char>,
    pub fields: Seq<FieldHeaderView>,
}

/// A `Component` as plain text.
pub struct ComponentView {
    pub name: Seq<char>,
    pub fields: Seq<FieldHeaderView>,
}

/// A `Field` as plain text.
pub struct FieldView {
    pub number: Seq<char>,
    pub name: Seq<char>,
    pub field_type: Seq<char>,
    pub values: Seq<FieldValuesView>,
}

/// A `FieldValues` as plain text.
pub struct FieldValuesView {
    pub value: Seq<char>,
    pub description: Seq<char>,
}

/// The whole dictionary as plain text.
pub struct FixSchemaView {
    pub header: Seq<FieldHeaderView>,
    pub trailer: Seq<FieldHeaderView>,
    pub messages: Seq<MessageView>,
    pub components: Seq<ComponentView>,
    pub fields: Seq<FieldView>,
}

/// The view of a `FieldHeader`, its groups at every depth included.
pub open spec fn header_view(f: FieldHeader) -> FieldHeaderView
    decreases f,
{
    FieldHeaderView {
        name: f.name@,
        required: f.required@,
        group: Seq::new(
            f.group@.len(),
            |i: int|
                if 0 <= i < f.group.len() {
                    header_view(f.group[i])
                } else {
                    arbitrary()
                },
        ),
    }
}

/// The views of a list of `FieldHeader`s.
pub open spec fn headers_view(s: Seq<FieldHeader>) -> Seq<FieldHeaderView> {
    s.map_values(|f: FieldHeader| header_view(f))
}

impl View for FieldHeader {
    type V = FieldHeaderView;

    open spec fn view(&self) -> FieldHeaderView {
        header_view(*self)
    }
}

impl View for Message {
    type V = MessageView;

    open spec fn view(&self) -> MessageView {
        MessageView {
            name: self.name@,
            msgtype: self.msgtype@,
            msgcat: self.msgcat@,
            fields: headers_view(self.fields@),
        }
    }
}

impl View for Component {
    type V = ComponentView;

    open spec fn view(&self) -> ComponentView {
        ComponentView { name: self.name@, fields: headers_view(self.fields@) }
    }
}

impl View for FieldValues {
    type V = FieldValuesView;

    open spec fn view(&self) -> FieldValuesView {
        FieldValuesView { value: self.value@, description: self.description@ }
    }
}

impl View for Field {
    type V = FieldView;

    open spec fn view(&self) -> FieldView {
        FieldView {
            number: self.number@,
            name: self.name@,
            field_type: self.field_type@,
            values: self.values@.map_values(|v: FieldValues| v@),
        }
    }
}

impl View for FixSchema {
    type V = FixSchemaView;

    open spec fn view(&self) -> FixSchemaView {
        FixSchemaView {
            header: headers_view(self.header.values@),
            trailer: headers_view(self.trailer.values@),
            messages: self.messages.values@.map_values(|m: Message| m@),
            components: self.components.values@.map_values(|c: Component| c@),
            fields: self.fields.values@.map_values(|f: Field| f@),
        }
    }
}

impl FieldHeader {
    /// A copy of this field reference, groups included.
    pub fn duplicate(&self) -> (r: FieldHeader)
        ensures
            r@ == self@,
        decreases self,
    {
        let mut group: Vec<FieldHeader> = Vec::new();
        let mut i: usize = 0;
        while i < self.group.len()
            invariant
                i <= self.group.len(),
                group.len() == i,
                forall|j: int| 0 <= j < i ==> (#[trigger] group[j])@ == self.group[j]@,
            decreases self.group.len() - i,
        {
            let g = self.group[i].duplicate();
            group.push(g);
            i += 1;
        }
        let r = FieldHeader { name: self.name.clone(), required: self.required.clone(), group };
        assert(r@.group =~= self@.group);
        r
    }
}

/// Copies of a list of field references.
pub fn duplicate_headers(s: &Vec<FieldHeader>) -> (r: Vec<FieldHeader>)
    ensures
        headers_view(r@) == headers_view(s@),
{
    let mut r: Vec<FieldHeader> = Vec::new();
    let mut i: usize = 0;
    while i < s.len()
        invariant
            i <= s.len(),
            r.len() == i,
            forall|j: int| 0 <= j < i ==> (#[trigger] r[j])@ == s[j]@,
        decreases s.len() - i,
    {
        r.push(s[i].duplicate());
        i += 1;
    }
    assert(headers_view(r@) =~= headers_view(s@));
    r
}

/// The pairs of a list of text pairs, as plain text.
pub open spec fn pairs_view(v: Seq<(String, String)>) -> Seq<(Seq<char>, Seq<char>)> {
    v.map_values(|p: (String, String)| (p.0@, p.1@))
}

/// The field definition has tag number `tag`.
pub open spec fn number_is(tag: Seq<char>) -> spec_fn(FieldView) -> bool {
    |f: FieldView| f.number == tag
}

/// The enumerated value is `value`.
pub open spec fn enum_is(value: Seq<char>) -> spec_fn(FieldValuesView) -> bool {
    |e: FieldValuesView| e.value == value
}

/// The message has `MsgType` code `msgtype`.
pub open spec fn msgtype_is(msgtype: Seq<char>) -> spec_fn(MessageView) -> bool {
    |m: MessageView| m.msgtype == msgtype
}

/// The field reference is named `name`.
pub open spec fn named(name: Seq<char>) -> spec_fn(FieldHeaderView) -> bool {
    |f: FieldHeaderView| f.name == name
}

/// The description of `value` among the enumerated values of `f`, or `value`
/// itself when `f` does not enumerate it.
pub open spec fn describe(f: FieldView, value: Seq<char>) -> Seq<char> {
    match first_where(f.values, enum_is(value)) {
        Some(k) => f.values[k].description,
        None => value,
    }
}

/// A pair as `FixSchema::parse_tags` reports it: the field's name and the
/// described value when the dictionary defines the tag, the pair as given
/// otherwise.
pub open spec fn translate(s: FixSchemaView, tag: Seq<char>, value: Seq<char>) -> (
    Seq<char>,
    Seq<char>,
) {
    match first_where(s.fields, number_is(tag)) {
        Some(i) => (s.fields[i].name, describe(s.fields[i], value)),
        None => (tag, value),
    }
}

/// Every pair translated, in order.
pub open spec fn translate_all(s: FixSchemaView, pairs: Seq<(Seq<char>, Seq<char>)>) -> Seq<
    (Seq<char>, Seq<char>),
> {
    pairs.map_values(|p: (Seq<char>, Seq<char>)| translate(s, p.0, p.1))
}

/// The value of the last pair with tag `35` (`MsgType`), or empty text.
pub open spec fn last_msgtype(pairs: Seq<(Seq<char>, Seq<char>)>) -> Seq<char>
    decreases pairs.len(),
{
    if pairs.len() == 0 {
        Seq::empty()
    } else if pairs.last().0 == "35"@ {
        pairs.last().1
    } else {
        last_msgtype(pairs.drop_last())
    }
}

/// The fields of every group of `fs`, one level down, in order.
pub open spec fn group_entries(fs: Seq<FieldHeaderView>) -> Seq<FieldHeaderView>
    decreases fs.len(),
{
    if fs.len() == 0 {
        Seq::empty()
    } else {
        group_entries(fs.drop_last()) + fs.last().group
    }
}

/// A message with the fields of its groups appended to its own fields.
pub open spec fn expanded(m: MessageView) -> MessageView {
    MessageView { fields: m.fields + group_entries(m.fields), ..m }
}

/// The message found for `msgtype`, expanded, if the dictionary has one.
pub open spec fn message_for(s: FixSchemaView, msgtype: Seq<char>) -> Option<MessageView> {
    match first_where(s.messages, msgtype_is(msgtype)) {
        Some(i) => Some(expanded(s.messages[i])),
        None => None,
    }
}

/// The names of the field references marked required (`"Y"`), in order.
pub open spec fn required_of(hs: Seq<FieldHeaderView>) -> Seq<Seq<char>>
    decreases hs.len(),
{
    if hs.len() == 0 {
        Seq::empty()
    } else if hs.last().required == "Y"@ {
        required_of(hs.drop_last()).push(hs.last().name)
    } else {
        required_of(hs.drop_last())
    }
}

/// The names that `FixSchema::validate` requires: the required header fields,
/// listed twice (once standing for the trailer, whose list it takes from the
/// header), then the required fields of the message.
pub open spec fn required_names(s: FixSchemaView, m: MessageView) -> Seq<Seq<char>> {
    required_of(s.header) + required_of(s.header) + required_of(m.fields)
}

/// The names of `req` that `present` lacks, in order.
pub open spec fn missing_names(req: Seq<Seq<char>>, present: Seq<Seq<char>>) -> Seq<Seq<char>>
    decreases req.len(),
{
    if req.len() == 0 {
        Seq::empty()
    } else if present.contains(req.last()) {
        missing_names(req.drop_last(), present)
    } else {
        missing_names(req.drop_last(), present).push(req.last())
    }
}

/// `s` with every repetition dropped, first occurrences kept in order.
pub open spec fn dedup(s: Seq<Seq<char>>) -> Seq<Seq<char>>
    decreases s.len(),
{
    if s.len() == 0 {
        Seq::empty()
    } else if dedup(s.drop_last()).contains(s.last()) {
        dedup(s.drop_last())
    } else {
        dedup(s.drop_last()).push(s.last())
    }
}

/// `name` as the `Debug` output of a `str` writes it: in double quotes, with
/// its characters escaped.
pub open spec fn quote(name: Seq<char>) -> Seq<char> {
    "\""@ + debug_escaped(name) + "\""@
}

/// The quoted names, separated by `", "`.
pub open spec fn quoted_list(ms: Seq<Seq<char>>) -> Seq<char>
    decreases ms.len(),
{
    if ms.len() == 0 {
        Seq::empty()
    } else if ms.len() == 1 {
        quote(ms[0])
    } else {
        quoted_list(ms.drop_last()) + ", "@ + quote(ms.last())
    }
}

/// The text of the error for missing fields.
pub open spec fn missing_text(ms: Seq<Seq<char>>) -> Seq<char> {
    "Missing fields {"@ + quoted_list(ms) + "}"@
}

/// The first names of the pairs.
pub open spec fn names_of(values: Seq<(Seq<char>, Seq<char>)>) -> Seq<Seq<char>> {
    values.map_values(|p: (Seq<char>, Seq<char>)| p.0)
}

/// The required names that no pair of `values` carries, each once.
pub open spec fn missing_fields(
    s: FixSchemaView,
    values: Seq<(Seq<char>, Seq<char>)>,
    m: MessageView,
) -> Seq<Seq<char>> {
    dedup(missing_names(required_names(s, m), names_of(values)))
}

/// The text of the error for a message type that the dictionary lacks.
pub open spec fn unsupported_text() -> Seq<char> {
    "Tipo de mensagem n\u{e3}o suportado"@
}

/// What `FixSchema::parse_tags` gives for `pairs`: the translated pairs, or the
/// text of its error.
pub open spec fn parse_outcome(s: FixSchemaView, pairs: Seq<(Seq<char>, Seq<char>)>) -> Result<
    Seq<(Seq<char>, Seq<char>)>,
    Seq<char>,
> {
    let values = translate_all(s, pairs);
    match message_for(s, last_msgtype(pairs)) {
        None => Err(unsupported_text()),
        Some(m) => if missing_fields(s, values, m).len() == 0 {
            Ok(values)
        } else {
            Err(missing_text(missing_fields(s, values, m)))
        },
    }
}

/// The first enumerated value of `field` equal to `value`.
pub fn find_enum<'a>(field: &'a Field, value: &String) -> (r: Option<&'a FieldValues>)
    ensures
        match first_where(field@.values, enum_is(value@)) {
            Some(k) => r matches Some(e) && e == field.values@[k],
            None => r is None,
        },
        r matches Some(e) ==> e.value@ == value@,
        r is None <==> forall|j: int|
            0 <= j < field.values.len() ==> (#[trigger] field.values@[j]).value@ != value@,
{
    proof {
        law_enum_lookup_is_by_whole_value(field@, value@);
        assert forall|j: int| 0 <= j < field.values.len() implies (#[trigger] field.values@[j])@
            == field@.values[j] by {}
    }
    let mut k: usize = 0;
    while k < field.values.len()
        invariant
            k <= field.values.len(),
            forall|j: int| 0 <= j < k ==> !enum_is(value@)(#[trigger] field@.values[j]),
        decreases field.values.len() - k,
    {
        if field.values[k].value == *value {
            proof {
                lemma_first_where_scan(field@.values, enum_is(value@), k as int);
            }
            return Some(&field.values[k]);
        }
        k += 1;
    }
    proof {
        lemma_first_where_scan(field@.values, enum_is(value@), k as int);
    }
    None
}

/// The description of `value` in `field`, or `value` itself.
pub fn describe_value(field: &Field, value: &String) -> (r: String)
    ensures
        r@ == describe(field@, value@),
{
    let found = find_enum(field, value);
    proof {
        lemma_first_where_found(field@.values, enum_is(value@));
        if let Some(k) = first_where(field@.values, enum_is(value@)) {
            assert(field@.values[k] == field.values@[k]@);
        }
    }
    match found {
        Some(e) => e.description.clone(),
        None => value.clone(),
    }
}

/// The first field reference of `hs` named `name`.
pub fn find_named<'a>(hs: &'a Vec<FieldHeader>, name: &String) -> (r: Option<&'a FieldHeader>)
    ensures
        match first_where(headers_view(hs@), named(name@)) {
            Some(i) => r matches Some(h) && h == hs@[i],
            None => r is None,
        },
        r matches Some(h) ==> h.name@ == name@,
        r is None <==> forall|j: int| 0 <= j < hs.len() ==> (#[trigger] hs@[j]).name@ != name@,
{
    proof {
        law_named_lookup_is_by_whole_name(headers_view(hs@), name@);
        assert forall|j: int| 0 <= j < hs.len() implies (#[trigger] hs@[j])@ == headers_view(hs@)[j] by {}
    }
    let ghost hv = headers_view(hs@);
    let mut i: usize = 0;
    while i < hs.len()
        invariant
            i <= hs.len(),
            hv == headers_view(hs@),
            forall|j: int| 0 <= j < i ==> !named(name@)(#[trigger] hv[j]),
        decreases hs.len() - i,
    {
        if hs[i].name == *name {
            proof {
                lemma_first_where_scan(hv, named(name@), i as int);
            }
            return Some(&hs[i]);
        }
        i += 1;
    }
    proof {
        lemma_first_where_scan(hv, named(name@), i as int);
    }
    None
}

/// A copy of `m` with the fields of its groups appended to its own fields.
pub fn expand_message(m: &Message) -> (r: Message)
    ensures
        r@ == expanded(m@),
        r.fields.len() == m.fields.len() + members_before(m@.fields, m.fields.len() as int),
        forall|i: int| 0 <= i < m.fields.len() ==> r@.fields[i] == #[trigger] m@.fields[i],
        forall|i: int, k: int|
            0 <= i < m.fields.len() && 0 <= k < m@.fields[i].group.len() ==> r@.fields[m.fields.len()
                + members_before(m@.fields, i) + k] == #[trigger] m@.fields[i].group[k],
{
    proof {
        law_expanded_message_lists_every_group_member(m@);
    }
    let fields = duplicate_headers(&m.fields);
    let ghost hv = headers_view(m.fields@);
    let mut grouped: Vec<FieldHeader> = Vec::new();
    let mut i: usize = 0;
    while i < m.fields.len()
        invariant
            i <= m.fields.len(),
            hv == headers_view(m.fields@),
            headers_view(grouped@) == group_entries(hv.take(i as int)),
        decreases m.fields.len() - i,
    {
        let f = &m.fields[i];
        let ghost before = headers_view(grouped@);
        let mut j: usize = 0;
        while j < f.group.len()
            invariant
                j <= f.group.len(),
                headers_view(grouped@) == before + headers_view(f.group@).take(j as int),
            decreases f.group.len() - j,
        {
            let ghost old_grouped = grouped@;
            grouped.push(f.group[j].duplicate());
            assert(headers_view(grouped@) =~= headers_view(old_grouped).push(f.group@[j as int]@));
            j += 1;
            assert(headers_view(grouped@) =~= before + headers_view(f.group@).take(j as int));
        }
        assert(hv[i as int].group =~= headers_view(f.group@));
        assert(hv.take(i + 1).drop_last() =~= hv.take(i as int));
        assert(headers_view(grouped@) =~= before + hv[i as int].group);
        i += 1;
    }
    assert(hv.take(i as int) =~= hv);
    let mut all = fields;
    let ghost left = all@;
    all.append(&mut grouped);
    assert(headers_view(all@) =~= headers_view(left) + group_entries(hv));
    Message {
        name: m.name.clone(),
        msgtype: m.msgtype.clone(),
        msgcat: m.msgcat.clone(),
        fields: all,
    }
}

/// Appends to `r` the names of the required references of `hs`.
pub(crate) fn push_required(hs: &Vec<FieldHeader>, r: &mut Vec<String>)
    ensures
        final(r).deep_view() == old(r).deep_view() + required_of(headers_view(hs@)),
{
    let yes = String::from_str("Y");
    let ghost hv = headers_view(hs@);
    let ghost start = r.deep_view();
    let mut i: usize = 0;
    while i < hs.len()
        invariant
            i <= hs.len(),
            hv == headers_view(hs@),
            yes@ == "Y"@,
            r.deep_view() == start + required_of(hv.take(i as int)),
        decreases hs.len() - i,
    {
        assert(hv.take(i + 1).drop_last() =~= hv.take(i as int));
        if hs[i].required == yes {
            let ghost before = r.deep_view();
            r.push(hs[i].name.clone());
            assert(r.deep_view() =~= before.push(hs@[i as int].name@));
            assert(r.deep_view() =~= start + required_of(hv.take(i + 1)));
        }
        i += 1;
    }
    assert(hv.take(i as int) =~= hv);
}

/// The value of the last pair with tag `35`, or empty text.
pub(crate) fn find_last_msgtype(pairs: &Vec<(String, String)>) -> (r: String)
    ensures
        r@ == last_msgtype(pairs_view(pairs@)),
{
    let thirty_five = String::from_str("35");
    let ghost pv = pairs_view(pairs@);
    let mut msgtype = String::new();
    let mut i: usize = 0;
    while i < pairs.len()
        invariant
            i <= pairs.len(),
            pv == pairs_view(pairs@),
            thirty_five@ == "35"@,
            msgtype@ == last_msgtype(pv.take(i as int)),
        decreases pairs.len() - i,
    {
        assert(pv.take(i + 1).drop_last() =~= pv.take(i as int));
        assert(pv.take(i + 1).last() == pv[i as int]);
        if pairs[i].0 == thirty_five {
            msgtype = pairs[i].1.clone();
        }
        i += 1;
    }
    assert(pv.take(i as int) =~= pv);
    msgtype
}

/// The names that `FixSchema::validate` requires for `msg`.
pub(crate) fn required_list(schema: &FixSchema, msg: &Message) -> (r: Vec<String>)
    ensures
        r.deep_view() == required_names(schema@, msg@),
{
    let mut required: Vec<String> = Vec::new();
    push_required(&schema.header.values, &mut required);
    push_required(&schema.header.values, &mut required);
    push_required(&msg.fields, &mut required);
    assert(required.deep_view() =~= required_names(schema@, msg@));
    required
}

/// Whether `v` holds a text equal to `x`.
pub(crate) fn has_text(v: &Vec<String>, x: &String) -> (r: bool)
    ensures
        r == v.deep_view().contains(x@),
{
    let mut i: usize = 0;
    while i < v.len()
        invariant
            i <= v.len(),
            forall|j: int| 0 <= j < i ==> v.deep_view()[j] != x@,
        decreases v.len() - i,
    {
        if v[i] == *x {
            assert(v.deep_view()[i as int] == x@);
            return true;
        }
        i += 1;
    }
    false
}

/// Whether some pair of `values` has `name` as its first part.
fn has_name(values: &Vec<(String, String)>, name: &String) -> (r: bool)
    ensures
        r == names_of(pairs_view(values@)).contains(name@),
{
    let ghost names = names_of(pairs_view(values@));
    let mut i: usize = 0;
    while i < values.len()
        invariant
            i <= values.len(),
            names == names_of(pairs_view(values@)),
            forall|j: int| 0 <= j < i ==> names[j] != name@,
        decreases values.len() - i,
    {
        if values[i].0 == *name {
            assert(names[i as int] == name@);
            return true;
        }
        i += 1;
    }
    false
}

/// The text of the error for the missing names `ms`.
fn missing_message(ms: &Vec<String>) -> (r: String)
    ensures
        r@ == missing_text(ms.deep_view()),
{
    let ghost dv = ms.deep_view();
    let mut r = String::from_str("Missing fields {");
    let mut i: usize = 0;
    while i < ms.len()
        invariant
            i <= ms.len(),
            dv == ms.deep_view(),
            r@ == "Missing fields {"@ + quoted_list(dv.take(i as int)),
        decreases ms.len() - i,
    {
        assert(dv.take(i + 1).drop_last() =~= dv.take(i as int));
        let ghost before = r@;
        if i > 0 {
            r.append(", ");
        }
        let escaped = debug_escape(&ms[i]);
        r.append("\"");
        r.append(escaped.as_str());
        r.append("\"");
        if i == 0 {
            assert(r@ =~= "Missing fields {"@ + quoted_list(dv.take(i + 1)));
        } else {
            assert(r@ =~= "Missing fields {"@ + quoted_list(dv.take(i + 1)));
        }
        i += 1;
    }
    assert(dv.take(i as int) =~= dv);
    r.append("}");
    r
}

impl FixSchema {
    /// The first field definition whose tag number is `tag`.
    pub fn find_field_by_tag(&self, tag: &str) -> (r: Option<&Field>)
        ensures
            match first_where(self@.fields, number_is(tag@)) {
                Some(i) => r matches Some(f) && f == self.fields.values@[i],
                None => r is None,
            },
            r matches Some(f) ==> f.number@ == tag@,
            r is None <==> forall|j: int|
                0 <= j < self.fields.values.len() ==> (#[trigger] self.fields.values@[j]).number@
                    != tag@,
    {
        proof {
            law_field_lookup_is_by_whole_tag(self@.fields, tag@);
            assert forall|j: int| 0 <= j < self.fields.values.len() implies (#[trigger] self.fields.values@[j])@
                == self@.fields[j] by {}
        }
        let target = String::from_str(tag);
        let mut i: usize = 0;
        while i < self.fields.values.len()
            invariant
                i <= self.fields.values.len(),
                target@ == tag@,
                forall|j: int| 0 <= j < i ==> !number_is(tag@)(#[trigger] self@.fields[j]),
            decreases self.fields.values.len() - i,
        {
            if self.fields.values[i].number == target {
                proof {
                    lemma_first_where_scan(self@.fields, number_is(tag@), i as int);
                }
                return Some(&self.fields.values[i]);
            }
            i += 1;
        }
        proof {
            lemma_first_where_scan(self@.fields, number_is(tag@), i as int);
        }
        None
    }

    /// The first message whose `MsgType` code is `msgtype`, with the fields of
    /// its groups appended to its own fields.
    pub fn find_msgtype(&self, msgtype: &str) -> (r: Option<Message>)
        ensures
            match message_for(self@, msgtype@) {
                Some(m) => r matches Some(found) && found@ == m,
                None => r is None,
            },
            r matches Some(m) ==> m.msgtype@ == msgtype@,
            r is None <==> forall|j: int|
                0 <= j < self.messages.values.len() ==> (#[trigger] self.messages.values@[j]).msgtype@
                    != msgtype@,
    {
        proof {
            law_message_lookup_is_by_whole_code(self@, msgtype@);
            assert forall|j: int| 0 <= j < self.messages.values.len() implies (#[trigger] self.messages.values@[j])@
                == self@.messages[j] by {}
        }
        let target = String::from_str(msgtype);
        let mut i: usize = 0;
        while i < self.messages.values.len()
            invariant
                i <= self.messages.values.len(),
                target@ == msgtype@,
                forall|j: int|
                    0 <= j < i ==> !msgtype_is(msgtype@)(#[trigger] self@.messages[j]),
            decreases self.messages.values.len() - i,
        {
            if self.messages.values[i].msgtype == target {
                proof {
                    lemma_first_where_scan(self@.messages, msgtype_is(msgtype@), i as int);
                }
                return Some(expand_message(&self.messages.values[i]));
            }
            i += 1;
        }
        proof {
            lemma_first_where_scan(self@.messages, msgtype_is(msgtype@), i as int);
        }
        None
    }

    /// Checks that every field that the header, the trailer and the message
    /// require is among the names of `values`; the error names each missing
    /// field once.
    pub fn validate(&self, values: &Vec<(String, String)>, msg: &Message) -> (r: Result<
        (),
        AppError,
    >)
        ensures
            missing_fields(self@, pairs_view(values@), msg@).len() == 0 ==> r is Ok,
            missing_fields(self@, pairs_view(values@), msg@).len() > 0 ==> (r matches Err(e)
                && e@ == missing_text(missing_fields(self@, pairs_view(values@), msg@))),
    {
        let required = required_list(self, msg);
        let ghost req = required.deep_view();
        let ghost present = names_of(pairs_view(values@));
        let mut missing: Vec<String> = Vec::new();
        let mut k: usize = 0;
        while k < required.len()
            invariant
                k <= required.len(),
                req == required.deep_view(),
                present == names_of(pairs_view(values@)),
                missing.deep_view() == dedup(missing_names(req.take(k as int), present)),
            decreases required.len() - k,
        {
            assert(req.take(k + 1).drop_last() =~= req.take(k as int));
            assert(req.take(k + 1).last() == req[k as int]);
            assert(req[k as int] == required[k as int]@);
            let ghost prev = missing_names(req.take(k as int), present);
            if has_name(values, &required[k]) {
                assert(missing_names(req.take(k + 1), present) == prev);
            } else {
                assert(missing_names(req.take(k + 1), present) == prev.push(req[k as int]));
                assert(prev.push(req[k as int]).drop_last() =~= prev);
                if !has_text(&missing, &required[k]) {
                    let ghost before = missing.deep_view();
                    missing.push(required[k].clone());
                    assert(missing.deep_view() =~= before.push(req[k as int]));
                }
            }
            k += 1;
        }
        assert(req.take(k as int) =~= req);
        if missing.len() != 0 {
            return Err(AppError(missing_message(&missing)));
        }
        Ok(())
    }

    /// Translates each `(tag, value)` pair: a tag that the dictionary defines
    /// becomes the field's name and an enumerated value its description. The
    /// value of the last tag `35` names the message type; it must be in the
    /// dictionary, and the translated pairs must carry every required field.
    pub fn parse_tags(&self, tag_values: &Vec<(String, String)>) -> (r: Result<
        Vec<(String, String)>,
        AppError,
    >)
        ensures
            match parse_outcome(self@, pairs_view(tag_values@)) {
                Ok(v) => r matches Ok(values) && pairs_view(values@) == v,
                Err(t) => r matches Err(e) && e@ == t,
            },
    {
        let thirty_five = String::from_str("35");
        let ghost pv = pairs_view(tag_values@);
        let mut values: Vec<(String, String)> = Vec::new();
        let mut msgtype = String::new();
        let mut i: usize = 0;
        while i < tag_values.len()
            invariant
                i <= tag_values.len(),
                pv == pairs_view(tag_values@),
                thirty_five@ == "35"@,
                pairs_view(values@) == translate_all(self@, pv.take(i as int)),
                msgtype@ == last_msgtype(pv.take(i as int)),
            decreases tag_values.len() - i,
        {
            let pair = &tag_values[i];
            assert(pv.take(i + 1).drop_last() =~= pv.take(i as int));
            assert(pv.take(i + 1).last() == pv[i as int]);
            if pair.0 == thirty_five {
                msgtype = pair.1.clone();
            }
            let ghost before = pairs_view(values@);
            assert(pv[i as int] == (pair.0@, pair.1@));
            assert(translate_all(self@, pv.take(i + 1)) =~= translate_all(self@, pv.take(i as int)).push(
                translate(self@, pair.0@, pair.1@),
            ));
            proof {
                lemma_first_where_found(self@.fields, number_is(pair.0@));
                if let Some(idx) = first_where(self@.fields, number_is(pair.0@)) {
                    assert(self@.fields[idx] == self.fields.values@[idx]@);
                }
            }
            match self.find_field_by_tag(pair.0.as_str()) {
                None => {
                    values.push((pair.0.clone(), pair.1.clone()));
                },
                Some(field) => {
                    let d = describe_value(field, &pair.1);
                    values.push((field.name.clone(), d));
                },
            }
            assert(pairs_view(values@) =~= before.push(translate(self@, pair.0@, pair.1@)));
            i += 1;
        }
        assert(pv.take(i as int) =~= pv);
        match self.find_msgtype(msgtype.as_str()) {
            None => Err(AppError::new("Tipo de mensagem n\u{e3}o suportado")),
            Some(msg) => match self.validate(&values, &msg) {
                Ok(()) => Ok(values),
                Err(e) => Err(e),
            },
        }
    }
}

} // verus!

verus! {

/// A name occurs in `dedup(s)` exactly when it occurs in `s`, and `dedup(s)`
/// holds no name twice.
pub proof fn lemma_dedup(s: Seq<Seq<char>>)
    ensures
        forall|x: Seq<char>| dedup(s).contains(x) <==> s.contains(x),
        forall|i: int, j: int|
            0 <= i < j < dedup(s).len() ==> dedup(s)[i] != dedup(s)[j],
    decreases s.len(),
{
    if s.len() > 0 {
        let t = s.drop_last();
        let d = dedup(t);
        lemma_dedup(t);
        assert forall|x: Seq<char>| s.contains(x) <==> t.contains(x) || x == s.last() by {
            if s.contains(x) {
                let k = choose|k: int| 0 <= k < s.len() && s[k] == x;
                if k < s.len() - 1 {
                    assert(t[k] == x);
                }
            }
            if t.contains(x) {
                let k = choose|k: int| 0 <= k < t.len() && t[k] == x;
                assert(s[k] == x);
            }
            if x == s.last() {
                assert(s[s.len() - 1] == x);
            }
        }
        if !d.contains(s.last()) {
            let e = d.push(s.last());
            assert forall|x: Seq<char>| e.contains(x) <==> d.contains(x) || x == s.last() by {
                if e.contains(x) {
                    let k = choose|k: int| 0 <= k < e.len() && e[k] == x;
                    if k < d.len() {
                        assert(d[k] == x);
                    }
                }
                if d.contains(x) {
                    let k = choose|k: int| 0 <= k < d.len() && d[k] == x;
                    assert(e[k] == x);
                }
                if x == s.last() {
                    assert(e[d.len() as int] == x);
                }
            }
            assert forall|i: int, j: int| 0 <= i < j < e.len() implies e[i] != e[j] by {
                if j == d.len() {
                    assert(e[i] == d[i]);
                    if e[i] == e[j] {
                        assert(d.contains(s.last()));
                    }
                } else {
                    assert(e[i] == d[i] && e[j] == d[j]);
                }
            }
        }
    }
}

/// A name is missing exactly when `req` lists it and `present` does not.
pub proof fn lemma_missing_names(req: Seq<Seq<char>>, present: Seq<Seq<char>>)
    ensures
        forall|x: Seq<char>|
            missing_names(req, present).contains(x) <==> (req.contains(x) && !present.contains(x)),
    decreases req.len(),
{
    if req.len() > 0 {
        let t = req.drop_last();
        let m = missing_names(t, present);
        lemma_missing_names(t, present);
        assert forall|x: Seq<char>| req.contains(x) <==> t.contains(x) || x == req.last() by {
            if req.contains(x) {
                let k = choose|k: int| 0 <= k < req.len() && req[k] == x;
                if k < req.len() - 1 {
                    assert(t[k] == x);
                }
            }
            if t.contains(x) {
                let k = choose|k: int| 0 <= k < t.len() && t[k] == x;
                assert(req[k] == x);
            }
            if x == req.last() {
                assert(req[req.len() - 1] == x);
            }
        }
        if !present.contains(req.last()) {
            let e = m.push(req.last());
            assert forall|x: Seq<char>| e.contains(x) <==> m.contains(x) || x == req.last() by {
                if e.contains(x) {
                    let k = choose|k: int| 0 <= k < e.len() && e[k] == x;
                    if k < m.len() {
                        assert(m[k] == x);
                    }
                }
                if m.contains(x) {
                    let k = choose|k: int| 0 <= k < m.len() && m[k] == x;
                    assert(e[k] == x);
                }
                if x == req.last() {
                    assert(e[m.len() as int] == x);
                }
            }
        }
    }
}

/// `FixSchema::validate` (and so `parse_tags`) accepts exactly when every
/// field that the header and the message require is among the names of the
/// pairs; when it refuses, its error names each missing field once and names
/// no other.
pub proof fn law_validate_names_exactly_the_missing_fields(
    s: FixSchemaView,
    values: Seq<(Seq<char>, Seq<char>)>,
    m: MessageView,
)
    ensures
        missing_fields(s, values, m).len() == 0 <==> forall|k: int|
            0 <= k < required_names(s, m).len() ==> names_of(values).contains(
                #[trigger] required_names(s, m)[k],
            ),
        forall|x: Seq<char>|
            missing_fields(s, values, m).contains(x) <==> (required_names(s, m).contains(x)
                && !names_of(values).contains(x)),
        forall|i: int, j: int|
            0 <= i < j < missing_fields(s, values, m).len() ==> missing_fields(s, values, m)[i]
                != missing_fields(s, values, m)[j],
{
    let req = required_names(s, m);
    let present = names_of(values);
    lemma_missing_names(req, present);
    lemma_dedup(missing_names(req, present));
    let mf = missing_fields(s, values, m);
    if mf.len() == 0 {
        assert forall|k: int| 0 <= k < req.len() implies present.contains(#[trigger] req[k]) by {
            assert(req.contains(req[k]));
            if !present.contains(req[k]) {
                assert(!mf.contains(req[k]));
            }
        }
    } else {
        assert(mf[0] == mf[0]);
        assert(mf.contains(mf[0]));
        assert(missing_names(req, present).contains(mf[0]));
        assert(req.contains(mf[0]));
        let k = choose|k: int| 0 <= k < req.len() && req[k] == mf[0];
        assert(!present.contains(req[k]));
    }
}

/// `parse_tags` translates every pair and keeps their order and number: on
/// success its result is the translated pairs, and every field that the
/// message type requires is among their names.
pub proof fn law_parse_tags_translates_every_pair(s: FixSchemaView, pairs: Seq<(Seq<char>, Seq<char>)>)
    ensures
        parse_outcome(s, pairs) matches Ok(values) ==> {
            &&& values.len() == pairs.len()
            &&& forall|k: int| 0 <= k < pairs.len() ==> #[trigger] values[k] == translate(s, pairs[k].0, pairs[k].1)
            &&& message_for(s, last_msgtype(pairs)) matches Some(m) && forall|x: Seq<char>|
                required_names(s, m).contains(x) ==> names_of(values).contains(x)
        },
        message_for(s, last_msgtype(pairs)) is None ==> parse_outcome(s, pairs) == Err::<
            Seq<(Seq<char>, Seq<char>)>,
            Seq<char>,
        >(unsupported_text()),
{
    if let Some(m) = message_for(s, last_msgtype(pairs)) {
        law_validate_names_exactly_the_missing_fields(s, translate_all(s, pairs), m);
    }
}

} // verus!

verus! {

/// The field definition that a tag selects has exactly that tag as its number
/// (the whole text, not a prefix or part of it), no earlier definition has it,
/// and no definition is selected when none has it.
pub proof fn law_field_lookup_is_by_whole_tag(fields: Seq<FieldView>, tag: Seq<char>)
    ensures
        first_where(fields, number_is(tag)) matches Some(i) ==> {
            &&& 0 <= i < fields.len()
            &&& fields[i].number == tag
            &&& forall|j: int| 0 <= j < i ==> (#[trigger] fields[j]).number != tag
        },
        first_where(fields, number_is(tag)) is None <==> forall|j: int|
            0 <= j < fields.len() ==> (#[trigger] fields[j]).number != tag,
{
    lemma_first_where_found(fields, number_is(tag));
    if let Some(i) = first_where(fields, number_is(tag)) {
        assert(fields[i].number == tag);
    }
}

/// The enumerated value that a value selects is exactly equal to it (the
/// first such); the description shown is that entry's description, and a
/// value equal to no enumerated value is shown unchanged.
pub proof fn law_enum_lookup_is_by_whole_value(f: FieldView, value: Seq<char>)
    ensures
        first_where(f.values, enum_is(value)) matches Some(k) ==> {
            &&& 0 <= k < f.values.len()
            &&& f.values[k].value == value
            &&& forall|j: int| 0 <= j < k ==> (#[trigger] f.values[j]).value != value
            &&& describe(f, value) == f.values[k].description
        },
        first_where(f.values, enum_is(value)) is None <==> forall|j: int|
            0 <= j < f.values.len() ==> (#[trigger] f.values[j]).value != value,
        (forall|j: int| 0 <= j < f.values.len() ==> (#[trigger] f.values[j]).value != value)
            ==> describe(f, value) == value,
{
    lemma_first_where_found(f.values, enum_is(value));
    if let Some(k) = first_where(f.values, enum_is(value)) {
        assert(f.values[k].value == value);
    }
}

/// The message that a `MsgType` code selects has exactly that code (the first
/// such) and comes back expanded; no message is selected when none has the
/// code.
pub proof fn law_message_lookup_is_by_whole_code(s: FixSchemaView, msgtype: Seq<char>)
    ensures
        message_for(s, msgtype) matches Some(m) ==> exists|i: int|
            {
                &&& 0 <= i < s.messages.len()
                &&& (#[trigger] s.messages[i]).msgtype == msgtype
                &&& forall|j: int| 0 <= j < i ==> (#[trigger] s.messages[j]).msgtype != msgtype
                &&& m == expanded(s.messages[i])
            },
        message_for(s, msgtype) is None <==> forall|j: int|
            0 <= j < s.messages.len() ==> (#[trigger] s.messages[j]).msgtype != msgtype,
        message_for(s, msgtype) matches Some(m) ==> m.msgtype == msgtype,
{
    lemma_first_where_found(s.messages, msgtype_is(msgtype));
    if let Some(i) = first_where(s.messages, msgtype_is(msgtype)) {
        assert(s.messages[i].msgtype == msgtype);
    }
}

/// The field reference that a name selects has exactly that name (the first
/// such); none is selected when none has it.
pub proof fn law_named_lookup_is_by_whole_name(hs: Seq<FieldHeaderView>, name: Seq<char>)
    ensures
        first_where(hs, named(name)) matches Some(i) ==> {
            &&& 0 <= i < hs.len()
            &&& hs[i].name == name
            &&& forall|j: int| 0 <= j < i ==> (#[trigger] hs[j]).name != name
        },
        first_where(hs, named(name)) is None <==> forall|j: int|
            0 <= j < hs.len() ==> (#[trigger] hs[j]).name != name,
{
    lemma_first_where_found(hs, named(name));
    if let Some(i) = first_where(hs, named(name)) {
        assert(hs[i].name == name);
    }
}

/// The number of group members of the first `i` field references.
pub open spec fn members_before(fs: Seq<FieldHeaderView>, i: int) -> int
    decreases i,
{
    if i <= 0 {
        0
    } else {
        members_before(fs, i - 1) + fs[i - 1].group.len()
    }
}

proof fn lemma_members_before_prefix(fs: Seq<FieldHeaderView>, n: int, i: int)
    requires
        0 <= i <= n <= fs.len(),
    ensures
        members_before(fs.take(n), i) == members_before(fs, i),
    decreases i,
{
    if i > 0 {
        lemma_members_before_prefix(fs, n, i - 1);
        assert(fs.take(n)[i - 1] == fs[i - 1]);
    }
}

proof fn lemma_members_before_grows(fs: Seq<FieldHeaderView>, i: int, k: int)
    requires
        0 <= i <= k <= fs.len(),
    ensures
        members_before(fs, i) <= members_before(fs, k),
        i < k ==> members_before(fs, i) + fs[i].group.len() <= members_before(fs, k),
    decreases k - i,
{
    if i < k {
        lemma_members_before_grows(fs, i, k - 1);
    }
}

proof fn lemma_group_entries(fs: Seq<FieldHeaderView>)
    ensures
        group_entries(fs).len() == members_before(fs, fs.len() as int),
        forall|i: int, k: int|
            0 <= i < fs.len() && 0 <= k < fs[i].group.len() ==> group_entries(fs)[members_before(
                fs,
                i,
            ) + k] == #[trigger] fs[i].group[k],
    decreases fs.len(),
{
    if fs.len() > 0 {
        let t = fs.drop_last();
        let n = t.len() as int;
        lemma_group_entries(t);
        assert(t =~= fs.take(n));
        assert forall|i: int| 0 <= i <= n implies members_before(t, i) == members_before(fs, i) by {
            lemma_members_before_prefix(fs, n, i);
        }
        assert forall|i: int, k: int|
            0 <= i < fs.len() && 0 <= k < fs[i].group.len() implies group_entries(fs)[members_before(
            fs,
            i,
        ) + k] == #[trigger] fs[i].group[k] by {
            let ge = group_entries(fs);
            assert(ge == group_entries(t) + fs.last().group);
            if i < n {
                lemma_members_before_grows(fs, i, n);
                lemma_members_before_prefix(fs, n, n);
                lemma_members_before_prefix(fs, n, i);
                lemma_members_before_grows(fs, 0, i);
                assert(group_entries(t).len() == members_before(t, n));
                assert(members_before(fs, i) + k < group_entries(t).len());
                assert(t[i] == fs[i]);
                assert(t[i].group[k] == fs[i].group[k]);
                assert(members_before(t, i) == members_before(fs, i));
                assert(ge[members_before(fs, i) + k] == group_entries(t)[members_before(t, i) + k]);
            } else {
                lemma_members_before_prefix(fs, n, n);
                assert(members_before(fs, i) == group_entries(t).len());
                assert(ge[members_before(fs, i) + k] == fs.last().group[k]);
            }
        }
    }
}

/// A message found by its code lists its own fields first, then every member
/// of every group of its fields, group after group and in order: its length is
/// the number of its fields plus the number of all group members.
pub proof fn law_expanded_message_lists_every_group_member(m: MessageView)
    ensures
        expanded(m).name == m.name,
        expanded(m).msgtype == m.msgtype,
        expanded(m).msgcat == m.msgcat,
        expanded(m).fields.len() == m.fields.len() + members_before(m.fields, m.fields.len() as int),
        forall|i: int| 0 <= i < m.fields.len() ==> expanded(m).fields[i] == #[trigger] m.fields[i],
        forall|i: int, k: int|
            0 <= i < m.fields.len() && 0 <= k < m.fields[i].group.len() ==> expanded(m).fields[m.fields.len()
                + members_before(m.fields, i) + k] == #[trigger] m.fields[i].group[k],
{
    lemma_group_entries(m.fields);
    let fs = m.fields;
    assert forall|i: int, k: int|
        0 <= i < fs.len() && 0 <= k < fs[i].group.len() implies expanded(m).fields[fs.len()
            + members_before(fs, i) + k] == #[trigger] fs[i].group[k] by {
        lemma_members_before_grows(fs, i, fs.len() as int);
        lemma_members_before_grows(fs, 0, i);
        assert(members_before(fs, i) + k < group_entries(fs).len());
        assert(expanded(m).fields[fs.len() + members_before(fs, i) + k] == group_entries(fs)[members_before(fs, i) + k]);
    }
}

/// The names that `required_of` lists are exactly the names of the
/// references marked `"Y"`.
pub proof fn law_required_of_lists_required_names(hs: Seq<FieldHeaderView>)
    ensures
        forall|n: Seq<char>|
            required_of(hs).contains(n) <==> exists|j: int|
                0 <= j < hs.len() && (#[trigger] hs[j]).required == "Y"@ && hs[j].name == n,
    decreases hs.len(),
{
    if hs.len() > 0 {
        let t = hs.drop_last();
        law_required_of_lists_required_names(t);
        let r = required_of(t);
        assert forall|n: Seq<char>|
            required_of(hs).contains(n) <==> exists|j: int|
                0 <= j < hs.len() && (#[trigger] hs[j]).required == "Y"@ && hs[j].name == n by {
            if required_of(hs).contains(n) {
                let k = choose|k: int| 0 <= k < required_of(hs).len() && required_of(hs)[k] == n;
                if k < r.len() {
                    assert(r[k] == n);
                    assert(r.contains(n));
                    let j = choose|j: int|
                        0 <= j < t.len() && (#[trigger] t[j]).required == "Y"@ && t[j].name == n;
                    assert(hs[j] == t[j]);
                } else {
                    assert(hs[hs.len() - 1].required == "Y"@);
                }
            }
            if exists|j: int| 0 <= j < hs.len() && (#[trigger] hs[j]).required == "Y"@ && hs[j].name == n {
                let j = choose|j: int|
                    0 <= j < hs.len() && (#[trigger] hs[j]).required == "Y"@ && hs[j].name == n;
                if j < t.len() {
                    assert(t[j] == hs[j]);
                    assert(r.contains(n));
                    let k = choose|k: int| 0 <= k < r.len() && r[k] == n;
                    if hs.last().required == "Y"@ {
                        assert(required_of(hs)[k] == n);
                    }
                } else {
                    assert(required_of(hs)[r.len() as int] == n);
                }
            }
        }
    }
}

/// The message type of a list of pairs is the value of its last pair whose tag
/// is exactly `35`, and empty text when no pair has that tag.
pub proof fn law_last_msgtype_is_last_tag_35(pairs: Seq<(Seq<char>, Seq<char>)>)
    ensures
        (exists|k: int| 0 <= k < pairs.len() && (#[trigger] pairs[k]).0 == "35"@) ==> exists|k: int|
            {
                &&& 0 <= k < pairs.len()
                &&& (#[trigger] pairs[k]).0 == "35"@
                &&& last_msgtype(pairs) == pairs[k].1
                &&& forall|j: int| k < j < pairs.len() ==> (#[trigger] pairs[j]).0 != "35"@
            },
        (forall|k: int| 0 <= k < pairs.len() ==> (#[trigger] pairs[k]).0 != "35"@) ==> last_msgtype(
            pairs,
        ) == Seq::<char>::empty(),
    decreases pairs.len(),
{
    if pairs.len() > 0 {
        let t = pairs.drop_last();
        law_last_msgtype_is_last_tag_35(t);
        let last = pairs.len() - 1;
        if pairs[last].0 == "35"@ {
        } else {
            assert forall|k: int| 0 <= k < t.len() implies t[k] == #[trigger] pairs[k] by {}
            if exists|k: int| 0 <= k < pairs.len() && (#[trigger] pairs[k]).0 == "35"@ {
                let k0 = choose|k: int| 0 <= k < pairs.len() && (#[trigger] pairs[k]).0 == "35"@;
                assert(t[k0].0 == "35"@);
                let k = choose|k: int|
                    {
                        &&& 0 <= k < t.len()
                        &&& (#[trigger] t[k]).0 == "35"@
                        &&& last_msgtype(t) == t[k].1
                        &&& forall|j: int| k < j < t.len() ==> (#[trigger] t[j]).0 != "35"@
                    };
                assert(pairs[k] == t[k]);
                assert forall|j: int| k < j < pairs.len() implies (#[trigger] pairs[j]).0 != "35"@ by {
                    if j < t.len() {
                        assert(t[j] == pairs[j]);
                    }
                }
            } else {
                assert forall|k: int| 0 <= k < t.len() implies (#[trigger] t[k]).0 != "35"@ by {
                    assert(t[k] == pairs[k]);
                }
            }
        }
    }
}

} // verus!

verus! {

/// A pair whose tag is exactly the number of a field definition (the first
/// such) becomes that field's name and the described value; a pair whose tag
/// is the number of no definition stays as it is.
pub proof fn law_translate_is_by_whole_tag(s: FixSchemaView, tag: Seq<char>, value: Seq<char>)
    ensures
        forall|i: int|
            0 <= i < s.fields.len() && (#[trigger] s.fields[i]).number == tag && (forall|j: int|
                0 <= j < i ==> (#[trigger] s.fields[j]).number != tag) ==> translate(s, tag, value)
                == (s.fields[i].name, describe(s.fields[i], value)),
        (forall|j: int| 0 <= j < s.fields.len() ==> (#[trigger] s.fields[j]).number != tag)
            ==> translate(s, tag, value) == (tag, value),
{
    law_field_lookup_is_by_whole_tag(s.fields, tag);
    assert forall|i: int|
        0 <= i < s.fields.len() && (#[trigger] s.fields[i]).number == tag && (forall|j: int|
            0 <= j < i ==> (#[trigger] s.fields[j]).number != tag) implies translate(s, tag, value)
        == (s.fields[i].name, describe(s.fields[i], value)) by {
        if let Some(f) = first_where(s.fields, number_is(tag)) {
            if f > i {
                assert(s.fields[i].number != tag);
            }
        }
    }
}

} // verus!
