use fixreader::{
    fixread_line, parse_tag, search, Search, Component, Components, Field, FieldHeader, FieldValues, Fields, FixSchema, Header,
    Message, Messages, Trailer,
};

fn fh(name: &str, required: &str, group: Vec<FieldHeader>) -> FieldHeader {
    FieldHeader { name: name.to_string(), required: required.to_string(), group }
}

fn field(number: &str, name: &str, values: &[(&str, &str)]) -> Field {
    Field {
        number: number.to_string(),
        name: name.to_string(),
        field_type: "STRING".to_string(),
        values: values
            .iter()
            .map(|(v, d)| FieldValues { value: v.to_string(), description: d.to_string() })
            .collect(),
    }
}

fn sample_schema() -> FixSchema {
    FixSchema {
        header: Header {
            values: vec![
                fh("BeginString", "Y", vec![]),
                fh("MsgType", "Y", vec![]),
                fh("SenderCompID", "N", vec![]),
            ],
        },
        trailer: Trailer { values: vec![fh("CheckSum", "Y", vec![])] },
        messages: Messages {
            values: vec![
                Message {
                    name: "Heartbeat".to_string(),
                    msgtype: "0".to_string(),
                    msgcat: "admin".to_string(),
                    fields: vec![fh("TestReqID", "N", vec![])],
                },
                Message {
                    name: "QuoteRequest".to_string(),
                    msgtype: "R".to_string(),
                    msgcat: "app".to_string(),
                    fields: vec![
                        fh("QuoteReqID", "Y", vec![]),
                        fh("NoRelatedSym", "Y", vec![fh("Symbol", "Y", vec![]), fh("Side", "N", vec![])]),
                    ],
                },
            ],
        },
        components: Components {
            values: vec![Component { name: "Instrument".to_string(), fields: vec![fh("Symbol", "Y", vec![])] }],
        },
        fields: Fields {
            values: vec![
                field("8", "BeginString", &[]),
                field("35", "MsgType", &[("0", "HEARTBEAT"), ("R", "QUOTE_REQUEST")]),
                field("49", "SenderCompID", &[]),
                field("131", "QuoteReqID", &[]),
                field("146", "NoRelatedSym", &[]),
                field("55", "Symbol", &[]),
                field("54", "Side", &[("1", "BUY"), ("2", "SELL")]),
                field("112", "TestReqID", &[]),
                field("10", "CheckSum", &[]),
            ],
        },
    }
}

fn pairs(items: &[(&str, &str)]) -> Vec<(String, String)> {
    items.iter().map(|(t, v)| (t.to_string(), v.to_string())).collect()
}

fn names(h: &[FieldHeader]) -> Vec<String> {
    h.iter().map(|f| f.name.clone()).collect()
}


use std::fmt;

struct DebugValues<'a>(&'a FieldValues);
impl fmt::Debug for DebugValues<'_> {
    fn fmt(&self, f: &mut fmt::Formatter<'_>) -> fmt::Result {
        f.write_str(&format!("{} - {}", self.0.value, self.0.description))
    }
}
struct DebugHeader<'a>(&'a FieldHeader);
impl fmt::Debug for DebugHeader<'_> {
    fn fmt(&self, f: &mut fmt::Formatter<'_>) -> fmt::Result {
        f.write_str(&format!("{} ({})", self.0.name, self.0.required))?;
        for field in self.0.group.iter() {
            f.write_str(&format!(",\n{} ({})", field.name, field.required))?;
        }
        Ok(())
    }
}
struct DebugMessage<'a>(&'a Message);
impl fmt::Debug for DebugMessage<'_> {
    fn fmt(&self, f: &mut fmt::Formatter<'_>) -> fmt::Result {
        let fields: Vec<DebugHeader> = self.0.fields.iter().map(DebugHeader).collect();
        f.write_str(&format!("{} - {} {:#?}", self.0.msgtype, self.0.name, fields))
    }
}
struct DebugField<'a>(&'a Field);
impl fmt::Debug for DebugField<'_> {
    fn fmt(&self, f: &mut fmt::Formatter<'_>) -> fmt::Result {
        f.write_str(&format!("{} - {} [{}]", self.0.number, self.0.name, self.0.field_type))?;
        if !self.0.values.is_empty() {
            let values: Vec<DebugValues> = self.0.values.iter().map(DebugValues).collect();
            f.write_str(&format!("{:#?}", values))?;
        }
        Ok(())
    }
}

#[test]
fn parse_tag_describes_known_values() {
    let s = sample_schema();
    assert_eq!(parse_tag(&s, "54", "1"), ("54", "BUY"));
    assert_eq!(parse_tag(&s, "54", "7"), ("54", "7"));
    assert_eq!(parse_tag(&s, "9999", "1"), ("9999", "1"));
}

#[test]
fn fixread_line_formats_pairs_and_errors() {
    let s = sample_schema();
    let (oks, errors) = fixread_line(&s, "8=FIX.4.4|35=R|bad|54=2||55=X");
    assert_eq!(oks, vec!["8 = FIX.4.4", "35 = QUOTE_REQUEST", "54 = SELL"]);
    assert_eq!(errors, vec!["Error parsing the item 'bad'"]);
}

#[test]
fn search_by_mode() {
    let s = sample_schema();
    match search(&s, "0", "Side") {
        Search::Field(Some(f)) => assert_eq!(f.number, "54"),
        _ => panic!("field by name"),
    }
    match search(&s, "1", "35") {
        Search::Field(Some(f)) => assert_eq!(f.name, "MsgType"),
        _ => panic!("field by tag"),
    }
    match search(&s, "2", "Heartbeat") {
        Search::Message(Some(m)) => assert_eq!(m.msgtype, "0"),
        _ => panic!("message by name"),
    }
    match search(&s, "3", "R") {
        Search::Message(Some(m)) => assert_eq!(m.name, "QuoteRequest"),
        _ => panic!("message by msgtype"),
    }
    assert!(matches!(search(&s, "1", "77777"), Search::Field(None)));
    assert!(matches!(search(&s, "3", "Heartbeat"), Search::Message(None)));
    assert!(matches!(search(&s, "9", "R"), Search::NotFound));
    match search(&s, "", "35") {
        Search::Field(Some(f)) => assert_eq!(f.name, "MsgType"),
        _ => panic!("the empty mode searches fields by tag"),
    }
    assert!(matches!(search(&s, " ", "35"), Search::NotFound));
}

#[test]
fn debug_text_matches_pretty_debug() {
    let s = sample_schema();
    for f in s.fields.values.iter() {
        assert_eq!(f.fmt(), format!("{:#?}", DebugField(f)));
    }
    for m in s.messages.values.iter() {
        assert_eq!(m.fmt(), format!("{:#?}", DebugMessage(m)));
    }
    let expanded = s.find_msgtype("R").unwrap();
    assert_eq!(expanded.fmt(), format!("{:#?}", DebugMessage(&expanded)));
    let empty = Message { name: "Empty".into(), msgtype: "E".into(), msgcat: "x".into(), fields: vec![] };
    assert_eq!(empty.fmt(), "E - Empty []");
    let odd = Field {
        number: "1".into(),
        name: "Odd".into(),
        field_type: "T".into(),
        values: vec![FieldValues { value: "a\nb".into(), description: "c\n".into() }],
    };
    assert_eq!(odd.fmt(), format!("{:#?}", DebugField(&odd)));
}

#[test]
fn debug_text_examples() {
    let s = sample_schema();
    let side = s.find_field_by_tag("54").unwrap();
    assert_eq!(side.fmt(), "54 - Side [STRING][\n    1 - BUY,\n    2 - SELL,\n]");
    let qr = &s.messages.values[1];
    assert_eq!(
        qr.fmt(),
        "R - QuoteRequest [\n    QuoteReqID (Y),\n    NoRelatedSym (Y),\n    Symbol (Y),\n    Side (N),\n]"
    );
    assert_eq!(side.values[0].fmt(), "1 - BUY");
    assert_eq!(qr.fields[1].fmt(), "NoRelatedSym (Y),\nSymbol (Y),\nSide (N)");
}

#[test]
fn command_line_and_converter_show_the_same_values() {
    let s = sample_schema();
    let mut c = fixreader::FixConverter::new();
    c.load_from("dict.xml", Ok(sample_schema())).ok().unwrap();
    let line = "8=FIX.4.4|35=R|54=2|55=X|777=q";
    let converted = c.from_str(line).ok().unwrap();
    let (oks, _) = fixread_line(&s, line);
    assert_eq!(oks.len(), converted.values.len());
    for (shown, entry) in oks.iter().zip(converted.values.iter()) {
        assert_eq!(shown, &format!("{} = {}", entry.tag, entry.value));
    }
}

#[test]
fn converter_translates_like_parse_tags() {
    let s = sample_schema();
    let mut c = fixreader::FixConverter::new();
    c.load_from("dict.xml", Ok(sample_schema())).ok().unwrap();
    let line = "8=FIX.4.4|35=0|112=T|54=1|777=q";
    let converted = c.from_str(line).ok().unwrap();
    let pairs: Vec<(String, String)> = line
        .split('|')
        .map(|p| {
            let (t, v) = p.split_once('=').unwrap();
            (t.to_string(), v.to_string())
        })
        .collect();
    let translated = s.parse_tags(&pairs).ok().unwrap();
    for ((entry, (name, value)), (tag, _)) in converted.values.iter().zip(translated.iter()).zip(pairs.iter()) {
        if s.find_field_by_tag(tag).is_some() {
            assert_eq!(&entry.title, name);
        } else {
            assert_eq!(name, tag);
        }
        assert_eq!(&entry.value, value);
    }
}
