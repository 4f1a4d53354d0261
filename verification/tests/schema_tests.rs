use fixreader::{
    AppError, Component, Components, Field, FieldHeader, FieldValues, Fields, FixSchema, Header,
    Message, Messages, Trailer,
};

fn fh(name: &str, required: &str, group: Vec<FieldHeader>) -> FieldHeader {
    FieldHeader { name: name.to_string(), required: required.to_string(), group }
}

fn field(number: &str, name: &str, values: &[(&str, &str)]) -> Field {
    Field {
        number: number.to_string(),
        name: name.to_string(),
        field_type: "STRING".to_string(),
        values: values
            .iter()
            .map(|(v, d)| FieldValues { value: v.to_string(), description: d.to_string() })
            .collect(),
    }
}

fn sample_schema() -> FixSchema {
    FixSchema {
        header: Header {
            values: vec![
                fh("BeginString", "Y", vec![]),
                fh("MsgType", "Y", vec![]),
                fh("SenderCompID", "N", vec![]),
            ],
        },
        trailer: Trailer { values: vec![fh("CheckSum", "Y", vec![])] },
        messages: Messages {
            values: vec![
                Message {
                    name: "Heartbeat".to_string(),
                    msgtype: "0".to_string(),
                    msgcat: "admin".to_string(),
                    fields: vec![fh("TestReqID", "N", vec![])],
                },
                Message {
                    name: "QuoteRequest".to_string(),
                    msgtype: "R".to_string(),
                    msgcat: "app".to_string(),
                    fields: vec![
                        fh("QuoteReqID", "Y", vec![]),
                        fh("NoRelatedSym", "Y", vec![fh("Symbol", "Y", vec![]), fh("Side", "N", vec![])]),
                    ],
                },
            ],
        },
        components: Components {
            values: vec![Component { name: "Instrument".to_string(), fields: vec![fh("Symbol", "Y", vec![])] }],
        },
        fields: Fields {
            values: vec![
                field("8", "BeginString", &[]),
                field("35", "MsgType", &[("0", "HEARTBEAT"), ("R", "QUOTE_REQUEST")]),
                field("49", "SenderCompID", &[]),
                field("131", "QuoteReqID", &[]),
                field("146", "NoRelatedSym", &[]),
                field("55", "Symbol", &[]),
                field("54", "Side", &[("1", "BUY"), ("2", "SELL")]),
                field("112", "TestReqID", &[]),
                field("10", "CheckSum", &[]),
            ],
        },
    }
}

fn pairs(items: &[(&str, &str)]) -> Vec<(String, String)> {
    items.iter().map(|(t, v)| (t.to_string(), v.to_string())).collect()
}

fn names(h: &[FieldHeader]) -> Vec<String> {
    h.iter().map(|f| f.name.clone()).collect()
}

#[test]
fn find_field_by_tag_finds_first_definition() {
    let s = sample_schema();
    assert_eq!(s.find_field_by_tag("54").map(|f| f.name.clone()), Some("Side".to_string()));
    assert!(s.find_field_by_tag("999").is_none());
}

#[test]
fn find_msgtype_appends_group_fields() {
    let s = sample_schema();
    let m = s.find_msgtype("R").expect("quote request");
    assert_eq!(m.name, "QuoteRequest");
    assert_eq!(m.msgcat, "app");
    assert_eq!(names(&m.fields), vec!["QuoteReqID", "NoRelatedSym", "Symbol", "Side"]);
    assert_eq!(m.fields[1].group.len(), 2);
    assert!(s.find_msgtype("Z").is_none());
}

#[test]
fn validate_reports_each_missing_field_once() {
    let s = sample_schema();
    let m = s.find_msgtype("R").unwrap();
    let ok = pairs(&[("BeginString", "FIX.4.4"), ("MsgType", "R"), ("QuoteReqID", "1"), ("NoRelatedSym", "1"), ("Symbol", "X")]);
    assert!(s.validate(&ok, &m).is_ok());
    let missing = pairs(&[("MsgType", "R"), ("QuoteReqID", "1")]);
    let err: AppError = s.validate(&missing, &m).unwrap_err();
    assert_eq!(err.0, "Missing fields {\"BeginString\", \"NoRelatedSym\", \"Symbol\"}");
}

#[test]
fn parse_tags_translates_names_and_values() {
    let s = sample_schema();
    let input = pairs(&[("8", "FIX.4.4"), ("35", "R"), ("131", "Q1"), ("146", "1"), ("55", "EURUSD"), ("54", "2"), ("5000", "x")]);
    let values = s.parse_tags(&input).ok().expect("valid message");
    assert_eq!(
        values,
        pairs(&[
            ("BeginString", "FIX.4.4"),
            ("MsgType", "QUOTE_REQUEST"),
            ("QuoteReqID", "Q1"),
            ("NoRelatedSym", "1"),
            ("Symbol", "EURUSD"),
            ("Side", "SELL"),
            ("5000", "x"),
        ])
    );
}

#[test]
fn parse_tags_uses_last_msgtype() {
    let s = sample_schema();
    let input = pairs(&[("8", "FIX.4.4"), ("35", "R"), ("35", "0")]);
    let values = s.parse_tags(&input).ok().expect("heartbeat");
    assert_eq!(values[1], ("MsgType".to_string(), "QUOTE_REQUEST".to_string()));
    assert_eq!(values[2], ("MsgType".to_string(), "HEARTBEAT".to_string()));
}

#[test]
fn parse_tags_rejects_unknown_message_type() {
    let s = sample_schema();
    let err = s.parse_tags(&pairs(&[("8", "FIX.4.4"), ("35", "Z")])).err().unwrap();
    assert_eq!(err.0, "Tipo de mensagem não suportado");
    let err = s.parse_tags(&pairs(&[("8", "FIX.4.4")])).err().unwrap();
    assert_eq!(err.0, "Tipo de mensagem não suportado");
}

#[test]
fn parse_tags_rejects_missing_required_fields() {
    let s = sample_schema();
    let err = s.parse_tags(&pairs(&[("35", "0")])).err().unwrap();
    assert_eq!(err.0, "Missing fields {\"BeginString\"}");
}

#[test]
fn from_string_reads_a_message() {
    let s = sample_schema();
    let msg = s.from_string("8=FIX.4.4|35=0|112=T|oops|", "|").ok().expect("heartbeat");
    let got: Vec<(String, String, String)> = msg
        .values
        .iter()
        .map(|f| (f.tag.clone(), f.value.clone(), f.required.clone()))
        .collect();
    let expected: Vec<(String, String, String)> = vec![
        ("BeginString".into(), "FIX.4.4".into(), "Y".into()),
        ("MsgType".into(), "HEARTBEAT".into(), "Y".into()),
        ("TestReqID".into(), "T".into(), "N".into()),
        ("Error splitting ".into(), "oops".into(), "N".into()),
    ];
    assert_eq!(got, expected);
}

#[test]
fn from_string_rejects_missing_separator() {
    let s = sample_schema();
    let err = s.from_string("8=FIX.4.4;35=0", "|").err().unwrap();
    assert_eq!(err.0, "Separador inválido");
}

#[test]
fn field_header_duplicate_keeps_groups() {
    let h = fh("NoRelatedSym", "Y", vec![fh("Symbol", "Y", vec![fh("Deep", "N", vec![])])]);
    let d = h.duplicate();
    assert_eq!(d.name, "NoRelatedSym");
    assert_eq!(d.group[0].group[0].name, "Deep");
}

#[test]
fn missing_field_names_are_escaped_like_debug() {
    let mut s = sample_schema();
    let odd = [
        "a\"b",
        "back\\slash",
        "tab\there",
        "line\nfeed\r",
        "nul\0x",
        "ctl\u{1}\u{7f}\u{1b}",
        "it's",
        "caf\u{e9}",
        "e\u{301}",
        "\u{301}start",
        "zero\u{200b}width",
    ];
    for name in odd {
        s.header.values = vec![fh(name, "Y", vec![])];
        let m = s.find_msgtype("0").unwrap();
        let err = s.validate(&pairs(&[("MsgType", "0")]), &m).unwrap_err();
        let mut set = std::collections::HashSet::new();
        set.insert(name);
        assert_eq!(err.0, format!("Missing fields {:?}", set), "name {:?}", name);
    }
}
