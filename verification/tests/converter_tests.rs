use fixreader::{
    AppState, FixConverter, Component, Components, Field, FieldHeader, FieldValues, Fields, FixSchema, Header,
    Message, Messages, Trailer,
};

fn fh(name: &str, required: &str, group: Vec<FieldHeader>) -> FieldHeader {
    FieldHeader { name: name.to_string(), required: required.to_string(), group }
}

fn field(number: &str, name: &str, values: &[(&str, &str)]) -> Field {
    Field {
        number: number.to_string(),
        name: name.to_string(),
        field_type: "STRING".to_string(),
        values: values
            .iter()
            .map(|(v, d)| FieldValues { value: v.to_string(), description: d.to_string() })
            .collect(),
    }
}

fn sample_schema() -> FixSchema {
    FixSchema {
        header: Header {
            values: vec![
                fh("BeginString", "Y", vec![]),
                fh("MsgType", "Y", vec![]),
                fh("SenderCompID", "N", vec![]),
            ],
        },
        trailer: Trailer { values: vec![fh("CheckSum", "Y", vec![])] },
        messages: Messages {
            values: vec![
                Message {
                    name: "Heartbeat".to_string(),
                    msgtype: "0".to_string(),
                    msgcat: "admin".to_string(),
                    fields: vec![fh("TestReqID", "N", vec![])],
                },
                Message {
                    name: "QuoteRequest".to_string(),
                    msgtype: "R".to_string(),
                    msgcat: "app".to_string(),
                    fields: vec![
                        fh("QuoteReqID", "Y", vec![]),
                        fh("NoRelatedSym", "Y", vec![fh("Symbol", "Y", vec![]), fh("Side", "N", vec![])]),
                    ],
                },
            ],
        },
        components: Components {
            values: vec![Component { name: "Instrument".to_string(), fields: vec![fh("Symbol", "Y", vec![])] }],
        },
        fields: Fields {
            values: vec![
                field("8", "BeginString", &[]),
                field("35", "MsgType", &[("0", "HEARTBEAT"), ("R", "QUOTE_REQUEST")]),
                field("49", "SenderCompID", &[]),
                field("131", "QuoteReqID", &[]),
                field("146", "NoRelatedSym", &[]),
                field("55", "Symbol", &[]),
                field("54", "Side", &[("1", "BUY"), ("2", "SELL")]),
                field("112", "TestReqID", &[]),
                field("10", "CheckSum", &[]),
            ],
        },
    }
}

fn pairs(items: &[(&str, &str)]) -> Vec<(String, String)> {
    items.iter().map(|(t, v)| (t.to_string(), v.to_string())).collect()
}

fn names(h: &[FieldHeader]) -> Vec<String> {
    h.iter().map(|f| f.name.clone()).collect()
}


fn loaded() -> FixConverter {
    let mut c = FixConverter::new();
    c.load_from("dict.xml", Ok(sample_schema())).ok().unwrap();
    c
}

fn row(f: &fixreader::FieldConverted) -> (String, String, String, bool) {
    (f.tag.clone(), f.title.clone(), f.value.clone(), f.required)
}

fn r(tag: &str, title: &str, value: &str, required: bool) -> (String, String, String, bool) {
    (tag.to_string(), title.to_string(), value.to_string(), required)
}

#[test]
fn reaches_schema_only_with_pairs() {
    assert!(FixConverter::reaches_schema("8=FIX|"));
    assert!(!FixConverter::reaches_schema("|8=FIX"));
    assert!(!FixConverter::reaches_schema("8=FIX"));
    assert!(!FixConverter::reaches_schema("abc|def|"));
}

#[test]
fn new_converter_is_empty() {
    let c = FixConverter::new();
    assert!(c.schema.is_none());
    assert_eq!(c.filename, "");
}

#[test]
fn get_delimiter_prefers_listed_order() {
    assert_eq!(FixConverter::get_delimiter("8=FIX|9=1^A 10=2").ok(), Some("|"));
    assert_eq!(FixConverter::get_delimiter("8=FIX^A 9=1").ok(), Some("^A "));
    assert_eq!(FixConverter::get_delimiter("8=FIX\u{1}9=1").ok(), Some("\u{1}"));
    assert_eq!(FixConverter::get_delimiter("8=FIX\\x019=1").ok(), Some("\\x01"));
    let err = FixConverter::get_delimiter("8=FIX;9=1").err().unwrap();
    assert_eq!(err.0, "Separador inválido");
}

#[test]
fn from_str_converts_every_pair() {
    let c = loaded();
    let m = c.from_str("8=FIX.4.4|9=70|35=R|131=Q1|146=1|55=EURUSD|54=1|junk|10=123|").ok().unwrap();
    let rows: Vec<_> = m.values.iter().map(row).collect();
    assert_eq!(
        rows,
        vec![
            r("8", "BeginString", "FIX.4.4", true),
            r("9", "", "70", false),
            r("35", "MsgType", "QUOTE_REQUEST", true),
            r("131", "QuoteReqID", "Q1", true),
            r("146", "NoRelatedSym", "1", true),
            r("55", "Symbol", "EURUSD", true),
            r("54", "Side", "BUY", false),
            r("10", "CheckSum", "123", true),
        ]
    );
}

#[test]
fn from_str_without_known_message_type_marks_nothing_required() {
    let c = loaded();
    let m = c.from_str("8=FIX.4.4^A 35=Q^A 54=2^A ").ok().unwrap();
    let rows: Vec<_> = m.values.iter().map(row).collect();
    assert_eq!(
        rows,
        vec![r("8", "BeginString", "FIX.4.4", false), r("35", "MsgType", "Q", false), r("54", "Side", "SELL", false)]
    );
}

#[test]
fn from_str_uses_first_msgtype() {
    let c = loaded();
    let m = c.from_str("35=0\u{1}35=R\u{1}131=Q\u{1}").ok().unwrap();
    // the first MsgType (Heartbeat) does not list QuoteReqID
    assert_eq!(row(&m.values[2]), r("131", "QuoteReqID", "Q", false));
}

#[test]
fn from_str_rejects_input_without_delimiter() {
    let c = FixConverter::new();
    assert_eq!(c.from_str("8=FIX.4.4").err().unwrap().0, "Separador inválido");
    // no pairs: the dictionary is not needed
    assert_eq!(c.from_str("|8=FIX").ok().unwrap().values.len(), 0);
}

#[test]
fn find_requirement_checks_header_trailer_then_message() {
    let c = loaded();
    let s = sample_schema();
    let hb = s.find_msgtype("0").unwrap();
    let side = s.find_field_by_tag("54").unwrap();
    let checksum = s.find_field_by_tag("10").unwrap();
    let sender = s.find_field_by_tag("49").unwrap();
    let test_req = s.find_field_by_tag("112").unwrap();
    assert!(!c.find_requirement(side, &hb));
    assert!(c.find_requirement(checksum, &hb));
    assert!(!c.find_requirement(sender, &hb));
    assert!(!c.find_requirement(test_req, &hb));
}

#[test]
fn find_field_description_looks_up_enumerated_values() {
    let s = sample_schema();
    let side = s.find_field_by_tag("54").unwrap();
    assert_eq!(FixConverter::find_field_description("2", side), Some("SELL".to_string()));
    assert_eq!(FixConverter::find_field_description("9", side), None);
}

#[test]
fn load_from_failure_keeps_converter() {
    let mut c = loaded();
    let err = c.load_from("other.xml", Err(fixreader::AppError::new("bad file"))).err().unwrap();
    assert_eq!(err.0, "bad file");
    assert_eq!(c.filename, "dict.xml");
    assert!(c.schema.is_some());
}

#[test]
fn try_load_reports_cache_errors() {
    let mut c = FixConverter::new();
    let err = c.try_load(Err(fixreader::AppError::new("no cache")), Ok(sample_schema())).err().unwrap();
    assert_eq!(err.0, "no cache");
    assert!(c.schema.is_none());
    assert!(c.try_load(Ok("dict.xml".to_string()), Ok(sample_schema())).is_ok());
    assert_eq!(c.filename, "dict.xml");
}

#[test]
fn app_state_set_then_get_schema_file() {
    let mut st = AppState::setup(Err(fixreader::AppError::new("no cache")), Ok(sample_schema()));
    assert_eq!(st.get_schema_file().err().unwrap().0, "no cache");
    assert_eq!(st.read_fix("8=FIX|35=0|").err().unwrap().0, "no cache");
    assert!(st.set_schema_file("a.xml", Ok(sample_schema())).is_ok());
    assert_eq!(st.get_schema_file().ok().unwrap(), "a.xml");
    let err = st.set_schema_file("b.xml", Err(fixreader::AppError::new("unreadable"))).err().unwrap();
    assert_eq!(err.0, "unreadable");
    assert_eq!(st.get_schema_file().ok().unwrap(), "a.xml");
    let m = st.read_fix("8=FIX.4.4|35=0|").ok().unwrap();
    assert_eq!(m.values.len(), 2);
}

#[test]
fn app_state_setup_loads_the_cached_schema() {
    let st = AppState::setup(Ok("cached.xml".to_string()), Ok(sample_schema()));
    assert_eq!(st.get_schema_file().ok().unwrap(), "cached.xml");
    let st = AppState::setup(Ok("cached.xml".to_string()), Err(fixreader::AppError::new("parse error")));
    assert_eq!(st.get_schema_file().err().unwrap().0, "parse error");
}

#[test]
fn field_converted_from_tuple() {
    let f = fixreader::FieldConverted::from(("1".to_string(), "Account".to_string(), "X".to_string(), true));
    assert_eq!(row(&f), r("1", "Account", "X", true));
}

#[test]
fn app_error_from_string() {
    let e = fixreader::AppError::from("boom".to_string());
    assert_eq!(e.0, "boom");
    assert_eq!(e.duplicate().0, "boom");
    assert_eq!(fixreader::AppError::from("bang").0, "bang");
}
