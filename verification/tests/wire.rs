use hird_check::wire::decode::{decode_record, decode_value, peek_tool};
use hird_check::wire::encode::{encode_record, encode_value, AuditSink, EncodeError, JsonLinesSink};
use hird_check::wire::replay::{replay, Divergence};
use hird_check::wire::schema::{AdtTable, ToolWireSig};
use hird_check::wire::value::{Effect, InvocationRecord, MetaValue, ToolResult, Ty, WireValue};

fn s(x: &str) -> String {
    String::from(x)
}

fn record(fields: Vec<(&str, WireValue)>) -> WireValue {
    WireValue::record(fields.into_iter().map(|(k, v)| (s(k), v)).collect())
}

fn con(name: &str, args: Vec<Ty>) -> Ty {
    Ty::Con(s(name), args)
}

fn int_ty() -> Ty {
    con("Int", vec![])
}

fn float() -> Ty {
    con("Float", vec![])
}

fn string() -> Ty {
    con("String", vec![])
}

fn list(elem: Ty) -> Ty {
    con("List", vec![elem])
}

fn record_ty(fields: Vec<(&str, Ty)>) -> Ty {
    Ty::Record(fields.into_iter().map(|(k, t)| (s(k), t)).collect())
}

fn float_value(f: f64) -> WireValue {
    WireValue::Float(format!("{f}"))
}

/// A record with every envelope field populated.
fn sample_record() -> InvocationRecord {
    InvocationRecord {
        tool: s("ReadRepo"),
        args: record(vec![("path", WireValue::string(s("/home/user/repo")))]),
        result: ToolResult::Success(record(vec![
            ("files", WireValue::List(vec![])),
            ("status", WireValue::string(s("clean"))),
        ])),
        timestamp: s("2026-05-22T12:00:00.000Z"),
        caller: s("Planner.plan_repo"),
        meta: Some(vec![(s("duration_ms"), MetaValue::Int(42))]),
    }
}

// -- canonical writing ---------------------------------------------

#[test]
fn envelope_fields_are_in_fixed_order() {
    let line = encode_record(&sample_record()).unwrap();
    assert_eq!(
        line,
        "{\"schema_version\":1,\"tool\":\"ReadRepo\",\
         \"args\":{\"path\":\"/home/user/repo\"},\
         \"result\":{\"ok\":{\"files\":[],\"status\":\"clean\"}},\
         \"timestamp\":\"2026-05-22T12:00:00.000Z\",\
         \"caller\":\"Planner.plan_repo\",\
         \"meta\":{\"duration_ms\":42}}"
    );
}

#[test]
fn meta_is_omitted_when_absent() {
    let mut rec = sample_record();
    rec.meta = None;
    let line = encode_record(&rec).unwrap();
    assert!(!line.contains("meta"), "absent meta must not be written");
    assert!(line.ends_with("\"caller\":\"Planner.plan_repo\"}"));
}

#[test]
fn record_labels_write_sorted() {
    let value = record(vec![("zeta", WireValue::Int(1)), ("alpha", WireValue::Int(2))]);
    assert_eq!(encode_value(&value).unwrap(), "{\"alpha\":2,\"zeta\":1}");
}

#[test]
fn adt_values_write_ctor_form() {
    let value = WireValue::ctor(s("Some"), vec![WireValue::Int(1)]);
    assert_eq!(encode_value(&value).unwrap(), "{\"ctor\":\"Some\",\"args\":[1]}");
    let value = WireValue::ctor(s("True"), vec![]);
    assert_eq!(encode_value(&value).unwrap(), "{\"ctor\":\"True\",\"args\":[]}");
}

#[test]
fn unit_writes_null() {
    assert_eq!(encode_value(&WireValue::Unit).unwrap(), "null");
}

#[test]
fn floats_write_shortest_round_trip() {
    assert_eq!(encode_value(&float_value(1.0)).unwrap(), "1");
    assert_eq!(encode_value(&float_value(0.1)).unwrap(), "0.1");
    assert_eq!(encode_value(&float_value(-2.5)).unwrap(), "-2.5");
}

#[test]
fn non_finite_floats_are_rejected() {
    assert_eq!(encode_value(&float_value(f64::NAN)), Err(EncodeError::NonFiniteFloat));
    assert_eq!(encode_value(&float_value(f64::INFINITY)), Err(EncodeError::NonFiniteFloat));
}

#[test]
fn ints_are_exact_at_i64_extremes() {
    assert_eq!(encode_value(&WireValue::Int(i64::MAX)).unwrap(), "9223372036854775807");
    assert_eq!(encode_value(&WireValue::Int(i64::MIN)).unwrap(), "-9223372036854775808");
}

#[test]
fn strings_escape_controls_and_quotes() {
    let value = WireValue::string(s("a\"b\\c\nd\u{1}é"));
    assert_eq!(encode_value(&value).unwrap(), "\"a\\\"b\\\\c\\nd\\u0001é\"");
}

#[test]
fn bad_timestamps_are_rejected() {
    for bad in [
        "2026-05-22T12:00:00Z",
        "2026-05-22 12:00:00.000Z",
        "2026-05-22T12:00:00.000+00",
        "2026-13-22T12:00:00.000Z",
    ] {
        let mut rec = sample_record();
        rec.timestamp = s(bad);
        assert_eq!(
            encode_record(&rec),
            Err(EncodeError::BadTimestamp(s(bad))),
            "`{bad}` should be rejected"
        );
    }
}

// -- the default sink ----------------------------------------------

#[test]
fn json_lines_sink_appends_lines() {
    let mut sink = JsonLinesSink::new();
    sink.emit(&sample_record()).unwrap();
    sink.emit(&sample_record()).unwrap();
    let log = sink.into_string();
    assert_eq!(log.lines().count(), 2, "one line per record");
    assert!(log.ends_with('\n'), "every line is terminated");
}

// -- decoding -------------------------------------------------------

/// `Bool` and an `Option`-shaped ADT for decode tests.
fn test_adts() -> AdtTable {
    let mut table = AdtTable::new();
    table.insert(s("Bool"), vec![(s("True"), vec![]), (s("False"), vec![])]);
    table.insert(s("Opt"), vec![(s("Some"), vec![Ty::Var(0)]), (s("None"), vec![])]);
    table
}

#[test]
fn decode_is_type_directed() {
    let adts = test_adts();
    assert_eq!(decode_value("1", &int_ty(), &adts).unwrap(), WireValue::Int(1));
    assert_eq!(decode_value("1", &float(), &adts).unwrap(), float_value(1.0));
    assert_eq!(decode_value("null", &Ty::Tuple(vec![]), &adts).unwrap(), WireValue::Unit);
    assert_eq!(
        decode_value("[1,2]", &list(int_ty()), &adts).unwrap(),
        WireValue::List(vec![WireValue::Int(1), WireValue::Int(2)])
    );
    assert_eq!(
        decode_value("[1,\"a\"]", &Ty::Tuple(vec![int_ty(), string()]), &adts).unwrap(),
        WireValue::Tuple(vec![WireValue::Int(1), WireValue::string(s("a"))])
    );
}

#[test]
fn decode_instantiates_generic_ctor_fields() {
    let adts = test_adts();
    let ty = con("Opt", vec![string()]);
    assert_eq!(
        decode_value("{\"ctor\":\"Some\",\"args\":[\"x\"]}", &ty, &adts).unwrap(),
        WireValue::ctor(s("Some"), vec![WireValue::string(s("x"))])
    );
    assert!(decode_value("{\"ctor\":\"Some\",\"args\":[1]}", &ty, &adts).is_err());
}

#[test]
fn decode_rejects_unknown_ctor_and_wrong_labels() {
    let adts = test_adts();
    let ty = con("Opt", vec![int_ty()]);
    assert!(decode_value("{\"ctor\":\"Sum\",\"args\":[]}", &ty, &adts).is_err());
    let rec_ty = record_ty(vec![("path", string())]);
    assert!(decode_value("{\"route\":\"x\"}", &rec_ty, &adts).is_err());
}

#[test]
fn decode_rejects_float_syntax_for_int() {
    let adts = test_adts();
    assert!(decode_value("1.5", &int_ty(), &adts).is_err());
    assert!(decode_value("1e3", &int_ty(), &adts).is_err());
}

#[test]
fn decode_rejects_wrong_schema_version() {
    let sig = ToolWireSig { args: record_ty(vec![("path", string())]), result: string(), errors: vec![] };
    let line = "{\"schema_version\":2,\"tool\":\"T\",\"args\":{\"path\":\"p\"},\
                \"result\":{\"ok\":\"v\"},\"timestamp\":\"2026-05-22T12:00:00.000Z\",\
                \"caller\":\"M.f\"}";
    let err = decode_record(line, &sig, &AdtTable::new()).unwrap_err();
    assert!(err.message.contains("schema_version"), "{}", err.render());
}

fn repo_sig() -> ToolWireSig {
    ToolWireSig {
        args: record_ty(vec![("path", string())]),
        result: record_ty(vec![("files", list(string())), ("status", string())]),
        errors: vec![],
    }
}

#[test]
fn record_round_trips() {
    let rec = sample_record();
    let line = encode_record(&rec).unwrap();
    let decoded = decode_record(&line, &repo_sig(), &AdtTable::new()).unwrap();
    assert_eq!(decoded, rec);
    assert_eq!(encode_record(&decoded).unwrap(), line, "re-encode is byte-identical");
}

#[test]
fn err_results_round_trip() {
    let mut rec = sample_record();
    rec.meta = None;
    rec.result = ToolResult::Failure(WireValue::ctor(s("ParseError"), vec![WireValue::string(s("bad json"))]));
    let line = encode_record(&rec).unwrap();
    let mut adts = AdtTable::new();
    adts.insert(s("ParseError"), vec![(s("ParseError"), vec![string()])]);
    let mut sig = repo_sig();
    sig.errors = vec![con("ParseError", vec![])];
    let decoded = decode_record(&line, &sig, &adts).unwrap();
    assert_eq!(decoded, rec);
}

// -- replay ----------------------------------------------------------

#[test]
fn replay_returns_logged_results_in_order() {
    let rec = sample_record();
    let log = vec![sample_record()];
    let result = replay(&log, 0, "ReadRepo", &rec.args).unwrap();
    assert_eq!(result, &rec.result);
}

#[test]
fn replay_diverges_structurally() {
    let rec = sample_record();
    let log = vec![sample_record()];
    assert_eq!(
        replay(&log, 1, "ReadRepo", &rec.args),
        Err(Divergence::Exhausted { position: 1, requested: s("ReadRepo") })
    );
    assert!(matches!(
        replay(&log, 0, "CreateTicket", &rec.args),
        Err(Divergence::ToolMismatch { position: 0, .. })
    ));
    assert!(matches!(
        replay(&log, 0, "ReadRepo", &WireValue::Unit),
        Err(Divergence::ArgsMismatch { position: 0, .. })
    ));
}

#[test]
fn divergence_renders_position_and_tools() {
    let divergence = Divergence::ToolMismatch { position: 3, logged: s("CreateTicket"), requested: s("ReadRepo") };
    assert_eq!(
        divergence.render(),
        "replay diverged at position 3: log has `CreateTicket`, `ReadRepo` requested"
    );
}

// -- further cases ------------------------------------------------------

#[test]
fn decoding_skips_whitespace_between_tokens() {
    let adts = test_adts();
    let ty = record_ty(vec![("a", list(int_ty())), ("b", Ty::Tuple(vec![string(), int_ty()]))]);
    let value = decode_value(" { \"a\" : [ 1 , 2 ] , \"b\" : [ \"x\" , -3 ] } ", &ty, &adts).unwrap();
    assert_eq!(
        value,
        record(vec![
            ("a", WireValue::List(vec![WireValue::Int(1), WireValue::Int(2)])),
            ("b", WireValue::Tuple(vec![WireValue::string(s("x")), WireValue::Int(-3)])),
        ])
    );
}

#[test]
fn decoding_reads_escapes_and_surrogate_pairs() {
    let adts = test_adts();
    let v = decode_value("\"a\\n\\u00e9\\ud83d\\ude00\\/\"", &string(), &adts).unwrap();
    assert_eq!(v, WireValue::string(s("a\né😀/")));
    assert!(decode_value("\"\\ud83d\"", &string(), &adts).is_err(), "a lone high surrogate is rejected");
    assert!(decode_value("\"\\ude00\"", &string(), &adts).is_err(), "a lone low surrogate is rejected");
    assert!(decode_value("\"a\u{1}\"", &string(), &adts).is_err(), "raw control characters are rejected");
}

#[test]
fn decoding_checks_int_range() {
    let adts = test_adts();
    assert_eq!(decode_value("-9223372036854775808", &int_ty(), &adts).unwrap(), WireValue::Int(i64::MIN));
    assert!(decode_value("9223372036854775808", &int_ty(), &adts).is_err());
    assert_eq!(decode_value("+7", &int_ty(), &adts).unwrap(), WireValue::Int(7));
    assert!(decode_value("1-2", &int_ty(), &adts).is_err());
}

#[test]
fn decoding_rejects_trailing_input() {
    let adts = test_adts();
    assert!(decode_value("1 2", &int_ty(), &adts).is_err());
    let err = decode_value("[1,2]x", &list(int_ty()), &adts).unwrap_err();
    assert_eq!(err.offset, 5);
}

#[test]
fn decoding_strips_quantifiers() {
    let adts = test_adts();
    let ty = Ty::Forall(vec![0], Box::new(list(int_ty())));
    assert_eq!(decode_value("[]", &ty, &adts).unwrap(), WireValue::List(vec![]));
    assert!(decode_value("1", &Ty::Var(0), &adts).is_err());
}

#[test]
fn meta_objects_decode_sorted_with_last_value_winning() {
    let sig = ToolWireSig { args: Ty::Tuple(vec![]), result: Ty::Tuple(vec![]), errors: vec![] };
    let line = "{\"schema_version\":1,\"tool\":\"T\",\"args\":null,\"result\":{\"ok\":null},\
                \"timestamp\":\"2026-05-22T12:00:00.000Z\",\"caller\":\"M.f\",\
                \"meta\":{\"z\":1,\"a\":[true,null,2.5],\"z\":\"again\"}}";
    let rec = decode_record(line, &sig, &AdtTable::new()).unwrap();
    assert_eq!(
        rec.meta,
        Some(vec![
            (s("a"), MetaValue::Array(vec![MetaValue::Bool(true), MetaValue::Null, MetaValue::Float(s("2.5"))])),
            (s("z"), MetaValue::String(s("again"))),
        ])
    );
}

#[test]
fn err_results_try_error_types_in_order() {
    let mut adts = AdtTable::new();
    adts.insert(s("A"), vec![(s("A"), vec![int_ty()])]);
    adts.insert(s("B"), vec![(s("B"), vec![string()])]);
    let sig = ToolWireSig {
        args: Ty::Tuple(vec![]),
        result: Ty::Tuple(vec![]),
        errors: vec![con("A", vec![]), con("B", vec![])],
    };
    let line = "{\"schema_version\":1,\"tool\":\"T\",\"args\":null,\
                \"result\":{\"err\":{\"ctor\":\"B\",\"args\":[\"x\"]}},\
                \"timestamp\":\"2026-05-22T12:00:00.000Z\",\"caller\":\"M.f\"}";
    let rec = decode_record(line, &sig, &adts).unwrap();
    assert_eq!(rec.result, ToolResult::Failure(WireValue::ctor(s("B"), vec![WireValue::string(s("x"))])));
}

#[test]
fn peek_tool_reads_only_the_envelope() {
    assert_eq!(peek_tool("{\"schema_version\":1,\"tool\":\"ReadRepo\", garbage").unwrap(), "ReadRepo");
    assert!(peek_tool("{\"schema_version\":3,\"tool\":\"ReadRepo\"").is_err());
}

#[test]
fn tool_signatures_come_from_unary_function_types() {
    let exn = Effect { head: s("Exn"), args: vec![con("HttpError", vec![])] };
    let other = Effect { head: s("Tool"), args: vec![con("HttpGet", vec![])] };
    let ty = Ty::Forall(
        vec![],
        Box::new(Ty::Fn(vec![record_ty(vec![("url", string())])], Box::new(string()), vec![other, exn])),
    );
    let sig = ToolWireSig::from_fn(&ty).unwrap();
    assert_eq!(sig.args, record_ty(vec![("url", string())]));
    assert_eq!(sig.result, string());
    assert_eq!(sig.errors, vec![con("HttpError", vec![])]);
    assert!(ToolWireSig::from_fn(&Ty::Fn(vec![], Box::new(int_ty()), vec![])).is_none());
    assert!(ToolWireSig::from_fn(&int_ty()).is_none());
}

#[test]
fn record_builder_keeps_the_last_value_of_a_label() {
    let value = record(vec![("b", WireValue::Int(1)), ("a", WireValue::Int(2)), ("b", WireValue::Int(3))]);
    assert_eq!(encode_value(&value).unwrap(), "{\"a\":2,\"b\":3}");
}

#[test]
fn decode_error_renders_offset_and_message() {
    let err = decode_value("[1,", &list(int_ty()), &test_adts()).unwrap_err();
    assert!(err.render().starts_with("decode error at byte "));
}

#[test]
fn peek_tool_names_the_wrong_schema_version() {
    let bad = "{\"schema_version\":2,\"tool\":\"T\"}";
    let e = peek_tool(bad).unwrap_err();
    assert_eq!(e.offset, 19);
    assert_eq!(e.message, "unsupported schema_version 2, expected 1");
}

#[test]
fn emit_reports_the_timestamp_before_a_float() {
    let mut rec = sample_record();
    rec.args = record(vec![("x", WireValue::Float(s("NaN")))]);
    rec.timestamp = s("yesterday");
    let mut sink = JsonLinesSink::new();
    assert_eq!(sink.emit(&rec), Err(EncodeError::BadTimestamp(s("yesterday"))));
    assert_eq!(sink.as_str(), "");
    rec.timestamp = s("2026-05-22T12:00:00.000Z");
    assert_eq!(sink.emit(&rec), Err(EncodeError::NonFiniteFloat));
    assert_eq!(sink.as_str(), "");
}

#[test]
fn record_labels_must_ascend() {
    let sorted = record(vec![("b", WireValue::Int(1)), ("a", WireValue::Int(2))]);
    assert!(sorted.is_well_formed());
    let unsorted = WireValue::Record(vec![(s("b"), WireValue::Int(1)), (s("a"), WireValue::Int(2))]);
    assert!(!unsorted.is_well_formed());
    let nested = WireValue::List(vec![unsorted]);
    assert!(!nested.is_well_formed());
}

#[test]
fn meta_keys_must_ascend() {
    let mut rec = sample_record();
    assert!(rec.is_well_formed());
    rec.meta = Some(vec![(s("b"), MetaValue::Int(1)), (s("a"), MetaValue::Int(2))]);
    assert!(!rec.is_well_formed());
    rec.meta = Some(vec![(s("a"), MetaValue::Object(vec![(s("y"), MetaValue::Null), (s("x"), MetaValue::Null)]))]);
    assert!(!rec.is_well_formed());
}

#[test]
fn decode_errors_name_their_place() {
    let e = peek_tool("{\"schema_version\":1,\"tool\":\"Rea").unwrap_err();
    assert_eq!(e.offset, 31);
    assert_eq!(e.message, "unterminated string");
    let e = decode_value("[1, x]", &con("List", vec![int_ty()]), &AdtTable::new()).unwrap_err();
    assert_eq!(e.offset, 4);
    assert_eq!(e.message, "expected a number");
    let e = decode_value("1.5", &int_ty(), &AdtTable::new()).unwrap_err();
    assert_eq!(e.offset, 3);
    assert_eq!(e.message, "`1.5` is not an integer");
    let e = decode_value("\"é\" x", &string(), &AdtTable::new()).unwrap_err();
    assert_eq!(e.offset, 5);
    assert_eq!(e.message, "trailing input after the value");
}
