use hird_check::replay::{load_log, LoadErrorKind, ReplayCursor, ToolTable};
use hird_check::wire::encode::{encode_record, AuditSink, JsonLinesSink};
use hird_check::wire::replay::Divergence;
use hird_check::wire::schema::{AdtTable, ToolWireSig};
use hird_check::wire::value::{InvocationRecord, ToolResult, Ty, WireValue};

fn s(x: &str) -> String {
    String::from(x)
}

/// The `Ping : { n: Int } → Int` wire signature.
fn ping_sig() -> ToolWireSig {
    ToolWireSig {
        args: Ty::Record(vec![(s("n"), Ty::Con(s("Int"), vec![]))]),
        result: Ty::Con(s("Int"), vec![]),
        errors: vec![],
    }
}

/// A table declaring only `Ping`.
fn ping_table() -> ToolTable {
    let mut table = ToolTable::new();
    table.insert(s("Ping"), ping_sig());
    table
}

/// A recorded invocation of `tool` with args and result `n`.
fn ping_record(tool: &str, n: i64) -> InvocationRecord {
    InvocationRecord {
        tool: s(tool),
        args: WireValue::record(vec![(s("n"), WireValue::Int(n))]),
        result: ToolResult::Success(WireValue::Int(n)),
        timestamp: s("2026-05-22T12:00:00.000Z"),
        caller: s("M.f"),
        meta: None,
    }
}

/// `records` encoded as a JSON-lines log.
fn encode_log(records: &[InvocationRecord]) -> String {
    let mut out = String::new();
    for record in records {
        out.push_str(&encode_record(record).unwrap());
        out.push('\n');
    }
    out
}

#[test]
fn load_log_decodes_every_line() {
    let log = encode_log(&[ping_record("Ping", 1), ping_record("Ping", 2)]);
    let records = load_log(&log, &ping_table(), &AdtTable::new()).unwrap();
    assert_eq!(records, vec![ping_record("Ping", 1), ping_record("Ping", 2)]);
    assert_eq!(load_log("", &ping_table(), &AdtTable::new()).unwrap(), vec![], "an empty log loads empty");
}

#[test]
fn an_undeclared_tool_fails_with_its_line_number() {
    let log = encode_log(&[ping_record("Ping", 1), ping_record("Pong", 2)]);
    let err = load_log(&log, &ping_table(), &AdtTable::new()).unwrap_err();
    assert_eq!(err.line, 2);
    assert_eq!(err.kind, LoadErrorKind::UnknownTool(s("Pong")));
    assert_eq!(err.render(), "line 2: the log records tool `Pong`, which the program does not declare");
}

#[test]
fn a_malformed_line_fails_with_its_line_number() {
    let mut log = encode_log(&[ping_record("Ping", 1)]);
    log.push_str("not json\n");
    let err = load_log(&log, &ping_table(), &AdtTable::new()).unwrap_err();
    assert_eq!(err.line, 2);
    assert!(matches!(err.kind, LoadErrorKind::Decode(_)), "{}", err.render());
    assert!(err.render().starts_with("line 2: decode error"), "{}", err.render());
}

#[test]
fn the_cursor_advances_only_on_matches() {
    let log = vec![ping_record("Ping", 1), ping_record("Ping", 2)];
    let mut cursor = ReplayCursor::new(&log);
    assert_eq!((cursor.position(), cursor.remaining()), (0, 2));
    let report = cursor.offer("Pong", &log[0].args).unwrap_err();
    assert!(matches!(report.divergence, Divergence::ToolMismatch { .. }));
    assert_eq!(cursor.position(), 0, "a divergence must not advance");
    let result = cursor.offer("Ping", &log[0].args).unwrap();
    assert_eq!(result, &log[0].result);
    assert_eq!((cursor.position(), cursor.remaining()), (1, 1));
}

#[test]
fn crlf_logs_load_and_a_final_newline_is_optional() {
    let one = encode_record(&ping_record("Ping", 1)).unwrap();
    let two = encode_record(&ping_record("Ping", 2)).unwrap();
    let log = format!("{one}\r\n{two}");
    let records = load_log(&log, &ping_table(), &AdtTable::new()).unwrap();
    assert_eq!(records, vec![ping_record("Ping", 1), ping_record("Ping", 2)]);
}

#[test]
fn an_empty_line_in_the_middle_fails_to_decode() {
    let one = encode_record(&ping_record("Ping", 1)).unwrap();
    let log = format!("{one}\n\n{one}\n");
    let err = load_log(&log, &ping_table(), &AdtTable::new()).unwrap_err();
    assert_eq!(err.line, 2);
    assert!(matches!(err.kind, LoadErrorKind::Decode(_)));
}

#[test]
fn a_later_registration_replaces_an_earlier_one() {
    let mut table = ToolTable::new();
    table.insert(s("Ping"), ToolWireSig { args: Ty::Tuple(vec![]), result: Ty::Tuple(vec![]), errors: vec![] });
    table.insert(s("Ping"), ping_sig());
    assert_eq!(table.get("Ping"), Some(&ping_sig()));
    assert_eq!(table.get("Pong"), None);
}

#[test]
fn reports_render_what_diverged() {
    let log = vec![ping_record("Ping", 1)];
    let mut cursor = ReplayCursor::new(&log);
    let report = cursor.offer("Ping", &WireValue::record(vec![(s("n"), WireValue::Int(9))])).unwrap_err();
    assert_eq!(
        report.render(),
        "replay diverged at position 0 of 1: `Ping` matches but the args differ\n\
         \x20 expected: Ping {\"n\":1} (caller M.f)\n\
         \x20 offered:  Ping {\"n\":9}"
    );
    cursor.offer("Ping", &log[0].args).unwrap();
    let report = cursor.offer("Ping", &log[0].args).unwrap_err();
    assert_eq!(report.expected, None);
    assert_eq!(
        report.render(),
        "replay diverged at position 1 of 1: the log is exhausted\n  offered:  Ping {\"n\":1}"
    );
    assert_eq!(cursor.remaining(), 0);
}

#[test]
fn what_the_sink_records_replays_back() {
    let recorded = vec![ping_record("Ping", 3), ping_record("Ping", -4), ping_record("Ping", 5)];
    let mut sink = JsonLinesSink::new();
    for record in &recorded {
        sink.emit(record).unwrap();
    }
    let loaded = load_log(sink.as_str(), &ping_table(), &AdtTable::new()).unwrap();
    assert_eq!(loaded, recorded);
    let mut cursor = ReplayCursor::new(&loaded);
    for record in &recorded {
        assert_eq!(cursor.offer(&record.tool, &record.args).unwrap(), &record.result);
    }
    assert_eq!(cursor.remaining(), 0);
    let extra = cursor.offer("Ping", &recorded[0].args).unwrap_err();
    assert!(matches!(extra.divergence, Divergence::Exhausted { position: 3, .. }));
}

#[test]
fn a_changed_argument_diverges_at_its_position() {
    let log = vec![ping_record("Ping", 1), ping_record("Ping", 2)];
    let mut cursor = ReplayCursor::new(&log);
    cursor.offer("Ping", &log[0].args).unwrap();
    let other = ping_record("Ping", 9);
    let report = cursor.offer("Ping", &other.args).unwrap_err();
    assert!(matches!(report.divergence, Divergence::ArgsMismatch { position: 1, .. }));
    assert_eq!(cursor.position(), 1);
}

#[test]
fn unencodable_args_render_in_debug_form() {
    let log: Vec<InvocationRecord> = vec![];
    let mut cursor = ReplayCursor::new(&log);
    let args = WireValue::record(vec![
        (s("x"), WireValue::Float(s("NaN"))),
        (s("y"), WireValue::List(vec![WireValue::string(s("a\"b")), WireValue::Unit])),
        (s("z"), WireValue::ctor(s("Some"), vec![WireValue::Int(-3)])),
    ]);
    let report = cursor.offer("Ping", &args).unwrap_err();
    assert_eq!(
        report.render(),
        "replay diverged at position 0 of 0: the log is exhausted\n  offered:  Ping \
         Record({\"x\": Float(NaN), \"y\": List([String(\"a\\\"b\"), Unit]), \"z\": Ctor(\"Some\", [Int(-3)])})"
    );
}
