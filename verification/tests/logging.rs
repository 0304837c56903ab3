use sysboost::clock::Timestamp;
use sysboost::ids::SessionId;
use sysboost::logging::{render_json, JsonLogger, LineWriter, LogEvent, LogField, LogLevel, LogSink, LogValue};

#[test]
fn logger_escapes_untrusted_text() {
    let mut logger = JsonLogger::new(Vec::<u8>::new());
    logger.emit(LogEvent::new(
        Timestamp::from_unix_millis(1),
        LogLevel::Info,
        "component",
        "event",
        "ok\"\n",
    ));
    let text = String::from_utf8(logger.writer().clone()).expect("UTF-8 log output");
    assert!(text.contains("\\\""));
    assert!(text.contains("\\n"));
}

#[test]
fn events_are_single_lines_of_json() {
    let mut event = LogEvent::new(
        Timestamp::from_unix_millis(12),
        LogLevel::Warn,
        "core",
        "start",
        "a\u{1}\tb",
    );
    event.session_id = Some(SessionId::from_bytes([0xab; 16]));
    event.fields.push(LogField { key: "count".to_string(), value: LogValue::Unsigned(3) });
    let line = render_json(&event);
    assert!(!line.contains('\n'));
    assert!(line.starts_with('{') && line.ends_with('}'));
    assert!(line.contains("a\\u0001\\tb"));
    assert!(line.contains(&"ab".repeat(16)));
}

struct BrokenWriter;

impl LineWriter for BrokenWriter {
    fn write_line(&mut self, _line: &str) -> bool {
        false
    }
}

#[test]
fn a_failed_write_is_remembered() {
    let mut logger = JsonLogger::new(BrokenWriter);
    assert!(!logger.failed());
    logger.emit(LogEvent::new(
        Timestamp::from_unix_millis(1),
        LogLevel::Error,
        "component",
        "event",
        "outcome",
    ));
    assert!(logger.failed());
}

struct FirstOnly {
    lines: usize,
}

impl LineWriter for FirstOnly {
    fn write_line(&mut self, _line: &str) -> bool {
        self.lines += 1;
        self.lines == 1
    }
}

#[test]
fn a_logger_that_failed_stays_so() {
    let event = || {
        LogEvent::new(
            Timestamp::from_unix_millis(1),
            LogLevel::Info,
            "component",
            "event",
            "outcome",
        )
    };
    let mut logger = JsonLogger::new(FirstOnly { lines: 0 });
    logger.emit(event());
    assert!(!logger.failed());
    logger.emit(event());
    assert!(logger.failed());
    logger.emit(event());
    assert!(logger.failed());
    assert_eq!(logger.writer().lines, 3);
}
