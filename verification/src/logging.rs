//! Structured log lines in JSON, with the fields in a fixed order.

use vstd::prelude::*;

use crate::clock::Timestamp;
use crate::ids::{BackendId, CapabilityId, MutationId, SessionId, TargetId};
use crate::text;

verus! {

/// How important a log event is.
#[derive(Clone, Copy, Debug, PartialEq, Eq, Structural)]
pub enum LogLevel {
    Trace,
    Info,
    Warn,
    Error,
}

/// The value of a field.
#[derive(Debug, PartialEq, Eq)]
pub enum LogValue {
    Text(String),
    Unsigned(u64),
    Bool(bool),
}

/// A field of an event.
#[derive(Debug, PartialEq, Eq)]
pub struct LogField {
    pub key: String,
    pub value: LogValue,
}

/// Something that is logged.
#[derive(Debug, PartialEq, Eq)]
pub struct LogEvent {
    pub timestamp: Timestamp,
    pub level: LogLevel,
    pub component: String,
    pub event: String,
    pub outcome: String,
    pub session_id: Option<SessionId>,
    pub mutation_id: Option<MutationId>,
    pub backend_id: Option<BackendId>,
    pub capability_id: Option<CapabilityId>,
    pub target_id: Option<TargetId>,
    pub fields: Vec<LogField>,
}

impl LogEvent {
    /// An event without identities and fields.
    pub fn new(
        timestamp: Timestamp,
        level: LogLevel,
        component: &str,
        event: &str,
        outcome: &str,
    ) -> (r: LogEvent)
        ensures
            r.timestamp == timestamp,
            r.level == level,
            r.component@ == component@,
            r.event@ == event@,
            r.outcome@ == outcome@,
            r.session_id is None,
            r.mutation_id is None,
            r.backend_id is None,
            r.capability_id is None,
            r.target_id is None,
            r.fields@.len() == 0,
    {
        LogEvent {
            timestamp,
            level,
            component: component.to_string(),
            event: event.to_string(),
            outcome: outcome.to_string(),
            session_id: None,
            mutation_id: None,
            backend_id: None,
            capability_id: None,
            target_id: None,
            fields: Vec::new(),
        }
    }
}

/// Where events go.
pub trait LogSink {
    fn emit(&mut self, event: LogEvent);
}

/// Where lines of text go.
pub trait LineWriter: Sized {
    /// Whether one line and its ending were added. A writer that does not say
    /// promises nothing.
    open spec fn grown(before: Self, after: Self, line: Seq<char>) -> bool {
        true
    }

    /// Whether a line could not be written, and what that left. A writer that does not
    /// say may fail at any time.
    open spec fn refused(before: Self, after: Self, line: Seq<char>) -> bool {
        true
    }

    /// Writes one line and its ending. Says whether that succeeded.
    fn write_line(&mut self, line: &str) -> (r: bool)
        ensures
            r ==> Self::grown(*old(self), *final(self), line@),
            !r ==> Self::refused(*old(self), *final(self), line@),
    ;
}

impl LineWriter for Vec<u8> {
    open spec fn grown(before: Vec<u8>, after: Vec<u8>, line: Seq<char>) -> bool {
        after@ == before@ + vstd::utf8::encode_utf8(line).push(0x0a)
    }

    open spec fn refused(before: Vec<u8>, after: Vec<u8>, line: Seq<char>) -> bool {
        false
    }

    fn write_line(&mut self, line: &str) -> (r: bool)
        ensures
            r,
    {
        let bytes = line.as_bytes();
        let ghost before = self@;
        for i in 0..bytes.len()
            invariant
                self@ == before + bytes@.take(i as int),
        {
            self.push(bytes[i]);
            assert(self@ =~= before + bytes@.take(i + 1));
        }
        self.push(0x0a);
        assert(self@ =~= before + bytes@.push(0x0a));
        true
    }
}

/// A character as it stands in a JSON string.
pub open spec fn escaped_char(c: char) -> Seq<char> {
    if c == '"' {
        seq!['\\', '"']
    } else if c == '\\' {
        seq!['\\', '\\']
    } else if c == '\n' {
        seq!['\\', 'n']
    } else if c == '\r' {
        seq!['\\', 'r']
    } else if c == '\t' {
        seq!['\\', 't']
    } else if text::is_control(c) {
        seq![
            '\\',
            'u',
            '0',
            '0',
            text::hex_char(c as u32 as nat / 16),
            text::hex_char(c as u32 as nat % 16),
        ]
    } else {
        seq![c]
    }
}

/// A text as it stands in a JSON string.
pub open spec fn escaped(s: Seq<char>) -> Seq<char>
    decreases s.len(),
{
    if s.len() == 0 {
        Seq::empty()
    } else {
        escaped(s.drop_last()) + escaped_char(s.last())
    }
}

/// A JSON string.
pub open spec fn quoted(s: Seq<char>) -> Seq<char> {
    seq!['"'] + escaped(s) + seq!['"']
}

/// The name of a level.
pub open spec fn level_text(level: LogLevel) -> Seq<char> {
    match level {
        LogLevel::Trace => "trace"@,
        LogLevel::Info => "info"@,
        LogLevel::Warn => "warn"@,
        LogLevel::Error => "error"@,
    }
}

/// A value in JSON.
pub open spec fn value_text(value: LogValue) -> Seq<char> {
    match value {
        LogValue::Text(value) => quoted(value@),
        LogValue::Unsigned(value) => text::decimal_spec(value as nat),
        LogValue::Bool(value) => if value {
            "true"@
        } else {
            "false"@
        },
    }
}

/// Fields in JSON, each with a comma in front.
pub open spec fn fields_text(fields: Seq<LogField>) -> Seq<char>
    decreases fields.len(),
{
    if fields.len() == 0 {
        Seq::empty()
    } else {
        fields_text(fields.drop_last()) + seq![','] + quoted(fields.last().key@) + seq![':']
            + value_text(fields.last().value)
    }
}

/// An identity with its label, where there is one.
pub open spec fn labelled(label: Seq<char>, value: Option<Seq<char>>) -> Seq<char> {
    match value {
        Some(value) => label + value,
        None => Seq::empty(),
    }
}

/// An event in JSON.
pub open spec fn json_spec(event: LogEvent) -> Seq<char> {
    "{\"timestamp_ms\":"@ + text::decimal_spec(event.timestamp.millis as nat) + ",\"level\":"@
        + quoted(level_text(event.level)) + ",\"component\":"@ + quoted(event.component@)
        + ",\"event\":"@ + quoted(event.event@) + ",\"outcome\":"@ + quoted(event.outcome@)
        + labelled(
        ",\"session_id\":"@,
        match event.session_id {
            Some(id) => Some(quoted(text::hex_spec(id.bytes@))),
            None => None,
        },
    ) + labelled(
        ",\"mutation_id\":"@,
        match event.mutation_id {
            Some(id) => Some(text::decimal_spec(id.value as nat)),
            None => None,
        },
    ) + labelled(
        ",\"backend_id\":"@,
        match event.backend_id {
            Some(id) => Some(quoted(id@)),
            None => None,
        },
    ) + labelled(
        ",\"capability_id\":"@,
        match event.capability_id {
            Some(id) => Some(quoted(id@)),
            None => None,
        },
    ) + labelled(
        ",\"target_id\":"@,
        match event.target_id {
            Some(id) => Some(quoted(id@)),
            None => None,
        },
    ) + fields_text(event.fields@) + seq!['}']
}

/// Whether a text holds no control character; such a text is one line.
#[verifier::opaque]
pub open spec fn one_line(s: Seq<char>) -> bool {
    forall|i: int| 0 <= i < s.len() ==> !text::is_control(#[trigger] s[i])
}

fn hex_digit(n: u32) -> (r: char)
    requires
        n < 16,
    ensures
        r == text::hex_char(n as nat),
{
    if n < 10 {
        (48u8 + n as u8) as char
    } else {
        (97u8 + (n as u8 - 10)) as char
    }
}

fn push_string(output: &mut String, value: &str)
    ensures
        final(output)@ == old(output)@ + quoted(value@),
{
    let ghost before = output@;
    output.push('"');
    assert(output@ =~= before + seq!['"'] + escaped(value@.take(0)));
    for c in it: value.chars()
        invariant
            it.seq() == value@,
            output@ == before + seq!['"'] + escaped(value@.take(it.index())),
    {
        let ghost i = it.index();
        assert(c == value@[i]);
        assert(value@.take(i + 1).drop_last() =~= value@.take(i));
        assert(value@.take(i + 1).last() == c);
        let ghost sofar = output@;
        if c == '"' {
            output.push('\\');
            output.push('"');
        } else if c == '\\' {
            output.push('\\');
            output.push('\\');
        } else if c == '\n' {
            output.push('\\');
            output.push('n');
        } else if c == '\r' {
            output.push('\\');
            output.push('r');
        } else if c == '\t' {
            output.push('\\');
            output.push('t');
        } else if text::control(c) {
            let n: u32 = c as u32;
            output.push('\\');
            output.push('u');
            output.push('0');
            output.push('0');
            output.push(hex_digit(n / 16));
            output.push(hex_digit(n % 16));
        } else {
            output.push(c);
        }
        assert(output@ =~= sofar + escaped_char(c));
        assert(output@ =~= before + seq!['"'] + escaped(value@.take(i + 1)));
    }
    assert(value@.take(value@.len() as int) =~= value@);
    output.push('"');
    assert(output@ =~= before + quoted(value@));
}

/// The name of a level.
pub fn level_name(level: LogLevel) -> (r: &'static str)
    ensures
        r@ == level_text(level),
{
    match level {
        LogLevel::Trace => "trace",
        LogLevel::Info => "info",
        LogLevel::Warn => "warn",
        LogLevel::Error => "error",
    }
}

fn push_fields(output: &mut String, fields: &Vec<LogField>)
    ensures
        final(output)@ == old(output)@ + fields_text(fields@),
{
    let ghost before = output@;
    assert(before + fields_text(fields@.take(0)) =~= before);
    let mut i: usize = 0;
    while i < fields.len()
        invariant
            i <= fields@.len(),
            output@ == before + fields_text(fields@.take(i as int)),
        decreases fields@.len() - i,
    {
        let field = &fields[i];
        let ghost sofar = output@;
        assert(fields@.take(i + 1).drop_last() =~= fields@.take(i as int));
        output.push(',');
        push_string(output, field.key.as_str());
        output.push(':');
        match &field.value {
            LogValue::Text(value) => push_string(output, value.as_str()),
            LogValue::Unsigned(value) => {
                let number = text::decimal(*value as u128);
                output.append(number.as_str());
            },
            LogValue::Bool(value) => output.append(
                if *value {
                    "true"
                } else {
                    "false"
                },
            ),
        }
        assert(output@ =~= sofar + seq![','] + quoted(field.key@) + seq![':'] + value_text(
            field.value,
        ));
        assert(output@ =~= before + fields_text(fields@.take(i + 1)));
        i = i + 1;
    }
    assert(fields@.take(i as int) =~= fields@);
}

fn push_labelled(output: &mut String, label: &str, value: Option<&str>)
    ensures
        final(output)@ == old(output)@ + labelled(
            label@,
            match value {
                Some(value) => Some(quoted(value@)),
                None => None,
            },
        ),
{
    let ghost before = output@;
    if let Some(value) = value {
        output.append(label);
        push_string(output, value);
    }
    assert(output@ =~= before + labelled(
        label@,
        match value {
            Some(value) => Some(quoted(value@)),
            None => None,
        },
    ));
}

/// An event as one line of JSON.
pub fn render_json(event: &LogEvent) -> (r: String)
    ensures
        r@ == json_spec(*event),
{
    let mut output = "{\"timestamp_ms\":".to_string();
    let time = text::decimal(event.timestamp.millis);
    output.append(time.as_str());
    output.append(",\"level\":");
    push_string(&mut output, level_name(event.level));
    output.append(",\"component\":");
    push_string(&mut output, event.component.as_str());
    output.append(",\"event\":");
    push_string(&mut output, event.event.as_str());
    output.append(",\"outcome\":");
    push_string(&mut output, event.outcome.as_str());
    match &event.session_id {
        Some(id) => {
            let hex = text::hex(&id.bytes);
            push_labelled(&mut output, ",\"session_id\":", Some(hex.as_str()));
        },
        None => push_labelled(&mut output, ",\"session_id\":", None),
    }
    let ghost sofar = output@;
    if let Some(id) = &event.mutation_id {
        output.append(",\"mutation_id\":");
        let number = text::decimal(id.value as u128);
        output.append(number.as_str());
    }
    assert(output@ =~= sofar + labelled(
        ",\"mutation_id\":"@,
        match event.mutation_id {
            Some(id) => Some(text::decimal_spec(id.value as nat)),
            None => None,
        },
    ));
    match &event.backend_id {
        Some(id) => push_labelled(&mut output, ",\"backend_id\":", Some(id.as_str())),
        None => push_labelled(&mut output, ",\"backend_id\":", None),
    }
    match &event.capability_id {
        Some(id) => push_labelled(&mut output, ",\"capability_id\":", Some(id.as_str())),
        None => push_labelled(&mut output, ",\"capability_id\":", None),
    }
    match &event.target_id {
        Some(id) => push_labelled(&mut output, ",\"target_id\":", Some(id.as_str())),
        None => push_labelled(&mut output, ",\"target_id\":", None),
    }
    push_fields(&mut output, &event.fields);
    output.push('}');
    assert(output@ =~= json_spec(*event));
    output
}

proof fn lemma_joined_line(a: Seq<char>, b: Seq<char>)
    requires
        one_line(a),
        one_line(b),
    ensures
        one_line(a + b),
{
    reveal(one_line);
}

proof fn lemma_hex_line(n: nat)
    requires
        n < 16,
    ensures
        !text::is_control(text::hex_char(n)),
{
    let c = text::hex_char(n);
    if n < 10 {
        assert(c as u32 == 0x30 + n);
    } else {
        assert(c as u32 == 0x61 + n - 10);
    }
}

proof fn lemma_escaped_line(s: Seq<char>)
    ensures
        one_line(escaped(s)),
    decreases s.len(),
{
    assert(one_line(Seq::<char>::empty())) by {
        reveal(one_line);
    }
    if s.len() > 0 {
        lemma_escaped_line(s.drop_last());
        let c = s.last();
        if text::is_control(c) {
            assert(c as u32 as nat / 16 < 16);
            assert(c as u32 as nat % 16 < 16);
            lemma_hex_line(c as u32 as nat / 16);
            lemma_hex_line(c as u32 as nat % 16);
        }
        assert(one_line(escaped_char(c))) by {
            reveal(one_line);
        }
        lemma_joined_line(escaped(s.drop_last()), escaped_char(c));
    }
}

proof fn lemma_quoted_line(s: Seq<char>)
    ensures
        one_line(quoted(s)),
{
    lemma_escaped_line(s);
    assert(one_line(seq!['"'])) by {
        reveal(one_line);
    }
    lemma_joined_line(seq!['"'], escaped(s));
    lemma_joined_line(seq!['"'] + escaped(s), seq!['"']);
}

proof fn lemma_decimal_line(n: nat)
    ensures
        one_line(text::decimal_spec(n)),
{
    reveal(one_line);
    text::lemma_decimal(n);
    let s = text::decimal_spec(n);
    assert forall|i: int| 0 <= i < s.len() implies !text::is_control(#[trigger] s[i]) by {
        assert(text::is_digit(s[i]));
    }
}

proof fn lemma_fields_line(fields: Seq<LogField>)
    ensures
        one_line(fields_text(fields)),
    decreases fields.len(),
{
    assert(one_line(Seq::<char>::empty()) && one_line(seq![',']) && one_line(seq![':'])) by {
        reveal(one_line);
    }
    if fields.len() > 0 {
        let rest = fields_text(fields.drop_last());
        let field = fields.last();
        lemma_fields_line(fields.drop_last());
        lemma_quoted_line(field.key@);
        match field.value {
            LogValue::Text(value) => lemma_quoted_line(value@),
            LogValue::Unsigned(value) => lemma_decimal_line(value as nat),
            LogValue::Bool(_) => {
                reveal_strlit("true");
                reveal_strlit("false");
                reveal(one_line);
            },
        }
        lemma_joined_line(rest, seq![',']);
        lemma_joined_line(rest + seq![','], quoted(field.key@));
        lemma_joined_line(rest + seq![','] + quoted(field.key@), seq![':']);
        lemma_joined_line(
            rest + seq![','] + quoted(field.key@) + seq![':'],
            value_text(field.value),
        );
    }
}

proof fn lemma_labelled_line(label: Seq<char>, value: Option<Seq<char>>)
    requires
        one_line(label),
        value is Some ==> one_line(value->0),
    ensures
        one_line(labelled(label, value)),
{
    match value {
        Some(value) => lemma_joined_line(label, value),
        None => {
            reveal(one_line);
        },
    }
}

proof fn lemma_labels()
    ensures
        one_line("{\"timestamp_ms\":"@),
        one_line(",\"level\":"@),
        one_line(",\"component\":"@),
        one_line(",\"event\":"@),
        one_line(",\"outcome\":"@),
        one_line(",\"session_id\":"@),
        one_line(",\"mutation_id\":"@),
        one_line(",\"backend_id\":"@),
        one_line(",\"capability_id\":"@),
        one_line(",\"target_id\":"@),
        one_line(seq!['}']),
{
    reveal(one_line);
    reveal_strlit("{\"timestamp_ms\":");
    reveal_strlit(",\"level\":");
    reveal_strlit(",\"component\":");
    reveal_strlit(",\"event\":");
    reveal_strlit(",\"outcome\":");
    reveal_strlit(",\"session_id\":");
    reveal_strlit(",\"mutation_id\":");
    reveal_strlit(",\"backend_id\":");
    reveal_strlit(",\"capability_id\":");
    reveal_strlit(",\"target_id\":");
}

/// Whatever text an event holds, it is logged as one line.
pub proof fn events_are_one_line(event: LogEvent)
    ensures
        one_line(json_spec(event)),
{
    lemma_labels();
    let time = text::decimal_spec(event.timestamp.millis as nat);
    let level = quoted(level_text(event.level));
    let component = quoted(event.component@);
    let name = quoted(event.event@);
    let outcome = quoted(event.outcome@);
    let session = match event.session_id {
        Some(id) => Some(quoted(text::hex_spec(id.bytes@))),
        None => None,
    };
    let mutation = match event.mutation_id {
        Some(id) => Some(text::decimal_spec(id.value as nat)),
        None => None,
    };
    let backend = match event.backend_id {
        Some(id) => Some(quoted(id@)),
        None => None,
    };
    let capability = match event.capability_id {
        Some(id) => Some(quoted(id@)),
        None => None,
    };
    let target = match event.target_id {
        Some(id) => Some(quoted(id@)),
        None => None,
    };
    lemma_decimal_line(event.timestamp.millis as nat);
    lemma_quoted_line(level_text(event.level));
    lemma_quoted_line(event.component@);
    lemma_quoted_line(event.event@);
    lemma_quoted_line(event.outcome@);
    match event.session_id {
        Some(id) => lemma_quoted_line(text::hex_spec(id.bytes@)),
        None => {},
    }
    match event.mutation_id {
        Some(id) => lemma_decimal_line(id.value as nat),
        None => {},
    }
    match event.backend_id {
        Some(id) => lemma_quoted_line(id@),
        None => {},
    }
    match event.capability_id {
        Some(id) => lemma_quoted_line(id@),
        None => {},
    }
    match event.target_id {
        Some(id) => lemma_quoted_line(id@),
        None => {},
    }
    lemma_fields_line(event.fields@);
    lemma_labelled_line(",\"session_id\":"@, session);
    lemma_labelled_line(",\"mutation_id\":"@, mutation);
    lemma_labelled_line(",\"backend_id\":"@, backend);
    lemma_labelled_line(",\"capability_id\":"@, capability);
    lemma_labelled_line(",\"target_id\":"@, target);
    let s1 = "{\"timestamp_ms\":"@;
    lemma_joined_line(s1, time);
    let s2 = s1 + time;
    lemma_joined_line(s2, ",\"level\":"@);
    let s3 = s2 + ",\"level\":"@;
    lemma_joined_line(s3, level);
    let s4 = s3 + level;
    lemma_joined_line(s4, ",\"component\":"@);
    let s5 = s4 + ",\"component\":"@;
    lemma_joined_line(s5, component);
    let s6 = s5 + component;
    lemma_joined_line(s6, ",\"event\":"@);
    let s7 = s6 + ",\"event\":"@;
    lemma_joined_line(s7, name);
    let s8 = s7 + name;
    lemma_joined_line(s8, ",\"outcome\":"@);
    let s9 = s8 + ",\"outcome\":"@;
    lemma_joined_line(s9, outcome);
    let s10 = s9 + outcome;
    let l1 = labelled(",\"session_id\":"@, session);
    lemma_joined_line(s10, l1);
    let s11 = s10 + l1;
    let l2 = labelled(",\"mutation_id\":"@, mutation);
    lemma_joined_line(s11, l2);
    let s12 = s11 + l2;
    let l3 = labelled(",\"backend_id\":"@, backend);
    lemma_joined_line(s12, l3);
    let s13 = s12 + l3;
    let l4 = labelled(",\"capability_id\":"@, capability);
    lemma_joined_line(s13, l4);
    let s14 = s13 + l4;
    let l5 = labelled(",\"target_id\":"@, target);
    lemma_joined_line(s14, l5);
    let s15 = s14 + l5;
    lemma_joined_line(s15, fields_text(event.fields@));
    let s16 = s15 + fields_text(event.fields@);
    lemma_joined_line(s16, seq!['}']);
}

/// A logger that writes one line of JSON for each event.
pub struct JsonLogger<W> {
    writer: W,
    failed: bool,
    /// Which lines could be written, in turn.
    answers: Ghost<Seq<bool>>,
}

impl<W: LineWriter> JsonLogger<W> {
    pub closed spec fn has_failed(&self) -> bool {
        self.failed
    }

    pub closed spec fn target(&self) -> W {
        self.writer
    }

    /// What the writer said to each line: whether it could be written.
    pub closed spec fn answers(&self) -> Seq<bool> {
        self.answers@
    }

    pub fn new(writer: W) -> (r: JsonLogger<W>)
        ensures
            r.target() == writer,
            r.answers() == Seq::<bool>::empty(),
            !r.has_failed(),
    {
        JsonLogger { writer, failed: false, answers: Ghost(Seq::empty()) }
    }

    /// Whether a line could not be written. Nothing else depends on it.
    pub fn failed(&self) -> (r: bool)
        ensures
            r == self.has_failed(),
    {
        self.failed
    }

    /// What was written to.
    pub fn writer(&self) -> (r: &W)
        ensures
            *r == self.target(),
    {
        &self.writer
    }
}

/// Whether a logger is left so by an event: the writer was given its line, and a refusal
/// sets the flag, which nothing clears.
pub open spec fn emitted<W: LineWriter>(
    before: JsonLogger<W>,
    event: LogEvent,
    after: JsonLogger<W>,
) -> bool {
    let written = after.answers().last();
    let line = json_spec(event);
    &&& after.answers() == before.answers().push(written)
    &&& written ==> W::grown(before.target(), after.target(), line)
    &&& !written ==> W::refused(before.target(), after.target(), line)
    &&& after.has_failed() == (before.has_failed() || !written)
}

impl<W: LineWriter> LogSink for JsonLogger<W> {
    fn emit(&mut self, event: LogEvent)
        ensures
            emitted(*old(self), event, *final(self)),
    {
        let line = render_json(&event);
        let written = self.writer.write_line(line.as_str());
        if !written {
            self.failed = true;
        }
        proof {
            self.answers@ = self.answers@.push(written);
        }
    }
}

/// After any events, a new logger has failed exactly if one of their lines was refused,
/// and once it has failed it stays so.
pub proof fn failures_are_remembered<W: LineWriter>(
    loggers: Seq<JsonLogger<W>>,
    events: Seq<LogEvent>,
    k: int,
)
    requires
        loggers.len() == events.len() + 1,
        loggers[0].answers() == Seq::<bool>::empty(),
        !loggers[0].has_failed(),
        forall|i: int|
            0 <= i < events.len() ==> emitted(loggers[i], #[trigger] events[i], loggers[i + 1]),
        0 <= k <= events.len(),
    ensures
        loggers[k].answers().len() == k,
        loggers[k].has_failed() <==> exists|i: int| 0 <= i < k && !loggers[k].answers()[i],
        forall|i: int|
            0 <= i < k ==> {
                &&& loggers[i + 1].answers().last() == #[trigger] loggers[k].answers()[i]
                &&& loggers[i].has_failed() ==> loggers[k].has_failed()
                &&& !loggers[k].answers()[i] ==> W::refused(
                    loggers[i].target(),
                    loggers[i + 1].target(),
                    json_spec(events[i]),
                )
                &&& loggers[k].answers()[i] ==> W::grown(
                    loggers[i].target(),
                    loggers[i + 1].target(),
                    json_spec(events[i]),
                )
            },
    decreases k,
{
    if k > 0 {
        failures_are_remembered(loggers, events, k - 1);
        assert(emitted(loggers[k - 1], events[k - 1], loggers[k]));
        let before = loggers[k - 1].answers();
        let after = loggers[k].answers();
        assert forall|i: int| 0 <= i < k - 1 implies after[i] == #[trigger] before[i] by {}
        if loggers[k - 1].has_failed() {
            let i = choose|i: int| 0 <= i < k - 1 && !before[i];
            assert(!after[i]);
        }
        if !after.last() {
            assert(!after[k - 1]);
        }
        if exists|i: int| 0 <= i < k && !after[i] {
            let i = choose|i: int| 0 <= i < k && !after[i];
            if i < k - 1 {
                assert(!before[i]);
            }
        }
        assert forall|i: int| 0 <= i < k implies {
            &&& loggers[i + 1].answers().last() == #[trigger] after[i]
            &&& loggers[i].has_failed() ==> loggers[k].has_failed()
            &&& !after[i] ==> W::refused(
                loggers[i].target(),
                loggers[i + 1].target(),
                json_spec(events[i]),
            )
            &&& after[i] ==> W::grown(
                loggers[i].target(),
                loggers[i + 1].target(),
                json_spec(events[i]),
            )
        } by {
            if i < k - 1 {
                assert(after[i] == before[i]);
            }
        }
    }
}

/// A level goes by its own name.
pub proof fn levels_go_by_their_names()
    ensures
        level_text(LogLevel::Trace) == "trace"@,
        level_text(LogLevel::Info) == "info"@,
        level_text(LogLevel::Warn) == "warn"@,
        level_text(LogLevel::Error) == "error"@,
{
}

} // verus!
