//! Bodies of upstream responses: plain JSON, or a stream of server-sent events.
use vstd::prelude::*;
use vstd::string::*;
use vstd::utf8::*;

use crate::http;
use crate::json;
use crate::json::{Json, JsonView};
use crate::text;

verus! {

/// One server-sent event.
#[derive(Debug)]
pub struct SseEvent {
    pub event_type: Option<String>,
    pub data_lines: Vec<String>,
}

/// What a server-sent event holds.
pub struct SseEventView {
    pub event_type: Option<Seq<char>>,
    pub data_lines: Seq<Seq<char>>,
}

impl View for SseEvent {
    type V = SseEventView;

    open spec fn view(&self) -> SseEventView {
        SseEventView {
            event_type: text::optional(self.event_type),
            data_lines: text::texts(self.data_lines@),
        }
    }
}

/// What the events of a list hold.
pub open spec fn event_views(events: Seq<SseEvent>) -> Seq<SseEventView> {
    events.map_values(|event: SseEvent| event@)
}

impl SseEventView {
    /// The data lines of the event, with line feeds between them.
    pub open spec fn data(self) -> Seq<char> {
        text::join(self.data_lines, "\n"@)
    }

    /// The type of the event; one that names none is a message.
    pub open spec fn kind(self) -> Seq<char> {
        match self.event_type {
            Some(kind) => kind,
            None => "message"@,
        }
    }
}

impl SseEvent {
    /// The data lines of the event, with line feeds between them.
    pub fn data(&self) -> (data: String)
        ensures
            data@ == self@.data(),
    {
        text::joined(&self.data_lines, "\n")
    }

    /// The type of the event; one that names none is a message.
    fn kind(&self) -> (kind: String)
        ensures
            kind@ == self@.kind(),
    {
        match &self.event_type {
            Some(kind) => kind.clone(),
            None => "message".to_owned(),
        }
    }
}

/// A stream that has been read in part: the events that are complete, and what there is of the
/// next one.
pub struct Reading {
    pub events: Seq<SseEventView>,
    pub event_type: Option<Seq<char>>,
    pub data_lines: Seq<Seq<char>>,
}

/// Nothing has been read.
pub open spec fn reading_nothing() -> Reading {
    Reading { events: Seq::empty(), event_type: None, data_lines: Seq::empty() }
}

/// Ends the event that is being read, if there is anything of it.
pub open spec fn end_event(reading: Reading) -> Reading {
    if reading.event_type is Some || reading.data_lines.len() > 0 {
        Reading {
            events: reading.events.push(
                SseEventView { event_type: reading.event_type, data_lines: reading.data_lines },
            ),
            event_type: None,
            data_lines: Seq::empty(),
        }
    } else {
        reading
    }
}

/// The field of a line and its value: what stands before the first colon, and what follows it
/// without one leading space.
pub open spec fn field_of(line: Seq<char>) -> (Seq<char>, Seq<char>) {
    match text::split_once(line, ":"@) {
        Some((field, value)) => match text::strip_prefix(value, " "@) {
            Some(rest) => (field, rest),
            None => (field, value),
        },
        None => (line, Seq::empty()),
    }
}

/// Reads one line: an empty one ends the event, a comment says nothing, `event` names the type
/// and `data` adds a data line; other fields say nothing.
pub open spec fn read_line(reading: Reading, raw_line: Seq<char>) -> Reading {
    let line = text::without_cr(raw_line);
    let (field, value) = field_of(line);
    if line.len() == 0 {
        end_event(reading)
    } else if line[0] == ':' {
        reading
    } else if field == "event"@ {
        Reading { event_type: Some(value), ..reading }
    } else if field == "data"@ {
        Reading { data_lines: reading.data_lines.push(value), ..reading }
    } else {
        reading
    }
}

/// Reads lines one after another.
pub open spec fn read_lines(lines: Seq<Seq<char>>) -> Reading
    decreases lines.len(),
{
    if lines.len() == 0 {
        reading_nothing()
    } else {
        read_line(read_lines(lines.drop_last()), lines.last())
    }
}

/// The events in the lines of a stream. The end of the stream ends the last one.
pub open spec fn events_in(lines: Seq<Seq<char>>) -> Seq<SseEventView> {
    end_event(read_lines(lines)).events
}

/// Ends the event that is being read, if there is anything of it.
pub fn push_sse_event(
    events: &mut Vec<SseEvent>,
    event_type: &mut Option<String>,
    data_lines: &mut Vec<String>,
)
    ensures
        ({
            let before = Reading {
                events: event_views(old(events)@),
                event_type: text::optional(*old(event_type)),
                data_lines: text::texts(old(data_lines)@),
            };
            let after = Reading {
                events: event_views(final(events)@),
                event_type: text::optional(*final(event_type)),
                data_lines: text::texts(final(data_lines)@),
            };
            after == end_event(before)
        }),
{
    if event_type.is_some() || data_lines.len() > 0 {
        let mut lines: Vec<String> = Vec::new();
        std::mem::swap(&mut lines, data_lines);
        let event = SseEvent { event_type: event_type.take(), data_lines: lines };
        let ghost before = event_views(events@);
        events.push(event);
        assert(event_views(events@) =~= before.push(event@));
        assert(text::texts(data_lines@) =~= Seq::empty());
    }
}

/// The events in the lines of a stream.
pub fn collect_sse_lines(lines: &Vec<String>) -> (events: Vec<SseEvent>)
    ensures
        event_views(events@) == events_in(text::texts(lines@)),
{
    let mut events: Vec<SseEvent> = Vec::new();
    let mut event_type: Option<String> = None;
    let mut data_lines: Vec<String> = Vec::new();
    let ghost all = text::texts(lines@);
    let mut i: usize = 0;
    assert(event_views(events@) =~= Seq::empty());
    assert(text::texts(data_lines@) =~= Seq::empty());
    while i < lines.len()
        invariant
            i <= lines@.len(),
            all == text::texts(lines@),
            read_lines(all.take(i as int)) == (Reading {
                events: event_views(events@),
                event_type: text::optional(event_type),
                data_lines: text::texts(data_lines@),
            }),
        decreases lines@.len() - i,
    {
        let ghost raw = all[i as int];
        let ghost reading = read_lines(all.take(i as int));
        assert(all.take(i + 1).drop_last() =~= all.take(i as int));
        assert(read_lines(all.take(i + 1)) == read_line(reading, raw));
        let chars = text::chars_of(lines[i].as_str());
        i += 1;
        let mut end: usize = chars.len();
        if end > 0 && chars[end - 1] == '\r' {
            end -= 1;
        }
        let line = text::text_between(&chars, 0, end);
        assert(line@ =~= text::without_cr(raw));
        if end == 0 {
            push_sse_event(&mut events, &mut event_type, &mut data_lines);
            continue;
        }
        if chars[0] == ':' {
            continue;
        }
        let (field, value) = split_field(line.as_str());
        if text::same_text(field.as_str(), "event") {
            event_type = Some(value);
        } else if text::same_text(field.as_str(), "data") {
            let ghost before = text::texts(data_lines@);
            data_lines.push(value);
            assert(text::texts(data_lines@) =~= before.push(value@));
        }
    }
    assert(all.take(i as int) =~= all);
    push_sse_event(&mut events, &mut event_type, &mut data_lines);
    events
}

/// The field of a line and its value.
fn split_field(line: &str) -> (parts: (String, String))
    ensures
        (parts.0@, parts.1@) == field_of(line@),
{
    match text::split_text_once(line, ":") {
        Some((field, value)) => match text::text_after_prefix(value.as_str(), " ") {
            Some(rest) => (field, rest),
            None => (field, value),
        },
        None => (line.to_owned(), String::new()),
    }
}

/// The events of a stream.
pub fn collect_sse_events(text: &str) -> (events: Vec<SseEvent>)
    ensures
        event_views(events@) == events_in(text::lines(text@)),
{
    collect_sse_lines(&text::lines_of(text))
}

/// The lines that do not begin with `event:`.
pub open spec fn without_event_lines(lines: Seq<Seq<char>>) -> Seq<Seq<char>> {
    lines.filter(|line: Seq<char>| !"event:"@.is_prefix_of(line))
}

/// The lines that do not begin with `event:`.
fn strip_event_lines(lines: Vec<String>) -> (kept: Vec<String>)
    ensures
        text::texts(kept@) == without_event_lines(text::texts(lines@)),
{
    let ghost all = text::texts(lines@);
    let ghost keep = |line: Seq<char>| !"event:"@.is_prefix_of(line);
    let mut kept: Vec<String> = Vec::new();
    let mut i: usize = 0;
    assert(text::texts(kept@) =~= all.take(0).filter(keep)) by {
        reveal(Seq::filter);
    }
    while i < lines.len()
        invariant
            i <= lines@.len(),
            all == text::texts(lines@),
            keep == (|line: Seq<char>| !"event:"@.is_prefix_of(line)),
            text::texts(kept@) == all.take(i as int).filter(keep),
        decreases lines@.len() - i,
    {
        let ghost before = text::texts(kept@);
        assert(all.take(i + 1) =~= all.take(i as int).push(all[i as int]));
        proof {
            reveal(Seq::filter);
            assert(all.take(i + 1).drop_last() =~= all.take(i as int));
        }
        if !text::starts_with(lines[i].as_str(), "event:") {
            kept.push(lines[i].clone());
            assert(text::texts(kept@) =~= before.push(all[i as int]));
        }
        i += 1;
    }
    assert(all.take(i as int) =~= all);
    kept
}

/// Which event of a stream is the answer.
#[derive(Debug)]
pub enum SseChoice {
    /// A message, with its data.
    Message(String),
    /// An event of another type, with its type and its data.
    Custom(String, String),
    /// An error event, with its data.
    Failure(String),
    /// No event holds an answer.
    Nothing,
}

/// Which event of a stream is the answer, as mathematics.
pub enum SseChoiceView {
    Message(Seq<char>),
    Custom(Seq<char>, Seq<char>),
    Failure(Seq<char>),
    Nothing,
}

impl View for SseChoice {
    type V = SseChoiceView;

    open spec fn view(&self) -> SseChoiceView {
        match *self {
            SseChoice::Message(data) => SseChoiceView::Message(data@),
            SseChoice::Custom(kind, data) => SseChoiceView::Custom(kind@, data@),
            SseChoice::Failure(data) => SseChoiceView::Failure(data@),
            SseChoice::Nothing => SseChoiceView::Nothing,
        }
    }
}

/// Does the event carry data that may be an answer? Empty data, the end mark and keep-alive
/// events do not.
pub open spec fn has_answer(event: SseEventView) -> bool {
    let data = text::trim(event.data());
    let kind = event.kind();
    data.len() > 0 && data != "[DONE]"@ && kind != "ping"@ && kind != "keepalive"@ && kind
        != "heartbeat"@
}

/// The answer among the events from place `i` on, where `other` is the first event of another
/// type that came before them: the first message or error, whichever comes first, else the first
/// event of another type.
pub open spec fn choose_from(
    events: Seq<SseEventView>,
    i: int,
    other: Option<SseEventView>,
) -> SseChoiceView
    decreases events.len() - i,
{
    if i < 0 || i >= events.len() {
        match other {
            Some(event) => SseChoiceView::Custom(event.kind(), text::trim(event.data())),
            None => SseChoiceView::Nothing,
        }
    } else {
        let event = events[i];
        if !has_answer(event) {
            choose_from(events, i + 1, other)
        } else if event.kind() == "message"@ {
            SseChoiceView::Message(text::trim(event.data()))
        } else if event.kind() == "error"@ {
            SseChoiceView::Failure(text::trim(event.data()))
        } else if other is None {
            choose_from(events, i + 1, Some(event))
        } else {
            choose_from(events, i + 1, other)
        }
    }
}

/// Which event is the answer.
pub fn choose_sse_event(events: &Vec<SseEvent>) -> (choice: SseChoice)
    ensures
        choice@ == choose_from(event_views(events@), 0, None),
{
    let ghost all = event_views(events@);
    let mut other: Option<usize> = None;
    let mut i: usize = 0;
    while i < events.len()
        invariant
            i <= events@.len(),
            all == event_views(events@),
            other matches Some(k) ==> k < events@.len(),
            choose_from(all, 0, None) == choose_from(
                all,
                i as int,
                match other {
                    Some(k) => Some(all[k as int]),
                    None => None,
                },
            ),
        decreases events@.len() - i,
    {
        let event = &events[i];
        let here = i;
        assert(all[i as int] == event@);
        let kind = event.kind();
        let data = text::trimmed(event.data().as_str());
        i += 1;
        if data.as_str().is_empty() || text::same_text(data.as_str(), "[DONE]") {
            continue;
        }
        if text::same_text(kind.as_str(), "ping") || text::same_text(kind.as_str(), "keepalive")
            || text::same_text(kind.as_str(), "heartbeat") {
            continue;
        }
        if text::same_text(kind.as_str(), "message") {
            return SseChoice::Message(data);
        }
        if text::same_text(kind.as_str(), "error") {
            return SseChoice::Failure(data);
        }
        if other.is_none() {
            other = Some(here);
        }
    }
    match other {
        Some(k) => {
            let event = &events[k];
            SseChoice::Custom(event.kind(), text::trimmed(event.data().as_str()))
        },
        None => SseChoice::Nothing,
    }
}

/// Why a body holds no answer.
#[derive(Debug, PartialEq)]
pub enum BodyError {
    NotUtf8,
    NotJson,
    MessageNotJson,
    EventNotJson(String),
    ErrorEvent(String),
    NoDataEvent,
}

/// Why a body holds no answer, as mathematics.
pub enum BodyFault {
    NotUtf8,
    NotJson,
    MessageNotJson,
    EventNotJson(Seq<char>),
    ErrorEvent(Seq<char>),
    NoDataEvent,
}

impl View for BodyError {
    type V = BodyFault;

    open spec fn view(&self) -> BodyFault {
        match *self {
            BodyError::NotUtf8 => BodyFault::NotUtf8,
            BodyError::NotJson => BodyFault::NotJson,
            BodyError::MessageNotJson => BodyFault::MessageNotJson,
            BodyError::EventNotJson(kind) => BodyFault::EventNotJson(kind@),
            BodyError::ErrorEvent(data) => BodyFault::ErrorEvent(data@),
            BodyError::NoDataEvent => BodyFault::NoDataEvent,
        }
    }
}

/// Why a body holds no answer, in words.
pub open spec fn body_fault_text(fault: BodyFault) -> Seq<char> {
    match fault {
        BodyFault::NotUtf8 => "response body is not utf-8"@,
        BodyFault::NotJson => "response body is not valid JSON"@,
        BodyFault::MessageNotJson => "SSE message data is not valid JSON"@,
        BodyFault::EventNotJson(kind) => "SSE event '"@ + kind + "' data is not valid JSON"@,
        BodyFault::ErrorEvent(data) => "SSE error event: "@ + data,
        BodyFault::NoDataEvent => "SSE response had no data event"@,
    }
}

impl BodyError {
    /// Why the body holds no answer, in words.
    pub fn message(&self) -> (message: String)
        ensures
            message@ == body_fault_text(self@),
    {
        match self {
            BodyError::NotUtf8 => "response body is not utf-8".to_owned(),
            BodyError::NotJson => "response body is not valid JSON".to_owned(),
            BodyError::MessageNotJson => "SSE message data is not valid JSON".to_owned(),
            BodyError::EventNotJson(kind) => {
                let mut message = "SSE event '".to_owned();
                message.append(kind.as_str());
                message.append("' data is not valid JSON");
                message
            },
            BodyError::ErrorEvent(data) => {
                let mut message = "SSE error event: ".to_owned();
                message.append(data.as_str());
                message
            },
            BodyError::NoDataEvent => "SSE response had no data event".to_owned(),
        }
    }
}

/// What a body holds, or why it holds nothing.
pub open spec fn body_view(body: Result<Json, BodyError>) -> Result<JsonView, BodyFault> {
    match body {
        Ok(value) => Ok(value@),
        Err(error) => Err(error@),
    }
}

/// The JSON text in a body, and what is wrong with the body if that text is not JSON.
#[derive(Debug)]
pub struct JsonSource {
    pub text: String,
    pub blame: BodyError,
}

/// The JSON text in a body, as mathematics.
pub struct JsonSourceView {
    pub text: Seq<char>,
    pub blame: BodyFault,
}

impl View for JsonSource {
    type V = JsonSourceView;

    open spec fn view(&self) -> JsonSourceView {
        JsonSourceView { text: self.text@, blame: self.blame@ }
    }
}

/// The JSON text in a body, or why there is none.
pub open spec fn source_view(source: Result<JsonSource, BodyError>) -> Result<
    JsonSourceView,
    BodyFault,
> {
    match source {
        Ok(source) => Ok(source@),
        Err(error) => Err(error@),
    }
}

/// The JSON text in the chosen event.
pub open spec fn source_of(choice: SseChoiceView) -> Result<JsonSourceView, BodyFault> {
    match choice {
        SseChoiceView::Message(text) => Ok(
            JsonSourceView { text, blame: BodyFault::MessageNotJson },
        ),
        SseChoiceView::Custom(kind, text) => Ok(
            JsonSourceView { text, blame: BodyFault::EventNotJson(kind) },
        ),
        SseChoiceView::Failure(data) => Err(BodyFault::ErrorEvent(data)),
        SseChoiceView::Nothing => Err(BodyFault::NoDataEvent),
    }
}

/// The JSON text in a stream of events.
pub open spec fn sse_source(lines: Seq<Seq<char>>) -> Result<JsonSourceView, BodyFault> {
    source_of(choose_from(events_in(lines), 0, None))
}

/// The JSON text in a stream of events.
pub fn find_sse_json(events: &Vec<SseEvent>) -> (source: Result<JsonSource, BodyError>)
    ensures
        source_view(source) == source_of(choose_from(event_views(events@), 0, None)),
{
    match choose_sse_event(events) {
        SseChoice::Message(text) => Ok(JsonSource { text, blame: BodyError::MessageNotJson }),
        SseChoice::Custom(kind, text) => Ok(
            JsonSource { text, blame: BodyError::EventNotJson(kind) },
        ),
        SseChoice::Failure(data) => Err(BodyError::ErrorEvent(data)),
        SseChoice::Nothing => Err(BodyError::NoDataEvent),
    }
}

/// Is a body a stream of events? It is where its content type says so, or where it begins like
/// one.
pub open spec fn is_stream(content_type: Option<Seq<char>>, body: Seq<char>) -> bool {
    ||| content_type matches Some(kind) && text::contains(kind, "text/event-stream"@)
    ||| "event:"@.is_prefix_of(text::trim_start(body))
    ||| "data:"@.is_prefix_of(text::trim_start(body))
}

/// The JSON text in a body: that of an event where the body is a stream, otherwise the whole.
/// Where `normalize` is set, the `event:` lines of a stream do not count.
pub open spec fn body_source(
    normalize: bool,
    content_type: Option<Seq<char>>,
    bytes: Seq<u8>,
) -> Result<JsonSourceView, BodyFault> {
    if !valid_utf8(bytes) {
        Err(BodyFault::NotUtf8)
    } else {
        let body = decode_utf8(bytes);
        if !is_stream(content_type, body) {
            Ok(JsonSourceView { text: body, blame: BodyFault::NotJson })
        } else if normalize {
            sse_source(without_event_lines(text::lines(body)))
        } else {
            sse_source(text::lines(body))
        }
    }
}

/// The JSON text in a body.
pub fn find_json(normalize: bool, content_type: Option<&str>, bytes: &[u8]) -> (source: Result<
    JsonSource,
    BodyError,
>)
    ensures
        source_view(source) == body_source(normalize, json::text_option(content_type), bytes@),
{
    let body = match text::utf8_text(bytes) {
        Some(body) => body,
        None => return Err(BodyError::NotUtf8),
    };
    let trimmed = text::trimmed_start(body);
    let declared = match content_type {
        Some(kind) => text::contains_text(kind, "text/event-stream"),
        None => false,
    };
    if declared || text::starts_with(trimmed.as_str(), "event:") || text::starts_with(
        trimmed.as_str(),
        "data:",
    ) {
        if normalize {
            find_sse_json(&collect_sse_lines(&strip_event_lines(text::lines_of(body))))
        } else {
            find_sse_json(&collect_sse_events(body))
        }
    } else {
        Ok(JsonSource { text: body.to_owned(), blame: BodyError::NotJson })
    }
}

/// What a JSON text holds, where `parsed` is what the parser makes of it.
pub open spec fn answer_from(
    source: JsonSourceView,
    parsed: Result<JsonView, Seq<char>>,
) -> Result<JsonView, BodyFault> {
    match parsed {
        Ok(value) => Ok(value),
        Err(_) => Err(source.blame),
    }
}

/// What a JSON text holds, where `parsed` is what the parser makes of it.
pub fn read_source(source: JsonSource, parsed: Result<Json, String>) -> (body: Result<
    Json,
    BodyError,
>)
    ensures
        body_view(body) == answer_from(source@, json::parsed_view(parsed)),
{
    match parsed {
        Ok(value) => Ok(value),
        Err(_) => Err(source.blame),
    }
}

/// What the JSON text in a body holds.
pub open spec fn answer_in(source: Result<JsonSourceView, BodyFault>) -> Result<
    JsonView,
    BodyFault,
> {
    match source {
        Ok(source) => answer_from(source, json::json_of_bytes(encode_utf8(source.text))),
        Err(fault) => Err(fault),
    }
}

/// What the JSON text in a body holds.
fn read_json(source: Result<JsonSource, BodyError>) -> (body: Result<Json, BodyError>)
    ensures
        body_view(body) == answer_in(source_view(source)),
{
    match source {
        Ok(source) => {
            let parsed = Json::parse(source.text.as_str().as_bytes());
            read_source(source, parsed)
        },
        Err(error) => Err(error),
    }
}

/// What a stream of events holds.
pub fn parse_sse_body(text: &str) -> (body: Result<Json, BodyError>)
    ensures
        body_view(body) == answer_in(sse_source(text::lines(text@))),
{
    read_json(find_sse_json(&collect_sse_events(text)))
}

/// What a body holds. Where `normalize` is set, the `event:` lines of a stream do not count.
pub open spec fn body_answer(
    normalize: bool,
    content_type: Option<Seq<char>>,
    bytes: Seq<u8>,
) -> Result<JsonView, BodyFault> {
    answer_in(body_source(normalize, content_type, bytes))
}

/// What a body holds. Where `normalize` is set, the `event:` lines of a stream do not count.
pub fn parse_body(normalize: bool, content_type: Option<&str>, bytes: &[u8]) -> (body: Result<
    Json,
    BodyError,
>)
    ensures
        body_view(body) == body_answer(normalize, json::text_option(content_type), bytes@),
{
    read_json(find_json(normalize, content_type, bytes))
}

/// What the body of a response holds.
pub fn parse_mcp_body(content_type: Option<&str>, bytes: &[u8]) -> (body: Result<Json, BodyError>)
    ensures
        body_view(body) == body_answer(false, json::text_option(content_type), bytes@),
{
    parse_body(false, content_type, bytes)
}

/// A text with its first line feed at `at` begins with the line before it.
pub proof fn lemma_first_line(text: Seq<char>, at: int)
    requires
        0 <= at < text.len(),
        text[at] == '\n',
        forall|i: int| 0 <= i < at ==> text[i] != '\n',
    ensures
        text::lines(text) == seq![text::without_cr(text.take(at))] + text::lines(
            text.skip(at + 1),
        ),
{
    let feed = seq!['\n'];
    text::lemma_find_from(text, feed, 0);
    assert(text.subrange(at, at + 1) =~= feed);
    assert(text::occurs_at(text, feed, at));
    assert forall|i: int| 0 <= i < at implies !text::occurs_at(text, feed, i) by {
        assert(text.subrange(i, i + 1)[0] == text[i]);
    }
}

/// The lines of the stream in which the gateway sends a text.
proof fn lemma_stream_lines(data: Seq<char>)
    requires
        forall|i: int| 0 <= i < data.len() ==> data[i] >= ' ',
    ensures
        text::lines(http::stream_of(data)) == seq!["data: "@ + data, Seq::<char>::empty()],
{
    reveal_strlit("data: ");
    reveal_strlit("\n\n");
    let whole = http::stream_of(data);
    let first = "data: "@ + data;
    let at = first.len() as int;
    assert(whole[at] == '\n' && whole[at + 1] == '\n');
    assert forall|i: int| 0 <= i < at implies whole[i] != '\n' by {
        if i >= 6 {
            assert(whole[i] == data[i - 6]);
        }
    }
    lemma_first_line(whole, at);
    assert(whole.take(at) =~= first);
    let rest = whole.skip(at + 1);
    assert(rest.len() == 1 && rest[0] == '\n');
    lemma_first_line(rest, 0);
    assert(rest.take(0) =~= Seq::<char>::empty());
    let last = rest.skip(1);
    assert(last =~= Seq::<char>::empty());
    text::lemma_find_from(last, seq!['\n'], 0);
    assert(text::lines(last) =~= Seq::empty());
    assert(text::lines(rest) =~= seq![Seq::<char>::empty()]);
    assert(text::lines(whole) =~= seq![first, Seq::<char>::empty()]);
}

/// The gateway's own reader finds in a stream that the gateway sends the text that was sent, white
/// space at its ends aside.
pub proof fn law_stream_reads_back(data: Seq<char>)
    requires
        forall|i: int| 0 <= i < data.len() ==> data[i] >= ' ',
        text::trim(data).len() > 0,
        text::trim(data) != "[DONE]"@,
    ensures
        events_in(text::lines(http::stream_of(data))) == seq![
            SseEventView { event_type: None, data_lines: seq![data] },
        ],
        sse_source(text::lines(http::stream_of(data))) == Ok::<JsonSourceView, BodyFault>(
            JsonSourceView { text: text::trim(data), blame: BodyFault::MessageNotJson },
        ),
{
    lemma_stream_lines(data);
    let lines = text::lines(http::stream_of(data));
    let line = "data: "@ + data;
    reveal_strlit("data: ");
    reveal_strlit("data");
    reveal_strlit("event");
    reveal_strlit(":");
    reveal_strlit(" ");
    assert(lines.drop_last() =~= seq![line]);
    text::lemma_find_from(line, ":"@, 0);
    assert(line.subrange(4, 5) =~= ":"@);
    assert(text::occurs_at(line, ":"@, 4));
    assert forall|i: int| 0 <= i < 4 implies !text::occurs_at(line, ":"@, i) by {
        assert(line.subrange(i, i + 1)[0] == line[i]);
    }
    assert(line.take(4) =~= "data"@);
    let value = line.skip(5);
    assert(value =~= " "@ + data);
    assert(value.take(1) =~= " "@);
    assert(" "@.is_prefix_of(value));
    assert(value.skip(1) =~= data);
    assert(field_of(line) == ("data"@, data));
    assert("data"@[0] == 'd' && "event"@[0] == 'e');
    let read = read_line(reading_nothing(), line);
    assert(read_lines(seq![line]) == read) by {
        let nothing = Seq::<Seq<char>>::empty();
        assert(seq![line].drop_last() =~= nothing);
        assert(read_lines(nothing) == reading_nothing());
    }
    assert(read.data_lines =~= seq![data]);
    let event = SseEventView { event_type: None, data_lines: seq![data] };
    assert(read_lines(lines) == end_event(read));
    assert(end_event(read).events =~= seq![event]);
    assert(events_in(lines) =~= seq![event]);
    assert(event.data() =~= data);
    reveal_strlit("message");
    reveal_strlit("ping");
    reveal_strlit("keepalive");
    reveal_strlit("heartbeat");
    assert("message"@.len() == 7 && "ping"@.len() == 4 && "keepalive"@.len() == 9
        && "heartbeat"@.len() == 9);
    assert(has_answer(event));
}

/// Reading on from where two streams have come to the same point leads to the same point.
proof fn lemma_read_on(a: Seq<Seq<char>>, b: Seq<Seq<char>>, rest: Seq<Seq<char>>)
    requires
        read_lines(a) == read_lines(b),
    ensures
        read_lines(a + rest) == read_lines(b + rest),
    decreases rest.len(),
{
    if rest.len() == 0 {
        assert(a + rest =~= a);
        assert(b + rest =~= b);
    } else {
        lemma_read_on(a, b, rest.drop_last());
        assert((a + rest).drop_last() =~= a + rest.drop_last());
        assert((b + rest).drop_last() =~= b + rest.drop_last());
    }
}

/// One more line is read behind the others.
proof fn lemma_read_one_more(lines: Seq<Seq<char>>, line: Seq<char>)
    ensures
        read_lines(lines.push(line)) == read_line(read_lines(lines), line),
{
    assert(lines.push(line).drop_last() =~= lines);
}

/// Is a line of a stream a comment?
pub open spec fn is_comment(line: Seq<char>) -> bool {
    line.len() > 0 && line[0] == ':'
}

/// Comments do not count: the events of a stream are those of the stream with all lines that begin
/// with a colon taken out.
pub proof fn law_comments_do_not_count(lines: Seq<Seq<char>>)
    ensures
        events_in(lines.filter(|line: Seq<char>| !is_comment(line))) == events_in(lines),
{
    lemma_comments_out(lines);
}

proof fn lemma_comments_out(lines: Seq<Seq<char>>)
    ensures
        read_lines(lines.filter(|line: Seq<char>| !is_comment(line))) == read_lines(lines),
    decreases lines.len(),
{
    reveal(Seq::filter);
    let keep = |line: Seq<char>| !is_comment(line);
    if lines.len() > 0 {
        let shorter = lines.drop_last();
        lemma_comments_out(shorter);
        let kept = shorter.filter(keep);
        if keep(lines.last()) {
            lemma_read_one_more(kept, lines.last());
        } else {
            assert(text::without_cr(lines.last()).len() > 0);
            assert(text::without_cr(lines.last())[0] == ':');
        }
    }
}

/// A comment can stand anywhere in a stream, and the stream holds the same answer.
pub proof fn law_comment_changes_no_answer(
    before: Seq<Seq<char>>,
    comment: Seq<char>,
    after: Seq<Seq<char>>,
)
    requires
        is_comment(comment),
    ensures
        events_in(before + seq![comment] + after) == events_in(before + after),
        answer_in(sse_source(before + seq![comment] + after)) == answer_in(
            sse_source(before + after),
        ),
{
    lemma_read_one_more(before, comment);
    assert(before.push(comment) =~= before + seq![comment]);
    assert(text::without_cr(comment).len() > 0);
    assert(text::without_cr(comment)[0] == ':');
    lemma_read_on(before + seq![comment], before, after);
}

/// The field of a line is what stands before its first colon, and its value what follows, without
/// one space in front.
pub proof fn law_field_and_value(field: Seq<char>, value: Seq<char>)
    requires
        !field.contains(':'),
    ensures
        field_of(field) == (field, Seq::<char>::empty()),
        field_of(field + ": "@ + value) == (field, value),
        value.len() == 0 || value[0] != ' ' ==> field_of(field + ":"@ + value) == (field, value),
{
    reveal_strlit(":");
    reveal_strlit(" ");
    reveal_strlit(": ");
    text::lemma_find_from(field, ":"@, 0);
    assert forall|i: int| 0 <= i implies !text::occurs_at(field, ":"@, i) by {
        if text::occurs_at(field, ":"@, i) {
            assert(field.subrange(i, i + 1)[0] == field[i]);
            assert(field.contains(field[i]));
        }
    }
    lemma_field_at_colon(field, " "@ + value);
    assert(field + ":"@ + (" "@ + value) =~= field + ": "@ + value);
    let spaced = " "@ + value;
    assert(spaced.take(1) =~= " "@);
    assert(spaced.skip(1) =~= value);
    lemma_field_at_colon(field, value);
    if " "@.is_prefix_of(value) {
        assert(value.take(1)[0] == value[0]);
    }
}

proof fn lemma_field_at_colon(field: Seq<char>, rest: Seq<char>)
    requires
        !field.contains(':'),
    ensures
        text::split_once(field + ":"@ + rest, ":"@) == Some((field, rest)),
{
    reveal_strlit(":");
    let line = field + ":"@ + rest;
    let n = field.len() as int;
    text::lemma_find_from(line, ":"@, 0);
    assert(line.subrange(n, n + 1) =~= ":"@);
    assert(text::occurs_at(line, ":"@, n));
    assert forall|i: int| 0 <= i < n implies !text::occurs_at(line, ":"@, i) by {
        if text::occurs_at(line, ":"@, i) {
            assert(line.subrange(i, i + 1)[0] == line[i]);
            assert(line[i] == field[i]);
            assert(field.contains(field[i]));
        }
    }
    assert(line.take(n) =~= field);
    assert(line.skip(n + 1) =~= rest);
}

/// A line ends alike with a carriage return and without.
pub proof fn law_carriage_return_does_not_count(reading: Reading, line: Seq<char>)
    requires
        line.len() == 0 || line.last() != '\r',
    ensures
        read_line(reading, line.push('\r')) == read_line(reading, line),
{
    assert(line.push('\r').drop_last() =~= line);
}

/// A line of a field other than `event` and `data` can stand anywhere in a stream, and the stream
/// holds the same events.
pub proof fn law_other_fields_do_not_count(
    before: Seq<Seq<char>>,
    field: Seq<char>,
    value: Seq<char>,
    after: Seq<Seq<char>>,
)
    requires
        field.len() > 0,
        !field.contains(':'),
        field != "event"@,
        field != "data"@,
        value.len() == 0 || value.last() != '\r',
    ensures
        events_in(before + seq![field + ": "@ + value] + after) == events_in(before + after),
{
    reveal_strlit(": ");
    let line = field + ": "@ + value;
    law_field_and_value(field, value);
    assert(line[0] == field[0]);
    assert(field.contains(field[0]));
    if value.len() > 0 {
        assert(line.last() == value.last());
    } else {
        assert(line.last() == ' ');
    }
    lemma_read_one_more(before, line);
    assert(before.push(line) =~= before + seq![line]);
    lemma_read_on(before + seq![line], before, after);
}

/// What is read behind complete events comes behind them.
proof fn lemma_read_behind(a: Seq<Seq<char>>, b: Seq<Seq<char>>)
    requires
        read_lines(a).event_type is None,
        read_lines(a).data_lines.len() == 0,
    ensures
        read_lines(a + b).events == read_lines(a).events + read_lines(b).events,
        read_lines(a + b).event_type == read_lines(b).event_type,
        read_lines(a + b).data_lines == read_lines(b).data_lines,
    decreases b.len(),
{
    if b.len() == 0 {
        assert(a + b =~= a);
        assert(read_lines(a).data_lines =~= Seq::empty());
        assert(read_lines(a).events + read_lines(b).events =~= read_lines(a).events);
    } else {
        lemma_read_behind(a, b.drop_last());
        assert((a + b).drop_last() =~= a + b.drop_last());
        assert(read_lines(a + b).events =~= read_lines(a).events + read_lines(b).events);
    }
}

/// An empty line stands between events: the events of two streams with an empty line between them
/// are those of the first, and then those of the second. The end of a stream ends its last event.
pub proof fn law_empty_line_separates_events(
    first: Seq<Seq<char>>,
    empty: Seq<char>,
    second: Seq<Seq<char>>,
)
    requires
        empty.len() == 0 || empty == seq!['\r'],
    ensures
        events_in(first + seq![empty] + second) == events_in(first) + events_in(second),
{
    lemma_read_one_more(first, empty);
    assert(first.push(empty) =~= first + seq![empty]);
    let both = first + seq![empty];
    assert(read_lines(both) == end_event(read_lines(first)));
    lemma_read_behind(both, second);
    assert(events_in(both + second) =~= events_in(first) + events_in(second));
}

/// The lines that carry texts as data.
pub open spec fn data_lines_of(texts: Seq<Seq<char>>) -> Seq<Seq<char>> {
    texts.map_values(|text: Seq<char>| "data: "@ + text)
}

proof fn lemma_data_line(reading: Reading, data: Seq<char>)
    requires
        data.len() == 0 || data.last() != '\r',
    ensures
        read_line(reading, "data: "@ + data) == (Reading {
            data_lines: reading.data_lines.push(data),
            ..reading
        }),
{
    reveal_strlit("data: ");
    reveal_strlit("data");
    reveal_strlit("event");
    reveal_strlit(": ");
    law_field_and_value("data"@, data);
    let line = "data: "@ + data;
    assert("data"@ + ": "@ + data =~= line);
    assert(line[0] == 'd');
    if data.len() > 0 {
        assert(line.last() == data.last());
    } else {
        assert(line.last() == ' ');
    }
    assert("data"@[0] == 'd' && "event"@[0] == 'e');
}

proof fn lemma_event_line(reading: Reading, kind: Seq<char>)
    requires
        kind.len() == 0 || kind.last() != '\r',
    ensures
        read_line(reading, "event: "@ + kind) == (Reading { event_type: Some(kind), ..reading }),
{
    reveal_strlit("event: ");
    reveal_strlit("event");
    reveal_strlit(": ");
    law_field_and_value("event"@, kind);
    let line = "event: "@ + kind;
    assert("event"@ + ": "@ + kind =~= line);
    assert(line[0] == 'e');
    if kind.len() > 0 {
        assert(line.last() == kind.last());
    } else {
        assert(line.last() == ' ');
    }
}

proof fn lemma_data_block(before: Seq<Seq<char>>, texts: Seq<Seq<char>>)
    requires
        forall|i: int| 0 <= i < texts.len() ==> (#[trigger] texts[i]).len() == 0 || texts[i].last()
            != '\r',
    ensures
        read_lines(before + data_lines_of(texts)) == (Reading {
            data_lines: read_lines(before).data_lines + texts,
            ..read_lines(before)
        }),
    decreases texts.len(),
{
    let lines = data_lines_of(texts);
    if texts.len() == 0 {
        assert(before + lines =~= before);
        assert(read_lines(before).data_lines + texts =~= read_lines(before).data_lines);
    } else {
        let fewer = texts.drop_last();
        assert forall|i: int| 0 <= i < fewer.len() implies (#[trigger] fewer[i]).len() == 0
            || fewer[i].last() != '\r' by {
            assert(fewer[i] == texts[i]);
        }
        lemma_data_block(before, fewer);
        assert(lines.drop_last() =~= data_lines_of(fewer));
        assert((before + lines).drop_last() =~= before + data_lines_of(fewer));
        assert(texts[texts.len() - 1] == texts.last());
        lemma_data_line(read_lines(before + data_lines_of(fewer)), texts.last());
        assert((read_lines(before).data_lines + fewer).push(texts.last()) =~= read_lines(
            before,
        ).data_lines + texts);
    }
}

/// Lines of data make one event that holds the texts in their order, and a line before them names
/// its type.
pub proof fn law_lines_of_data_make_an_event(kind: Seq<char>, texts: Seq<Seq<char>>)
    requires
        texts.len() > 0,
        kind.len() == 0 || kind.last() != '\r',
        forall|i: int| 0 <= i < texts.len() ==> (#[trigger] texts[i]).len() == 0 || texts[i].last()
            != '\r',
    ensures
        events_in(data_lines_of(texts)) == seq![
            SseEventView { event_type: None, data_lines: texts },
        ],
        events_in(seq!["event: "@ + kind] + data_lines_of(texts)) == seq![
            SseEventView { event_type: Some(kind), data_lines: texts },
        ],
{
    let none = Seq::<Seq<char>>::empty();
    lemma_data_block(none, texts);
    assert(none + data_lines_of(texts) =~= data_lines_of(texts));
    assert(none + texts =~= texts);
    let named = seq!["event: "@ + kind];
    lemma_read_one_more(none, "event: "@ + kind);
    assert(none.push("event: "@ + kind) =~= named);
    lemma_event_line(reading_nothing(), kind);
    lemma_data_block(named, texts);
    assert(events_in(data_lines_of(texts)) =~= seq![
        SseEventView { event_type: None, data_lines: texts },
    ]);
    assert(events_in(named + data_lines_of(texts)) =~= seq![
        SseEventView { event_type: Some(kind), data_lines: texts },
    ]);
}

/// The data of an event are its lines, with a line feed between each two. An event without a type
/// is a message.
pub proof fn law_data_of_an_event(event: SseEventView, line: Seq<char>)
    ensures
        (SseEventView { data_lines: seq![line], ..event }).data() == line,
        event.data_lines.len() > 0 ==> (SseEventView {
            data_lines: event.data_lines.push(line),
            ..event
        }).data() == event.data() + "\n"@ + line,
        event.event_type is None ==> event.kind() == "message"@,
        event.event_type matches Some(kind) ==> event.kind() == kind,
{
    assert(event.data_lines.push(line).drop_last() =~= event.data_lines);
}

/// Empty data, the end mark and events that only keep a stream open are no answers; everything else
/// may be one.
pub proof fn law_what_may_be_an_answer(event: SseEventView)
    ensures
        text::trim(event.data()).len() == 0 ==> !has_answer(event),
        text::trim(event.data()) == "[DONE]"@ ==> !has_answer(event),
        event.kind() == "ping"@ || event.kind() == "keepalive"@ || event.kind() == "heartbeat"@
            ==> !has_answer(event),
        text::trim(event.data()).len() > 0 && text::trim(event.data()) != "[DONE]"@ && event.kind()
            != "ping"@ && event.kind() != "keepalive"@ && event.kind() != "heartbeat"@
            ==> has_answer(event),
{
}

/// Is an event a message or an error that may be an answer?
pub open spec fn settles(event: SseEventView) -> bool {
    has_answer(event) && (event.kind() == "message"@ || event.kind() == "error"@)
}

proof fn lemma_choose_from(
    events: Seq<SseEventView>,
    at: int,
    other: Option<SseEventView>,
    i: int,
)
    requires
        0 <= at <= i < events.len(),
        settles(events[i]),
        forall|j: int| at <= j < i ==> !settles(#[trigger] events[j]),
    ensures
        choose_from(events, at, other) == choose_from(events, i, None),
    decreases i - at,
{
    reveal_strlit("message");
    reveal_strlit("error");
    assert("message"@.len() == 7 && "error"@.len() == 5);
    if at < i {
        assert(!settles(events[at]));
        if !has_answer(events[at]) || other is Some {
            lemma_choose_from(events, at + 1, other, i);
        } else {
            lemma_choose_from(events, at + 1, Some(events[at]), i);
        }
    }
}

/// The first message or error of a stream that may be an answer is the answer, and its data count
/// without white space at their ends. A message gives the JSON text, an error the reason why there
/// is none.
pub proof fn law_first_message_or_error_answers(lines: Seq<Seq<char>>, i: int)
    requires
        0 <= i < events_in(lines).len(),
        settles(events_in(lines)[i]),
        forall|j: int| 0 <= j < i ==> !settles(#[trigger] events_in(lines)[j]),
    ensures
        ({
            let event = events_in(lines)[i];
            let data = text::trim(event.data());
            &&& event.kind() == "message"@ ==> answer_in(sse_source(lines))
                == match json::json_of_bytes(encode_utf8(data)) {
                Ok(value) => Ok(value),
                Err(_) => Err(BodyFault::MessageNotJson),
            }
            &&& event.kind() == "error"@ ==> answer_in(sse_source(lines)) == Err::<
                JsonView,
                BodyFault,
            >(BodyFault::ErrorEvent(data))
        }),
{
    lemma_choose_from(events_in(lines), 0, None, i);
    reveal_strlit("message");
    reveal_strlit("error");
    assert("message"@.len() == 7 && "error"@.len() == 5);
}

proof fn lemma_choose_other(
    events: Seq<SseEventView>,
    at: int,
    other: Option<SseEventView>,
)
    requires
        0 <= at <= events.len(),
        forall|j: int| at <= j < events.len() ==> !settles(#[trigger] events[j]),
    ensures
        match other {
            Some(event) => choose_from(events, at, other) == SseChoiceView::Custom(
                event.kind(),
                text::trim(event.data()),
            ),
            None => (forall|j: int| at <= j < events.len() ==> !has_answer(#[trigger] events[j]))
                ==> choose_from(events, at, other) == SseChoiceView::Nothing,
        },
    decreases events.len() - at,
{
    if at < events.len() {
        assert(!settles(events[at]));
        lemma_choose_other(events, at + 1, other);
        if has_answer(events[at]) && other is None {
            lemma_choose_other(events, at + 1, Some(events[at]));
        }
    }
}

proof fn lemma_choose_skips(events: Seq<SseEventView>, at: int, i: int)
    requires
        0 <= at <= i <= events.len(),
        forall|j: int| at <= j < i ==> !has_answer(#[trigger] events[j]),
    ensures
        choose_from(events, at, None) == choose_from(events, i, None),
    decreases i - at,
{
    if at < i {
        assert(!has_answer(events[at]));
        lemma_choose_skips(events, at + 1, i);
    }
}

/// Where no event of a stream is a message or an error that may be an answer, the first event of
/// another type that may be one is the answer.
pub proof fn law_first_other_event_answers(lines: Seq<Seq<char>>, i: int)
    requires
        0 <= i < events_in(lines).len(),
        forall|j: int| 0 <= j < events_in(lines).len() ==> !settles(#[trigger] events_in(lines)[j]),
        has_answer(events_in(lines)[i]),
        forall|j: int| 0 <= j < i ==> !has_answer(#[trigger] events_in(lines)[j]),
    ensures
        ({
            let event = events_in(lines)[i];
            answer_in(sse_source(lines)) == match json::json_of_bytes(
                encode_utf8(text::trim(event.data())),
            ) {
                Ok(value) => Ok(value),
                Err(_) => Err(BodyFault::EventNotJson(event.kind())),
            }
        }),
{
    let events = events_in(lines);
    lemma_choose_skips(events, 0, i);
    assert(!settles(events[i]));
    lemma_choose_other(events, i + 1, Some(events[i]));
}

/// A stream in which no event may be an answer holds none.
pub proof fn law_stream_without_data_holds_nothing(lines: Seq<Seq<char>>)
    requires
        forall|j: int|
            0 <= j < events_in(lines).len() ==> !has_answer(#[trigger] events_in(lines)[j]),
    ensures
        answer_in(sse_source(lines)) == Err::<JsonView, BodyFault>(BodyFault::NoDataEvent),
{
    lemma_choose_skips(events_in(lines), 0, events_in(lines).len() as int);
}

/// A body that neither is declared as a stream nor begins like one is one JSON text.
pub proof fn law_plain_body_is_one_json_text(
    normalize: bool,
    content_type: Option<Seq<char>>,
    bytes: Seq<u8>,
)
    requires
        valid_utf8(bytes),
        content_type matches Some(kind) ==> !text::contains(kind, "text/event-stream"@),
        !"event:"@.is_prefix_of(text::trim_start(decode_utf8(bytes))),
        !"data:"@.is_prefix_of(text::trim_start(decode_utf8(bytes))),
    ensures
        body_answer(normalize, content_type, bytes) == match json::json_of_bytes(bytes) {
            Ok(value) => Ok(value),
            Err(_) => Err(BodyFault::NotJson),
        },
{
    decode_utf8_encode_utf8(bytes);
}

/// A body that is declared as a stream, or begins like one, is read event by event. A body that is
/// not UTF-8 is not read.
pub proof fn law_stream_is_read_by_events(content_type: Option<Seq<char>>, bytes: Seq<u8>)
    ensures
        !valid_utf8(bytes) ==> body_answer(false, content_type, bytes) == Err::<
            JsonView,
            BodyFault,
        >(BodyFault::NotUtf8),
        valid_utf8(bytes) && ((content_type matches Some(kind) && text::contains(
            kind,
            "text/event-stream"@,
        )) || "event:"@.is_prefix_of(text::trim_start(decode_utf8(bytes)))
            || "data:"@.is_prefix_of(text::trim_start(decode_utf8(bytes)))) ==> body_answer(
            false,
            content_type,
            bytes,
        ) == answer_in(sse_source(text::lines(decode_utf8(bytes)))),
{
}

/// What is said of a body that holds no answer names the reason.
pub proof fn law_words_for_bodies_without_an_answer(words: Seq<char>)
    ensures
        body_fault_text(BodyFault::NotUtf8) == "response body is not utf-8"@,
        body_fault_text(BodyFault::NotJson) == "response body is not valid JSON"@,
        body_fault_text(BodyFault::MessageNotJson) == "SSE message data is not valid JSON"@,
        body_fault_text(BodyFault::EventNotJson(words)) == "SSE event '"@ + words
            + "' data is not valid JSON"@,
        body_fault_text(BodyFault::ErrorEvent(words)) == "SSE error event: "@ + words,
        body_fault_text(BodyFault::NoDataEvent) == "SSE response had no data event"@,
{
}

/// A line names the type of its event wherever it stands in it, and of two such lines the later one
/// counts.
pub proof fn law_type_line_stands_anywhere(
    first: Seq<Seq<char>>,
    unused: Seq<char>,
    kind: Seq<char>,
    second: Seq<Seq<char>>,
)
    requires
        unused.len() == 0 || unused.last() != '\r',
        kind.len() == 0 || kind.last() != '\r',
        forall|i: int| 0 <= i < first.len() ==> (#[trigger] first[i]).len() == 0 || first[i].last()
            != '\r',
        forall|i: int|
            0 <= i < second.len() ==> (#[trigger] second[i]).len() == 0 || second[i].last() != '\r',
    ensures
        events_in(
            data_lines_of(first).push("event: "@ + unused).push("event: "@ + kind) + data_lines_of(
                second,
            ),
        ) == seq![SseEventView { event_type: Some(kind), data_lines: first + second }],
{
    let none = Seq::<Seq<char>>::empty();
    lemma_data_block(none, first);
    assert(none + data_lines_of(first) =~= data_lines_of(first));
    assert(none + first =~= first);
    let once = data_lines_of(first).push("event: "@ + unused);
    let twice = once.push("event: "@ + kind);
    lemma_read_one_more(data_lines_of(first), "event: "@ + unused);
    lemma_event_line(read_lines(data_lines_of(first)), unused);
    lemma_read_one_more(once, "event: "@ + kind);
    lemma_event_line(read_lines(once), kind);
    lemma_data_block(twice, second);
    assert(events_in(twice + data_lines_of(second)) =~= seq![
        SseEventView { event_type: Some(kind), data_lines: first + second },
    ]);
}

/// The space behind the colon of a line of data may be left out.
pub proof fn law_space_behind_the_colon_may_be_left_out(reading: Reading, data: Seq<char>)
    requires
        data.len() > 0,
        data[0] != ' ',
        data.last() != '\r',
    ensures
        read_line(reading, "data:"@ + data) == read_line(reading, "data: "@ + data),
        read_line(reading, "event:"@ + data) == read_line(reading, "event: "@ + data),
{
    lemma_data_line(reading, data);
    lemma_event_line(reading, data);
    reveal_strlit("data:");
    reveal_strlit("data");
    reveal_strlit("event:");
    reveal_strlit("event");
    reveal_strlit(":");
    law_field_and_value("data"@, data);
    law_field_and_value("event"@, data);
    assert("data"@ + ":"@ + data =~= "data:"@ + data);
    assert("event"@ + ":"@ + data =~= "event:"@ + data);
    assert(("data:"@ + data).last() == data.last());
    assert(("event:"@ + data).last() == data.last());
    assert("data"@[0] == 'd' && "event"@[0] == 'e');
    assert(("data:"@ + data)[0] == 'd' && ("event:"@ + data)[0] == 'e');
}

/// Events, choices and faults are seen as they are.
pub proof fn law_events_are_seen_as_they_are(event: SseEvent, source: JsonSource, words: String)
    ensures
        event.event_type is None ==> event@.event_type is None,
        event.event_type matches Some(kind) ==> event@.event_type == Some(kind@),
        event@.data_lines.len() == event.data_lines@.len(),
        forall|i: int|
            0 <= i < event.data_lines@.len() ==> #[trigger] event@.data_lines[i]
                == event.data_lines@[i]@,
        source@.text == source.text@,
        source@.blame == source.blame@,
        BodyError::ErrorEvent(words)@ == BodyFault::ErrorEvent(words@),
        BodyError::EventNotJson(words)@ == BodyFault::EventNotJson(words@),
        BodyError::NoDataEvent@ == BodyFault::NoDataEvent,
        BodyError::MessageNotJson@ == BodyFault::MessageNotJson,
        BodyError::NotJson@ == BodyFault::NotJson,
        BodyError::NotUtf8@ == BodyFault::NotUtf8,
{
}

} // verus!
