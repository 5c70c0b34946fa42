//! Typed decoding of one line of assistant output.
//!
//! Each line the child process emits is one JSON document. This module
//! classifies a parsed document into the known message shapes, mirroring
//! how the wire format is defined: a `type` tag selects the shape, known
//! fields are read with their expected types, a malformed known field makes
//! the whole line [`StreamMessage::Unknown`], and an unrecognized tag or a
//! non-object document also falls back to [`StreamMessage::Unknown`] so new
//! message kinds never break the stream.
//!
//! Fields whose payload the core never interprets (assistant content, tool
//! input, content-block payloads) are carried as their compact JSON text.
//! Costs are carried in micro-units ([`crate::cost`]).

use vstd::prelude::*;
use crate::cost::micros_of;
use crate::cost::micros_of_text;
use crate::json::bool_of;
use crate::json::field_of;
use crate::json::json_bool;
use crate::json::json_field;
use crate::json::json_is_null;
use crate::json::json_is_number;
use crate::json::json_is_object;
use crate::json::json_parse;
use crate::json::json_str;
use crate::json::json_text;
use crate::json::json_uint;
use crate::json::null_json;
use crate::json::number_json;
use crate::json::object_json;
use crate::json::parsed_json;
use crate::json::str_of;
use crate::json::text_of;
use crate::json::uint_of;
use vstd::string::StringExecFns;

verus! {

/// Error details carried by an error message.
#[derive(Debug, Clone, PartialEq)]
pub struct ErrorInfo {
    pub message: String,
    pub error_type: Option<String>,
}

/// One decoded message from the child process's output stream.
#[derive(Debug, Clone, PartialEq)]
pub enum StreamMessage {
    /// System message; may carry the tool's own session token.
    System { session_id: Option<String> },
    /// An assistant turn; `content` is carried as JSON text.
    Assistant { role: String, content: String },
    /// A tool invocation request.
    ToolUse { id: String, name: String, input: String },
    /// The outcome of a tool invocation.
    ToolResult { tool_use_id: String, content: String, is_error: bool },
    /// End-of-turn summary; cost in micro-units, duration in milliseconds.
    TurnResult { cost_micros: Option<u64>, duration_ms: Option<u64> },
    /// An error notice.
    Error { error: ErrorInfo },
    /// Streaming content-block delta.
    ContentBlockDelta { index: usize, delta: String },
    /// Streaming content-block start.
    ContentBlockStart { index: usize, content_block: String },
    /// Streaming content-block stop.
    ContentBlockStop { index: usize },
    /// Any well-formed document of no known shape.
    Unknown,
}

/// Mathematical image of [`ErrorInfo`].
pub struct ErrorInfoModel {
    pub message: Seq<char>,
    pub error_type: Option<Seq<char>>,
}

/// Mathematical image of [`StreamMessage`].
pub enum MessageModel {
    System { session_id: Option<Seq<char>> },
    Assistant { role: Seq<char>, content: Seq<char> },
    ToolUse { id: Seq<char>, name: Seq<char>, input: Seq<char> },
    ToolResult { tool_use_id: Seq<char>, content: Seq<char>, is_error: bool },
    TurnResult { cost_micros: Option<u64>, duration_ms: Option<u64> },
    Error { error: ErrorInfoModel },
    ContentBlockDelta { index: usize, delta: Seq<char> },
    ContentBlockStart { index: usize, content_block: Seq<char> },
    ContentBlockStop { index: usize },
    Unknown,
}

impl DeepView for ErrorInfo {
    type V = ErrorInfoModel;

    open spec fn deep_view(&self) -> ErrorInfoModel {
        ErrorInfoModel { message: self.message@, error_type: self.error_type.deep_view() }
    }
}

impl DeepView for StreamMessage {
    type V = MessageModel;

    open spec fn deep_view(&self) -> MessageModel {
        match self {
            StreamMessage::System { session_id } => MessageModel::System {
                session_id: session_id.deep_view(),
            },
            StreamMessage::Assistant { role, content } => MessageModel::Assistant {
                role: role@,
                content: content@,
            },
            StreamMessage::ToolUse { id, name, input } => MessageModel::ToolUse {
                id: id@,
                name: name@,
                input: input@,
            },
            StreamMessage::ToolResult { tool_use_id, content, is_error } => {
                MessageModel::ToolResult {
                    tool_use_id: tool_use_id@,
                    content: content@,
                    is_error: *is_error,
                }
            },
            StreamMessage::TurnResult { cost_micros, duration_ms } => MessageModel::TurnResult {
                cost_micros: *cost_micros,
                duration_ms: *duration_ms,
            },
            StreamMessage::Error { error } => MessageModel::Error { error: error.deep_view() },
            StreamMessage::ContentBlockDelta { index, delta } => MessageModel::ContentBlockDelta {
                index: *index,
                delta: delta@,
            },
            StreamMessage::ContentBlockStart { index, content_block } => {
                MessageModel::ContentBlockStart { index: *index, content_block: content_block@ }
            },
            StreamMessage::ContentBlockStop { index } => MessageModel::ContentBlockStop {
                index: *index,
            },
            StreamMessage::Unknown => MessageModel::Unknown,
        }
    }
}

/// An optional string member, as the wire format reads it: absent or null
/// is `Some(None)`, a string is `Some(Some(..))`, anything else is `None`
/// (the line has no known shape).
pub open spec fn opt_string_field(v: serde_json::Value, key: Seq<char>) -> Option<
    Option<Seq<char>>,
> {
    match field_of(v, key) {
        None => Some(None),
        Some(x) => if null_json(x) {
            Some(None)
        } else {
            match str_of(x) {
                Some(s) => Some(Some(s)),
                None => None,
            }
        },
    }
}

/// The JSON text of a member, or the text of JSON null when it is absent.
pub open spec fn json_text_or_null(v: serde_json::Value, key: Seq<char>) -> Seq<char> {
    match field_of(v, key) {
        None => "null"@,
        Some(x) => text_of(x),
    }
}

/// A boolean member defaulting to false; `None` marks a malformed member.
pub open spec fn opt_bool_field(v: serde_json::Value, key: Seq<char>) -> Option<bool> {
    match field_of(v, key) {
        None => Some(false),
        Some(x) => bool_of(x),
    }
}

/// An index member defaulting to zero; `None` marks a malformed member.
pub open spec fn opt_index_field(v: serde_json::Value, key: Seq<char>) -> Option<usize> {
    match field_of(v, key) {
        None => Some(0),
        Some(x) => match uint_of(x) {
            Some(u) => if u <= usize::MAX {
                Some(u as usize)
            } else {
                None
            },
            None => None,
        },
    }
}

pub open spec fn shape_system(v: serde_json::Value) -> MessageModel {
    match opt_string_field(v, "session_id"@) {
        Some(o) => MessageModel::System { session_id: o },
        None => MessageModel::Unknown,
    }
}

pub open spec fn shape_assistant(v: serde_json::Value) -> MessageModel {
    match field_of(v, "role"@) {
        None => MessageModel::Assistant {
            role: Seq::empty(),
            content: json_text_or_null(v, "content"@),
        },
        Some(x) => match str_of(x) {
            Some(r) => MessageModel::Assistant { role: r, content: json_text_or_null(v, "content"@) },
            None => MessageModel::Unknown,
        },
    }
}

pub open spec fn shape_tool_use(v: serde_json::Value) -> MessageModel {
    match field_of(v, "id"@) {
        None => MessageModel::Unknown,
        Some(xi) => match str_of(xi) {
            None => MessageModel::Unknown,
            Some(id) => match field_of(v, "name"@) {
                None => MessageModel::Unknown,
                Some(xn) => match str_of(xn) {
                    None => MessageModel::Unknown,
                    Some(name) => MessageModel::ToolUse {
                        id: id,
                        name: name,
                        input: json_text_or_null(v, "input"@),
                    },
                },
            },
        },
    }
}

pub open spec fn shape_tool_result(v: serde_json::Value) -> MessageModel {
    match field_of(v, "tool_use_id"@) {
        None => MessageModel::Unknown,
        Some(x) => match str_of(x) {
            None => MessageModel::Unknown,
            Some(tid) => match opt_bool_field(v, "is_error"@) {
                None => MessageModel::Unknown,
                Some(e) => MessageModel::ToolResult {
                    tool_use_id: tid,
                    content: json_text_or_null(v, "content"@),
                    is_error: e,
                },
            },
        },
    }
}

pub open spec fn shape_result_with_cost(v: serde_json::Value, cost: Option<u64>) -> MessageModel {
    match field_of(v, "duration_ms"@) {
        None => MessageModel::TurnResult { cost_micros: cost, duration_ms: None },
        Some(x) => if null_json(x) {
            MessageModel::TurnResult { cost_micros: cost, duration_ms: None }
        } else {
            match uint_of(x) {
                Some(d) => MessageModel::TurnResult { cost_micros: cost, duration_ms: Some(d) },
                None => MessageModel::Unknown,
            }
        },
    }
}

pub open spec fn shape_result(v: serde_json::Value) -> MessageModel {
    match field_of(v, "cost_usd"@) {
        None => shape_result_with_cost(v, None),
        Some(x) => if null_json(x) {
            shape_result_with_cost(v, None)
        } else if number_json(x) {
            shape_result_with_cost(v, micros_of_text(text_of(x)))
        } else {
            MessageModel::Unknown
        },
    }
}

pub open spec fn shape_error(v: serde_json::Value) -> MessageModel {
    match field_of(v, "error"@) {
        None => MessageModel::Error {
            error: ErrorInfoModel { message: Seq::empty(), error_type: None },
        },
        Some(x) => if !object_json(x) {
            MessageModel::Unknown
        } else {
            match (match field_of(x, "message"@) {
                None => Some(Seq::<char>::empty()),
                Some(m) => str_of(m),
            }) {
                None => MessageModel::Unknown,
                Some(msg) => match opt_string_field(x, "error_type"@) {
                    None => MessageModel::Unknown,
                    Some(et) => MessageModel::Error {
                        error: ErrorInfoModel { message: msg, error_type: et },
                    },
                },
            }
        },
    }
}

pub open spec fn shape_delta(v: serde_json::Value) -> MessageModel {
    match opt_index_field(v, "index"@) {
        None => MessageModel::Unknown,
        Some(i) => MessageModel::ContentBlockDelta {
            index: i,
            delta: json_text_or_null(v, "delta"@),
        },
    }
}

pub open spec fn shape_start(v: serde_json::Value) -> MessageModel {
    match opt_index_field(v, "index"@) {
        None => MessageModel::Unknown,
        Some(i) => MessageModel::ContentBlockStart {
            index: i,
            content_block: json_text_or_null(v, "content_block"@),
        },
    }
}

pub open spec fn shape_stop(v: serde_json::Value) -> MessageModel {
    match opt_index_field(v, "index"@) {
        None => MessageModel::Unknown,
        Some(i) => MessageModel::ContentBlockStop { index: i },
    }
}

/// The shape of one well-formed document.
pub open spec fn shape_of(v: serde_json::Value) -> MessageModel {
    match field_of(v, "type"@) {
        None => MessageModel::Unknown,
        Some(t) => match str_of(t) {
            None => MessageModel::Unknown,
            Some(tag) => if tag == "system"@ {
                shape_system(v)
            } else if tag == "message"@ {
                shape_assistant(v)
            } else if tag == "tool_use"@ {
                shape_tool_use(v)
            } else if tag == "tool_result"@ {
                shape_tool_result(v)
            } else if tag == "result"@ {
                shape_result(v)
            } else if tag == "error"@ {
                shape_error(v)
            } else if tag == "content_block_delta"@ {
                shape_delta(v)
            } else if tag == "content_block_start"@ {
                shape_start(v)
            } else if tag == "content_block_stop"@ {
                shape_stop(v)
            } else {
                MessageModel::Unknown
            },
        },
    }
}

/// What one line decodes to: `None` when it is not valid JSON (the line is
/// dropped), otherwise its shape.
pub open spec fn line_decode(bytes: Seq<u8>) -> Option<MessageModel> {
    match parsed_json(bytes) {
        None => None,
        Some(v) => Some(shape_of(v)),
    }
}

fn tag_is(tag: &String, lit: &str) -> (r: bool)
    ensures
        r == (tag@ == lit@),
{
    tag.eq(&lit.to_owned())
}

fn get_string_field(v: &serde_json::Value, key: &str) -> (r: Option<Option<String>>)
    ensures
        r.deep_view() == opt_string_field(*v, key@),
{
    match json_field(v, key) {
        None => Some(None),
        Some(x) => if json_is_null(x) {
            Some(None)
        } else {
            match json_str(x) {
                Some(s) => Some(Some(s)),
                None => None,
            }
        },
    }
}

fn get_text_or_null(v: &serde_json::Value, key: &str) -> (r: String)
    ensures
        r@ == json_text_or_null(*v, key@),
{
    match json_field(v, key) {
        None => String::from_str("null"),
        Some(x) => json_text(x),
    }
}

fn decode_system(v: &serde_json::Value) -> (r: StreamMessage)
    ensures
        r.deep_view() == shape_system(*v),
{
    match get_string_field(v, "session_id") {
        Some(o) => StreamMessage::System { session_id: o },
        None => StreamMessage::Unknown,
    }
}

fn decode_assistant(v: &serde_json::Value) -> (r: StreamMessage)
    ensures
        r.deep_view() == shape_assistant(*v),
{
    let role = match json_field(v, "role") {
        None => String::new(),
        Some(x) => match json_str(x) {
            Some(s) => s,
            None => {
                return StreamMessage::Unknown;
            },
        },
    };
    let content = get_text_or_null(v, "content");
    StreamMessage::Assistant { role, content }
}

fn decode_tool_use(v: &serde_json::Value) -> (r: StreamMessage)
    ensures
        r.deep_view() == shape_tool_use(*v),
{
    let id = match json_field(v, "id") {
        None => {
            return StreamMessage::Unknown;
        },
        Some(x) => match json_str(x) {
            Some(s) => s,
            None => {
                return StreamMessage::Unknown;
            },
        },
    };
    let name = match json_field(v, "name") {
        None => {
            return StreamMessage::Unknown;
        },
        Some(x) => match json_str(x) {
            Some(s) => s,
            None => {
                return StreamMessage::Unknown;
            },
        },
    };
    let input = get_text_or_null(v, "input");
    StreamMessage::ToolUse { id, name, input }
}

fn decode_tool_result(v: &serde_json::Value) -> (r: StreamMessage)
    ensures
        r.deep_view() == shape_tool_result(*v),
{
    let tool_use_id = match json_field(v, "tool_use_id") {
        None => {
            return StreamMessage::Unknown;
        },
        Some(x) => match json_str(x) {
            Some(s) => s,
            None => {
                return StreamMessage::Unknown;
            },
        },
    };
    let is_error = match json_field(v, "is_error") {
        None => false,
        Some(x) => match json_bool(x) {
            Some(b) => b,
            None => {
                return StreamMessage::Unknown;
            },
        },
    };
    let content = get_text_or_null(v, "content");
    StreamMessage::ToolResult { tool_use_id, content, is_error }
}

fn decode_result(v: &serde_json::Value) -> (r: StreamMessage)
    ensures
        r.deep_view() == shape_result(*v),
{
    let cost_micros: Option<u64> = match json_field(v, "cost_usd") {
        None => None,
        Some(x) => if json_is_null(x) {
            None
        } else if json_is_number(x) {
            let txt = json_text(x);
            micros_of(txt.as_str())
        } else {
            return StreamMessage::Unknown;
        },
    };
    let duration_ms: Option<u64> = match json_field(v, "duration_ms") {
        None => None,
        Some(x) => if json_is_null(x) {
            None
        } else {
            match json_uint(x) {
                Some(d) => Some(d),
                None => {
                    return StreamMessage::Unknown;
                },
            }
        },
    };
    StreamMessage::TurnResult { cost_micros, duration_ms }
}

fn decode_error(v: &serde_json::Value) -> (r: StreamMessage)
    ensures
        r.deep_view() == shape_error(*v),
{
    let x = match json_field(v, "error") {
        None => {
            return StreamMessage::Error {
                error: ErrorInfo { message: String::new(), error_type: None },
            };
        },
        Some(x) => x,
    };
    if !json_is_object(x) {
        return StreamMessage::Unknown;
    }
    let message = match json_field(x, "message") {
        None => String::new(),
        Some(m) => match json_str(m) {
            Some(s) => s,
            None => {
                return StreamMessage::Unknown;
            },
        },
    };
    let error_type = match get_string_field(x, "error_type") {
        Some(o) => o,
        None => {
            return StreamMessage::Unknown;
        },
    };
    StreamMessage::Error { error: ErrorInfo { message, error_type } }
}

fn get_index_field(v: &serde_json::Value) -> (r: Option<usize>)
    ensures
        r == opt_index_field(*v, "index"@),
{
    match json_field(v, "index") {
        None => Some(0),
        Some(x) => match json_uint(x) {
            Some(u) => if u <= usize::MAX as u64 {
                Some(u as usize)
            } else {
                None
            },
            None => None,
        },
    }
}

fn decode_delta(v: &serde_json::Value) -> (r: StreamMessage)
    ensures
        r.deep_view() == shape_delta(*v),
{
    match get_index_field(v) {
        None => StreamMessage::Unknown,
        Some(index) => StreamMessage::ContentBlockDelta {
            index,
            delta: get_text_or_null(v, "delta"),
        },
    }
}

fn decode_start(v: &serde_json::Value) -> (r: StreamMessage)
    ensures
        r.deep_view() == shape_start(*v),
{
    match get_index_field(v) {
        None => StreamMessage::Unknown,
        Some(index) => StreamMessage::ContentBlockStart {
            index,
            content_block: get_text_or_null(v, "content_block"),
        },
    }
}

fn decode_stop(v: &serde_json::Value) -> (r: StreamMessage)
    ensures
        r.deep_view() == shape_stop(*v),
{
    match get_index_field(v) {
        None => StreamMessage::Unknown,
        Some(index) => StreamMessage::ContentBlockStop { index },
    }
}

fn decode_value(v: &serde_json::Value) -> (r: StreamMessage)
    ensures
        r.deep_view() == shape_of(*v),
{
    let tag = match json_field(v, "type") {
        None => {
            return StreamMessage::Unknown;
        },
        Some(t) => match json_str(t) {
            None => {
                return StreamMessage::Unknown;
            },
            Some(tag) => tag,
        },
    };
    if tag_is(&tag, "system") {
        decode_system(v)
    } else if tag_is(&tag, "message") {
        decode_assistant(v)
    } else if tag_is(&tag, "tool_use") {
        decode_tool_use(v)
    } else if tag_is(&tag, "tool_result") {
        decode_tool_result(v)
    } else if tag_is(&tag, "result") {
        decode_result(v)
    } else if tag_is(&tag, "error") {
        decode_error(v)
    } else if tag_is(&tag, "content_block_delta") {
        decode_delta(v)
    } else if tag_is(&tag, "content_block_start") {
        decode_start(v)
    } else if tag_is(&tag, "content_block_stop") {
        decode_stop(v)
    } else {
        StreamMessage::Unknown
    }
}

/// Decodes one line (already stripped of its terminator and surrounding
/// whitespace): `None` for invalid JSON, the document's shape otherwise.
pub fn decode_line(bytes: &[u8]) -> (r: Option<StreamMessage>)
    ensures
        r.deep_view() == line_decode(bytes@),
{
    let v = match json_parse(bytes) {
        None => {
            return None;
        },
        Some(v) => v,
    };
    Some(decode_value(&v))
}

} // verus!
