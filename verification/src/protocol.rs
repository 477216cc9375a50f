//! What the server says, and when.
//!
//! This module reads what a request asks for and plans the messages that
//! answer it: for each request type the messages to send, each with its
//! channel, its type and its content, in the order in which they must go
//! out. Receiving and sending are the caller's. A planned message becomes a
//! message on the wire when it is sealed: it gets a header of its own, the
//! request's header as its parent, and, unless it is a broadcast, the
//! request's routing identities.

use crate::ambient::{fresh_id, timestamp};
use crate::json::{
    bool_member, empty_object, json_bool, json_bool_member, json_clone, json_list, json_number,
    json_object, json_of, json_string, json_text_member, object, text, text_list, text_member,
    JsonView, ObjectBuilder,
};
use crate::message::{DocumentsView, JupyterMessage};
use crate::runner::{ExecutionResult, ResultView};
use crate::text::{decimal, lines, lines_of, str_eq, views};
use serde_json::Value;
use vstd::prelude::*;
use vstd::string::StringExecFns;

verus! {

/// The channel on which a message goes out.
#[derive(Debug, Clone, Copy, PartialEq, Eq)]
pub enum Channel {
    /// Direct replies to requests of the shell channel.
    Shell,
    /// Broadcasts to every observer.
    IoPub,
    /// Direct replies to requests of the control channel.
    Control,
}

/// The requests of the shell channel.
#[derive(Debug, Clone, Copy, PartialEq, Eq)]
pub enum ShellRequest {
    KernelInfo,
    Execute,
    IsComplete,
    CommInfo,
    History,
    /// Any other message type: it gets no reply.
    Unhandled,
}

/// The request that a message type of the shell channel stands for.
pub open spec fn shell_request_of(msg_type: Seq<char>) -> ShellRequest {
    if msg_type == "kernel_info_request"@ {
        ShellRequest::KernelInfo
    } else if msg_type == "execute_request"@ {
        ShellRequest::Execute
    } else if msg_type == "is_complete_request"@ {
        ShellRequest::IsComplete
    } else if msg_type == "comm_info_request"@ {
        ShellRequest::CommInfo
    } else if msg_type == "history_request"@ {
        ShellRequest::History
    } else {
        ShellRequest::Unhandled
    }
}

/// The text member `key` of `doc`, or the empty text if there is none.
pub open spec fn text_or_empty(doc: JsonView, key: Seq<char>) -> Seq<char> {
    match text_member(doc, key) {
        Some(t) => t,
        None => Seq::empty(),
    }
}

/// The boolean member `key` of `doc`, or `false` if there is none.
pub open spec fn flag(doc: JsonView, key: Seq<char>) -> bool {
    match bool_member(doc, key) {
        Some(b) => b,
        None => false,
    }
}

/// The header of a message of type `msg_type` in the session `session`,
/// with the identifier `msg_id` and the date `date`.
pub open spec fn header_doc(
    msg_id: Seq<char>,
    session: Seq<char>,
    date: Seq<char>,
    msg_type: Seq<char>,
) -> JsonView {
    object(
        seq![
            ("msg_id"@, text(msg_id)),
            ("session"@, text(session)),
            ("username"@, text("v-kernel"@)),
            ("date"@, text(date)),
            ("msg_type"@, text(msg_type)),
            ("version"@, text("5.3"@)),
        ],
    )
}

/// Whether `doc` is a header for `msg_type` and `session`, with some
/// identifier and some date.
pub open spec fn is_header_for(doc: JsonView, msg_type: Seq<char>, session: Seq<char>) -> bool {
    exists|msg_id: Seq<char>, date: Seq<char>| doc == header_doc(msg_id, session, date, msg_type)
}

/// The content of a status notification.
pub open spec fn status_doc(execution_state: Seq<char>) -> JsonView {
    object(seq![("execution_state"@, text(execution_state))])
}

/// The content of the echo of a cell: its code and its number.
pub open spec fn execute_input_doc(code: Seq<char>, count: nat) -> JsonView {
    object(seq![("code"@, text(code)), ("execution_count"@, JsonView::Number(decimal(count)))])
}

/// The content of a stream message: the name of the stream and the text.
pub open spec fn stream_doc(name: Seq<char>, content: Seq<char>) -> JsonView {
    object(seq![("name"@, text(name)), ("text"@, text(content))])
}

/// The members that describe a failed execution: the error's name, its
/// value, and the error text line by line as traceback.
pub open spec fn error_members(stderr: Seq<char>) -> Seq<(Seq<char>, JsonView)> {
    seq![
        ("ename"@, text("CompileError"@)),
        ("evalue"@, text("V compilation or runtime error"@)),
        ("traceback"@, text_list(lines(stderr))),
    ]
}

/// The content of an error notification.
pub open spec fn error_doc(stderr: Seq<char>) -> JsonView {
    object(error_members(stderr))
}

/// The content of the reply to an execution: the status, the number of the
/// cell, and for an error its description, else an empty payload and no
/// user expressions.
pub open spec fn execute_reply_doc(is_error: bool, count: nat, stderr: Seq<char>) -> JsonView {
    if is_error {
        object(
            seq![
                ("status"@, text("error"@)),
                ("execution_count"@, JsonView::Number(decimal(count))),
            ] + error_members(stderr),
        )
    } else {
        object(
            seq![
                ("status"@, text("ok"@)),
                ("execution_count"@, JsonView::Number(decimal(count))),
                ("payload"@, JsonView::List(Seq::empty())),
                ("user_expressions"@, empty_object()),
            ],
        )
    }
}

/// The description of the language in the capability document.
pub open spec fn language_info_doc() -> JsonView {
    object(
        seq![
            ("name"@, text("v"@)),
            ("version"@, text("0.4"@)),
            ("mimetype"@, text("text/x-vlang"@)),
            ("file_extension"@, text(".v"@)),
            ("pygments_lexer"@, text("v"@)),
            ("codemirror_mode"@, text("clike"@)),
        ],
    )
}

/// The help link of the capability document.
pub open spec fn help_link_doc() -> JsonView {
    object(seq![("text"@, text("V Documentation"@)), ("url"@, text("https://docs.vlang.io/"@))])
}

/// The capability document: the content of the reply to a request for
/// information about the kernel.
pub open spec fn kernel_info_doc() -> JsonView {
    object(
        seq![
            ("status"@, text("ok"@)),
            ("protocol_version"@, text("5.3"@)),
            ("implementation"@, text("v-kernel"@)),
            ("implementation_version"@, text("0.1.0"@)),
            ("language_info"@, language_info_doc()),
            ("banner"@, text("V kernel for Zed \u{2014} stateful REPL powered by v-kernel"@)),
            ("help_links"@, JsonView::List(seq![help_link_doc()])),
        ],
    )
}

/// The content of the reply to a completeness request: every code counts
/// as complete.
pub open spec fn is_complete_doc() -> JsonView {
    object(seq![("status"@, text("complete"@))])
}

/// The content of the reply to a request for the open comms: there are none.
pub open spec fn comm_info_doc() -> JsonView {
    object(seq![("status"@, text("ok"@)), ("comms"@, empty_object())])
}

/// The content of the reply to a request for the history: it is empty.
pub open spec fn history_doc() -> JsonView {
    object(seq![("status"@, text("ok"@)), ("history"@, JsonView::List(Seq::empty()))])
}

/// The content of the acknowledgement of a shutdown request.
pub open spec fn shutdown_doc(restart: bool) -> JsonView {
    object(seq![("status"@, text("ok"@)), ("restart"@, JsonView::Bool(restart))])
}

/// A message that is to go out: its channel, its type and its content.
pub struct Outbound {
    pub channel: Channel,
    pub msg_type: String,
    pub content: Value,
}

/// A planned message as a value.
pub struct OutboundView {
    pub channel: Channel,
    pub msg_type: Seq<char>,
    pub content: JsonView,
}

impl View for Outbound {
    type V = OutboundView;

    open spec fn view(&self) -> OutboundView {
        OutboundView {
            channel: self.channel,
            msg_type: self.msg_type@,
            content: json_of(self.content),
        }
    }
}

/// The views of planned messages, one by one.
pub open spec fn outbound_views(v: Seq<Outbound>) -> Seq<OutboundView> {
    v.map_values(|o: Outbound| o@)
}

/// A broadcast of the given type and content.
pub open spec fn broadcast(msg_type: Seq<char>, content: JsonView) -> OutboundView {
    OutboundView { channel: Channel::IoPub, msg_type, content }
}

/// What goes out before a cell is run: the status `busy`, then the echo of
/// the cell with the number that it is about to get. A silent request sends
/// nothing.
pub open spec fn opening_plan(code: Seq<char>, silent: bool, count_before: nat) -> Seq<
    OutboundView,
> {
    if silent {
        Seq::empty()
    } else {
        seq![
            broadcast("status"@, status_doc("busy"@)),
            broadcast("execute_input"@, execute_input_doc(code, count_before + 1)),
        ]
    }
}

/// The broadcast of standard output: sent if there is output and the
/// request is not silent.
pub open spec fn stdout_plan(result: ResultView, silent: bool) -> Seq<OutboundView> {
    if result.stdout.len() > 0 && !silent {
        seq![broadcast("stream"@, stream_doc("stdout"@, result.stdout))]
    } else {
        Seq::empty()
    }
}

/// The broadcasts of standard error. For an error: the error text as a
/// stream, then the error notification. Without an error: the text as a
/// stream, if there is any. A silent request sends neither.
pub open spec fn stderr_plan(result: ResultView, silent: bool) -> Seq<OutboundView> {
    if silent {
        Seq::empty()
    } else if result.is_error {
        seq![
            broadcast("stream"@, stream_doc("stderr"@, result.stderr)),
            broadcast("error"@, error_doc(result.stderr)),
        ]
    } else if result.stderr.len() > 0 {
        seq![broadcast("stream"@, stream_doc("stderr"@, result.stderr))]
    } else {
        Seq::empty()
    }
}

/// The direct reply to an execution request.
pub open spec fn execute_reply_plan(result: ResultView, count: nat) -> OutboundView {
    OutboundView {
        channel: Channel::Shell,
        msg_type: "execute_reply"@,
        content: execute_reply_doc(result.is_error, count, result.stderr),
    }
}

/// The status `idle`, unless the request is silent.
pub open spec fn idle_plan(silent: bool) -> Seq<OutboundView> {
    if silent {
        Seq::empty()
    } else {
        seq![broadcast("status"@, status_doc("idle"@))]
    }
}

/// What goes out after a cell was run, in this order: standard output,
/// standard error and the error notification, the direct reply with the
/// number of the cell, and the status `idle`. The reply is sent whether
/// the request is silent or not.
pub open spec fn closing_plan(result: ResultView, silent: bool, count: nat) -> Seq<OutboundView> {
    stdout_plan(result, silent) + stderr_plan(result, silent) + seq![
        execute_reply_plan(result, count),
    ] + idle_plan(silent)
}

/// The reply to a request that needs no state, or nothing for an execution
/// request and for a message type that is not handled.
pub open spec fn canned_reply_plan(request: ShellRequest) -> Option<OutboundView> {
    match request {
        ShellRequest::KernelInfo => Some(
            OutboundView {
                channel: Channel::Shell,
                msg_type: "kernel_info_reply"@,
                content: kernel_info_doc(),
            },
        ),
        ShellRequest::IsComplete => Some(
            OutboundView {
                channel: Channel::Shell,
                msg_type: "is_complete_reply"@,
                content: is_complete_doc(),
            },
        ),
        ShellRequest::CommInfo => Some(
            OutboundView {
                channel: Channel::Shell,
                msg_type: "comm_info_reply"@,
                content: comm_info_doc(),
            },
        ),
        ShellRequest::History => Some(
            OutboundView {
                channel: Channel::Shell,
                msg_type: "history_reply"@,
                content: history_doc(),
            },
        ),
        ShellRequest::Execute => None,
        ShellRequest::Unhandled => None,
    }
}

/// What a message of the shell channel asks the server to do.
pub enum ShellAction {
    /// Send this reply; nothing else is to be done.
    Reply(Outbound),
    /// Run this cell.
    Execute { code: String, silent: bool },
    /// The message type is not handled: send nothing.
    Ignore,
}

/// A shell action as a value.
pub enum ShellActionView {
    Reply(OutboundView),
    Execute { code: Seq<char>, silent: bool },
    Ignore,
}

impl View for ShellAction {
    type V = ShellActionView;

    open spec fn view(&self) -> ShellActionView {
        match self {
            ShellAction::Reply(out) => ShellActionView::Reply(out@),
            ShellAction::Execute { code, silent } => ShellActionView::Execute {
                code: code@,
                silent: *silent,
            },
            ShellAction::Ignore => ShellActionView::Ignore,
        }
    }
}

/// What a message of the shell channel asks for, by the type that its
/// header names. An execution request asks to run its code, which is empty
/// if the content names none, and is silent only if the content says so.
/// The requests that need no state ask for their reply. Every other type is
/// ignored.
pub open spec fn shell_plan(m: DocumentsView) -> ShellActionView {
    let request = shell_request_of(text_or_empty(m.header, "msg_type"@));
    match canned_reply_plan(request) {
        Some(reply) => ShellActionView::Reply(reply),
        None => if request == ShellRequest::Execute {
            ShellActionView::Execute {
                code: text_or_empty(m.content, "code"@),
                silent: flag(m.content, "silent"@),
            }
        } else {
            ShellActionView::Ignore
        },
    }
}

/// One step of the answer to a control message.
pub enum ControlStep {
    /// Send this message.
    Send(Outbound),
    /// End the process.
    Exit,
}

/// A control step as a value.
pub enum ControlStepView {
    Send(OutboundView),
    Exit,
}

impl View for ControlStep {
    type V = ControlStepView;

    open spec fn view(&self) -> ControlStepView {
        match self {
            ControlStep::Send(o) => ControlStepView::Send(o@),
            ControlStep::Exit => ControlStepView::Exit,
        }
    }
}

/// The views of control steps, one by one.
pub open spec fn step_views(v: Seq<ControlStep>) -> Seq<ControlStepView> {
    v.map_values(|s: ControlStep| s@)
}

/// The acknowledgement of a shutdown request.
pub open spec fn shutdown_reply_plan(restart: bool) -> OutboundView {
    OutboundView {
        channel: Channel::Control,
        msg_type: "shutdown_reply"@,
        content: shutdown_doc(restart),
    }
}

/// The answer to a control message. A shutdown request is acknowledged
/// first; the process ends after that, unless the request asks for a
/// restart. Any other message, an interrupt request too, has no effect.
pub open spec fn control_plan(msg_type: Seq<char>, restart: bool) -> Seq<ControlStepView> {
    if msg_type == "shutdown_request"@ {
        if restart {
            seq![ControlStepView::Send(shutdown_reply_plan(restart))]
        } else {
            seq![ControlStepView::Send(shutdown_reply_plan(restart)), ControlStepView::Exit]
        }
    } else {
        Seq::empty()
    }
}

/// The message that a planned message becomes: a header of its own, the
/// request's header as parent, no metadata, its content, no buffers, and
/// the request's routing identities unless it is a broadcast.
pub open spec fn sealed(
    out: OutboundView,
    request: DocumentsView,
    session: Seq<char>,
    msg_id: Seq<char>,
    date: Seq<char>,
) -> DocumentsView {
    DocumentsView {
        identities: if out.channel == Channel::IoPub {
            Seq::empty()
        } else {
            request.identities
        },
        header: header_doc(msg_id, session, date, out.msg_type),
        parent_header: request.header,
        metadata: empty_object(),
        content: out.content,
        buffers: Seq::empty(),
    }
}

/// Tells which request of the shell channel a message type stands for.
pub fn shell_request(msg_type: &str) -> (request: ShellRequest)
    ensures
        request == shell_request_of(msg_type@),
{
    if str_eq(msg_type, "kernel_info_request") {
        ShellRequest::KernelInfo
    } else if str_eq(msg_type, "execute_request") {
        ShellRequest::Execute
    } else if str_eq(msg_type, "is_complete_request") {
        ShellRequest::IsComplete
    } else if str_eq(msg_type, "comm_info_request") {
        ShellRequest::CommInfo
    } else if str_eq(msg_type, "history_request") {
        ShellRequest::History
    } else {
        ShellRequest::Unhandled
    }
}

/// The text member `key` of a document, or the empty text.
fn read_text(doc: &Value, key: &str) -> (t: String)
    ensures
        t@ == text_or_empty(json_of(*doc), key@),
{
    match json_text_member(doc, key) {
        Some(t) => t,
        None => String::new(),
    }
}

/// The boolean member `key` of a document, or `false`.
fn read_flag(doc: &Value, key: &str) -> (b: bool)
    ensures
        b == flag(json_of(*doc), key@),
{
    match json_bool_member(doc, key) {
        Some(b) => b,
        None => false,
    }
}

/// The type of a message: the `msg_type` of its header, or the empty text
/// if the header names none.
pub fn message_type(msg: &JupyterMessage) -> (t: String)
    ensures
        t@ == text_or_empty(msg@.header, "msg_type"@),
{
    read_text(&msg.header, "msg_type")
}

/// The code of an execution request: the `code` of its content, or the
/// empty text.
pub fn requested_code(msg: &JupyterMessage) -> (code: String)
    ensures
        code@ == text_or_empty(msg@.content, "code"@),
{
    read_text(&msg.content, "code")
}

/// Whether an execution request is silent: the `silent` of its content, or
/// `false`.
pub fn requested_silent(msg: &JupyterMessage) -> (silent: bool)
    ensures
        silent == flag(msg@.content, "silent"@),
{
    read_flag(&msg.content, "silent")
}

/// Whether a shutdown request asks for a restart: the `restart` of its
/// content, or `false`.
pub fn requested_restart(msg: &JupyterMessage) -> (restart: bool)
    ensures
        restart == flag(msg@.content, "restart"@),
{
    read_flag(&msg.content, "restart")
}

/// A header with the given identifier and date.
pub fn header_with(msg_id: &str, date: &str, msg_type: &str, session: &str) -> (h: Value)
    ensures
        json_of(h) == header_doc(msg_id@, session@, date@, msg_type@),
{
    let b = ObjectBuilder::new();
    let b = b.text("msg_id", msg_id);
    let b = b.text("session", session);
    let b = b.text("username", "v-kernel");
    let b = b.text("date", date);
    let b = b.text("msg_type", msg_type);
    let b = b.text("version", "5.3");
    assert(b.members() =~= seq![
        ("msg_id"@, text(msg_id@)),
        ("session"@, text(session@)),
        ("username"@, text("v-kernel"@)),
        ("date"@, text(date@)),
        ("msg_type"@, text(msg_type@)),
        ("version"@, text("5.3"@)),
    ]);
    b.finish()
}

/// A header for a new message of type `msg_type`: a fresh identifier, the
/// session, the user name of this implementation, the current time, the
/// type and the protocol version.
pub fn make_header(msg_type: &str, session: &str) -> (h: Value)
    ensures
        is_header_for(json_of(h), msg_type@, session@),
{
    let msg_id = fresh_id();
    let date = timestamp();
    header_with(msg_id.as_str(), date.as_str(), msg_type, session)
}

/// A planned broadcast.
fn broadcast_of(msg_type: &str, content: Value) -> (out: Outbound)
    ensures
        out@ == broadcast(msg_type@, json_of(content)),
{
    Outbound { channel: Channel::IoPub, msg_type: String::from_str(msg_type), content }
}

/// The status notification for the given state, `busy` or `idle`.
pub fn status_message(execution_state: &str) -> (out: Outbound)
    ensures
        out@ == broadcast("status"@, status_doc(execution_state@)),
{
    let b = ObjectBuilder::new().text("execution_state", execution_state);
    assert(b.members() =~= seq![("execution_state"@, text(execution_state@))]);
    broadcast_of("status", b.finish())
}

/// The broadcast of the text of one stream.
fn stream_message(name: &str, content: &str) -> (out: Outbound)
    ensures
        out@ == broadcast("stream"@, stream_doc(name@, content@)),
{
    let b = ObjectBuilder::new().text("name", name).text("text", content);
    assert(b.members() =~= seq![("name"@, text(name@)), ("text"@, text(content@))]);
    broadcast_of("stream", b.finish())
}

/// The lines of `stderr` as a list of texts.
fn traceback(stderr: &str) -> (v: Value)
    ensures
        json_of(v) == text_list(lines(stderr@)),
{
    let ls = lines_of(stderr);
    let mut items: Vec<Value> = Vec::new();
    let mut i: usize = 0;
    let ghost to_text = |t: Seq<char>| JsonView::Text(t);
    let ghost held = |item: Value| json_of(item);
    assert(items@.map_values(held) =~= views(ls@).take(0).map_values(to_text));
    while i < ls.len()
        invariant
            i <= ls.len(),
            to_text == |t: Seq<char>| JsonView::Text(t),
            held == |item: Value| json_of(item),
            items@.map_values(held) == views(ls@).take(i as int).map_values(to_text),
        decreases ls.len() - i,
    {
        let item = json_string(ls[i].as_str());
        proof {
            assert(items@.push(item).map_values(held) =~= items@.map_values(held).push(
                json_of(item),
            ));
            assert(views(ls@).take(i + 1).map_values(to_text) =~= views(ls@).take(
                i as int,
            ).map_values(to_text).push(JsonView::Text(ls@[i as int]@)));
        }
        items.push(item);
        i += 1;
    }
    assert(views(ls@).take(i as int) =~= views(ls@));
    json_list(items)
}

/// The list without items.
fn empty_list() -> (v: Value)
    ensures
        json_of(v) == JsonView::List(Seq::empty()),
{
    let items: Vec<Value> = Vec::new();
    assert(items@.map_values(|item: Value| json_of(item)) =~= Seq::<JsonView>::empty());
    json_list(items)
}

/// Sets the members that describe a failed execution.
fn add_error(b: ObjectBuilder, stderr: &str) -> (r: ObjectBuilder)
    ensures
        r.members() == b.members() + error_members(stderr@),
{
    let r = b.text("ename", "CompileError");
    let r = r.text("evalue", "V compilation or runtime error");
    let r = r.member("traceback", traceback(stderr));
    assert(r.members() =~= b.members() + error_members(stderr@));
    r
}

/// The content of the reply to an execution.
pub fn execute_reply_content(is_error: bool, count: u32, stderr: &str) -> (v: Value)
    ensures
        json_of(v) == execute_reply_doc(is_error, count as nat, stderr@),
{
    if is_error {
        let b = ObjectBuilder::new().text("status", "error");
        let b = b.member("execution_count", json_number(count));
        assert(b.members() =~= seq![
            ("status"@, text("error"@)),
            ("execution_count"@, JsonView::Number(decimal(count as nat))),
        ]);
        add_error(b, stderr).finish()
    } else {
        let b = ObjectBuilder::new().text("status", "ok");
        let b = b.member("execution_count", json_number(count));
        let b = b.member("payload", empty_list());
        let b = b.member("user_expressions", json_object());
        assert(b.members() =~= seq![
            ("status"@, text("ok"@)),
            ("execution_count"@, JsonView::Number(decimal(count as nat))),
            ("payload"@, JsonView::List(Seq::empty())),
            ("user_expressions"@, empty_object()),
        ]);
        b.finish()
    }
}

/// The capability document that answers a request for information about
/// the kernel: the protocol version, this implementation and its version,
/// the language with its file extension, a banner, and a help link.
pub fn kernel_info_content() -> (v: Value)
    ensures
        json_of(v) == kernel_info_doc(),
{
    let language = ObjectBuilder::new().text("name", "v");
    let language = language.text("version", "0.4");
    let language = language.text("mimetype", "text/x-vlang");
    let language = language.text("file_extension", ".v");
    let language = language.text("pygments_lexer", "v");
    let language = language.text("codemirror_mode", "clike");
    assert(language.members() =~= seq![
        ("name"@, text("v"@)),
        ("version"@, text("0.4"@)),
        ("mimetype"@, text("text/x-vlang"@)),
        ("file_extension"@, text(".v"@)),
        ("pygments_lexer"@, text("v"@)),
        ("codemirror_mode"@, text("clike"@)),
    ]);
    let link = ObjectBuilder::new().text("text", "V Documentation");
    let link = link.text("url", "https://docs.vlang.io/");
    assert(link.members() =~= seq![
        ("text"@, text("V Documentation"@)),
        ("url"@, text("https://docs.vlang.io/"@)),
    ]);
    let mut links: Vec<Value> = Vec::new();
    links.push(link.finish());
    assert(links@.map_values(|item: Value| json_of(item)) =~= seq![help_link_doc()]);
    let links = json_list(links);
    let b = ObjectBuilder::new().text("status", "ok");
    let b = b.text("protocol_version", "5.3");
    let b = b.text("implementation", "v-kernel");
    let b = b.text("implementation_version", "0.1.0");
    let b = b.member("language_info", language.finish());
    let b = b.text("banner", "V kernel for Zed \u{2014} stateful REPL powered by v-kernel");
    let b = b.member("help_links", links);
    assert(b.members() =~= seq![
        ("status"@, text("ok"@)),
        ("protocol_version"@, text("5.3"@)),
        ("implementation"@, text("v-kernel"@)),
        ("implementation_version"@, text("0.1.0"@)),
        ("language_info"@, language_info_doc()),
        ("banner"@, text("V kernel for Zed \u{2014} stateful REPL powered by v-kernel"@)),
        ("help_links"@, JsonView::List(seq![help_link_doc()])),
    ]);
    b.finish()
}

/// A planned direct reply on the shell channel.
fn shell_reply(msg_type: &str, content: Value) -> (out: Outbound)
    ensures
        out@ == (OutboundView {
            channel: Channel::Shell,
            msg_type: msg_type@,
            content: json_of(content),
        }),
{
    Outbound { channel: Channel::Shell, msg_type: String::from_str(msg_type), content }
}

/// Plans the reply to a request that needs no state: the capability
/// document, `complete` for every code, no comms, an empty history. An
/// execution request and a message type that is not handled get none here.
pub fn canned_reply(request: ShellRequest) -> (r: Option<Outbound>)
    ensures
        match r {
            Some(out) => canned_reply_plan(request) == Some(out@),
            None => canned_reply_plan(request).is_none(),
        },
{
    match request {
        ShellRequest::KernelInfo => Some(shell_reply("kernel_info_reply", kernel_info_content())),
        ShellRequest::IsComplete => {
            let b = ObjectBuilder::new().text("status", "complete");
            assert(b.members() =~= seq![("status"@, text("complete"@))]);
            Some(shell_reply("is_complete_reply", b.finish()))
        },
        ShellRequest::CommInfo => {
            let b = ObjectBuilder::new().text("status", "ok").member("comms", json_object());
            assert(b.members() =~= seq![("status"@, text("ok"@)), ("comms"@, empty_object())]);
            Some(shell_reply("comm_info_reply", b.finish()))
        },
        ShellRequest::History => {
            let b = ObjectBuilder::new().text("status", "ok").member("history", empty_list());
            assert(b.members() =~= seq![
                ("status"@, text("ok"@)),
                ("history"@, JsonView::List(Seq::empty())),
            ]);
            Some(shell_reply("history_reply", b.finish()))
        },
        ShellRequest::Execute => None,
        ShellRequest::Unhandled => None,
    }
}

/// Plans what goes out before the cell `code` is run, for a session that
/// has counted `count_before` cells so far.
pub fn execute_opening(code: &str, silent: bool, count_before: u32) -> (plan: Vec<Outbound>)
    requires
        count_before < u32::MAX,
    ensures
        outbound_views(plan@) == opening_plan(code@, silent, count_before as nat),
        plan.len() == opening_plan(code@, silent, count_before as nat).len(),
{
    let mut plan: Vec<Outbound> = Vec::new();
    if !silent {
        let busy = status_message("busy");
        let b = ObjectBuilder::new().text("code", code);
        let b = b.member("execution_count", json_number(count_before + 1));
        assert(b.members() =~= seq![
            ("code"@, text(code@)),
            ("execution_count"@, JsonView::Number(decimal((count_before + 1) as nat))),
        ]);
        let input = broadcast_of("execute_input", b.finish());
        plan.push(busy);
        plan.push(input);
    }
    assert(outbound_views(plan@) =~= opening_plan(code@, silent, count_before as nat));
    plan
}

/// Plans what goes out after a cell was run with the given result, for a
/// session whose counter now stands at `count`.
pub fn execute_closing(result: &ExecutionResult, silent: bool, count: u32) -> (plan: Vec<Outbound>)
    ensures
        outbound_views(plan@) == closing_plan(result@, silent, count as nat),
        plan.len() == closing_plan(result@, silent, count as nat).len(),
{
    let mut plan: Vec<Outbound> = Vec::new();
    let stdout = result.stdout.as_str();
    let stderr = result.stderr.as_str();
    if !stdout.is_empty() && !silent {
        plan.push(stream_message("stdout", stdout));
    }
    assert(outbound_views(plan@) =~= stdout_plan(result@, silent));
    let ghost first = outbound_views(plan@);
    if result.is_error && !silent {
        plan.push(stream_message("stderr", stderr));
        let b = add_error(ObjectBuilder::new(), stderr);
        assert(b.members() =~= error_members(stderr@));
        plan.push(broadcast_of("error", b.finish()));
    } else if !stderr.is_empty() && !silent {
        plan.push(stream_message("stderr", stderr));
    }
    assert(outbound_views(plan@) =~= first + stderr_plan(result@, silent));
    let ghost second = outbound_views(plan@);
    let content = execute_reply_content(result.is_error, count, stderr);
    plan.push(shell_reply("execute_reply", content));
    assert(outbound_views(plan@) =~= second + seq![execute_reply_plan(result@, count as nat)]);
    let ghost third = outbound_views(plan@);
    if !silent {
        plan.push(status_message("idle"));
    }
    assert(outbound_views(plan@) =~= third + idle_plan(silent));
    plan
}

/// Plans the answer to a message of the control channel.
pub fn control_steps(msg_type: &str, restart: bool) -> (steps: Vec<ControlStep>)
    ensures
        step_views(steps@) == control_plan(msg_type@, restart),
        steps.len() == control_plan(msg_type@, restart).len(),
{
    let mut steps: Vec<ControlStep> = Vec::new();
    if str_eq(msg_type, "shutdown_request") {
        let b = ObjectBuilder::new().text("status", "ok").member("restart", json_bool(restart));
        assert(b.members() =~= seq![
            ("status"@, text("ok"@)),
            ("restart"@, JsonView::Bool(restart)),
        ]);
        let reply = Outbound {
            channel: Channel::Control,
            msg_type: String::from_str("shutdown_reply"),
            content: b.finish(),
        };
        steps.push(ControlStep::Send(reply));
        if !restart {
            steps.push(ControlStep::Exit);
        }
    }
    assert(step_views(steps@) =~= control_plan(msg_type@, restart));
    steps
}

/// Reads a message of the shell channel and tells what it asks for.
pub fn shell_action(msg: &JupyterMessage) -> (action: ShellAction)
    ensures
        action@ == shell_plan(msg@),
{
    let msg_type = message_type(msg);
    let request = shell_request(msg_type.as_str());
    match canned_reply(request) {
        Some(reply) => ShellAction::Reply(reply),
        None => match request {
            ShellRequest::Execute => ShellAction::Execute {
                code: requested_code(msg),
                silent: requested_silent(msg),
            },
            _ => ShellAction::Ignore,
        },
    }
}

/// Reads a message of the control channel and plans the answer to it: the
/// steps of `control_steps` for the type that its header names and the
/// restart that its content asks for.
pub fn control_action(msg: &JupyterMessage) -> (steps: Vec<ControlStep>)
    ensures
        step_views(steps@) == control_plan(
            text_or_empty(msg@.header, "msg_type"@),
            flag(msg@.content, "restart"@),
        ),
        steps.len() == control_plan(
            text_or_empty(msg@.header, "msg_type"@),
            flag(msg@.content, "restart"@),
        ).len(),
{
    let msg_type = message_type(msg);
    control_steps(msg_type.as_str(), requested_restart(msg))
}

/// Seals a planned message with the given identifier and date.
pub fn seal_with(
    out: Outbound,
    request: &JupyterMessage,
    session: &str,
    msg_id: &str,
    date: &str,
) -> (m: JupyterMessage)
    ensures
        m@ == sealed(out@, request@, session@, msg_id@, date@),
{
    let header = header_with(msg_id, date, out.msg_type.as_str(), session);
    seal_under(out, request, header)
}

/// Seals a planned message under a header that was made for it.
fn seal_under(out: Outbound, request: &JupyterMessage, header: Value) -> (m: JupyterMessage)
    ensures
        m@ == (DocumentsView {
            identities: if out@.channel == Channel::IoPub {
                Seq::empty()
            } else {
                request@.identities
            },
            header: json_of(header),
            parent_header: request@.header,
            metadata: empty_object(),
            content: out@.content,
            buffers: Seq::empty(),
        }),
{
    let mut identities: Vec<Vec<u8>> = Vec::new();
    let broadcast = match out.channel {
        Channel::IoPub => true,
        _ => false,
    };
    assert(crate::codec::byte_views(identities@) =~= Seq::<Seq<u8>>::empty());
    if !broadcast {
        crate::codec::push_frames(&mut identities, request.identities.as_slice(), 0);
        assert(crate::codec::byte_views(request.identities@).skip(0) =~= request@.identities);
        assert(crate::codec::byte_views(identities@) =~= request@.identities);
    }
    let buffers: Vec<Vec<u8>> = Vec::new();
    assert(crate::codec::byte_views(buffers@) =~= Seq::<Seq<u8>>::empty());
    let m = JupyterMessage {
        identities,
        header,
        parent_header: json_clone(&request.header),
        metadata: json_object(),
        content: out.content,
        buffers,
    };
    assert(m@ =~= (DocumentsView {
        identities: if out@.channel == Channel::IoPub {
            Seq::empty()
        } else {
            request@.identities
        },
        header: json_of(header),
        parent_header: request@.header,
        metadata: empty_object(),
        content: out@.content,
        buffers: Seq::empty(),
    }));
    m
}

/// Seals a planned message for the wire: it gets a header with a fresh
/// identifier and the current time, the header of the request as its
/// parent, empty metadata, no buffers, and the routing identities of the
/// request unless it is a broadcast, which has none.
pub fn seal(out: Outbound, request: &JupyterMessage, session: &str) -> (m: JupyterMessage)
    ensures
        exists|msg_id: Seq<char>, date: Seq<char>|
            m@ == sealed(out@, request@, session@, msg_id, date),
{
    let msg_id = fresh_id();
    let date = timestamp();
    seal_with(out, request, session, msg_id.as_str(), date.as_str())
}

} // verus!
