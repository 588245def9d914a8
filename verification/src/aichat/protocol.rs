//! What goes over the wire: messages, tool calls, usage, and the pieces of a streamed reply.

use crate::json::{
    array_value, as_array, as_str, as_u64, bool_value, copy, empty_object, get, is_null, is_object,
    parse, parse_bytes, read_text, set_member, text_value, to_text,
};
use crate::json::{
    documents, json_of, json_read, json_read_bytes, json_text, text_member, text_or_empty, Json,
};
use serde_json::Value;
use vstd::prelude::*;
use vstd::utf8::encode_utf8;

verus! {

/// Who a message is from.
#[derive(Debug, Clone, Copy, PartialEq, Eq, Structural)]
pub enum Role {
    System,
    User,
    Assistant,
}

/// One message of a conversation.
#[derive(Debug, PartialEq, Eq)]
pub struct Message {
    pub role: Role,
    pub content: String,
}

/// A [`Message`] as a mathematical value.
pub struct MessageView {
    pub role: Role,
    pub content: Seq<char>,
}

impl View for Message {
    type V = MessageView;

    open spec fn view(&self) -> MessageView {
        MessageView { role: self.role, content: self.content@ }
    }
}

impl Clone for Message {
    fn clone(&self) -> (r: Self)
        ensures
            r == *self,
    {
        Message { role: self.role, content: self.content.clone() }
    }
}

impl Message {
    /// A message from the system.
    pub fn system(content: String) -> (r: Self)
        ensures
            r@ == (MessageView { role: Role::System, content: content@ }),
    {
        Message { role: Role::System, content }
    }

    /// A message from the user.
    pub fn user(content: String) -> (r: Self)
        ensures
            r@ == (MessageView { role: Role::User, content: content@ }),
    {
        Message { role: Role::User, content }
    }

    /// A message from the assistant.
    pub fn assistant(content: String) -> (r: Self)
        ensures
            r@ == (MessageView { role: Role::Assistant, content: content@ }),
    {
        Message { role: Role::Assistant, content }
    }
}

/// The function a tool call names, and its arguments as JSON text. Both are model output.
#[derive(Debug, PartialEq, Eq)]
pub struct FunctionCall {
    pub name: String,
    pub arguments: String,
}

/// A tool the model asked to call.
#[derive(Debug, PartialEq, Eq)]
pub struct ToolCall {
    pub id: String,
    pub function: FunctionCall,
}

impl Clone for ToolCall {
    fn clone(&self) -> (r: Self)
        ensures
            r == *self,
    {
        ToolCall {
            id: self.id.clone(),
            function: FunctionCall {
                name: self.function.name.clone(),
                arguments: self.function.arguments.clone(),
            },
        }
    }
}

impl ToolCall {
    /// The arguments as a document, or why they are not JSON.
    pub fn arguments(&self) -> (r: Result<Value, String>)
        ensures
            match r {
                Ok(value) => json_read(self.function.arguments@) == Ok::<Json, Seq<char>>(
                    json_of(value),
                ),
                Err(message) => json_read(self.function.arguments@) == Err::<Json, Seq<char>>(
                    message@,
                ),
            },
    {
        parse(self.function.arguments.as_str())
    }
}

/// A [`ToolCall`] as a mathematical value.
pub struct ToolCallView {
    pub id: Seq<char>,
    pub name: Seq<char>,
    pub arguments: Seq<char>,
}

impl View for ToolCall {
    type V = ToolCallView;

    open spec fn view(&self) -> ToolCallView {
        ToolCallView {
            id: self.id@,
            name: self.function.name@,
            arguments: self.function.arguments@,
        }
    }
}

/// Some tool calls as mathematical values.
pub open spec fn call_views(calls: Seq<ToolCall>) -> Seq<ToolCallView> {
    calls.map_values(|call: ToolCall| call@)
}

/// What a round cost, as the server counted it.
#[derive(Debug, Clone, Copy, PartialEq, Eq, Structural)]
pub struct Usage {
    pub prompt_tokens: u64,
    pub completion_tokens: u64,
}

impl Usage {
    /// All the tokens of a round.
    pub open spec fn spec_total(self) -> nat {
        self.prompt_tokens as nat + self.completion_tokens as nat
    }

    /// All the tokens of a round.
    pub fn total(&self) -> (r: u64)
        requires
            self.spec_total() <= u64::MAX,
        ensures
            r == self.spec_total(),
    {
        self.prompt_tokens + self.completion_tokens
    }
}

/// A whole reply, as the envelope was read.
pub struct ChatResponse {
    /// The model the server reports.
    pub model: Option<String>,
    /// The text of the reply, if it has any.
    pub content: Option<String>,
    /// The tools the model asked to call.
    pub calls: Vec<ToolCall>,
    /// What the reply cost.
    pub usage: Usage,
}

/// A piece of a tool call, as a streamed reply carries it.
pub struct CallFragment {
    /// Which of the reply's calls this is a piece of.
    pub index: u64,
    /// The call's id, where this piece carries it.
    pub id: Option<String>,
    /// The function's name, where this piece carries it.
    pub name: Option<String>,
    /// More of the arguments, where this piece carries any.
    pub arguments: Option<String>,
}

/// A piece of a streamed reply.
pub struct ChatChunk {
    pub model: Option<String>,
    pub content: Option<String>,
    pub calls: Vec<CallFragment>,
    pub usage: Option<Usage>,
}

/// A text that may be missing, as a mathematical value.
pub open spec fn text_view(text: Option<String>) -> Option<Seq<char>> {
    match text {
        Some(s) => Some(s@),
        None => None,
    }
}

/// A [`CallFragment`] as a mathematical value.
pub struct FragmentView {
    pub index: nat,
    pub id: Option<Seq<char>>,
    pub name: Option<Seq<char>>,
    pub arguments: Option<Seq<char>>,
}

impl View for CallFragment {
    type V = FragmentView;

    open spec fn view(&self) -> FragmentView {
        FragmentView {
            index: self.index as nat,
            id: text_view(self.id),
            name: text_view(self.name),
            arguments: text_view(self.arguments),
        }
    }
}

/// A [`ChatChunk`] as a mathematical value.
#[verifier::ext_equal]
pub struct ChunkView {
    pub model: Option<Seq<char>>,
    pub content: Option<Seq<char>>,
    pub calls: Seq<FragmentView>,
    pub usage: Option<Usage>,
}

impl View for ChatChunk {
    type V = ChunkView;

    open spec fn view(&self) -> ChunkView {
        ChunkView {
            model: text_view(self.model),
            content: text_view(self.content),
            calls: self.calls@.map_values(|f: CallFragment| f@),
            usage: self.usage,
        }
    }
}

/// A [`ChatResponse`] as a mathematical value.
#[verifier::ext_equal]
pub struct ResponseView {
    pub model: Option<Seq<char>>,
    pub content: Option<Seq<char>>,
    pub calls: Seq<ToolCallView>,
    pub usage: Usage,
}

impl View for ChatResponse {
    type V = ResponseView;

    open spec fn view(&self) -> ResponseView {
        ResponseView {
            model: text_view(self.model),
            content: text_view(self.content),
            calls: call_views(self.calls@),
            usage: self.usage,
        }
    }
}

/// The member `name` of a document, or null where there is none.
pub open spec fn member_or_null(document: Json, name: Seq<char>) -> Json {
    match document.member(name) {
        Some(member) => member,
        None => Json::Null,
    }
}

/// The items of the member `name` where it is an array, and none otherwise.
pub open spec fn items_of(document: Json, name: Seq<char>) -> Seq<Json> {
    match member_or_null(document, name) {
        Json::Array(items) => items,
        _ => Seq::empty(),
    }
}

/// The member `name` where it is a natural number, and nought otherwise.
pub open spec fn natural_or_zero(document: Json, name: Seq<char>) -> nat {
    match member_or_null(document, name) {
        Json::Natural(n) => n,
        _ => 0,
    }
}

/// The first of a reply's choices, or null where it has none.
pub open spec fn first_choice(document: Json) -> Json {
    let choices = items_of(document, "choices"@);
    if choices.len() > 0 {
        choices[0]
    } else {
        Json::Null
    }
}

/// What a reply says of its cost, where it says anything. A count that is missing is nought.
pub open spec fn usage_of(document: Json) -> Option<Usage> {
    match member_or_null(document, "usage"@) {
        Json::Object(members) => {
            let usage = Json::Object(members);
            Some(
                Usage {
                    prompt_tokens: natural_or_zero(usage, "prompt_tokens"@) as u64,
                    completion_tokens: natural_or_zero(usage, "completion_tokens"@) as u64,
                },
            )
        },
        _ => None,
    }
}

/// No cost.
pub open spec fn no_usage() -> Usage {
    Usage { prompt_tokens: 0, completion_tokens: 0 }
}

/// A tool call, as a whole reply carries it.
pub open spec fn call_of(document: Json) -> ToolCallView {
    let function = member_or_null(document, "function"@);
    ToolCallView {
        id: text_or_empty(document, "id"@),
        name: text_or_empty(function, "name"@),
        arguments: text_or_empty(function, "arguments"@),
    }
}

/// Whether the member `name` is text, or is absent: missing, or null.
pub open spec fn text_or_absent(document: Json, name: Seq<char>) -> bool {
    member_or_null(document, name) is Text || member_or_null(document, name) is Null
}

/// Whether the member `name` is a natural number, or is absent.
pub open spec fn natural_or_absent(document: Json, name: Seq<char>) -> bool {
    member_or_null(document, name) is Natural || member_or_null(document, name) is Null
}

/// Whether the member `name` is an object, or is absent.
pub open spec fn object_or_absent(document: Json, name: Seq<char>) -> bool {
    member_or_null(document, name) is Object || member_or_null(document, name) is Null
}

/// Whether the member `name` is an array, or is absent.
pub open spec fn array_or_absent(document: Json, name: Seq<char>) -> bool {
    member_or_null(document, name) is Array || member_or_null(document, name) is Null
}

/// Whether a document has the shape of a tool call, or of a piece of one.
pub open spec fn is_call(call: Json) -> bool {
    let function = member_or_null(call, "function"@);
    &&& call is Object
    &&& text_or_absent(call, "id"@)
    &&& natural_or_absent(call, "index"@)
    &&& object_or_absent(call, "function"@)
    &&& text_or_absent(function, "name"@)
    &&& text_or_absent(function, "arguments"@)
}

/// Whether a document has the shape of a choice, which says what it says in the member `part`.
pub open spec fn is_choice(choice: Json, part: Seq<char>) -> bool {
    let said = member_or_null(choice, part);
    &&& choice is Object
    &&& object_or_absent(choice, part)
    &&& text_or_absent(said, "content"@)
    &&& array_or_absent(said, "tool_calls"@)
    &&& forall|i: int|
        0 <= i < items_of(said, "tool_calls"@).len() ==> is_call(
            #[trigger] items_of(said, "tool_calls"@)[i],
        )
}

/// Whether a document has the shape of a reply, whose choices say what they say in the member
/// `part`: every member that is read is of its type, or absent.
pub open spec fn is_reply(document: Json, part: Seq<char>) -> bool {
    let usage = member_or_null(document, "usage"@);
    &&& document is Object
    &&& text_or_absent(document, "model"@)
    &&& object_or_absent(document, "usage"@)
    &&& natural_or_absent(usage, "prompt_tokens"@)
    &&& natural_or_absent(usage, "completion_tokens"@)
    &&& array_or_absent(document, "choices"@)
    &&& forall|i: int|
        0 <= i < items_of(document, "choices"@).len() ==> is_choice(
            #[trigger] items_of(document, "choices"@)[i],
            part,
        )
}

/// A whole reply, where the document has the shape of one.
pub open spec fn response_of(document: Json) -> Option<ResponseView> {
    if is_reply(document, "message"@) {
        Some(response_said(document))
    } else {
        None
    }
}

/// A piece of a streamed reply, where the document has the shape of one.
pub open spec fn chunk_of(document: Json) -> Option<ChunkView> {
    if is_reply(document, "delta"@) {
        Some(chunk_said(document))
    } else {
        None
    }
}

/// Whether this is what the bytes of a reply are read as: a reply, or what is wrong with them. Of
/// bytes that are not JSON the reader of JSON tells what is wrong, and `describe` of a document that
/// has another shape.
pub open spec fn is_read<D: Fn(&Vec<u8>) -> String>(
    bytes: Vec<u8>,
    describe: D,
    read: Result<ResponseView, Seq<char>>,
) -> bool {
    match json_read_bytes(bytes@) {
        Ok(document) => match response_of(document) {
            Some(response) => read == Ok::<ResponseView, Seq<char>>(response),
            None => exists|said: String|
                {
                    &&& #[trigger] call_ensures(describe, (&bytes,), said)
                    &&& read == Err::<ResponseView, Seq<char>>(said@)
                },
        },
        Err(message) => read == Err::<ResponseView, Seq<char>>(message),
    }
}

/// A result of reading a reply, as a mathematical value.
pub open spec fn read_result(r: Result<ChatResponse, String>) -> Result<ResponseView, Seq<char>> {
    match r {
        Ok(response) => Ok(response@),
        Err(message) => Err(message@),
    }
}

/// What an event's payload is read as, if it is a piece of a reply.
pub open spec fn chunk_read(payload: Seq<u8>) -> Option<ChunkView> {
    match json_read_bytes(payload) {
        Ok(document) => chunk_of(document),
        Err(_) => None,
    }
}

/// What a whole reply says: the message of its first choice, and what goes with it.
pub open spec fn response_said(document: Json) -> ResponseView {
    let message = member_or_null(first_choice(document), "message"@);
    ResponseView {
        model: text_member(document, "model"@),
        content: text_member(message, "content"@),
        calls: items_of(message, "tool_calls"@).map_values(|item: Json| call_of(item)),
        usage: match usage_of(document) {
            Some(usage) => usage,
            None => no_usage(),
        },
    }
}

/// A piece of a tool call, as a streamed reply carries it.
pub open spec fn fragment_of(document: Json) -> FragmentView {
    let function = member_or_null(document, "function"@);
    FragmentView {
        index: natural_or_zero(document, "index"@),
        id: text_member(document, "id"@),
        name: text_member(function, "name"@),
        arguments: text_member(function, "arguments"@),
    }
}

/// What a piece of a streamed reply says: the delta of its first choice, and what goes with it.
pub open spec fn chunk_said(document: Json) -> ChunkView {
    let delta = member_or_null(first_choice(document), "delta"@);
    ChunkView {
        model: text_member(document, "model"@),
        content: text_member(delta, "content"@),
        calls: items_of(delta, "tool_calls"@).map_values(|item: Json| fragment_of(item)),
        usage: usage_of(document),
    }
}

/// The document that a value holds, or null where there is no value.
pub open spec fn held(value: Option<&Value>) -> Json {
    match value {
        Some(v) => json_of(*v),
        None => Json::Null,
    }
}

fn get_in<'a>(value: Option<&'a Value>, name: &str) -> (r: Option<&'a Value>)
    ensures
        held(r) == member_or_null(held(value), name@),
{
    match value {
        Some(v) => get(v, name),
        None => None,
    }
}

fn text_in(value: Option<&Value>, name: &str) -> (r: Option<String>)
    ensures
        text_view(r) == text_member(held(value), name@),
{
    match get_in(value, name) {
        Some(member) => match as_str(member) {
            Some(text) => Some(text.to_string()),
            None => None,
        },
        None => None,
    }
}

fn text_in_or_empty(value: Option<&Value>, name: &str) -> (r: String)
    ensures
        r@ == text_or_empty(held(value), name@),
{
    match value {
        Some(v) => read_text(v, name),
        None => String::new(),
    }
}

fn natural_in(value: Option<&Value>, name: &str) -> (r: u64)
    ensures
        r == natural_or_zero(held(value), name@),
{
    match get_in(value, name) {
        Some(member) => match as_u64(member) {
            Some(n) => n,
            None => 0,
        },
        None => 0,
    }
}

fn items_in<'a>(value: Option<&'a Value>, name: &str) -> (r: Option<&'a Vec<Value>>)
    ensures
        match r {
            Some(items) => documents(items@) == items_of(held(value), name@),
            None => items_of(held(value), name@) == Seq::<Json>::empty(),
        },
{
    match get_in(value, name) {
        Some(member) => as_array(member),
        None => None,
    }
}

fn first_choice_in(value: &Value) -> (r: Option<&Value>)
    ensures
        held(r) == first_choice(json_of(*value)),
{
    match items_in(Some(value), "choices") {
        Some(choices) => if choices.len() > 0 {
            assert(documents(choices@)[0] == json_of(choices@[0]));
            Some(&choices[0])
        } else {
            None
        },
        None => None,
    }
}

fn usage_in(value: &Value) -> (r: Option<Usage>)
    ensures
        r == usage_of(json_of(*value)),
{
    match get(value, "usage") {
        Some(usage) => if is_object(usage) {
            Some(
                Usage {
                    prompt_tokens: natural_in(Some(usage), "prompt_tokens"),
                    completion_tokens: natural_in(Some(usage), "completion_tokens"),
                },
            )
        } else {
            None
        },
        None => None,
    }
}

fn has_text_or_none(value: Option<&Value>, name: &str) -> (r: bool)
    ensures
        r == text_or_absent(held(value), name@),
{
    match get_in(value, name) {
        Some(member) => is_null(member) || as_str(member).is_some(),
        None => true,
    }
}

fn has_natural_or_none(value: Option<&Value>, name: &str) -> (r: bool)
    ensures
        r == natural_or_absent(held(value), name@),
{
    match get_in(value, name) {
        Some(member) => is_null(member) || as_u64(member).is_some(),
        None => true,
    }
}

fn has_object_or_none(value: Option<&Value>, name: &str) -> (r: bool)
    ensures
        r == object_or_absent(held(value), name@),
{
    match get_in(value, name) {
        Some(member) => is_null(member) || is_object(member),
        None => true,
    }
}

fn has_array_or_none(value: Option<&Value>, name: &str) -> (r: bool)
    ensures
        r == array_or_absent(held(value), name@),
{
    match get_in(value, name) {
        Some(member) => is_null(member) || as_array(member).is_some(),
        None => true,
    }
}

fn looks_like_call(value: &Value) -> (r: bool)
    ensures
        r == is_call(json_of(*value)),
{
    let call = Some(value);
    let function = get_in(call, "function");
    is_object(value) && has_text_or_none(call, "id") && has_natural_or_none(call, "index")
        && has_object_or_none(call, "function") && has_text_or_none(function, "name")
        && has_text_or_none(function, "arguments")
}

fn looks_like_choice(value: &Value, part: &str) -> (r: bool)
    ensures
        r == is_choice(json_of(*value), part@),
{
    let choice = Some(value);
    let said = get_in(choice, part);
    if !(is_object(value) && has_object_or_none(choice, part) && has_text_or_none(said, "content")
        && has_array_or_none(said, "tool_calls")) {
        return false;
    }
    let ghost all = items_of(held(said), "tool_calls"@);
    match items_in(said, "tool_calls") {
        Some(items) => {
            let mut i: usize = 0;
            while i < items.len()
                invariant
                    i <= items.len(),
                    all == documents(items@),
                    all == items_of(member_or_null(json_of(*value), part@), "tool_calls"@),
                    forall|j: int| 0 <= j < i ==> is_call(#[trigger] all[j]),
                decreases items.len() - i,
            {
                assert(all[i as int] == json_of(items@[i as int]));
                if !looks_like_call(&items[i]) {
                    return false;
                }
                i = i + 1;
            }
        },
        None => {},
    }
    true
}

fn looks_like_reply(value: &Value, part: &str) -> (r: bool)
    ensures
        r == is_reply(json_of(*value), part@),
{
    let reply = Some(value);
    let usage = get_in(reply, "usage");
    if !(is_object(value) && has_text_or_none(reply, "model") && has_object_or_none(reply, "usage")
        && has_natural_or_none(usage, "prompt_tokens") && has_natural_or_none(
        usage,
        "completion_tokens",
    ) && has_array_or_none(reply, "choices")) {
        return false;
    }
    let ghost all = items_of(json_of(*value), "choices"@);
    match items_in(reply, "choices") {
        Some(items) => {
            let mut i: usize = 0;
            while i < items.len()
                invariant
                    i <= items.len(),
                    all == documents(items@),
                    all == items_of(json_of(*value), "choices"@),
                    forall|j: int| 0 <= j < i ==> is_choice(#[trigger] all[j], part@),
                decreases items.len() - i,
            {
                assert(all[i as int] == json_of(items@[i as int]));
                if !looks_like_choice(&items[i], part) {
                    return false;
                }
                i = i + 1;
            }
        },
        None => {},
    }
    true
}

/// The reply that a response's document holds, or `None` where the document has another shape. A
/// member that is missing or null is absent, so an envelope with nothing in it is a reply with
/// nothing in it.
pub fn read_response(value: &Value) -> (r: Option<ChatResponse>)
    ensures
        match r {
            Some(response) => response_of(json_of(*value)) == Some(response@),
            None => response_of(json_of(*value)) is None,
        },
{
    if !looks_like_reply(value, "message") {
        return None;
    }
    let message = get_in(first_choice_in(value), "message");
    let mut calls: Vec<ToolCall> = Vec::new();
    let ghost wanted = response_said(json_of(*value)).calls;
    match items_in(message, "tool_calls") {
        Some(items) => {
            let mut i: usize = 0;
            while i < items.len()
                invariant
                    i <= items.len(),
                    calls.len() == i,
                    wanted == documents(items@).map_values(|item: Json| call_of(item)),
                    forall|j: int| 0 <= j < i ==> (#[trigger] calls@[j])@ == wanted[j],
                decreases items.len() - i,
            {
                let item = Some(&items[i]);
                let function = get_in(item, "function");
                let call = ToolCall {
                    id: text_in_or_empty(item, "id"),
                    function: FunctionCall {
                        name: text_in_or_empty(function, "name"),
                        arguments: text_in_or_empty(function, "arguments"),
                    },
                };
                assert(call@ == wanted[i as int]);
                calls.push(call);
                i = i + 1;
            }
        },
        None => {},
    }
    let usage = match usage_in(value) {
        Some(usage) => usage,
        None => Usage { prompt_tokens: 0, completion_tokens: 0 },
    };
    let r = ChatResponse {
        model: text_in(Some(value), "model"),
        content: text_in(message, "content"),
        calls,
        usage,
    };
    assert(r@.calls =~= wanted);
    Some(r)
}

/// The reply that the bytes of a response hold, or what is wrong with them.
///
/// `describe` tells what is wrong with bytes that are JSON of another shape.
pub fn parse_response<D: Fn(&Vec<u8>) -> String>(bytes: &Vec<u8>, describe: D) -> (r: Result<
    ChatResponse,
    String,
>)
    requires
        forall|b: &Vec<u8>| #[trigger] call_requires(describe, (b,)),
    ensures
        is_read(*bytes, describe, read_result(r)),
{
    match parse_bytes(bytes.as_slice()) {
        Ok(value) => match read_response(&value) {
            Some(response) => Ok(response),
            None => Err(describe(bytes)),
        },
        Err(message) => Err(message),
    }
}

/// The piece of a streamed reply that an event's document holds, or `None` where the document has
/// another shape. A member that is missing or null is absent.
pub fn read_chunk(value: &Value) -> (r: Option<ChatChunk>)
    ensures
        match r {
            Some(chunk) => chunk_of(json_of(*value)) == Some(chunk@),
            None => chunk_of(json_of(*value)) is None,
        },
{
    if !looks_like_reply(value, "delta") {
        return None;
    }
    let delta = get_in(first_choice_in(value), "delta");
    let mut calls: Vec<CallFragment> = Vec::new();
    let ghost wanted = chunk_said(json_of(*value)).calls;
    match items_in(delta, "tool_calls") {
        Some(items) => {
            let mut i: usize = 0;
            while i < items.len()
                invariant
                    i <= items.len(),
                    calls.len() == i,
                    wanted == documents(items@).map_values(|item: Json| fragment_of(item)),
                    forall|j: int| 0 <= j < i ==> (#[trigger] calls@[j])@ == wanted[j],
                decreases items.len() - i,
            {
                let item = Some(&items[i]);
                let function = get_in(item, "function");
                let fragment = CallFragment {
                    index: natural_in(item, "index"),
                    id: text_in(item, "id"),
                    name: text_in(function, "name"),
                    arguments: text_in(function, "arguments"),
                };
                assert(fragment@ == wanted[i as int]);
                calls.push(fragment);
                i = i + 1;
            }
        },
        None => {},
    }
    let r = ChatChunk {
        model: text_in(Some(value), "model"),
        content: text_in(delta, "content"),
        calls,
        usage: usage_in(value),
    };
    assert(r@.calls =~= wanted);
    Some(r)
}

/// The piece of a streamed reply that an event's payload holds, or `None` where the payload is not
/// JSON, or not of that shape.
pub fn parse_chunk(payload: &[u8]) -> (r: Option<ChatChunk>)
    ensures
        match r {
            Some(chunk) => chunk_read(payload@) == Some(chunk@),
            None => chunk_read(payload@) is None,
        },
{
    match parse_bytes(payload) {
        Ok(value) => read_chunk(&value),
        Err(_) => None,
    }
}

/// A request for a completion.
pub struct ChatRequest {
    /// The model asked for.
    pub model: String,
    /// The conversation so far.
    pub messages: Vec<Message>,
    /// The tools on offer, as the protocol describes them.
    pub tools: Vec<Value>,
}

/// A [`ChatRequest`] as a mathematical value.
#[verifier::ext_equal]
pub struct RequestView {
    pub model: Seq<char>,
    pub messages: Seq<MessageView>,
    pub tools: Seq<Json>,
}

/// Some messages as mathematical values.
pub open spec fn message_views(messages: Seq<Message>) -> Seq<MessageView> {
    messages.map_values(|m: Message| m@)
}

impl View for ChatRequest {
    type V = RequestView;

    open spec fn view(&self) -> RequestView {
        RequestView {
            model: self.model@,
            messages: message_views(self.messages@),
            tools: documents(self.tools@),
        }
    }
}

/// The role's name in the protocol.
pub open spec fn role_name(role: Role) -> Seq<char> {
    match role {
        Role::System => "system"@,
        Role::User => "user"@,
        Role::Assistant => "assistant"@,
    }
}

/// A message, as the protocol writes it.
pub open spec fn message_form(message: MessageView) -> Json {
    Json::Object(
        Map::empty()
            .insert("role"@, Json::Text(role_name(message.role)))
            .insert("content"@, Json::Text(message.content)),
    )
}

/// A request, as the protocol writes it. One that is to be streamed asks for the reply in pieces
/// and for the usage with them, and one without tools says nothing of any.
pub open spec fn request_form(request: RequestView, streamed: bool) -> Json {
    let base = Map::empty()
        .insert("model"@, Json::Text(request.model))
        .insert(
            "messages"@,
            Json::Array(request.messages.map_values(|m: MessageView| message_form(m))),
        );
    let with_tools = if request.tools.len() > 0 {
        base.insert("tools"@, Json::Array(request.tools))
    } else {
        base
    };
    Json::Object(
        if streamed {
            with_tools.insert("stream"@, Json::Bool(true)).insert(
                "stream_options"@,
                Json::Object(Map::empty().insert("include_usage"@, Json::Bool(true))),
            )
        } else {
            with_tools
        },
    )
}

/// The bytes of a request.
pub open spec fn request_bytes(request: RequestView, streamed: bool) -> Seq<u8> {
    encode_utf8(json_text(request_form(request, streamed)))
}

fn message_value(message: &Message) -> (r: Value)
    ensures
        json_of(r) == message_form(message@),
{
    let role = match message.role {
        Role::System => "system",
        Role::User => "user",
        Role::Assistant => "assistant",
    };
    let mut value = empty_object();
    set_member(&mut value, "role", text_value(role));
    set_member(&mut value, "content", text_value(message.content.as_str()));
    value
}

/// Copies of some documents.
pub(crate) fn copy_all(values: &Vec<Value>) -> (r: Vec<Value>)
    ensures
        documents(r@) == documents(values@),
{
    let mut r: Vec<Value> = Vec::new();
    let mut i: usize = 0;
    while i < values.len()
        invariant
            i <= values.len(),
            r.len() == i,
            forall|j: int| 0 <= j < i ==> json_of(#[trigger] r@[j]) == json_of(values@[j]),
        decreases values.len() - i,
    {
        r.push(copy(&values[i]));
        i = i + 1;
    }
    assert(documents(r@) =~= documents(values@));
    r
}

impl ChatRequest {
    /// A request for the model to go on with a conversation, offering it no tools.
    pub fn new(model: &str, messages: Vec<Message>) -> (r: Self)
        ensures
            r@ == (RequestView {
                model: model@,
                messages: message_views(messages@),
                tools: Seq::empty(),
            }),
    {
        let r = ChatRequest { model: model.to_string(), messages, tools: Vec::new() };
        assert(r@.tools =~= Seq::empty());
        r
    }

    /// The request with these tools on offer.
    pub fn with_tools(self, tools: Vec<Value>) -> (r: Self)
        ensures
            r@ == (RequestView { tools: documents(tools@), ..self@ }),
    {
        ChatRequest { model: self.model, messages: self.messages, tools }
    }

    /// The bytes of the request, as a body to send.
    pub fn encode(&self, streamed: bool) -> (r: Vec<u8>)
        ensures
            r@ == request_bytes(self@, streamed),
    {
        let mut messages: Vec<Value> = Vec::new();
        let mut i: usize = 0;
        while i < self.messages.len()
            invariant
                i <= self.messages.len(),
                messages.len() == i,
                forall|j: int|
                    0 <= j < i ==> json_of(#[trigger] messages@[j]) == message_form(
                        self.messages@[j]@,
                    ),
            decreases self.messages.len() - i,
        {
            messages.push(message_value(&self.messages[i]));
            i = i + 1;
        }
        assert(documents(messages@) =~= self@.messages.map_values(
            |m: MessageView| message_form(m),
        ));
        let mut value = empty_object();
        set_member(&mut value, "model", text_value(self.model.as_str()));
        set_member(&mut value, "messages", array_value(messages));
        if self.tools.len() > 0 {
            set_member(&mut value, "tools", array_value(copy_all(&self.tools)));
        }
        if streamed {
            set_member(&mut value, "stream", bool_value(true));
            let mut options = empty_object();
            set_member(&mut options, "include_usage", bool_value(true));
            set_member(&mut value, "stream_options", options);
        }
        to_text(&value).as_str().as_bytes_vec()
    }
}

/// The payload that ends a stream.
pub const STREAM_DONE: &'static str = "[DONE]";

/// The bytes of `data:`, the field that carries a payload.
pub open spec fn data_field() -> Seq<u8> {
    seq![100u8, 97u8, 116u8, 97u8, 58u8]
}

/// What a line of an event stream carries, where it is a `data` field: what follows the colon,
/// without one leading space.
pub open spec fn line_data(line: Seq<u8>) -> Option<Seq<u8>> {
    if line.len() >= 5 && line.take(5) == data_field() {
        let rest = line.skip(5);
        if rest.len() > 0 && rest[0] == 32 {
            Some(rest.skip(1))
        } else {
            Some(rest)
        }
    } else {
        None
    }
}

/// Where an event stream is: what has arrived of the current line, and the data of the current
/// event, if a line of it carried any.
#[verifier::ext_equal]
pub struct SseView {
    pub line: Seq<u8>,
    pub data: Option<Seq<u8>>,
}

/// A line without a trailing carriage return.
pub open spec fn trimmed_line(line: Seq<u8>) -> Seq<u8> {
    if line.len() > 0 && line.last() == 13 {
        line.drop_last()
    } else {
        line
    }
}

/// The data of an event once another line of it has ended.
pub open spec fn data_after_line(data: Option<Seq<u8>>, line: Seq<u8>) -> Option<Seq<u8>> {
    match line_data(line) {
        Some(value) => match data {
            Some(before) => Some(before.push(10) + value),
            None => Some(value),
        },
        None => data,
    }
}

/// Where an event stream is after one more byte, and the payload that the byte completed. A line
/// ends with a line feed, and an empty line ends an event.
pub open spec fn sse_after_byte(state: SseView, byte: u8) -> (SseView, Option<Seq<u8>>) {
    let line = trimmed_line(state.line);
    if byte != 10 {
        (SseView { line: state.line.push(byte), data: state.data }, None)
    } else if line.len() == 0 {
        (SseView { line: Seq::empty(), data: None }, state.data)
    } else {
        (SseView { line: Seq::empty(), data: data_after_line(state.data, line) }, None)
    }
}

/// Where an event stream is after some more bytes, and the payloads that they completed.
pub open spec fn sse_after(state: SseView, bytes: Seq<u8>) -> (SseView, Seq<Seq<u8>>)
    decreases bytes.len(),
{
    if bytes.len() == 0 {
        (state, Seq::empty())
    } else {
        let before = sse_after(state, bytes.drop_last());
        let after = sse_after_byte(before.0, bytes.last());
        (
            after.0,
            match after.1 {
                Some(payload) => before.1.push(payload),
                None => before.1,
            },
        )
    }
}

/// Where an event stream begins.
pub open spec fn sse_start() -> SseView {
    SseView { line: Seq::empty(), data: None }
}

/// It makes no difference where the bytes of a stream are split between reads.
pub proof fn law_reads_may_split_anywhere(state: SseView, first: Seq<u8>, second: Seq<u8>)
    ensures
        ({
            let a = sse_after(state, first);
            let b = sse_after(a.0, second);
            sse_after(state, first + second) == (b.0, a.1 + b.1)
        }),
    decreases second.len(),
{
    let a = sse_after(state, first);
    let b = sse_after(a.0, second);
    if second.len() == 0 {
        assert(first + second =~= first);
        assert(a.1 + b.1 =~= a.1);
    } else {
        law_reads_may_split_anywhere(state, first, second.drop_last());
        assert((first + second).drop_last() =~= first + second.drop_last());
        let c = sse_after(a.0, second.drop_last());
        let after = sse_after_byte(c.0, second.last());
        if after.1 is Some {
            assert((a.1 + c.1).push(after.1->0) =~= a.1 + c.1.push(after.1->0));
        }
    }
}

proof fn lemma_line_arrives(state: SseView, line: Seq<u8>)
    requires
        forall|i: int| 0 <= i < line.len() ==> line[i] != 10,
    ensures
        sse_after(state, line) == (
            SseView { line: state.line + line, data: state.data },
            Seq::<Seq<u8>>::empty(),
        ),
    decreases line.len(),
{
    if line.len() == 0 {
        assert(state.line + line =~= state.line);
    } else {
        lemma_line_arrives(state, line.drop_last());
        assert((state.line + line.drop_last()).push(line.last()) =~= state.line + line);
    }
}

/// The frame that carries a payload of one line: `data: `, the payload, and two line feeds.
pub open spec fn frame(payload: Seq<u8>) -> Seq<u8> {
    data_field().push(32) + payload + seq![10u8, 10u8]
}

/// A frame is read as its payload, and nothing is left over.
pub proof fn law_a_frame_is_read_as_its_payload(payload: Seq<u8>)
    requires
        fits_a_line(payload),
    ensures
        sse_after(sse_start(), frame(payload)) == (sse_start(), seq![payload]),
{
    let line = data_field().push(32) + payload;
    let feed = seq![10u8];
    lemma_line_arrives(sse_start(), line);
    let a = sse_after(sse_start(), line);
    assert(a.0.line =~= line);
    assert(line.take(5) =~= data_field());
    assert(line.skip(5)[0] == 32);
    assert(line.skip(5).skip(1) =~= payload);
    assert(trimmed_line(line) == line);
    assert(line_data(line) == Some(payload));
    let one = SseView { line: Seq::empty(), data: Some(payload) };
    assert(sse_after_byte(a.0, 10) == (one, None::<Seq<u8>>));
    assert(feed.drop_last() =~= Seq::empty());
    assert(sse_after(a.0, feed) == (one, Seq::<Seq<u8>>::empty())) by {
        reveal_with_fuel(sse_after, 2);
    }
    law_reads_may_split_anywhere(sse_start(), line, feed);
    assert(sse_after(sse_start(), line + feed).0 == one);
    assert(sse_after(sse_start(), line + feed).1 =~= Seq::empty());
    assert(trimmed_line(one.line) =~= Seq::empty());
    assert(sse_after(one, feed).0 == sse_start()) by {
        reveal_with_fuel(sse_after, 2);
    }
    assert(sse_after(one, feed).1 =~= seq![payload]) by {
        reveal_with_fuel(sse_after, 2);
    }
    law_reads_may_split_anywhere(sse_start(), line + feed, feed);
    assert(line + feed + feed =~= frame(payload));
}

/// The frames that carry some payloads, one after the other.
pub open spec fn frames(payloads: Seq<Seq<u8>>) -> Seq<u8>
    decreases payloads.len(),
{
    if payloads.len() == 0 {
        Seq::empty()
    } else {
        frames(payloads.drop_last()) + frame(payloads.last())
    }
}

/// Whether a payload fits on one line of an event stream.
pub open spec fn fits_a_line(payload: Seq<u8>) -> bool {
    &&& forall|i: int| 0 <= i < payload.len() ==> payload[i] != 10
    &&& payload.len() > 0 ==> payload.last() != 13
}

/// Frames are read as their payloads, in order, and nothing is left over.
pub proof fn law_frames_are_read_as_their_payloads(payloads: Seq<Seq<u8>>)
    requires
        forall|i: int| 0 <= i < payloads.len() ==> fits_a_line(#[trigger] payloads[i]),
    ensures
        sse_after(sse_start(), frames(payloads)) == (sse_start(), payloads),
    decreases payloads.len(),
{
    if payloads.len() == 0 {
        assert(payloads =~= Seq::empty());
    } else {
        let rest = payloads.drop_last();
        assert(forall|i: int| 0 <= i < rest.len() ==> #[trigger] rest[i] == payloads[i]);
        law_frames_are_read_as_their_payloads(rest);
        assert(fits_a_line(payloads[payloads.len() - 1]));
        law_a_frame_is_read_as_its_payload(payloads.last());
        law_reads_may_split_anywhere(sse_start(), frames(rest), frame(payloads.last()));
        assert(rest + seq![payloads.last()] =~= payloads);
    }
}

/// Whether the bytes are those of `data:` at the start of a line.
fn starts_with_data(line: &Vec<u8>) -> (r: bool)
    ensures
        r == (line@.len() >= 5 && line@.take(5) == data_field()),
{
    let r = line.len() >= 5 && line[0] == 100 && line[1] == 97 && line[2] == 116 && line[3] == 97
        && line[4] == 58;
    proof {
        if line@.len() >= 5 {
            if r {
                assert(line@.take(5) =~= data_field());
            } else if line@.take(5) == data_field() {
                assert(line@.take(5)[0] == 100 && line@.take(5)[1] == 97 && line@.take(5)[2] == 116
                    && line@.take(5)[3] == 97 && line@.take(5)[4] == 58);
            }
        }
    }
    r
}

/// Reads the payloads out of an event stream that arrives in pieces.
pub struct SseDecoder {
    line: Vec<u8>,
    data: Option<Vec<u8>>,
}

impl View for SseDecoder {
    type V = SseView;

    closed spec fn view(&self) -> SseView {
        SseView {
            line: self.line@,
            data: match self.data {
                Some(data) => Some(data@),
                None => None,
            },
        }
    }
}

/// Some payloads as mathematical values.
pub open spec fn payload_views(payloads: Seq<Vec<u8>>) -> Seq<Seq<u8>> {
    payloads.map_values(|p: Vec<u8>| p@)
}

impl SseDecoder {
    /// A decoder at the start of a stream.
    pub fn new() -> (r: Self)
        ensures
            r@ == sse_start(),
    {
        SseDecoder { line: Vec::new(), data: None }
    }

    /// The payload that one more byte completes, if it completes one.
    fn push_byte(&mut self, byte: u8) -> (r: Option<Vec<u8>>)
        ensures
            final(self)@ == sse_after_byte(old(self)@, byte).0,
            match r {
                Some(payload) => sse_after_byte(old(self)@, byte).1 == Some(payload@),
                None => sse_after_byte(old(self)@, byte).1 is None,
            },
    {
        if byte != 10 {
            self.line.push(byte);
            return None;
        }
        let mut line: Vec<u8> = Vec::new();
        std::mem::swap(&mut line, &mut self.line);
        if line.len() > 0 && line[line.len() - 1] == 13 {
            let ghost whole = line@;
            line.pop();
            assert(line@ =~= whole.drop_last());
        }
        if line.len() == 0 {
            return self.data.take();
        }
        if starts_with_data(&line) {
            let mut from: usize = 5;
            if line.len() > 5 && line[5] == 32 {
                from = 6;
            }
            let mut data: Vec<u8> = match self.data.take() {
                Some(before) => {
                    let mut before = before;
                    before.push(10);
                    before
                },
                None => Vec::new(),
            };
            let ghost before = data@;
            let mut i = from;
            while i < line.len()
                invariant
                    from <= i <= line.len(),
                    data@ == before + line@.subrange(from as int, i as int),
                decreases line.len() - i,
            {
                data.push(line[i]);
                i = i + 1;
                assert(line@.subrange(from as int, i as int) =~= line@.subrange(
                    from as int,
                    i - 1,
                ).push(line@[i - 1]));
            }
            assert(line@.subrange(from as int, line@.len() as int) =~= line_data(line@)->0);
            assert(data@ =~= data_after_line(old(self)@.data, line@)->0);
            self.data = Some(data);
        }
        None
    }

    /// The payloads that some more bytes complete.
    pub fn push(&mut self, bytes: &[u8]) -> (r: Vec<Vec<u8>>)
        ensures
            final(self)@ == sse_after(old(self)@, bytes@).0,
            payload_views(r@) == sse_after(old(self)@, bytes@).1,
    {
        let mut payloads: Vec<Vec<u8>> = Vec::new();
        let mut i: usize = 0;
        assert(payload_views(payloads@) =~= Seq::empty());
        assert(bytes@.take(0) =~= Seq::empty());
        while i < bytes.len()
            invariant
                i <= bytes.len(),
                self@ == sse_after(old(self)@, bytes@.take(i as int)).0,
                payload_views(payloads@) == sse_after(old(self)@, bytes@.take(i as int)).1,
            decreases bytes.len() - i,
        {
            let ghost before = payloads@;
            assert(bytes@.take(i + 1).drop_last() =~= bytes@.take(i as int));
            match self.push_byte(bytes[i]) {
                Some(payload) => {
                    payloads.push(payload);
                    assert(payload_views(payloads@) =~= payload_views(before).push(payload@));
                },
                None => {},
            }
            i = i + 1;
        }
        assert(bytes@.take(i as int) =~= bytes@);
        payloads
    }
}

/// A tool call that is being put together.
struct PendingCall {
    index: u64,
    call: ToolCall,
}

/// A tool call that is being put together.
pub struct PendingView {
    pub index: nat,
    pub call: ToolCallView,
}

impl View for PendingCall {
    type V = PendingView;

    closed spec fn view(&self) -> PendingView {
        PendingView { index: self.index as nat, call: self.call@ }
    }
}

/// Whether `at` is where the call with this index is being put together.
pub open spec fn pending_at(calls: Seq<PendingView>, index: nat, at: int) -> bool {
    &&& 0 <= at < calls.len()
    &&& calls[at].index == index
    &&& forall|i: int| 0 <= i < at ==> (#[trigger] calls[i]).index != index
}

/// A call with one more piece: the id and the name that the piece carries stand, and its arguments
/// come after those there are.
pub open spec fn extended(call: ToolCallView, fragment: FragmentView) -> ToolCallView {
    ToolCallView {
        id: match fragment.id {
            Some(id) => id,
            None => call.id,
        },
        name: match fragment.name {
            Some(name) => name,
            None => call.name,
        },
        arguments: match fragment.arguments {
            Some(arguments) => call.arguments + arguments,
            None => call.arguments,
        },
    }
}

/// A call of which no piece has arrived.
pub open spec fn no_call() -> ToolCallView {
    ToolCallView { id: Seq::empty(), name: Seq::empty(), arguments: Seq::empty() }
}

/// The calls once one more piece has arrived: it extends the call it belongs to, which comes after
/// the others if this is the first piece of it.
pub open spec fn with_fragment(calls: Seq<PendingView>, fragment: FragmentView) -> Seq<
    PendingView,
> {
    if exists|at: int| pending_at(calls, fragment.index, at) {
        let at = choose|at: int| pending_at(calls, fragment.index, at);
        calls.update(
            at,
            PendingView { index: fragment.index, call: extended(calls[at].call, fragment) },
        )
    } else {
        calls.push(PendingView { index: fragment.index, call: extended(no_call(), fragment) })
    }
}

/// The calls once some more pieces have arrived, in order.
pub open spec fn with_fragments(calls: Seq<PendingView>, fragments: Seq<FragmentView>) -> Seq<
    PendingView,
>
    decreases fragments.len(),
{
    if fragments.len() == 0 {
        calls
    } else {
        with_fragment(with_fragments(calls, fragments.drop_last()), fragments.last())
    }
}

/// A call as the pieces with its index make it, in order, whatever comes between them.
pub open spec fn put_together(fragments: Seq<FragmentView>, index: nat) -> ToolCallView
    decreases fragments.len(),
{
    if fragments.len() == 0 {
        no_call()
    } else if fragments.last().index == index {
        extended(put_together(fragments.drop_last(), index), fragments.last())
    } else {
        put_together(fragments.drop_last(), index)
    }
}

/// Whether a piece with this index arrived.
pub open spec fn mentions(fragments: Seq<FragmentView>, index: nat) -> bool {
    exists|k: int| 0 <= k < fragments.len() && (#[trigger] fragments[k]).index == index
}

/// Whether a call with this index is being put together.
pub open spec fn is_pending(calls: Seq<PendingView>, index: nat) -> bool {
    exists|i: int| 0 <= i < calls.len() && (#[trigger] calls[i]).index == index
}

/// The pieces of different calls may arrive in any order among one another: each call is put
/// together from its own pieces alone, there is one for each index that occurred, and no two share
/// an index.
pub proof fn law_calls_do_not_mix(fragments: Seq<FragmentView>, index: nat)
    ensures
        is_pending(with_fragments(Seq::empty(), fragments), index) <==> mentions(fragments, index),
        forall|i: int|
            0 <= i < with_fragments(Seq::empty(), fragments).len() && (
            #[trigger] with_fragments(Seq::empty(), fragments)[i]).index == index
                ==> with_fragments(Seq::empty(), fragments)[i].call == put_together(
                fragments,
                index,
            ),
        forall|i: int, j: int|
            0 <= i < j < with_fragments(Seq::empty(), fragments).len() && (
            #[trigger] with_fragments(Seq::empty(), fragments)[i]).index == index ==> (
            #[trigger] with_fragments(Seq::empty(), fragments)[j]).index != index,
    decreases fragments.len(),
{
    if fragments.len() > 0 {
        let rest = fragments.drop_last();
        let last = fragments.last();
        let before = with_fragments(Seq::empty(), rest);
        let calls = with_fragments(Seq::empty(), fragments);
        law_calls_do_not_mix(rest, index);
        lemma_pending_once_more(before, last, index);
        assert(calls == with_fragment(before, last));
        assert(mentions(fragments, index) <==> (mentions(rest, index) || last.index == index)) by {
            if mentions(rest, index) {
                let k = choose|k: int|
                    0 <= k < rest.len() && (#[trigger] rest[k]).index == index;
                assert(fragments[k].index == index);
            }
            if last.index == index {
                assert(fragments[rest.len() as int].index == index);
            }
            if mentions(fragments, index) && last.index != index {
                let k = choose|k: int|
                    0 <= k < fragments.len() && (#[trigger] fragments[k]).index == index;
                assert(rest[k].index == index);
            }
        }
        if last.index == index && !mentions(rest, index) {
            lemma_nothing_put_together(rest, index);
        }
    }
}

proof fn lemma_pending_once_more(calls: Seq<PendingView>, fragment: FragmentView, index: nat)
    requires
        forall|i: int, j: int|
            0 <= i < j < calls.len() && (#[trigger] calls[i]).index == index ==> (
            #[trigger] calls[j]).index != index,
    ensures
        ({
            let after = with_fragment(calls, fragment);
            &&& is_pending(after, index) <==> (is_pending(calls, index) || fragment.index == index)
            &&& forall|i: int, j: int|
                0 <= i < j < after.len() && (#[trigger] after[i]).index == index ==> (
                #[trigger] after[j]).index != index
            &&& forall|i: int|
                0 <= i < after.len() && (#[trigger] after[i]).index == index ==> if fragment.index
                    != index {
                    i < calls.len() && after[i] == calls[i]
                } else if is_pending(calls, index) {
                    i < calls.len() && calls[i].index == index && after[i].call == extended(
                        calls[i].call,
                        fragment,
                    )
                } else {
                    after[i].call == extended(no_call(), fragment)
                }
        }),
{
    let after = with_fragment(calls, fragment);
    if exists|at: int| pending_at(calls, fragment.index, at) {
        let at = choose|at: int| pending_at(calls, fragment.index, at);
        assert(after[at].index == fragment.index);
        assert(calls[at].index == fragment.index);
        assert(forall|i: int|
            0 <= i < calls.len() ==> (#[trigger] after[i]).index == calls[i].index);
        if is_pending(calls, index) {
            let i = choose|i: int| 0 <= i < calls.len() && (#[trigger] calls[i]).index == index;
            assert(after[i].index == index);
        }
    } else {
        lemma_not_pending(calls, fragment.index, 0);
        assert(after[calls.len() as int].index == fragment.index);
        assert(forall|i: int| 0 <= i < calls.len() ==> #[trigger] after[i] == calls[i]);
        if is_pending(calls, index) {
            let i = choose|i: int| 0 <= i < calls.len() && (#[trigger] calls[i]).index == index;
            assert(after[i].index == index);
        }
    }
}

proof fn lemma_not_pending(calls: Seq<PendingView>, index: nat, from: int)
    requires
        0 <= from <= calls.len(),
        !exists|at: int| pending_at(calls, index, at),
        forall|i: int| 0 <= i < from ==> (#[trigger] calls[i]).index != index,
    ensures
        forall|i: int| 0 <= i < calls.len() ==> (#[trigger] calls[i]).index != index,
    decreases calls.len() - from,
{
    if from < calls.len() {
        if calls[from].index == index {
            assert(pending_at(calls, index, from));
        } else {
            lemma_not_pending(calls, index, from + 1);
        }
    }
}

proof fn lemma_nothing_put_together(fragments: Seq<FragmentView>, index: nat)
    requires
        !mentions(fragments, index),
    ensures
        put_together(fragments, index) == no_call(),
    decreases fragments.len(),
{
    if fragments.len() > 0 {
        let rest = fragments.drop_last();
        assert(fragments[fragments.len() - 1].index != index);
        if mentions(rest, index) {
            let k = choose|k: int| 0 <= k < rest.len() && (#[trigger] rest[k]).index == index;
            assert(fragments[k].index == index);
        }
        lemma_nothing_put_together(rest, index);
    }
}

/// A streamed reply, as far as it has arrived.
#[verifier::ext_equal]
pub struct AccumulatedView {
    pub content: Seq<char>,
    pub model: Option<Seq<char>>,
    pub calls: Seq<PendingView>,
    /// How many pieces carried text.
    pub text_chunks: nat,
    pub usage: Option<Usage>,
}

/// A streamed reply of which nothing has arrived.
pub open spec fn nothing_accumulated() -> AccumulatedView {
    AccumulatedView {
        content: Seq::empty(),
        model: None,
        calls: Seq::empty(),
        text_chunks: 0,
        usage: None,
    }
}

/// Whether a piece carries text.
pub open spec fn carries_text(chunk: ChunkView) -> bool {
    chunk.content matches Some(text) && text.len() > 0
}

impl AccumulatedView {
    /// The reply once one more piece has arrived: the texts follow one another, the first model
    /// that was reported stands, and so does the last usage. The count of pieces stops at the
    /// largest number there is room for.
    pub open spec fn with_chunk(self, chunk: ChunkView) -> AccumulatedView {
        AccumulatedView {
            content: match chunk.content {
                Some(text) => self.content + text,
                None => self.content,
            },
            model: match self.model {
                Some(model) => Some(model),
                None => chunk.model,
            },
            calls: with_fragments(self.calls, chunk.calls),
            text_chunks: if carries_text(chunk) && self.text_chunks < u64::MAX {
                self.text_chunks + 1
            } else {
                self.text_chunks
            },
            usage: match chunk.usage {
                Some(usage) => Some(usage),
                None => self.usage,
            },
        }
    }

    /// Output tokens so far: the server's own figure once it has given one, and until then a count
    /// of the pieces that carried text.
    pub open spec fn output_tokens(self) -> nat {
        match self.usage {
            Some(usage) => usage.completion_tokens as nat,
            None => self.text_chunks,
        }
    }

    /// The calls that were put together.
    pub open spec fn tool_calls(self) -> Seq<ToolCallView> {
        self.calls.map_values(|p: PendingView| p.call)
    }
}

/// Until the server gives a figure, the count never goes backwards.
pub proof fn law_the_count_does_not_go_backwards(state: AccumulatedView, chunk: ChunkView)
    requires
        chunk.usage is None,
    ensures
        state.with_chunk(chunk).output_tokens() >= state.output_tokens(),
{
}

/// Once the server has given a figure, the count is the last figure it gave.
pub proof fn law_the_servers_figure_stands(state: AccumulatedView, chunk: ChunkView)
    ensures
        chunk.usage matches Some(usage) ==> state.with_chunk(chunk).output_tokens()
            == usage.completion_tokens,
        chunk.usage is None && state.usage is Some ==> state.with_chunk(chunk).output_tokens()
            == state.output_tokens(),
{
}

/// The reply once some more pieces have arrived, in order.
pub open spec fn with_chunks(reply: AccumulatedView, chunks: Seq<ChunkView>) -> AccumulatedView
    decreases chunks.len(),
{
    if chunks.len() == 0 {
        reply
    } else {
        with_chunks(reply, chunks.drop_last()).with_chunk(chunks.last())
    }
}

/// All the text that some pieces carry.
pub open spec fn text_of(chunks: Seq<ChunkView>) -> Seq<char>
    decreases chunks.len(),
{
    if chunks.len() == 0 {
        Seq::empty()
    } else {
        text_of(chunks.drop_last()) + (match chunks.last().content {
            Some(text) => text,
            None => Seq::empty(),
        })
    }
}

/// The first model that some pieces report.
pub open spec fn first_model(chunks: Seq<ChunkView>) -> Option<Seq<char>>
    decreases chunks.len(),
{
    if chunks.len() == 0 {
        None
    } else {
        match first_model(chunks.drop_last()) {
            Some(model) => Some(model),
            None => chunks.last().model,
        }
    }
}

/// The last usage that some pieces report.
pub open spec fn last_usage(chunks: Seq<ChunkView>) -> Option<Usage>
    decreases chunks.len(),
{
    if chunks.len() == 0 {
        None
    } else {
        match chunks.last().usage {
            Some(usage) => Some(usage),
            None => last_usage(chunks.drop_last()),
        }
    }
}

/// All the pieces of tool calls that some pieces of a reply carry.
pub open spec fn fragments_in(chunks: Seq<ChunkView>) -> Seq<FragmentView>
    decreases chunks.len(),
{
    if chunks.len() == 0 {
        Seq::empty()
    } else {
        fragments_in(chunks.drop_last()) + chunks.last().calls
    }
}

proof fn lemma_fragments_in_two_parts(
    calls: Seq<PendingView>,
    first: Seq<FragmentView>,
    second: Seq<FragmentView>,
)
    ensures
        with_fragments(calls, first + second) == with_fragments(
            with_fragments(calls, first),
            second,
        ),
    decreases second.len(),
{
    if second.len() == 0 {
        assert(first + second =~= first);
    } else {
        lemma_fragments_in_two_parts(calls, first, second.drop_last());
        assert((first + second).drop_last() =~= first + second.drop_last());
    }
}

/// A streamed reply is what its pieces say together: all their text in order, the first model, the
/// last usage, and the calls that all their fragments make.
pub proof fn law_a_reply_is_what_its_pieces_say(chunks: Seq<ChunkView>)
    ensures
        with_chunks(nothing_accumulated(), chunks).content == text_of(chunks),
        with_chunks(nothing_accumulated(), chunks).model == first_model(chunks),
        with_chunks(nothing_accumulated(), chunks).usage == last_usage(chunks),
        with_chunks(nothing_accumulated(), chunks).calls == with_fragments(
            Seq::empty(),
            fragments_in(chunks),
        ),
    decreases chunks.len(),
{
    if chunks.len() > 0 {
        let rest = chunks.drop_last();
        law_a_reply_is_what_its_pieces_say(rest);
        lemma_fragments_in_two_parts(Seq::empty(), fragments_in(rest), chunks.last().calls);
        if chunks.last().content is None {
            assert(text_of(chunks) =~= text_of(rest));
        }
    }
}

/// Puts a streamed reply together from its pieces.
pub struct StreamAccumulator {
    content: String,
    model: Option<String>,
    calls: Vec<PendingCall>,
    text_chunks: u64,
    usage: Option<Usage>,
}

impl View for StreamAccumulator {
    type V = AccumulatedView;

    closed spec fn view(&self) -> AccumulatedView {
        AccumulatedView {
            content: self.content@,
            model: text_view(self.model),
            calls: self.calls@.map_values(|p: PendingCall| p@),
            text_chunks: self.text_chunks as nat,
            usage: self.usage,
        }
    }
}

impl StreamAccumulator {
    /// A reply of which nothing has arrived.
    pub fn new() -> (r: Self)
        ensures
            r@ == nothing_accumulated(),
    {
        let r = StreamAccumulator {
            content: String::new(),
            model: None,
            calls: Vec::new(),
            text_chunks: 0,
            usage: None,
        };
        assert(r@.calls =~= Seq::empty());
        r
    }

    fn push_fragment(calls: &mut Vec<PendingCall>, fragment: &CallFragment)
        ensures
            final(calls)@.map_values(|p: PendingCall| p@) == with_fragment(
                old(calls)@.map_values(|p: PendingCall| p@),
                fragment@,
            ),
    {
        let ghost before = calls@.map_values(|p: PendingCall| p@);
        let mut at: usize = 0;
        while at < calls.len() && calls[at].index != fragment.index
            invariant
                at <= calls.len(),
                calls@ == old(calls)@,
                before == calls@.map_values(|p: PendingCall| p@),
                forall|i: int| 0 <= i < at ==> (#[trigger] before[i]).index != fragment.index,
            decreases calls.len() - at,
        {
            assert(before[at as int].index == calls@[at as int].index);
            at = at + 1;
        }
        let known = at < calls.len();
        let mut call = if known {
            ToolCall {
                id: calls[at].call.id.clone(),
                function: FunctionCall {
                    name: calls[at].call.function.name.clone(),
                    arguments: calls[at].call.function.arguments.clone(),
                },
            }
        } else {
            ToolCall {
                id: String::new(),
                function: FunctionCall { name: String::new(), arguments: String::new() },
            }
        };
        let ghost start = call@;
        match &fragment.id {
            Some(id) => {
                call.id = id.clone();
            },
            None => {},
        }
        match &fragment.name {
            Some(name) => {
                call.function.name = name.clone();
            },
            None => {},
        }
        match &fragment.arguments {
            Some(arguments) => {
                call.function.arguments.append(arguments.as_str());
            },
            None => {},
        }
        assert(call@ == extended(start, fragment@));
        let pending = PendingCall { index: fragment.index, call };
        if known {
            assert(pending_at(before, fragment@.index, at as int));
            assert(forall|other: int|
                pending_at(before, fragment@.index, other) ==> other == at as int);
            calls.set(at, pending);
            assert(calls@.map_values(|p: PendingCall| p@) =~= with_fragment(before, fragment@));
        } else {
            calls.push(pending);
            assert(calls@.map_values(|p: PendingCall| p@) =~= with_fragment(before, fragment@));
        }
    }

    /// Take in one more piece.
    pub fn push(&mut self, chunk: ChatChunk)
        ensures
            final(self)@ == old(self)@.with_chunk(chunk@),
    {
        match &chunk.content {
            Some(text) => {
                if !text.as_str().is_empty() && self.text_chunks < u64::MAX {
                    self.text_chunks = self.text_chunks + 1;
                }
                self.content.append(text.as_str());
            },
            None => {},
        }
        if self.model.is_none() {
            self.model = chunk.model;
        }
        if chunk.usage.is_some() {
            self.usage = chunk.usage;
        }
        let fragments = chunk.calls;
        let ghost all = fragments@.map_values(|f: CallFragment| f@);
        let ghost mid = *self;
        let mut i: usize = 0;
        assert(all.take(0) =~= Seq::empty());
        while i < fragments.len()
            invariant
                i <= fragments.len(),
                all == fragments@.map_values(|f: CallFragment| f@),
                self.content == mid.content,
                self.model == mid.model,
                self.text_chunks == mid.text_chunks,
                self.usage == mid.usage,
                self.calls@.map_values(|p: PendingCall| p@) == with_fragments(
                    mid.calls@.map_values(|p: PendingCall| p@),
                    all.take(i as int),
                ),
            decreases fragments.len() - i,
        {
            assert(all.take(i + 1).drop_last() =~= all.take(i as int));
            assert(all.take(i + 1).last() == fragments@[i as int]@);
            StreamAccumulator::push_fragment(&mut self.calls, &fragments[i]);
            i = i + 1;
        }
        assert(all.take(i as int) =~= all);
    }

    /// Output tokens so far.
    pub fn output_tokens(&self) -> (r: u64)
        ensures
            r == self@.output_tokens(),
    {
        match self.usage {
            Some(usage) => usage.completion_tokens,
            None => self.text_chunks,
        }
    }

    /// Whether that figure is the server's rather than an estimate.
    pub fn usage_is_reported(&self) -> (r: bool)
        ensures
            r == (self@.usage is Some),
    {
        self.usage.is_some()
    }

    /// The reply: its text, its model, its tool calls, and what it cost. A cost that was never
    /// reported is nought.
    pub fn finish(self) -> (r: (String, Option<String>, Vec<ToolCall>, Usage))
        ensures
            r.0@ == self@.content,
            text_view(r.1) == self@.model,
            call_views(r.2@) == self@.tool_calls(),
            r.3 == (match self@.usage {
                Some(usage) => usage,
                None => no_usage(),
            }),
    {
        let mut calls: Vec<ToolCall> = Vec::new();
        let mut i: usize = 0;
        while i < self.calls.len()
            invariant
                i <= self.calls.len(),
                calls.len() == i,
                forall|j: int| 0 <= j < i ==> #[trigger] calls@[j] == self.calls@[j].call,
            decreases self.calls.len() - i,
        {
            calls.push(self.calls[i].call.clone());
            i = i + 1;
        }
        assert(call_views(calls@) =~= self@.tool_calls());
        let usage = match self.usage {
            Some(usage) => usage,
            None => Usage { prompt_tokens: 0, completion_tokens: 0 },
        };
        (self.content, self.model, calls, usage)
    }
}

/// The text of a member that is text, if the object has one.
pub open spec fn has_text(members: Map<Seq<char>, Json>, name: Seq<char>, text: Seq<char>) -> bool {
    members.contains_pair(name, Json::Text(text))
}

/// Whether an object has no such member, or a null one.
pub open spec fn has_none(members: Map<Seq<char>, Json>, name: Seq<char>) -> bool {
    !members.contains_key(name) || members[name] == Json::Null
}

/// What a whole reply says is what the message of its first choice says: its text if it has one,
/// and every tool call of it in order.
pub proof fn law_a_whole_reply_is_its_first_message(
    members: Map<Seq<char>, Json>,
    choices: Seq<Json>,
    choice: Map<Seq<char>, Json>,
    message: Map<Seq<char>, Json>,
    items: Seq<Json>,
    text: Seq<char>,
)
    requires
        members.contains_pair("choices"@, Json::Array(choices)),
        choices.len() > 0,
        choices[0] == Json::Object(choice),
        choice.contains_pair("message"@, Json::Object(message)),
        response_of(Json::Object(members)) is Some,
    ensures
        ({
            let response = response_of(Json::Object(members))->0;
            &&& has_text(message, "content"@, text) ==> response.content == Some(text)
            &&& has_none(message, "content"@) ==> response.content is None
            &&& message.contains_pair("tool_calls"@, Json::Array(items)) ==> response.calls.len()
                == items.len()
            &&& has_none(message, "tool_calls"@) ==> response.calls.len() == 0
        }),
{
}

/// A reply that has no choice says nothing and calls nothing.
pub proof fn law_no_choice_says_nothing(members: Map<Seq<char>, Json>)
    requires
        has_none(members, "choices"@) || members["choices"@] == Json::Array(Seq::<Json>::empty()),
    ensures
        response_of(Json::Object(members)) matches Some(response) ==> response.content is None
            && response.calls.len() == 0,
        chunk_of(Json::Object(members)) matches Some(chunk) ==> chunk.content is None
            && chunk.calls.len() == 0,
{
}

/// A choice without a message says nothing and calls nothing, and neither does one without a delta;
/// what is no object is no reply at all.
pub proof fn law_an_empty_choice_says_nothing(
    members: Map<Seq<char>, Json>,
    choices: Seq<Json>,
    choice: Map<Seq<char>, Json>,
    other: Json,
)
    requires
        members.contains_pair("choices"@, Json::Array(choices)),
        choices.len() > 0,
        choices[0] == Json::Object(choice),
        !(other is Object),
    ensures
        has_none(choice, "message"@) ==> (response_of(Json::Object(members)) matches Some(response)
            ==> response.content is None && response.calls.len() == 0),
        has_none(choice, "delta"@) ==> (chunk_of(Json::Object(members)) matches Some(chunk)
            ==> chunk.content is None && chunk.calls.len() == 0),
        response_of(other) is None,
        chunk_of(other) is None,
{
}

/// A call that names no function has no name and no arguments, and a piece of one that does not say
/// which call it belongs to belongs to the first.
pub proof fn law_a_call_without_a_function(call: Map<Seq<char>, Json>)
    ensures
        has_none(call, "function"@) ==> {
            &&& call_of(Json::Object(call)).name.len() == 0
            &&& call_of(Json::Object(call)).arguments.len() == 0
            &&& fragment_of(Json::Object(call)).name is None
            &&& fragment_of(Json::Object(call)).arguments is None
        },
        has_none(call, "index"@) ==> fragment_of(Json::Object(call)).index == 0,
{
}

/// Every call of a whole reply has the id, the name and the arguments of the item in its place.
pub proof fn law_every_call_is_read(
    members: Map<Seq<char>, Json>,
    choices: Seq<Json>,
    choice: Map<Seq<char>, Json>,
    message: Map<Seq<char>, Json>,
    items: Seq<Json>,
    i: int,
    call: Map<Seq<char>, Json>,
    function: Map<Seq<char>, Json>,
    text: Seq<char>,
)
    requires
        members.contains_pair("choices"@, Json::Array(choices)),
        choices.len() > 0,
        choices[0] == Json::Object(choice),
        choice.contains_pair("message"@, Json::Object(message)),
        message.contains_pair("tool_calls"@, Json::Array(items)),
        response_of(Json::Object(members)) is Some,
        0 <= i < items.len(),
        items[i] == Json::Object(call),
        call.contains_pair("function"@, Json::Object(function)),
    ensures
        ({
            let response = response_of(Json::Object(members))->0;
            &&& response.calls.len() == items.len()
            &&& has_text(call, "id"@, text) ==> response.calls[i].id == text
            &&& has_none(call, "id"@) ==> response.calls[i].id.len() == 0
            &&& has_text(function, "name"@, text) ==> response.calls[i].name == text
            &&& has_none(function, "name"@) ==> response.calls[i].name.len() == 0
            &&& has_text(function, "arguments"@, text) ==> response.calls[i].arguments == text
            &&& has_none(function, "arguments"@) ==> response.calls[i].arguments.len() == 0
        }),
{
}

/// The model and the cost of a reply, whole or in pieces, are those that it reports.
pub proof fn law_the_model_and_the_cost_are_read(
    members: Map<Seq<char>, Json>,
    usage: Map<Seq<char>, Json>,
    model: Seq<char>,
    n: u64,
)
    ensures
        response_of(Json::Object(members)) matches Some(response) ==> {
            &&& has_text(members, "model"@, model) ==> response.model == Some(model)
            &&& has_none(members, "model"@) ==> response.model is None
            &&& has_none(members, "usage"@) ==> response.usage.prompt_tokens == 0
                && response.usage.completion_tokens == 0
            &&& members.contains_pair("usage"@, Json::Object(usage)) ==> {
                &&& usage.contains_pair("prompt_tokens"@, Json::Natural(n as nat))
                    ==> response.usage.prompt_tokens == n
                &&& has_none(usage, "prompt_tokens"@) ==> response.usage.prompt_tokens == 0
                &&& usage.contains_pair("completion_tokens"@, Json::Natural(n as nat))
                    ==> response.usage.completion_tokens == n
                &&& has_none(usage, "completion_tokens"@) ==> response.usage.completion_tokens == 0
            }
        },
        chunk_of(Json::Object(members)) matches Some(chunk) ==> {
            &&& has_text(members, "model"@, model) ==> chunk.model == Some(model)
            &&& has_none(members, "model"@) ==> chunk.model is None
            &&& has_none(members, "usage"@) ==> chunk.usage is None
            &&& members.contains_pair("usage"@, Json::Object(usage)) ==> {
                &&& chunk.usage is Some
                &&& usage.contains_pair("prompt_tokens"@, Json::Natural(n as nat))
                    ==> chunk.usage->0.prompt_tokens == n
                &&& has_none(usage, "prompt_tokens"@) ==> chunk.usage->0.prompt_tokens == 0
                &&& usage.contains_pair("completion_tokens"@, Json::Natural(n as nat))
                    ==> chunk.usage->0.completion_tokens == n
                &&& has_none(usage, "completion_tokens"@) ==> chunk.usage->0.completion_tokens == 0
            }
        },
{
}

/// What a piece of a streamed reply says is what the delta of its first choice says: its text
/// exactly, whatever it is, and every piece of a call in order.
pub proof fn law_a_piece_is_its_first_delta(
    members: Map<Seq<char>, Json>,
    choices: Seq<Json>,
    choice: Map<Seq<char>, Json>,
    delta: Map<Seq<char>, Json>,
    items: Seq<Json>,
    text: Seq<char>,
)
    requires
        members.contains_pair("choices"@, Json::Array(choices)),
        choices.len() > 0,
        choices[0] == Json::Object(choice),
        choice.contains_pair("delta"@, Json::Object(delta)),
        chunk_of(Json::Object(members)) is Some,
    ensures
        ({
            let chunk = chunk_of(Json::Object(members))->0;
            &&& has_text(delta, "content"@, text) ==> chunk.content == Some(text)
            &&& has_none(delta, "content"@) ==> chunk.content is None
            &&& delta.contains_pair("tool_calls"@, Json::Array(items)) ==> chunk.calls.len()
                == items.len()
            &&& has_none(delta, "tool_calls"@) ==> chunk.calls.len() == 0
        }),
{
}

/// Every piece of a call has the index, the id, the name and the arguments of the item in its place.
pub proof fn law_every_fragment_is_read(
    members: Map<Seq<char>, Json>,
    choices: Seq<Json>,
    choice: Map<Seq<char>, Json>,
    delta: Map<Seq<char>, Json>,
    items: Seq<Json>,
    i: int,
    call: Map<Seq<char>, Json>,
    function: Map<Seq<char>, Json>,
    text: Seq<char>,
    n: nat,
)
    requires
        members.contains_pair("choices"@, Json::Array(choices)),
        choices.len() > 0,
        choices[0] == Json::Object(choice),
        choice.contains_pair("delta"@, Json::Object(delta)),
        delta.contains_pair("tool_calls"@, Json::Array(items)),
        chunk_of(Json::Object(members)) is Some,
        0 <= i < items.len(),
        items[i] == Json::Object(call),
        call.contains_pair("function"@, Json::Object(function)),
    ensures
        ({
            let chunk = chunk_of(Json::Object(members))->0;
            &&& chunk.calls.len() == items.len()
            &&& call.contains_pair("index"@, Json::Natural(n)) ==> chunk.calls[i].index == n
            &&& has_text(call, "id"@, text) ==> chunk.calls[i].id == Some(text)
            &&& has_none(call, "id"@) ==> chunk.calls[i].id is None
            &&& has_text(function, "name"@, text) ==> chunk.calls[i].name == Some(text)
            &&& has_none(function, "name"@) ==> chunk.calls[i].name is None
            &&& has_text(function, "arguments"@, text) ==> chunk.calls[i].arguments == Some(text)
            &&& has_none(function, "arguments"@) ==> chunk.calls[i].arguments is None
        }),
{
}

/// The document of an event that carries a text and nothing else.
pub open spec fn text_event(text: Seq<char>) -> Json {
    let delta = Json::Object(Map::empty().insert("content"@, Json::Text(text)));
    let choice = Json::Object(Map::empty().insert("delta"@, delta));
    Json::Object(Map::empty().insert("choices"@, Json::Array(seq![choice])))
}

/// An event that carries a text is read as a piece with exactly that text, and nothing else.
pub proof fn law_a_text_event_is_its_text(text: Seq<char>)
    ensures
        chunk_of(text_event(text)) == Some(
            ChunkView { model: None, content: Some(text), calls: Seq::empty(), usage: None },
        ),
{
    let delta = Map::<Seq<char>, Json>::empty().insert("content"@, Json::Text(text));
    let choice = Map::<Seq<char>, Json>::empty().insert("delta"@, Json::Object(delta));
    let choices = seq![Json::Object(choice)];
    let members = Map::<Seq<char>, Json>::empty().insert("choices"@, Json::Array(choices));
    lemma_names_of_a_reply_differ();
    assert(items_of(Json::Object(members), "choices"@) == choices);
    assert(items_of(Json::Object(delta), "tool_calls"@) == Seq::<Json>::empty());
    assert(is_choice(choices[0], "delta"@));
    assert(is_reply(Json::Object(members), "delta"@));
    assert(chunk_said(Json::Object(members)).calls =~= Seq::empty());
}

proof fn lemma_names_of_a_reply_differ()
    ensures
        "choices"@ != "model"@,
        "choices"@ != "usage"@,
        "content"@ != "tool_calls"@,
{
    reveal_strlit("choices");
    reveal_strlit("model");
    reveal_strlit("usage");
    reveal_strlit("content");
    reveal_strlit("tool_calls");
    assert("choices"@.len() == 7 && "model"@.len() == 5 && "usage"@.len() == 5
        && "content"@.len() == 7 && "tool_calls"@.len() == 10);
}

/// A reply in which a member is of another type is refused: at the top, in any of its choices, and
/// in any call of any of them.
pub proof fn law_a_wrong_type_is_refused(
    members: Map<Seq<char>, Json>,
    part: Seq<char>,
    usage: Map<Seq<char>, Json>,
    choices: Seq<Json>,
    k: int,
    choice: Map<Seq<char>, Json>,
    said: Map<Seq<char>, Json>,
    items: Seq<Json>,
    i: int,
    call: Map<Seq<char>, Json>,
    function: Map<Seq<char>, Json>,
)
    requires
        is_reply(Json::Object(members), part),
    ensures
        has_none(members, "model"@) || members["model"@] is Text,
        has_none(members, "usage"@) || members["usage"@] is Object,
        has_none(members, "choices"@) || members["choices"@] is Array,
        members.contains_pair("usage"@, Json::Object(usage)) ==> {
            &&& has_none(usage, "prompt_tokens"@) || usage["prompt_tokens"@] is Natural
            &&& has_none(usage, "completion_tokens"@) || usage["completion_tokens"@] is Natural
        },
        members.contains_pair("choices"@, Json::Array(choices)) && 0 <= k < choices.len() ==> {
            &&& choices[k] is Object
            &&& choices[k] == Json::Object(choice) ==> {
                &&& has_none(choice, part) || choice[part] is Object
                &&& choice.contains_pair(part, Json::Object(said)) ==> {
                    &&& has_none(said, "content"@) || said["content"@] is Text
                    &&& has_none(said, "tool_calls"@) || said["tool_calls"@] is Array
                    &&& said.contains_pair("tool_calls"@, Json::Array(items)) && 0 <= i
                        < items.len() ==> {
                        &&& items[i] is Object
                        &&& items[i] == Json::Object(call) ==> {
                            &&& has_none(call, "id"@) || call["id"@] is Text
                            &&& has_none(call, "index"@) || call["index"@] is Natural
                            &&& has_none(call, "function"@) || call["function"@] is Object
                            &&& call.contains_pair("function"@, Json::Object(function)) ==> {
                                &&& has_none(function, "name"@) || function["name"@] is Text
                                &&& has_none(function, "arguments"@) || function["arguments"@]
                                    is Text
                            }
                        }
                    }
                }
            }
        },
{
    if members.contains_pair("choices"@, Json::Array(choices)) && 0 <= k < choices.len() {
        assert(items_of(Json::Object(members), "choices"@)[k] == choices[k]);
        assert(is_choice(choices[k], part));
        if choices[k] == Json::Object(choice) && choice.contains_pair(part, Json::Object(said))
            && said.contains_pair("tool_calls"@, Json::Array(items)) && 0 <= i < items.len() {
            assert(items_of(Json::Object(said), "tool_calls"@)[i] == items[i]);
            assert(is_call(items[i]));
        }
    }
}

/// Whether a member is absent or text.
pub open spec fn text_if_any(members: Map<Seq<char>, Json>, name: Seq<char>) -> bool {
    has_none(members, name) || members[name] is Text
}

/// Whether a document is a tool call, or a piece of one, with every member of its type.
pub open spec fn well_typed_call(document: Json) -> bool {
    document matches Json::Object(call) && {
        &&& text_if_any(call, "id"@)
        &&& has_none(call, "index"@) || call["index"@] is Natural
        &&& has_none(call, "function"@) || (call["function"@] matches Json::Object(function)
            && text_if_any(function, "name"@) && text_if_any(function, "arguments"@))
    }
}

/// Whether a document is a choice with every member of its type.
pub open spec fn well_typed_choice(document: Json, part: Seq<char>) -> bool {
    document matches Json::Object(choice) && (has_none(choice, part) || (choice[part] matches
        Json::Object(said) && text_if_any(said, "content"@) && (has_none(said, "tool_calls"@) || (
    said["tool_calls"@] matches Json::Array(items) && forall|i: int|
        0 <= i < items.len() ==> well_typed_call(#[trigger] items[i])))))
}

/// A reply in which every member is of its type is accepted, whatever it says and however many
/// choices and calls it has.
pub proof fn law_a_well_typed_reply_is_accepted(members: Map<Seq<char>, Json>, part: Seq<char>)
    requires
        text_if_any(members, "model"@),
        has_none(members, "usage"@) || (members["usage"@] matches Json::Object(usage) && (has_none(
            usage,
            "prompt_tokens"@,
        ) || usage["prompt_tokens"@] is Natural) && (has_none(usage, "completion_tokens"@)
            || usage["completion_tokens"@] is Natural)),
        has_none(members, "choices"@) || (members["choices"@] matches Json::Array(choices)
            && forall|k: int|
            0 <= k < choices.len() ==> well_typed_choice(#[trigger] choices[k], part)),
    ensures
        is_reply(Json::Object(members), part),
        response_of(Json::Object(members)) is Some <==> is_reply(
            Json::Object(members),
            "message"@,
        ),
        chunk_of(Json::Object(members)) is Some <==> is_reply(Json::Object(members), "delta"@),
{
    let document = Json::Object(members);
    assert forall|k: int| 0 <= k < items_of(document, "choices"@).len() implies is_choice(
        #[trigger] items_of(document, "choices"@)[k],
        part,
    ) by {
        let choice = items_of(document, "choices"@)[k];
        assert(well_typed_choice(choice, part));
        let said = member_or_null(choice, part);
        assert forall|i: int| 0 <= i < items_of(said, "tool_calls"@).len() implies is_call(
            #[trigger] items_of(said, "tool_calls"@)[i],
        ) by {
            assert(well_typed_call(items_of(said, "tool_calls"@)[i]));
        }
    }
}

proof fn lemma_names_of_a_request_differ()
    ensures
        "model"@ != "messages"@,
        "model"@ != "tools"@,
        "model"@ != "stream"@,
        "model"@ != "stream_options"@,
        "messages"@ != "tools"@,
        "messages"@ != "stream"@,
        "messages"@ != "stream_options"@,
        "tools"@ != "stream"@,
        "tools"@ != "stream_options"@,
        "stream"@ != "stream_options"@,
        "role"@ != "content"@,
{
    reveal_strlit("model");
    reveal_strlit("messages");
    reveal_strlit("tools");
    reveal_strlit("stream");
    reveal_strlit("stream_options");
    reveal_strlit("role");
    reveal_strlit("content");
    assert("model"@.len() == 5 && "messages"@.len() == 8 && "tools"@.len() == 5
        && "stream"@.len() == 6 && "stream_options"@.len() == 14 && "role"@.len() == 4
        && "content"@.len() == 7 && "model"@[0] == 'm' && "tools"@[0] == 't');
}

/// A request's body asks for its model, carries every message of it in order, offers every tool of
/// it if there are any, and says nothing else but how the reply is to come.
pub proof fn law_a_body_is_the_whole_request(request: RequestView, streamed: bool)
    ensures
        request_form(request, streamed) matches Json::Object(members) && {
            &&& members.contains_pair("model"@, Json::Text(request.model))
            &&& request.tools.len() > 0 ==> members.contains_pair(
                "tools"@,
                Json::Array(request.tools),
            )
            &&& request.tools.len() == 0 ==> !members.contains_key("tools"@)
            &&& members.contains_key("messages"@)
            &&& members["messages"@] matches Json::Array(messages) && {
                &&& messages.len() == request.messages.len()
                &&& forall|i: int|
                    #![trigger messages[i]]
                    #![trigger request.messages[i]]
                    0 <= i < messages.len() ==> (messages[i] matches Json::Object(message) && {
                        &&& message.contains_pair("content"@, Json::Text(request.messages[i].content))
                        &&& message.contains_pair(
                            "role"@,
                            Json::Text(
                                match request.messages[i].role {
                                    Role::System => "system"@,
                                    Role::User => "user"@,
                                    Role::Assistant => "assistant"@,
                                },
                            ),
                        )
                        &&& message.dom() == set!["content"@, "role"@]
                    })
            }
            &&& members.contains_key("stream"@) <==> streamed
            &&& members.contains_key("stream_options"@) <==> streamed
            &&& streamed ==> members["stream"@] == Json::Bool(true)
            &&& streamed ==> (members["stream_options"@] matches Json::Object(options)
                && options.contains_pair("include_usage"@, Json::Bool(true)))
            &&& forall|name: Seq<char>| #[trigger]
                members.contains_key(name) ==> name == "model"@ || name == "messages"@ || name
                    == "tools"@ || name == "stream"@ || name == "stream_options"@
        },
{
    lemma_names_of_a_request_differ();
    let members = request_form(request, streamed)->Object_0;
    let messages = members["messages"@]->Array_0;
    assert(messages == request.messages.map_values(|m: MessageView| message_form(m)));
    assert forall|i: int| 0 <= i < messages.len() implies (#[trigger] messages[i])->Object_0.dom()
        == set!["content"@, "role"@] by {
        assert(messages[i] == message_form(request.messages[i]));
        assert(messages[i]->Object_0.dom() =~= set!["content"@, "role"@]);
    }
}

/// Whether a reply is to be streamed changes nothing of a request but that it asks for it.
pub proof fn law_streaming_changes_nothing_else(request: RequestView, name: Seq<char>)
    requires
        name != "stream"@,
        name != "stream_options"@,
    ensures
        request_form(request, true) matches Json::Object(streamed) && request_form(request, false)
            matches Json::Object(plain) && (streamed.contains_key(name) <==> plain.contains_key(
            name,
        )) && (plain.contains_key(name) ==> streamed[name] == plain[name]),
        request_bytes(request, true) == encode_utf8(json_text(request_form(request, true))),
        request_bytes(request, false) == encode_utf8(json_text(request_form(request, false))),
{
}

proof fn lemma_whole_line(data: Option<Seq<u8>>, line: Seq<u8>)
    requires
        forall|i: int| 0 <= i < line.len() ==> line[i] != 10,
    ensures
        sse_after(SseView { line: Seq::empty(), data }, line.push(10)) == ({
            let after = sse_after_byte(SseView { line, data }, 10);
            (
                after.0,
                match after.1 {
                    Some(payload) => seq![payload],
                    None => Seq::empty(),
                },
            )
        }),
{
    let start = SseView { line: Seq::empty(), data };
    lemma_line_arrives(start, line);
    assert(start.line + line =~= line);
    assert(line.push(10).drop_last() =~= line);
    let after = sse_after_byte(SseView { line, data }, 10);
    if after.1 is Some {
        assert(Seq::<Seq<u8>>::empty().push(after.1->0) =~= seq![after.1->0]);
    }
}

/// A line that carries data adds it to the event, after a line feed if the event has some already:
/// all that follows the colon, but for one space. Any other line that is not empty adds nothing, and
/// no line but an empty one completes an event.
pub proof fn law_a_line_adds_its_data(data: Option<Seq<u8>>, value: Seq<u8>, other: Seq<u8>)
    requires
        forall|i: int| 0 <= i < value.len() ==> value[i] != 10,
        value.len() > 0 ==> value.last() != 13,
        forall|i: int| 0 <= i < other.len() ==> other[i] != 10,
        other.len() > 0 && other.last() != 13,
        !(other.len() >= 5 && other[0] == 100 && other[1] == 97 && other[2] == 116 && other[3] == 97
            && other[4] == 58),
    ensures
        ({
            let start = SseView { line: Seq::empty(), data };
            let whole = match data {
                Some(before) => before + seq![10u8] + value,
                None => value,
            };
            let next = SseView { line: Seq::empty(), data: Some(whole) };
            &&& sse_after(start, seq![100u8, 97u8, 116u8, 97u8, 58u8, 32u8] + value + seq![10u8])
                == (next, Seq::<Seq<u8>>::empty())
            &&& value.len() == 0 || value[0] != 32 ==> sse_after(
                start,
                seq![100u8, 97u8, 116u8, 97u8, 58u8] + value + seq![10u8],
            ) == (next, Seq::<Seq<u8>>::empty())
            &&& sse_after(start, other + seq![10u8]) == (start, Seq::<Seq<u8>>::empty())
        }),
{
    let spaced = seq![100u8, 97u8, 116u8, 97u8, 58u8, 32u8] + value;
    let plain = seq![100u8, 97u8, 116u8, 97u8, 58u8] + value;
    lemma_whole_line(data, spaced);
    lemma_whole_line(data, plain);
    lemma_whole_line(data, other);
    assert(spaced + seq![10u8] =~= spaced.push(10));
    assert(plain + seq![10u8] =~= plain.push(10));
    assert(other + seq![10u8] =~= other.push(10));
    assert(spaced.last() != 13);
    assert(plain.last() != 13);
    assert(spaced.take(5) =~= data_field());
    assert(spaced.skip(5)[0] == 32);
    assert(spaced.skip(5).skip(1) =~= value);
    assert(plain.take(5) =~= data_field());
    assert(plain.skip(5) =~= value);
    if other.len() >= 5 && other.take(5) == data_field() {
        assert(other.take(5)[0] == 100 && other.take(5)[1] == 97 && other.take(5)[2] == 116
            && other.take(5)[3] == 97 && other.take(5)[4] == 58);
    }
    if let Some(before) = data {
        assert(before.push(10) + value =~= before + seq![10u8] + value);
    }
}

/// An empty line completes the event, if it has any data, and the next begins afresh.
pub proof fn law_an_empty_line_completes_the_event(data: Option<Seq<u8>>)
    ensures
        sse_after(SseView { line: Seq::empty(), data }, seq![10u8]) == (
            SseView { line: Seq::empty(), data: None },
            match data {
                Some(payload) => seq![payload],
                None => Seq::empty(),
            },
        ),
{
    lemma_whole_line(data, Seq::empty());
    assert(Seq::<u8>::empty().push(10) =~= seq![10u8]);
}

/// A carriage return before the line feed that ends a line makes no difference.
pub proof fn law_a_carriage_return_is_nothing(data: Option<Seq<u8>>, line: Seq<u8>)
    requires
        forall|i: int| 0 <= i < line.len() ==> line[i] != 10,
        line.len() > 0 ==> line.last() != 13,
    ensures
        sse_after(SseView { line: Seq::empty(), data }, line + seq![13u8, 10u8]) == sse_after(
            SseView { line: Seq::empty(), data },
            line + seq![10u8],
        ),
{
    let returned = line.push(13);
    lemma_whole_line(data, line);
    lemma_whole_line(data, returned);
    assert(line + seq![13u8, 10u8] =~= returned.push(10));
    assert(line + seq![10u8] =~= line.push(10));
    assert(returned.drop_last() =~= line);
}

/// A piece of a call that is known adds its arguments to those there are, and gives the call its id
/// and its name if it has them; the other calls stay as they are.
pub proof fn law_a_piece_extends_its_call(calls: Seq<PendingView>, fragment: FragmentView, at: int)
    requires
        0 <= at < calls.len(),
        calls[at].index == fragment.index,
        forall|i: int| 0 <= i < at ==> (#[trigger] calls[i]).index != fragment.index,
    ensures
        ({
            let after = with_fragment(calls, fragment);
            let before = calls[at].call;
            &&& after.len() == calls.len()
            &&& forall|i: int|
                0 <= i < calls.len() && i != at ==> #[trigger] after[i] == calls[i]
            &&& after[at].index == fragment.index
            &&& fragment.arguments matches Some(more) ==> after[at].call.arguments
                == before.arguments + more
            &&& fragment.arguments is None ==> after[at].call.arguments == before.arguments
            &&& fragment.id matches Some(id) ==> after[at].call.id == id
            &&& fragment.id is None ==> after[at].call.id == before.id
            &&& fragment.name matches Some(name) ==> after[at].call.name == name
            &&& fragment.name is None ==> after[at].call.name == before.name
        }),
{
    assert(pending_at(calls, fragment.index, at));
    assert(forall|other: int| pending_at(calls, fragment.index, other) ==> other == at);
}

/// The first piece of a call puts it after the calls there are, which stay as they are.
pub proof fn law_a_first_piece_begins_a_call(calls: Seq<PendingView>, fragment: FragmentView)
    requires
        forall|i: int| 0 <= i < calls.len() ==> (#[trigger] calls[i]).index != fragment.index,
    ensures
        ({
            let after = with_fragment(calls, fragment);
            let call = after.last().call;
            &&& after.len() == calls.len() + 1
            &&& forall|i: int| 0 <= i < calls.len() ==> #[trigger] after[i] == calls[i]
            &&& after.last().index == fragment.index
            &&& fragment.arguments matches Some(more) ==> call.arguments == more
            &&& fragment.arguments is None ==> call.arguments.len() == 0
            &&& fragment.id matches Some(id) ==> call.id == id
            &&& fragment.id is None ==> call.id.len() == 0
            &&& fragment.name matches Some(name) ==> call.name == name
            &&& fragment.name is None ==> call.name.len() == 0
        }),
{
    if exists|at: int| pending_at(calls, fragment.index, at) {
        let at = choose|at: int| pending_at(calls, fragment.index, at);
        assert(calls[at].index != fragment.index);
    }
    if fragment.arguments is Some {
        assert(no_call().arguments + fragment.arguments->0 =~= fragment.arguments->0);
    }
}

/// A piece of a reply adds its text to the end, its calls one by one, and its cost in place of the
/// one before; it names the model where none was named yet.
pub proof fn law_a_piece_adds_what_it_carries(reply: AccumulatedView, chunk: ChunkView)
    ensures
        ({
            let after = reply.with_chunk(chunk);
            &&& chunk.content matches Some(text) ==> after.content == reply.content + text
            &&& chunk.content is None ==> after.content == reply.content
            &&& reply.model is Some ==> after.model == reply.model
            &&& reply.model is None ==> after.model == chunk.model
            &&& chunk.usage is Some ==> after.usage == chunk.usage
            &&& chunk.usage is None ==> after.usage == reply.usage
            &&& after.calls == with_fragments(reply.calls, chunk.calls)
            &&& chunk.calls.len() == 0 ==> after.calls == reply.calls
            &&& chunk.calls.len() == 1 ==> after.calls == with_fragment(
                reply.calls,
                chunk.calls[0],
            )
        }),
        nothing_accumulated().content.len() == 0,
        nothing_accumulated().model is None,
        nothing_accumulated().calls.len() == 0,
        nothing_accumulated().usage is None,
        nothing_accumulated().output_tokens() == 0,
{
    if chunk.calls.len() == 1 {
        assert(with_fragments(reply.calls, chunk.calls.drop_last()) == reply.calls);
    }
}

/// It makes no difference which pieces of a reply the pieces of its calls come in.
pub proof fn law_fragments_may_come_together(
    calls: Seq<PendingView>,
    first: Seq<FragmentView>,
    second: Seq<FragmentView>,
)
    ensures
        with_fragments(calls, first + second) == with_fragments(
            with_fragments(calls, first),
            second,
        ),
        with_fragments(calls, Seq::<FragmentView>::empty()) == calls,
        first.len() == 1 ==> with_fragments(calls, first) == with_fragment(calls, first[0]),
{
    lemma_fragments_in_two_parts(calls, first, second);
    if first.len() == 1 {
        assert(with_fragments(calls, first.drop_last()) == calls);
    }
}

/// Every call that was put together is a call of the reply, in order.
pub proof fn law_every_call_put_together_is_returned(reply: AccumulatedView)
    ensures
        reply.tool_calls().len() == reply.calls.len(),
        forall|i: int|
            0 <= i < reply.calls.len() ==> reply.tool_calls()[i] == (#[trigger] reply.calls[i]).call,
{
}

/// Until the server gives a figure, the count is of the pieces that carried some text, each once.
pub proof fn law_the_count_is_of_the_pieces_with_text(chunks: Seq<ChunkView>)
    requires
        chunks.len() <= u64::MAX,
        forall|i: int| 0 <= i < chunks.len() ==> (#[trigger] chunks[i]).usage is None,
    ensures
        with_chunks(nothing_accumulated(), chunks).output_tokens() == chunks.filter(
            |c: ChunkView| c.content is Some && c.content->0.len() > 0,
        ).len(),
        with_chunks(nothing_accumulated(), chunks).usage is None,
        with_chunks(nothing_accumulated(), chunks).output_tokens() <= chunks.len(),
    decreases chunks.len(),
{
    reveal(Seq::filter);
    if chunks.len() > 0 {
        let rest = chunks.drop_last();
        assert forall|i: int| 0 <= i < rest.len() implies (#[trigger] rest[i]).usage is None by {
            assert(rest[i] == chunks[i]);
        }
        law_the_count_is_of_the_pieces_with_text(rest);
        assert(chunks[chunks.len() - 1].usage is None);
    }
}

/// A reply of texts alone is those texts one after the other, whatever they hold.
pub proof fn law_texts_follow_one_another(texts: Seq<Seq<char>>, chunks: Seq<ChunkView>)
    requires
        chunks.len() == texts.len(),
        forall|i: int|
            0 <= i < texts.len() ==> (#[trigger] chunks[i]).content == Some(texts[i]),
    ensures
        with_chunks(nothing_accumulated(), chunks).content == texts.flatten(),
    decreases texts.len(),
{
    if texts.len() == 0 {
        assert(texts.flatten() =~= Seq::empty());
    } else {
        let rest = chunks.drop_last();
        assert forall|i: int| 0 <= i < rest.len() implies (#[trigger] rest[i]).content == Some(
            texts.drop_last()[i],
        ) by {
            assert(rest[i] == chunks[i]);
        }
        law_texts_follow_one_another(texts.drop_last(), rest);
        assert(chunks[chunks.len() - 1].content == Some(texts.last()));
        texts.lemma_flatten_and_flatten_alt_are_equivalent();
        texts.drop_last().lemma_flatten_and_flatten_alt_are_equivalent();
    }
}

/// A cost is the tokens of both sides, and where none was reported it is nought.
pub proof fn law_a_total_is_both_counts(usage: Usage)
    ensures
        usage.spec_total() == usage.prompt_tokens + usage.completion_tokens,
        no_usage().prompt_tokens == 0,
        no_usage().completion_tokens == 0,
{
}

/// Looking at messages, calls, payloads and the pieces of a reply leaves none of them out and
/// changes none.
pub proof fn law_everything_is_seen(
    messages: Seq<Message>,
    calls: Seq<ToolCall>,
    payloads: Seq<Vec<u8>>,
    chunk: ChatChunk,
    response: ChatResponse,
    request: ChatRequest,
)
    ensures
        message_views(messages).len() == messages.len(),
        forall|i: int|
            0 <= i < messages.len() ==> message_views(messages)[i] == (MessageView {
                role: (#[trigger] messages[i]).role,
                content: messages[i].content@,
            }),
        call_views(calls).len() == calls.len(),
        forall|i: int|
            0 <= i < calls.len() ==> call_views(calls)[i] == (ToolCallView {
                id: (#[trigger] calls[i]).id@,
                name: calls[i].function.name@,
                arguments: calls[i].function.arguments@,
            }),
        payload_views(payloads).len() == payloads.len(),
        forall|i: int|
            0 <= i < payloads.len() ==> payload_views(payloads)[i] == (#[trigger] payloads[i])@,
        chunk@.model == text_view(chunk.model),
        chunk@.content == text_view(chunk.content),
        chunk@.usage == chunk.usage,
        chunk@.calls.len() == chunk.calls@.len(),
        forall|i: int|
            0 <= i < chunk.calls@.len() ==> chunk@.calls[i] == (FragmentView {
                index: (#[trigger] chunk.calls@[i]).index as nat,
                id: text_view(chunk.calls@[i].id),
                name: text_view(chunk.calls@[i].name),
                arguments: text_view(chunk.calls@[i].arguments),
            }),
        response@.model == text_view(response.model),
        response@.content == text_view(response.content),
        response@.usage == response.usage,
        response@.calls == call_views(response.calls@),
        request@.model == request.model@,
        request@.messages == message_views(request.messages@),
        request@.tools.len() == request.tools@.len(),
        forall|i: int|
            0 <= i < request.tools@.len() ==> request@.tools[i] == json_of(
                #[trigger] request.tools@[i],
            ),
        text_view(None) is None,
        forall|text: String| #[trigger] text_view(Some(text)) == Some(text@),
        read_result(Ok(response)) == Ok::<ResponseView, Seq<char>>(response@),
        forall|text: String| #[trigger]
            read_result(Err(text)) == Err::<ResponseView, Seq<char>>(text@),
{
}

} // verus!
