use bua::aichat::protocol::{
    parse_chunk, read_chunk, read_response, ChatRequest, FunctionCall, Message, SseDecoder,
    StreamAccumulator, ToolCall, Usage,
};
use bua::aichat::{
    build_request, choose_route, complete_read, complete_response, completed, streamed, AichatClient, ChatError,
    Completion, Config, EgressError, HttpRequest, Progress, SigningHeaders, StreamedReply,
    Subscription, SubscriptionCredential,
};
use bua::label::{DisplayRelease, Label, Labelled};
use serde_json::Value;

const FREE: &str = "http://free.example";
const PREMIUM: &str = "http://premium.example";
const FREE_URL: &str = "http://free.example/v1/chat/completions";
const PREMIUM_URL: &str = "http://premium.example/v1/chat/completions";

const REPLY: &str = r#"{"model":"served-model","choices":[{"message":{"role":"assistant","content":"hello from the model"}}]}"#;

fn config_for(endpoint: &str) -> Config {
    Config {
        model: "automatic".to_string(),
        endpoint: endpoint.to_string(),
        premium_endpoint: None,
    }
}

fn premium_config(endpoint: &str, premium: &str) -> Config {
    Config {
        premium_endpoint: Some(premium.to_string()),
        ..config_for(endpoint)
    }
}

/// A digest that depends on every byte of the body.
fn digest_header(body: &[u8]) -> String {
    let sum = body
        .iter()
        .fold(7u64, |a, b| a.wrapping_mul(31).wrapping_add(*b as u64));
    format!("SHA-256={sum}")
}

fn sign(body: &Vec<u8>) -> SigningHeaders {
    SigningHeaders {
        digest: digest_header(body),
        authorization: "Signature keyId=\"test-key-id\",algorithm=\"hs2019\",headers=\"digest\",signature=\"s\""
            .to_string(),
    }
}

fn header<'a>(request: &'a HttpRequest, name: &str) -> Option<&'a str> {
    request
        .headers
        .iter()
        .find(|(k, _)| k.eq_ignore_ascii_case(name))
        .map(|(_, v)| v.as_str())
}

fn request(messages: Vec<Message>) -> ChatRequest {
    ChatRequest::new("automatic", messages)
}

fn hi() -> ChatRequest {
    request(vec![Message::user("hi".to_string())])
}

fn prepared(r: Result<HttpRequest, ChatError>) -> HttpRequest {
    match r {
        Ok(request) => request,
        Err(error) => panic!("{}", error.to_string()),
    }
}

fn done(r: Result<Completion, ChatError>) -> Completion {
    match r {
        Ok(completion) => completion,
        Err(error) => panic!("{}", error.to_string()),
    }
}

fn failed(r: Result<Completion, ChatError>) -> String {
    match r {
        Ok(_) => panic!("it must fail"),
        Err(error) => error.to_string(),
    }
}

fn text(completion: &Completion) -> String {
    let proof = DisplayRelease { reason: "test reads the reply".to_string() };
    completion.content.declassify(&proof).clone()
}

/// What a reader of replies says of bytes that hold something else.
fn describe(bytes: &Vec<u8>) -> String {
    format!("expected a reply, found {}", String::from_utf8_lossy(bytes))
}

fn reply(body: &str) -> Result<Completion, ChatError> {
    completed(
        Ok(Labelled::new(body.as_bytes().to_vec(), Label::untrusted_public())),
        describe,
    )
}

fn frame(payload: &str) -> String {
    format!("data: {payload}\n\n")
}

fn open_stream() -> StreamedReply {
    match streamed(Ok(Label::untrusted_public())) {
        Ok(stream) => stream,
        Err(error) => panic!("{}", error.to_string()),
    }
}

fn stream(frames: Vec<String>) -> (Result<Completion, ChatError>, Vec<Progress>) {
    let mut stream = open_stream();
    let mut seen = Vec::new();
    for frame in frames {
        seen.push(stream.receive(Labelled::new(frame.into_bytes(), Label::untrusted_public())));
    }
    (stream.finish(), seen)
}

struct StubSubscription {
    remaining: usize,
}

impl Subscription for StubSubscription {
    fn next_credential(&mut self) -> Result<SubscriptionCredential, String> {
        if self.remaining == 0 {
            return Err("used up".to_string());
        }
        self.remaining -= 1;
        Ok(SubscriptionCredential {
            cookie_name: "__Secure-sku#brave-leo-premium".to_string(),
            cookie_value: "presented-credential".to_string(),
        })
    }
}

#[test]
fn a_completion_round_trips() {
    let config = config_for(FREE);
    let mut client = AichatClient::<StubSubscription>::new(&config);
    let http = prepared(client.complete(&hi(), sign));
    let path = http.url.strip_prefix(FREE).expect("the configured host");
    let request_line = format!("{} {path}", http.method);
    assert!(
        request_line.starts_with("POST /v1/chat/completions"),
        "wrong target: {}",
        request_line
    );
    assert_eq!(http.url, FREE_URL);
    assert_eq!(http.reply_label, Label::untrusted_public());

    let completion = done(reply(REPLY));
    assert_eq!(completion.model, "served-model");
    assert_eq!(completion.content.label(), Label::untrusted_public());
    assert_eq!(text(&completion), "hello from the model");
}

#[test]
fn the_request_carries_the_signing_headers() {
    let config = config_for(FREE);
    let mut client = AichatClient::<StubSubscription>::new(&config);
    let http = prepared(client.complete(&hi(), sign));

    let digest = header(&http, "digest").expect("digest header");
    assert!(digest.starts_with("SHA-256="), "malformed digest: {digest}");
    assert_eq!(digest, digest_header(&http.body));

    let authorization = header(&http, "authorization").expect("authorization header");
    assert!(authorization.starts_with("Signature keyId=\"test-key-id\""));
    assert!(authorization.contains("algorithm=\"hs2019\""));
    assert!(authorization.contains("headers=\"digest\""));

    assert_eq!(
        header(&http, "content-type"),
        Some("application/json"),
        "the server expects json"
    );
    assert_eq!(header(&http, "accept"), None);
    assert_eq!(http.method, "POST");

    for (name, value) in &http.headers {
        assert!(
            !value.contains("test-signing-key"),
            "the signing key leaked in {name}"
        );
    }
}

#[test]
fn the_request_body_matches_the_protocol() {
    let config = config_for(FREE);
    let mut client = AichatClient::<StubSubscription>::new(&config);
    let request = request(vec![
        Message::system("be brief".to_string()),
        Message::user("hi".to_string()),
    ]);
    let http = prepared(client.complete(&request, sign));
    let body: Value = serde_json::from_slice(&http.body).expect("json body");

    assert_eq!(body["model"], "automatic");
    assert_eq!(body["messages"][0]["role"], "system");
    assert_eq!(body["messages"][1]["content"], "hi");
    assert!(body.get("stream").is_none());
    assert!(body.get("tools").is_none());
}

#[test]
fn a_request_offers_the_tools_it_was_given() {
    let tool: Value = serde_json::from_str("{\"type\":\"function\",\"min\":-1.5}").unwrap();
    let request = request(vec![Message::assistant("(requesting tools: a)".to_string())])
        .with_tools(vec![tool.clone()]);
    let body: Value = serde_json::from_slice(&request.encode(false)).unwrap();
    assert_eq!(body["tools"][0], tool);
    assert_eq!(body["messages"][0]["role"], "assistant");
}

#[test]
fn a_response_without_content_is_an_error() {
    let error = failed(reply(r#"{"model":"m","choices":[]}"#));
    assert!(error.contains("no message content"));
}

#[test]
fn a_streamed_completion_arrives_in_pieces() {
    let frames = vec![
        frame(r#"{"model":"served-model","choices":[{"delta":{"role":"assistant"}}]}"#),
        frame(r#"{"choices":[{"delta":{"content":"hello"}}]}"#),
        frame(r#"{"choices":[{"delta":{"content":" from"}}]}"#),
        frame(r#"{"choices":[{"delta":{"content":" the model"}}]}"#),
        frame(
            r#"{"choices":[{"finish_reason":"stop"}],"usage":{"prompt_tokens":12,"completion_tokens":3}}"#,
        ),
        frame("[DONE]"),
    ];
    let (outcome, seen) = stream(frames);
    let completion = done(outcome);

    assert_eq!(completion.model, "served-model");
    assert_eq!(completion.content.label(), Label::untrusted_public());
    assert_eq!(completion.usage.completion_tokens, 3);
    assert_eq!(completion.usage.prompt_tokens, 12);
    assert_eq!(text(&completion), "hello from the model");

    let counts: Vec<u64> = seen.iter().map(|p| p.output_tokens).collect();
    assert!(
        counts.windows(2).all(|w| w[1] >= w[0]),
        "the count went backwards: {counts:?}"
    );
    assert!(
        counts.iter().any(|c| *c > 0),
        "the count never moved: {counts:?}"
    );
    assert_eq!(counts, vec![0, 1, 2, 3, 3, 3]);
    assert_eq!(seen.last().expect("progress was reported").output_tokens, 3);
    assert!(seen.last().expect("reported").counted_by_server);
    assert!(!seen[3].counted_by_server);

    let config = config_for(FREE);
    let mut client = AichatClient::<StubSubscription>::new(&config);
    let http = prepared(client.complete_streaming(&hi(), sign));
    let body = String::from_utf8(http.body.clone()).unwrap();
    assert!(
        body.contains("\"stream\":true"),
        "the request did not ask to stream: {}",
        body
    );
    assert!(
        body.contains("\"include_usage\":true"),
        "the request did not ask for usage: {}",
        body
    );
    assert_eq!(http.method, "POST");
    assert_eq!(http.url, FREE_URL);
    assert_eq!(header(&http, "accept"), Some("text/event-stream"));
    assert_eq!(header(&http, "digest"), Some(digest_header(&http.body).as_str()));
}

#[test]
fn a_streamed_tool_call_is_reassembled() {
    let (outcome, _) = stream(vec![
        frame(
            r#"{"model":"m","choices":[{"delta":{"tool_calls":[{"index":0,"id":"call_1","function":{"name":"read_file","arguments":""}}]}}]}"#,
        ),
        frame(
            r#"{"choices":[{"delta":{"tool_calls":[{"index":0,"function":{"arguments":"{\"path\""}}]}}]}"#,
        ),
        frame(
            r#"{"choices":[{"delta":{"tool_calls":[{"index":0,"function":{"arguments":":\"a.rs\"}"}}]}}]}"#,
        ),
        frame(
            r#"{"choices":[{"finish_reason":"tool_calls"}],"usage":{"prompt_tokens":8,"completion_tokens":5}}"#,
        ),
        frame("[DONE]"),
    ]);
    let completion = done(outcome);

    assert_eq!(completion.calls.len(), 1);
    assert_eq!(completion.calls[0].function.name, "read_file");
    assert_eq!(completion.calls[0].id, "call_1");
    assert_eq!(
        completion.calls[0].arguments().expect("parses")["path"],
        "a.rs"
    );
}

#[test]
fn a_stream_with_no_content_is_an_error() {
    let (outcome, _) = stream(vec![
        frame(r#"{"model":"m","choices":[{"delta":{"role":"assistant"}}]}"#),
        frame("[DONE]"),
    ]);
    assert!(failed(outcome).contains("no message content"));
}

#[test]
fn unparseable_frames_do_not_lose_the_reply() {
    let (outcome, _) = stream(vec![
        ": keepalive\n\n".to_string(),
        frame("not json at all"),
        frame(r#"{"model":"m","choices":[{"delta":{"content":"still here"}}]}"#),
        frame("[DONE]"),
    ]);
    assert_eq!(text(&done(outcome)), "still here");
}

#[test]
fn a_subscribed_request_goes_to_the_premium_host_with_the_credential() {
    let config = premium_config("http://127.0.0.1:1", PREMIUM);
    let mut subscription = StubSubscription { remaining: 1 };
    let mut client = AichatClient::new(&config).with_subscription(&mut subscription);
    let http = prepared(client.complete(&hi(), sign));
    assert_eq!(http.url, PREMIUM_URL);
    assert_eq!(
        header(&http, "cookie"),
        Some("__Secure-sku#brave-leo-premium=presented-credential")
    );
    assert_eq!(subscription.remaining, 0);
}

#[test]
fn without_a_premium_host_no_credential_is_attached() {
    let config = config_for(FREE);
    let mut subscription = StubSubscription { remaining: 5 };
    let mut client = AichatClient::new(&config).with_subscription(&mut subscription);
    let http = prepared(client.complete(&hi(), sign));

    assert_eq!(header(&http, "cookie"), None);
    assert_eq!(http.url, FREE_URL);
    assert_eq!(subscription.remaining, 5);
}

#[test]
fn an_exhausted_subscription_fails_the_request() {
    let config = premium_config(FREE, PREMIUM);
    let mut subscription = StubSubscription { remaining: 0 };
    let mut client = AichatClient::new(&config).with_subscription(&mut subscription);
    match client.complete_streaming(&hi(), sign) {
        Err(ChatError::Subscription(detail)) => assert_eq!(detail, "used up"),
        _ => panic!("a downgrade nobody was told about"),
    }
}

#[test]
fn an_unsubscribed_caller_gets_the_free_tier() {
    let config = premium_config(FREE, PREMIUM);
    let mut client = AichatClient::<StubSubscription>::new(&config);
    let http = prepared(client.complete(&hi(), sign));
    assert_eq!(http.url, FREE_URL);
    assert_eq!(header(&http, "cookie"), None);
    match client.route() {
        Ok((url, credential)) => {
            assert_eq!(url, FREE_URL);
            assert!(credential.is_none());
        }
        Err(error) => panic!("{}", error.to_string()),
    }
}

#[test]
fn each_answer_has_its_route() {
    let config = premium_config(FREE, PREMIUM);
    let credential = SubscriptionCredential {
        cookie_name: "n".to_string(),
        cookie_value: "v".to_string(),
    };
    match choose_route(&config, Some(Ok(credential))) {
        Ok((url, Some(credential))) => {
            assert_eq!(url, PREMIUM_URL);
            let signing = sign(&vec![1, 2]);
            let http = build_request(url, vec![1, 2], true, &signing, Some(credential));
            assert_eq!(header(&http, "cookie"), Some("n=v"));
            assert_eq!(http.body, vec![1, 2]);
            assert_eq!(http.headers.len(), 5);
        }
        _ => panic!("premium"),
    }
    assert!(choose_route(&config, Some(Err("x".to_string()))).is_err());
    assert!(matches!(choose_route(&config, None), Ok((_, None))));
    assert!(matches!(
        choose_route(&config_for(FREE), Some(Err("x".to_string()))),
        Ok((_, None))
    ));
}

#[test]
fn a_refused_request_says_why() {
    let refused = EgressError { detail: "web_fetch was not granted".to_string() };
    assert_eq!(failed(completed(Err(refused), describe)), "web_fetch was not granted");
    let refused = EgressError { detail: "web_fetch was not granted".to_string() };
    match streamed(Err(refused)) {
        Err(error) => assert!(error.to_string().contains("web_fetch")),
        Ok(_) => panic!("it must be refused"),
    }
}

#[test]
fn a_reply_that_is_not_json_says_how_much_arrived() {
    let error = failed(reply("not json"));
    assert_eq!(
        error,
        "unexpected response: expected ident at line 1 column 2 (received 8 bytes)"
    );
    match complete_read(Err("why".to_string()), 12, Label::untrusted_public()) {
        Err(ChatError::Decode { detail }) => assert_eq!(detail, "why (received 12 bytes)"),
        _ => panic!("it was not read"),
    }
}

#[test]
fn a_reply_of_another_shape_says_how_much_arrived() {
    for body in [
        "[]",
        "7",
        r#"{"model":7}"#,
        r#"{"choices":{}}"#,
        r#"{"choices":[7]}"#,
        r#"{"choices":[{"message":{"content":["x"]}}]}"#,
        r#"{"choices":[{"message":{"content":"x"}},{"message":7}]}"#,
        r#"{"choices":[{"message":{"content":"x","tool_calls":[{"function":"f"}]}}]}"#,
        r#"{"choices":[{"message":{"content":"x"}}],"usage":{"prompt_tokens":-1}}"#,
    ] {
        assert_eq!(
            failed(reply(body)),
            format!(
                "unexpected response: expected a reply, found {body} (received {} bytes)",
                body.len()
            )
        );
    }
    let nulls = r#"{"model":null,"choices":[{"message":{"content":"x","tool_calls":null}}],"usage":null}"#;
    let completion = done(reply(nulls));
    assert_eq!(completion.model, "unreported");
    assert_eq!(text(&completion), "x");
    assert_eq!(completion.usage.total(), 0);
}

#[test]
fn arguments_that_are_not_json_say_so() {
    let call = ToolCall {
        id: "c".to_string(),
        function: FunctionCall { name: "f".to_string(), arguments: "{\"path\"".to_string() },
    };
    assert!(call.arguments().expect_err("cut short").contains("EOF"));
}

#[test]
fn a_streamed_reply_is_what_the_whole_one_would_be() {
    let whole = done(reply(
        r#"{"model":"m","choices":[{"message":{"content":"ab","tool_calls":[{"id":"c","function":{"name":"f","arguments":"{}"}}]}}],"usage":{"prompt_tokens":1,"completion_tokens":2}}"#,
    ));
    let (outcome, _) = stream(vec![
        ": keepalive\n\n".to_string(),
        frame(r#"{"model":"m","choices":[{"delta":{"content":"a"}}]}"#),
        frame(r#"{"model":"n","choices":[{"delta":{"content":"b","tool_calls":[{"index":0,"id":"c","function":{"name":"f","arguments":"{"}}]}}]}"#),
        frame(r#"{"choices":[{"delta":{"content":7}}]}"#),
        frame(r#"{"choices":[{"delta":{"tool_calls":[{"index":0,"function":{"arguments":"}"}}]}}],"usage":{"prompt_tokens":1,"completion_tokens":2}}"#),
        frame("[DONE]"),
    ]);
    let streamed = done(outcome);
    assert_eq!(text(&streamed), text(&whole));
    assert_eq!(streamed.model, whole.model);
    assert_eq!(streamed.calls, whole.calls);
    assert_eq!(streamed.usage, whole.usage);
    assert_eq!(streamed.content.label(), whole.content.label());
    // A whole reply may be empty; a stream that carried nothing is an error.
    let empty = done(reply(r#"{"choices":[{"message":{"content":""}}]}"#));
    assert_eq!(text(&empty), "");
    let (outcome, _) = stream(vec![frame(r#"{"choices":[{"delta":{"content":""}}]}"#)]);
    assert!(failed(outcome).contains("no message content"));
}

#[test]
fn a_reply_may_call_tools_without_saying_anything() {
    let completion = done(reply(
        r#"{"choices":[{"message":{"content":null,"tool_calls":[{"id":"c","function":{"name":"read_file","arguments":"{}"}}]}}],"usage":{"prompt_tokens":4,"completion_tokens":2}}"#,
    ));
    assert_eq!(completion.model, "unreported");
    assert_eq!(text(&completion), "");
    assert_eq!(completion.calls.len(), 1);
    assert_eq!(completion.calls[0].id, "c");
    assert_eq!(completion.calls[0].function.arguments, "{}");
    assert_eq!(completion.usage.total(), 6);
}

#[test]
fn a_whole_reply_keeps_the_label_it_came_with() {
    let label = Label { trusted: true, public: false };
    let value: Value = serde_json::from_str(REPLY).unwrap();
    let completion = done(complete_response(read_response(&value).expect("a reply"), label));
    assert_eq!(completion.content.label(), label);
    let mut response = read_response(&value).expect("a reply");
    assert_eq!(response.model.as_deref(), Some("served-model"));
    response.content = None;
    assert!(matches!(
        complete_response(response, label),
        Err(ChatError::NoContent)
    ));
}

#[test]
fn it_makes_no_difference_where_a_stream_is_split() {
    let all: Vec<u8> = [
        frame(r#"{"model":"m","choices":[{"delta":{"content":"café "}}]}"#),
        frame(r#"{"choices":[{"delta":{"content":"é!"}}]}"#),
        frame("[DONE]"),
    ]
    .concat()
    .into_bytes();
    for at in 0..=all.len() {
        let mut stream = open_stream();
        stream.receive(Labelled::new(all[..at].to_vec(), Label::untrusted_public()));
        stream.receive(Labelled::new(all[at..].to_vec(), Label::untrusted_public()));
        assert_eq!(text(&done(stream.finish())), "café é!");
    }
}

#[test]
fn events_are_framed_as_event_streams_are() {
    let mut decoder = SseDecoder::new();
    assert!(decoder.push(b"data: a\r\ndata:b\r\n: note\r\nid: 7\r\n").is_empty());
    assert_eq!(decoder.push(b"\r\n\r\n\ndata:\n\ndata:  x\n\n"), vec![
        b"a\nb".to_vec(),
        b"".to_vec(),
        b" x".to_vec(),
    ]);
    assert!(decoder.push(b"data: unfinished\n").is_empty());
}

#[test]
fn a_payload_is_a_chunk_only_where_it_is_json() {
    assert!(parse_chunk(b"[DONE").is_none());
    assert!(parse_chunk(b"{\"choices\":7}").is_none());
    let chunk = parse_chunk(b"{\"model\":\"m\"}").expect("json");
    assert_eq!(chunk.model.as_deref(), Some("m"));
    assert!(chunk.content.is_none());
    assert!(chunk.usage.is_none());
    assert!(parse_chunk(b"{\"usage\":null}").expect("json").usage.is_none());
    let usage = parse_chunk(b"{\"usage\":{\"completion_tokens\":9}}").expect("json").usage;
    assert_eq!(usage, Some(Usage { prompt_tokens: 0, completion_tokens: 9 }));
}

#[test]
fn two_streamed_calls_are_kept_apart() {
    let piece = |t: &str| read_chunk(&serde_json::from_str(t).unwrap()).expect("a piece");
    let mut reply = StreamAccumulator::new();
    assert_eq!(reply.output_tokens(), 0);
    reply.push(piece(
        r#"{"model":"first","choices":[{"delta":{"content":"","tool_calls":[{"index":1,"id":"b","function":{"name":"g","arguments":"1"}},{"index":0,"id":"a","function":{"name":"f","arguments":"2"}}]}}]}"#,
    ));
    reply.push(piece(
        r#"{"model":"second","choices":[{"delta":{"content":"x","tool_calls":[{"index":1,"function":{"arguments":"3"}}]}}]}"#,
    ));
    assert_eq!(reply.output_tokens(), 1);
    assert!(!reply.usage_is_reported());
    let (content, model, calls, usage): (String, Option<String>, Vec<ToolCall>, Usage) =
        reply.finish();
    assert_eq!(content, "x");
    assert_eq!(model.as_deref(), Some("first"));
    assert_eq!(calls.len(), 2);
    assert_eq!(calls[0].id, "b");
    assert_eq!(calls[0].function.arguments, "13");
    assert_eq!(calls[1].function.name, "f");
    assert_eq!(usage, Usage { prompt_tokens: 0, completion_tokens: 0 });
}

#[test]
fn chat_errors_say_what_happened() {
    assert_eq!(
        ChatError::Encode("x".to_string()).to_string(),
        "could not encode the request: x"
    );
    assert_eq!(
        ChatError::Subscription("x".to_string()).to_string(),
        "the Leo subscription could not be used: x. Run `bua import-leo-creds` to refresh it, or \
         unset the premium endpoint to use the free tier"
    );
    let error = ChatError::from(EgressError { detail: "no route".to_string() });
    assert_eq!(error.to_string(), "no route");
}
