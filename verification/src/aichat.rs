//! Client for the OpenAI-compatible chat backend.
//!
//! Targets `POST /v1/chat/completions`.
//!
//! Requests are signed rather than bearer-authenticated, and the model reported in the reply is
//! preserved because the server may substitute a different one than was requested.
//!
//! Nothing here touches the network: the client prepares an [`HttpRequest`], a caller sends it
//! past its policy, and hands back what came.

use crate::json::{json_read_bytes, Json};
use crate::label::{Label, Labelled};
use crate::text::{append_decimal, decimal};
use vstd::prelude::*;
use vstd::std_specs::convert::FromSpecImpl;
use vstd::utf8::encode_utf8;

pub mod protocol;

use crate::aichat::protocol::{
    call_views, chunk_of, chunk_read, first_model, fits_a_line, fragments_in, frames, is_read,
    last_usage, no_usage, nothing_accumulated, parse_chunk, parse_response, payload_views,
    read_result, request_bytes, response_of, sse_after, sse_start, text_event, text_of, text_view,
    with_chunks, with_fragments,
};
use crate::aichat::protocol::{
    law_a_reply_is_what_its_pieces_say, law_a_text_event_is_its_text,
    law_frames_are_read_as_their_payloads, law_reads_may_split_anywhere,
    law_texts_follow_one_another,
};
use crate::aichat::protocol::{
    AccumulatedView, ChatRequest, ChatResponse, ChunkView, FragmentView, PendingView, RequestView,
    ResponseView, SseDecoder, SseView, StreamAccumulator, ToolCall, ToolCallView, Usage, STREAM_DONE,
};

verus! {

/// Why a request never left, or failed in transit, as the network layer tells it.
#[derive(Debug)]
pub struct EgressError {
    pub detail: String,
}

/// Why a completion failed.
#[derive(Debug)]
pub enum ChatError {
    /// The request could not be serialised.
    Encode(String),
    /// The response was not the expected shape.
    Decode { detail: String },
    /// The request never left, or failed in transit.
    Egress(EgressError),
    /// A well-formed response carrying no usable content.
    NoContent,
    /// A subscription is configured but no credential could be presented.
    ///
    /// Fails the request rather than falling back: see [`AichatClient::route`].
    Subscription(String),
}

/// A [`ChatError`] as a mathematical value.
pub enum ChatErrorView {
    Encode(Seq<char>),
    Decode(Seq<char>),
    Egress(Seq<char>),
    NoContent,
    Subscription(Seq<char>),
}

impl View for ChatError {
    type V = ChatErrorView;

    open spec fn view(&self) -> ChatErrorView {
        match self {
            ChatError::Encode(detail) => ChatErrorView::Encode(detail@),
            ChatError::Decode { detail } => ChatErrorView::Decode(detail@),
            ChatError::Egress(error) => ChatErrorView::Egress(error.detail@),
            ChatError::NoContent => ChatErrorView::NoContent,
            ChatError::Subscription(detail) => ChatErrorView::Subscription(detail@),
        }
    }
}

impl ChatErrorView {
    /// What the error says to the user.
    pub open spec fn message(self) -> Seq<char> {
        match self {
            ChatErrorView::Encode(detail) => "could not encode the request: "@ + detail,
            ChatErrorView::Decode(detail) => "unexpected response: "@ + detail,
            ChatErrorView::Egress(detail) => detail,
            ChatErrorView::NoContent => "the response contained no message content"@,
            ChatErrorView::Subscription(detail) => "the Leo subscription could not be used: "@
                + detail
                + ". Run `bua import-leo-creds` to refresh it, or unset the premium endpoint to use the free tier"@,
        }
    }
}

impl ChatError {
    /// What the error says to the user.
    pub fn to_string(&self) -> (r: String)
        ensures
            r@ == self@.message(),
    {
        match self {
            ChatError::Encode(detail) => {
                "could not encode the request: ".to_string().concat(detail.as_str())
            },
            ChatError::Decode { detail } => {
                "unexpected response: ".to_string().concat(detail.as_str())
            },
            ChatError::Egress(error) => error.detail.clone(),
            ChatError::NoContent => "the response contained no message content".to_string(),
            ChatError::Subscription(detail) => {
                "the Leo subscription could not be used: ".to_string().concat(
                    detail.as_str(),
                ).concat(
                    ". Run `bua import-leo-creds` to refresh it, or unset the premium endpoint to use the free tier",
                )
            },
        }
    }
}

impl FromSpecImpl<EgressError> for ChatError {
    open spec fn obeys_from_spec() -> bool {
        true
    }

    open spec fn from_spec(v: EgressError) -> Self {
        ChatError::Egress(v)
    }
}

impl From<EgressError> for ChatError {
    /// What a failure of the network layer is to a completion.
    fn from(value: EgressError) -> (r: Self) {
        ChatError::Egress(value)
    }
}

/// A completion, with the model the server actually used.
pub struct Completion {
    /// The assistant's reply. Untrusted: it is model output, so it may carry anything an injected
    /// instruction put there.
    pub content: Labelled<String>,
    /// The model reported by the server, which may differ from the one requested.
    pub model: String,
    /// Tools the model asked to call. Empty when it answered directly.
    ///
    /// The arguments are model output and therefore untrusted; a caller must gate them before
    /// letting any of it direct an operation.
    pub calls: Vec<ToolCall>,
    /// What this round cost, as the server counted it.
    pub usage: Usage,
}

/// A [`Completion`] as a mathematical value.
#[verifier::ext_equal]
pub struct CompletionView {
    pub content: Seq<char>,
    pub label: Label,
    pub model: Seq<char>,
    pub calls: Seq<ToolCallView>,
    pub usage: Usage,
}

impl View for Completion {
    type V = CompletionView;

    open spec fn view(&self) -> CompletionView {
        CompletionView {
            content: self.content.spec_value()@,
            label: self.content.spec_label(),
            model: self.model@,
            calls: call_views(self.calls@),
            usage: self.usage,
        }
    }
}

/// A result of a completion, as a mathematical value.
pub open spec fn completion_result(r: Result<Completion, ChatError>) -> Result<
    CompletionView,
    ChatErrorView,
> {
    match r {
        Ok(completion) => Ok(completion@),
        Err(error) => Err(error@),
    }
}

/// A source of subscription credentials, one per request.
///
/// A trait rather than a stored string because each credential is single-use: presenting one
/// spends it, so a request has to ask for its own rather than reuse a cached value.
pub trait Subscription {
    /// The cookie value presenting the next credential.
    ///
    /// An error here fails the request. It deliberately does not fall back to the free tier: a
    /// configured subscription that silently stops being used looks like the model got worse for
    /// no reason.
    fn next_credential(&mut self) -> Result<SubscriptionCredential, String>;
}

/// A credential ready to be attached to one request.
pub struct SubscriptionCredential {
    /// The cookie name the backend reads.
    pub cookie_name: String,
    /// The presented credential.
    pub cookie_value: String,
}

impl SubscriptionCredential {
    /// The cookie that presents the credential.
    pub open spec fn cookie(self) -> Seq<char> {
        self.cookie_name@ + "="@ + self.cookie_value@
    }

    /// A form for a log, which never tells the value: it is a bearer credential.
    pub fn redacted(&self) -> (r: String)
        ensures
            r@ == "SubscriptionCredential("@ + self.cookie_name@ + "=<redacted>)"@,
    {
        "SubscriptionCredential(".to_string().concat(self.cookie_name.as_str()).concat(
            "=<redacted>)",
        )
    }
}

/// Where an endpoint takes requests for a completion.
pub const CHAT_COMPLETIONS_PATH: &'static str = "/v1/chat/completions";

/// The method of a request for a completion.
pub const POST: &'static str = "POST";

/// What the client has to know of its configuration. An endpoint is written without a slash at its
/// end.
pub struct Config {
    /// The model to ask for.
    pub model: String,
    /// The free tier.
    pub endpoint: String,
    /// The premium tier, where this build knows it.
    pub premium_endpoint: Option<String>,
}

/// Where a request goes at an endpoint.
pub open spec fn completions_at(endpoint: Seq<char>) -> Seq<char> {
    endpoint + CHAT_COMPLETIONS_PATH@
}

impl Config {
    /// Where a request goes on the free tier.
    pub fn chat_completions_url(&self) -> (r: String)
        ensures
            r@ == completions_at(self.endpoint@),
    {
        self.endpoint.clone().concat(CHAT_COMPLETIONS_PATH)
    }

    /// Where a request goes on the premium tier, where this build knows.
    pub fn premium_chat_completions_url(&self) -> (r: Option<String>)
        ensures
            match self.premium_endpoint {
                Some(endpoint) => r matches Some(url) && url@ == completions_at(endpoint@),
                None => r is None,
            },
    {
        match &self.premium_endpoint {
            Some(endpoint) => Some(endpoint.clone().concat(CHAT_COMPLETIONS_PATH)),
            None => None,
        }
    }
}

/// The headers that sign a body.
pub struct SigningHeaders {
    pub digest: String,
    pub authorization: String,
}

/// A request to send, and the label that its reply comes under.
pub struct HttpRequest {
    pub method: &'static str,
    pub url: String,
    pub headers: Vec<(String, String)>,
    pub body: Vec<u8>,
    pub reply_label: Label,
}

/// Some headers as mathematical values.
pub open spec fn header_views(headers: Seq<(String, String)>) -> Seq<(Seq<char>, Seq<char>)> {
    headers.map_values(|h: (String, String)| (h.0@, h.1@))
}

/// The headers of a request: that it is JSON, that its reply is to be streamed if it is, its
/// signature, and the cookie that presents a credential if there is one.
pub open spec fn request_headers(
    streamed: bool,
    signing: SigningHeaders,
    credential: Option<SubscriptionCredential>,
) -> Seq<(Seq<char>, Seq<char>)> {
    let kind = seq![("content-type"@, "application/json"@)];
    let accept = if streamed {
        kind.push(("accept"@, "text/event-stream"@))
    } else {
        kind
    };
    let signed = accept.push(("digest"@, signing.digest@)).push(
        ("authorization"@, signing.authorization@),
    );
    match credential {
        Some(c) => signed.push(("cookie"@, c.cookie())),
        None => signed,
    }
}

/// Whether a request has a header of this name.
pub open spec fn has_header(headers: Seq<(Seq<char>, Seq<char>)>, name: Seq<char>) -> bool {
    exists|i: int| 0 <= i < headers.len() && (#[trigger] headers[i]).0 == name
}

/// A request carries a cookie exactly where it presents a credential.
pub proof fn law_only_a_credential_is_a_cookie(
    streamed: bool,
    signing: SigningHeaders,
    credential: Option<SubscriptionCredential>,
)
    ensures
        has_header(request_headers(streamed, signing, credential), "cookie"@)
            <==> credential is Some,
{
    reveal_strlit("cookie");
    reveal_strlit("content-type");
    reveal_strlit("accept");
    reveal_strlit("digest");
    reveal_strlit("authorization");
    let headers = request_headers(streamed, signing, credential);
    assert("cookie"@.len() == 6 && "content-type"@.len() == 12 && "accept"@[0] == 'a'
        && "cookie"@[0] == 'c' && "digest"@[0] == 'd' && "authorization"@.len() == 13);
    if credential is Some {
        assert(headers[headers.len() - 1].0 == "cookie"@);
    } else {
        assert forall|i: int| 0 <= i < headers.len() implies (#[trigger] headers[i]).0
            != "cookie"@ by {
            assert(i == 0 || i == 1 || i == 2 || i == 3);
        }
    }
}

/// Whether a request is the one to make: the body of `request`, posted to `url`, signed over the
/// body it carries, and with the cookie for `credential`.
pub open spec fn is_request<F: Fn(&Vec<u8>) -> SigningHeaders>(
    http: HttpRequest,
    url: Seq<char>,
    request: RequestView,
    streamed: bool,
    sign: F,
    credential: Option<SubscriptionCredential>,
) -> bool {
    &&& http.method@ == POST@
    &&& http.url@ == url
    &&& http.body@ == request_bytes(request, streamed)
    &&& http.reply_label == Label::spec_untrusted_public()
    &&& exists|signing: SigningHeaders|
        {
            &&& #[trigger] call_ensures(sign, (&http.body,), signing)
            &&& header_views(http.headers@) == request_headers(streamed, signing, credential)
        }
}

/// Where a request goes, for what the subscription answered if it was asked.
pub open spec fn routed(
    config: Config,
    answer: Option<Result<SubscriptionCredential, String>>,
) -> Result<(Seq<char>, Option<SubscriptionCredential>), ChatErrorView> {
    match config.premium_endpoint {
        Some(premium) => match answer {
            Some(Ok(credential)) => Ok((completions_at(premium@), Some(credential))),
            Some(Err(detail)) => Err(ChatErrorView::Subscription(detail@)),
            None => Ok((completions_at(config.endpoint@), None)),
        },
        None => Ok((completions_at(config.endpoint@), None)),
    }
}

/// A route as a mathematical value.
pub open spec fn route_result(
    r: Result<(String, Option<SubscriptionCredential>), ChatError>,
) -> Result<(Seq<char>, Option<SubscriptionCredential>), ChatErrorView> {
    match r {
        Ok(route) => Ok((route.0@, route.1)),
        Err(error) => Err(error@),
    }
}

/// Where a request goes, and any credential to attach, for what the subscription answered if it
/// was asked.
///
/// Premium without a subscription is not an error: the free tier is what an unsubscribed caller
/// gets.
pub fn choose_route(
    config: &Config,
    answer: Option<Result<SubscriptionCredential, String>>,
) -> (r: Result<(String, Option<SubscriptionCredential>), ChatError>)
    ensures
        route_result(r) == routed(*config, answer),
{
    match config.premium_chat_completions_url() {
        Some(premium) => match answer {
            Some(Ok(credential)) => Ok((premium, Some(credential))),
            Some(Err(detail)) => Err(ChatError::Subscription(detail)),
            None => Ok((config.chat_completions_url(), None)),
        },
        None => Ok((config.chat_completions_url(), None)),
    }
}

/// What a prepared request is, for what the subscription answered if it was asked.
///
/// With a premium host and a subscription, this is premium or nothing: the request goes to the
/// premium host with the credential, or fails. Otherwise it goes to the free host without one.
pub open spec fn is_prepared<F: Fn(&Vec<u8>) -> SigningHeaders>(
    r: Result<HttpRequest, ChatError>,
    config: Config,
    answer: Option<Result<SubscriptionCredential, String>>,
    request: RequestView,
    streamed: bool,
    sign: F,
) -> bool {
    match routed(config, answer) {
        Ok(route) => r is Ok && is_request(r->Ok_0, route.0, request, streamed, sign, route.1),
        Err(error) => r is Err && r->Err_0@ == error,
    }
}

/// The request for a body that is signed and routed: it is posted.
pub fn build_request(
    url: String,
    body: Vec<u8>,
    streamed: bool,
    signing: &SigningHeaders,
    credential: Option<SubscriptionCredential>,
) -> (r: HttpRequest)
    ensures
        r.method@ == POST@,
        r.url == url,
        r.body == body,
        r.reply_label == Label::spec_untrusted_public(),
        header_views(r.headers@) == request_headers(streamed, *signing, credential),
{
    let mut headers: Vec<(String, String)> = Vec::new();
    headers.push(("content-type".to_string(), "application/json".to_string()));
    if streamed {
        headers.push(("accept".to_string(), "text/event-stream".to_string()));
    }
    headers.push(("digest".to_string(), signing.digest.clone()));
    headers.push(("authorization".to_string(), signing.authorization.clone()));
    match &credential {
        Some(c) => {
            let cookie = c.cookie_name.clone().concat("=").concat(c.cookie_value.as_str());
            headers.push(("cookie".to_string(), cookie));
        },
        None => {},
    }
    assert(header_views(headers@) =~= request_headers(streamed, *signing, credential));
    HttpRequest { method: POST, url, headers, body, reply_label: Label::untrusted_public() }
}

/// Prepares chat requests, spending a credential on each where there is a subscription.
pub struct AichatClient<'a, S: Subscription> {
    pub config: &'a Config,
    pub subscription: Option<&'a mut S>,
}

impl<'a, S: Subscription> AichatClient<'a, S> {
    /// Whether a request asks the subscription for a credential: only where there is one, and the
    /// premium host is known.
    pub open spec fn asks(self) -> bool {
        self.subscription is Some && self.config.premium_endpoint is Some
    }

    /// A client on the free tier.
    pub fn new(config: &'a Config) -> (r: Self)
        ensures
            r.config == config,
            r.subscription is None,
    {
        AichatClient { config, subscription: None }
    }

    /// Send requests on the premium tier, spending a credential on each.
    pub fn with_subscription(self, subscription: &'a mut S) -> (r: Self)
        ensures
            r.config == self.config,
            r.subscription is Some,
            *r.subscription->0 == *old(subscription),
            *final(r.subscription->0) == *final(subscription),
    {
        AichatClient { config: self.config, subscription: Some(subscription) }
    }

    /// Where this request goes, and any credential to attach.
    ///
    /// The premium host and the credential travel together: a credential belongs to the premium
    /// deployment, so without a premium host the subscription is not even asked for one.
    ///
    /// With both a premium host and a subscription, this is premium or nothing. A credential that
    /// cannot be produced fails the request rather than quietly reverting to the free tier.
    ///
    /// What the subscription answers is its own: [`choose_route`] says what comes of each answer.
    pub fn route(&mut self) -> (r: Result<(String, Option<SubscriptionCredential>), ChatError>)
        ensures
            final(self).config == old(self).config,
            old(self).asks() ==> {
                &&& final(self).subscription is Some
                &&& *final(final(self).subscription->0) == *final(old(self).subscription->0)
                &&& exists|source: &mut S, answer: Result<SubscriptionCredential, String>|
                    {
                        &&& #[trigger] call_ensures(S::next_credential, (source,), answer)
                        &&& *source == *old(self).subscription->0
                        &&& *final(source) == *final(self).subscription->0
                        &&& route_result(r) == routed(*old(self).config, Some(answer))
                    }
            },
            !old(self).asks() ==> {
                &&& *final(self) == *old(self)
                &&& route_result(r) == routed(*old(self).config, None)
            },
    {
        if self.config.premium_endpoint.is_none() {
            return choose_route(self.config, None);
        }
        let answer = match self.subscription.as_mut() {
            Some(source) => Some(source.next_credential()),
            None => None,
        };
        choose_route(self.config, answer)
    }

    fn prepare<F: Fn(&Vec<u8>) -> SigningHeaders>(
        &mut self,
        request: &ChatRequest,
        streamed: bool,
        sign: F,
    ) -> (r: Result<HttpRequest, ChatError>)
        requires
            forall|body: &Vec<u8>| #[trigger] call_requires(sign, (body,)),
        ensures
            final(self).config == old(self).config,
            old(self).asks() ==> {
                &&& final(self).subscription is Some
                &&& *final(final(self).subscription->0) == *final(old(self).subscription->0)
                &&& exists|source: &mut S, answer: Result<SubscriptionCredential, String>|
                    {
                        &&& #[trigger] call_ensures(S::next_credential, (source,), answer)
                        &&& *source == *old(self).subscription->0
                        &&& *final(source) == *final(self).subscription->0
                        &&& is_prepared(
                            r,
                            *old(self).config,
                            Some(answer),
                            request@,
                            streamed,
                            sign,
                        )
                    }
            },
            !old(self).asks() ==> {
                &&& *final(self) == *old(self)
                &&& is_prepared(r, *old(self).config, None, request@, streamed, sign)
            },
    {
        let body = request.encode(streamed);
        let signing = sign(&body);
        match self.route() {
            Ok((url, credential)) => {
                let http = build_request(url, body, streamed, &signing, credential);
                assert(call_ensures(sign, (&http.body,), signing));
                assert(is_request(http, url@, request@, streamed, sign, credential));
                Ok(http)
            },
            Err(error) => Err(error),
        }
    }

    /// The request that asks for a completion. [`completed`] reads its reply.
    ///
    /// `sign` makes the headers that sign a body.
    pub fn complete<F: Fn(&Vec<u8>) -> SigningHeaders>(
        &mut self,
        request: &ChatRequest,
        sign: F,
    ) -> (r: Result<HttpRequest, ChatError>)
        requires
            forall|body: &Vec<u8>| #[trigger] call_requires(sign, (body,)),
        ensures
            final(self).config == old(self).config,
            old(self).asks() ==> {
                &&& final(self).subscription is Some
                &&& *final(final(self).subscription->0) == *final(old(self).subscription->0)
                &&& exists|source: &mut S, answer: Result<SubscriptionCredential, String>|
                    {
                        &&& #[trigger] call_ensures(S::next_credential, (source,), answer)
                        &&& *source == *old(self).subscription->0
                        &&& *final(source) == *final(self).subscription->0
                        &&& is_prepared(
                            r,
                            *old(self).config,
                            Some(answer),
                            request@,
                            false,
                            sign,
                        )
                    }
            },
            !old(self).asks() ==> {
                &&& *final(self) == *old(self)
                &&& is_prepared(r, *old(self).config, None, request@, false, sign)
            },
    {
        self.prepare(request, false, sign)
    }

    /// The request that asks for a completion to be streamed. [`streamed`] reads its reply.
    ///
    /// `sign` makes the headers that sign a body.
    pub fn complete_streaming<F: Fn(&Vec<u8>) -> SigningHeaders>(
        &mut self,
        request: &ChatRequest,
        sign: F,
    ) -> (r: Result<HttpRequest, ChatError>)
        requires
            forall|body: &Vec<u8>| #[trigger] call_requires(sign, (body,)),
        ensures
            final(self).config == old(self).config,
            old(self).asks() ==> {
                &&& final(self).subscription is Some
                &&& *final(final(self).subscription->0) == *final(old(self).subscription->0)
                &&& exists|source: &mut S, answer: Result<SubscriptionCredential, String>|
                    {
                        &&& #[trigger] call_ensures(S::next_credential, (source,), answer)
                        &&& *source == *old(self).subscription->0
                        &&& *final(source) == *final(self).subscription->0
                        &&& is_prepared(
                            r,
                            *old(self).config,
                            Some(answer),
                            request@,
                            true,
                            sign,
                        )
                    }
            },
            !old(self).asks() ==> {
                &&& *final(self) == *old(self)
                &&& is_prepared(r, *old(self).config, None, request@, true, sign)
            },
    {
        self.prepare(request, true, sign)
    }
}

/// A prepared request that carries a cookie goes to the premium host, and nowhere else.
pub proof fn law_a_credential_goes_to_the_premium_host_only<F: Fn(&Vec<u8>) -> SigningHeaders>(
    http: HttpRequest,
    config: Config,
    answer: Option<Result<SubscriptionCredential, String>>,
    request: RequestView,
    streamed: bool,
    sign: F,
)
    requires
        is_prepared(Ok(http), config, answer, request, streamed, sign),
        has_header(header_views(http.headers@), "cookie"@),
    ensures
        config.premium_endpoint matches Some(premium) && http.url@ == completions_at(premium@),
        answer matches Some(Ok(_)),
{
    let credential = routed(config, answer)->Ok_0.1;
    let signing = choose|signing: SigningHeaders|
        {
            &&& #[trigger] call_ensures(sign, (&http.body,), signing)
            &&& header_views(http.headers@) == request_headers(streamed, signing, credential)
        };
    law_only_a_credential_is_a_cookie(streamed, signing, credential);
}

/// Every prepared request is a post to the path of chat completions, at an endpoint that the
/// configuration names.
pub proof fn law_every_request_is_a_post<F: Fn(&Vec<u8>) -> SigningHeaders>(
    http: HttpRequest,
    config: Config,
    answer: Option<Result<SubscriptionCredential, String>>,
    request: RequestView,
    streamed: bool,
    sign: F,
)
    requires
        is_prepared(Ok(http), config, answer, request, streamed, sign),
    ensures
        http.method@ == "POST"@,
        http.url@ == config.endpoint@ + "/v1/chat/completions"@ || (
        config.premium_endpoint matches Some(premium) && http.url@ == premium@
            + "/v1/chat/completions"@),
{
}

/// Where the subscription was asked, nothing is sent to the free tier: the request presents the
/// credential to the premium host, or, where there is none, fails with the subscription's reason.
pub proof fn law_no_silent_downgrade<F: Fn(&Vec<u8>) -> SigningHeaders>(
    r: Result<HttpRequest, ChatError>,
    config: Config,
    answer: Result<SubscriptionCredential, String>,
    request: RequestView,
    streamed: bool,
    sign: F,
)
    requires
        config.premium_endpoint is Some,
        is_prepared(r, config, Some(answer), request, streamed, sign),
    ensures
        match answer {
            Ok(credential) => {
                &&& r matches Ok(http)
                &&& http.url@ == completions_at(config.premium_endpoint->0@)
                &&& header_views(http.headers@).last() == ("cookie"@, credential.cookie())
            },
            Err(detail) => r matches Err(error) && error@ == ChatErrorView::Subscription(detail@),
        },
{
}

/// The model that is reported where the server reported none.
pub open spec fn model_or_unreported(model: Option<Seq<char>>) -> Seq<char> {
    match model {
        Some(name) => name,
        None => "unreported"@,
    }
}

/// What a reply comes to. One that requests tools carries no text of its own, which is not an
/// error; one with neither is.
pub open spec fn completion_of(response: ResponseView, label: Label) -> Result<
    CompletionView,
    ChatErrorView,
> {
    if response.content is None && response.calls.len() == 0 {
        Err(ChatErrorView::NoContent)
    } else {
        Ok(
            CompletionView {
                content: match response.content {
                    Some(text) => text,
                    None => Seq::empty(),
                },
                label,
                model: model_or_unreported(response.model),
                calls: response.calls,
                usage: response.usage,
            },
        )
    }
}

/// What a reply of `length` bytes comes to, for what it was read as.
pub open spec fn completion_of_read(
    read: Result<ResponseView, Seq<char>>,
    length: nat,
    label: Label,
) -> Result<CompletionView, ChatErrorView> {
    match read {
        Ok(response) => completion_of(response, label),
        Err(message) => Err(
            ChatErrorView::Decode(message + " (received "@ + decimal(length) + " bytes)"@),
        ),
    }
}

fn name_model(model: Option<String>) -> (r: String)
    ensures
        r@ == model_or_unreported(text_view(model)),
{
    match model {
        Some(name) => name,
        None => "unreported".to_string(),
    }
}

/// The completion that a reply is, under the label it arrived with.
pub fn complete_response(response: ChatResponse, label: Label) -> (r: Result<
    Completion,
    ChatError,
>)
    ensures
        completion_result(r) == completion_of(response@, label),
{
    let content = match response.content {
        Some(text) => text,
        None => if response.calls.len() > 0 {
            String::new()
        } else {
            return Err(ChatError::NoContent);
        },
    };
    Ok(
        Completion {
            content: Labelled::new(content, label),
            model: name_model(response.model),
            calls: response.calls,
            usage: response.usage,
        },
    )
}

/// The completion that a reply of `length` bytes is, for what it was read as.
pub fn complete_read(read: Result<ChatResponse, String>, length: usize, label: Label) -> (r: Result<
    Completion,
    ChatError,
>)
    ensures
        completion_result(r) == completion_of_read(read_result(read), length as nat, label),
{
    match read {
        Ok(response) => complete_response(response, label),
        Err(message) => {
            let mut detail = message.concat(" (received ");
            append_decimal(&mut detail, length as u64);
            Err(ChatError::Decode { detail: detail.concat(" bytes)") })
        },
    }
}

/// The completion that sending a request came to.
///
/// Decoding the transport envelope needs the raw bytes, so the label is taken off and goes back on
/// the extracted text. The reply therefore stays untrusted; only the envelope is treated as
/// protocol.
///
/// `describe` tells what is wrong with a reply that is JSON of another shape.
pub fn completed<D: Fn(&Vec<u8>) -> String>(
    outcome: Result<Labelled<Vec<u8>>, EgressError>,
    describe: D,
) -> (r: Result<Completion, ChatError>)
    requires
        forall|b: &Vec<u8>| #[trigger] call_requires(describe, (b,)),
    ensures
        match outcome {
            Ok(body) => exists|read: Result<ResponseView, Seq<char>>|
                {
                    &&& #[trigger] is_read(body.spec_value(), describe, read)
                    &&& completion_result(r) == completion_of_read(
                        read,
                        body.spec_value()@.len(),
                        body.spec_label(),
                    )
                },
            Err(error) => r == Err::<Completion, ChatError>(ChatError::Egress(error)),
        },
{
    let (bytes, label) = match outcome {
        Ok(body) => body.into_parts_for_decoding(),
        Err(error) => {
            return Err(ChatError::from(error));
        },
    };
    let read = parse_response(&bytes, describe);
    assert(is_read(bytes, describe, read_result(read)));
    complete_read(read, bytes.len(), label)
}

/// How far a streamed reply has got.
///
/// Carries no reply text by design. The point is to report progress without the driver ever
/// holding untrusted model output.
#[derive(Debug, Clone, Copy, PartialEq, Eq, Structural)]
pub struct Progress {
    /// Output tokens so far: the server's own figure once it has given one, and until then a count
    /// of the pieces that carried text.
    pub output_tokens: u64,
    /// Whether that figure is the server's rather than an estimate.
    pub counted_by_server: bool,
}

/// The reply once one more payload has arrived. The one that ends the stream adds nothing, and
/// neither does one that is not a piece of a reply: servers send keepalives, and one unreadable
/// frame should not discard a reply that is otherwise arriving fine.
pub open spec fn after_payload(reply: AccumulatedView, payload: Seq<u8>) -> AccumulatedView {
    if payload == encode_utf8(STREAM_DONE@) {
        reply
    } else {
        match chunk_read(payload) {
            Some(chunk) => reply.with_chunk(chunk),
            None => reply,
        }
    }
}

/// The reply once some more payloads have arrived, in order.
pub open spec fn after_payloads(reply: AccumulatedView, payloads: Seq<Seq<u8>>) -> AccumulatedView
    decreases payloads.len(),
{
    if payloads.len() == 0 {
        reply
    } else {
        after_payload(after_payloads(reply, payloads.drop_last()), payloads.last())
    }
}

/// A [`StreamedReply`] as a mathematical value.
#[verifier::ext_equal]
pub struct StreamView {
    pub events: SseView,
    pub reply: AccumulatedView,
    pub label: Label,
}

impl StreamView {
    /// The stream once some more bytes have arrived.
    pub open spec fn after(self, bytes: Seq<u8>) -> StreamView {
        let events = sse_after(self.events, bytes);
        StreamView {
            events: events.0,
            reply: after_payloads(self.reply, events.1),
            label: self.label,
        }
    }

    /// What the stream comes to if it ends here. A stream that carried neither text nor a tool
    /// call is an error rather than an empty reply.
    pub open spec fn completion(self) -> Result<CompletionView, ChatErrorView> {
        if self.reply.content.len() == 0 && self.reply.tool_calls().len() == 0 {
            Err(ChatErrorView::NoContent)
        } else {
            Ok(
                CompletionView {
                    content: self.reply.content,
                    label: self.label,
                    model: model_or_unreported(self.reply.model),
                    calls: self.reply.tool_calls(),
                    usage: match self.reply.usage {
                        Some(usage) => usage,
                        None => no_usage(),
                    },
                },
            )
        }
    }
}

proof fn lemma_payloads_in_two_parts(
    reply: AccumulatedView,
    first: Seq<Seq<u8>>,
    second: Seq<Seq<u8>>,
)
    ensures
        after_payloads(reply, first + second) == after_payloads(
            after_payloads(reply, first),
            second,
        ),
    decreases second.len(),
{
    if second.len() == 0 {
        assert(first + second =~= first);
    } else {
        lemma_payloads_in_two_parts(reply, first, second.drop_last());
        assert((first + second).drop_last() =~= first + second.drop_last());
    }
}

/// A streamed reply is the same however its bytes are split between reads.
pub proof fn law_a_reply_does_not_depend_on_the_reads(
    stream: StreamView,
    first: Seq<u8>,
    second: Seq<u8>,
)
    ensures
        stream.after(first + second) == stream.after(first).after(second),
{
    law_reads_may_split_anywhere(stream.events, first, second);
    let a = sse_after(stream.events, first);
    let b = sse_after(a.0, second);
    lemma_payloads_in_two_parts(stream.reply, a.1, b.1);
}

/// A reply that arrives whole or in pieces comes under the label it arrived with, whatever it says.
pub proof fn law_a_reply_keeps_its_label(
    stream: StreamView,
    bytes: Seq<u8>,
    read: Result<ResponseView, Seq<char>>,
    length: nat,
    label: Label,
)
    ensures
        stream.after(bytes).completion() matches Ok(completion) ==> completion.label
            == stream.label,
        completion_of_read(read, length, label) matches Ok(completion) ==> completion.label
            == label,
{
}

/// A payload that is not a piece of a reply loses nothing of it, wherever it arrives.
pub proof fn law_unparseable_payloads_lose_nothing(
    reply: AccumulatedView,
    before: Seq<Seq<u8>>,
    noise: Seq<u8>,
    after: Seq<Seq<u8>>,
)
    requires
        chunk_read(noise) is None,
    ensures
        after_payloads(reply, before.push(noise) + after) == after_payloads(reply, before + after),
{
    lemma_payloads_in_two_parts(reply, before.push(noise), after);
    lemma_payloads_in_two_parts(reply, before, after);
    assert(before.push(noise).drop_last() =~= before);
}

/// The pieces of a reply that some payloads carry, in order.
pub open spec fn pieces_in(payloads: Seq<Seq<u8>>) -> Seq<ChunkView>
    decreases payloads.len(),
{
    if payloads.len() == 0 {
        Seq::empty()
    } else {
        let before = pieces_in(payloads.drop_last());
        if payloads.last() == encode_utf8(STREAM_DONE@) {
            before
        } else {
            match chunk_read(payloads.last()) {
                Some(chunk) => before.push(chunk),
                None => before,
            }
        }
    }
}

proof fn lemma_only_pieces_count(reply: AccumulatedView, payloads: Seq<Seq<u8>>)
    ensures
        after_payloads(reply, payloads) == with_chunks(reply, pieces_in(payloads)),
    decreases payloads.len(),
{
    if payloads.len() > 0 {
        lemma_only_pieces_count(reply, payloads.drop_last());
        let before = pieces_in(payloads.drop_last());
        if let Some(chunk) = chunk_read(payloads.last()) {
            assert(before.push(chunk).drop_last() =~= before);
        }
    }
}

/// Whether some pieces say, together, what a whole reply says.
pub open spec fn say_together(chunks: Seq<ChunkView>, response: ResponseView) -> bool {
    &&& text_of(chunks) == (match response.content {
        Some(text) => text,
        None => Seq::empty(),
    })
    &&& first_model(chunks) == response.model
    &&& with_fragments(Seq::empty(), fragments_in(chunks)).map_values(|p: PendingView| p.call)
        == response.calls
    &&& (match last_usage(chunks) {
        Some(usage) => usage,
        None => no_usage(),
    }) == response.usage
}

/// A streamed reply comes to the completion that a whole one saying the same does: the frames may
/// carry the pieces of it among whatever else servers send. The one difference is a whole reply
/// with an empty text and no calls, which is a completion, while a stream that carried nothing is
/// not.
pub proof fn law_a_streamed_reply_is_the_whole_one(
    payloads: Seq<Seq<u8>>,
    response: ResponseView,
    label: Label,
)
    requires
        forall|i: int| 0 <= i < payloads.len() ==> fits_a_line(#[trigger] payloads[i]),
        say_together(pieces_in(payloads), response),
        response.content matches Some(text) && text.len() == 0 ==> response.calls.len() > 0,
    ensures
        stream_start(label).after(frames(payloads)).completion() == completion_of(response, label),
{
    let chunks = pieces_in(payloads);
    let reply = with_chunks(nothing_accumulated(), chunks);
    law_frames_are_read_as_their_payloads(payloads);
    lemma_only_pieces_count(nothing_accumulated(), payloads);
    law_a_reply_is_what_its_pieces_say(chunks);
    assert(stream_start(label).after(frames(payloads)).reply == reply);
    assert(reply.tool_calls() == response.calls);
}

/// Whether two runs of bytes are the same.
fn same_bytes(a: &[u8], b: &[u8]) -> (r: bool)
    ensures
        r == (a@ == b@),
{
    if a.len() != b.len() {
        return false;
    }
    let mut i: usize = 0;
    while i < a.len()
        invariant
            i <= a.len(),
            a.len() == b.len(),
            forall|j: int| 0 <= j < i ==> a@[j] == b@[j],
        decreases a.len() - i,
    {
        if a[i] != b[i] {
            return false;
        }
        i = i + 1;
    }
    assert(a@ =~= b@);
    true
}

/// A reply that is being streamed.
pub struct StreamedReply {
    decoder: SseDecoder,
    accumulated: StreamAccumulator,
    label: Label,
}

impl View for StreamedReply {
    type V = StreamView;

    closed spec fn view(&self) -> StreamView {
        StreamView { events: self.decoder@, reply: self.accumulated@, label: self.label }
    }
}

/// The start of a streamed reply under this label.
pub open spec fn stream_start(label: Label) -> StreamView {
    StreamView { events: sse_start(), reply: nothing_accumulated(), label }
}

/// The streamed reply that sending a request came to, under the label it arrives with.
pub fn streamed(outcome: Result<Label, EgressError>) -> (r: Result<StreamedReply, ChatError>)
    ensures
        match outcome {
            Ok(label) => r matches Ok(reply) && reply@ == stream_start(label),
            Err(error) => r matches Err(e) && e == ChatError::Egress(error),
        },
{
    match outcome {
        Ok(label) => Ok(
            StreamedReply {
                decoder: SseDecoder::new(),
                accumulated: StreamAccumulator::new(),
                label,
            },
        ),
        Err(error) => Err(ChatError::from(error)),
    }
}

impl StreamedReply {
    /// Take in one more piece of the stream.
    ///
    /// What comes back is deliberately narrow: how much the model has written, and nothing of what
    /// it wrote.
    pub fn receive(&mut self, piece: Labelled<Vec<u8>>) -> (r: Progress)
        ensures
            final(self)@ == old(self)@.after(piece.spec_value()@),
            r.output_tokens == final(self)@.reply.output_tokens(),
            r.counted_by_server == (final(self)@.reply.usage is Some),
    {
        let (bytes, _) = piece.into_parts_for_decoding();
        let payloads = self.decoder.push(bytes.as_slice());
        let ghost all = payload_views(payloads@);
        let done = STREAM_DONE.as_bytes();
        let mut i: usize = 0;
        assert(all.take(0) =~= Seq::empty());
        while i < payloads.len()
            invariant
                i <= payloads.len(),
                all == payload_views(payloads@),
                done@ == encode_utf8(STREAM_DONE@),
                self.decoder@ == sse_after(old(self)@.events, bytes@).0,
                self.label == old(self)@.label,
                self.accumulated@ == after_payloads(old(self)@.reply, all.take(i as int)),
            decreases payloads.len() - i,
        {
            assert(all.take(i + 1).drop_last() =~= all.take(i as int));
            assert(all.take(i + 1).last() == payloads@[i as int]@);
            let payload = payloads[i].as_slice();
            if !same_bytes(payload, done) {
                match parse_chunk(payload) {
                    Some(chunk) => {
                        self.accumulated.push(chunk);
                    },
                    None => {},
                }
            }
            i = i + 1;
        }
        assert(all.take(i as int) =~= all);
        Progress {
            output_tokens: self.accumulated.output_tokens(),
            counted_by_server: self.accumulated.usage_is_reported(),
        }
    }

    /// The completion that the stream came to.
    pub fn finish(self) -> (r: Result<Completion, ChatError>)
        ensures
            completion_result(r) == self@.completion(),
    {
        let (content, model, calls, usage) = self.accumulated.finish();
        assert(call_views(calls@).len() == calls@.len());
        if content.as_str().is_empty() && calls.len() == 0 {
            return Err(ChatError::NoContent);
        }
        Ok(
            Completion {
                content: Labelled::new(content, self.label),
                model: name_model(model),
                calls,
                usage,
            },
        )
    }
}

/// A stream of events that carry texts comes to those texts one after the other, whatever they hold:
/// as long as there is any text, that is the reply.
pub proof fn law_streamed_texts_are_the_reply(
    texts: Seq<Seq<char>>,
    payloads: Seq<Seq<u8>>,
    label: Label,
)
    requires
        payloads.len() == texts.len(),
        forall|i: int|
            #![trigger payloads[i]]
            0 <= i < payloads.len() ==> {
                &&& fits_a_line(payloads[i])
                &&& payloads[i] != encode_utf8("[DONE]"@)
                &&& json_read_bytes(payloads[i]) == Ok::<Json, Seq<char>>(text_event(texts[i]))
            },
    ensures
        ({
            let stream = stream_start(label).after(frames(payloads));
            &&& stream.reply.content == texts.flatten()
            &&& texts.flatten().len() > 0 ==> (stream.completion() matches Ok(completion)
                && completion.content == texts.flatten() && completion.calls.len() == 0
                && completion.label == label)
            &&& texts.flatten().len() == 0 ==> stream.completion() == Err::<
                CompletionView,
                ChatErrorView,
            >(ChatErrorView::NoContent)
        }),
{
    law_frames_are_read_as_their_payloads(payloads);
    lemma_only_pieces_count(nothing_accumulated(), payloads);
    let chunks = pieces_in(payloads);
    lemma_text_events_are_pieces(texts, payloads);
    law_texts_follow_one_another(texts, chunks);
    law_a_reply_is_what_its_pieces_say(chunks);
    assert(with_chunks(nothing_accumulated(), chunks).tool_calls() =~= Seq::empty());
}

proof fn lemma_text_events_are_pieces(texts: Seq<Seq<char>>, payloads: Seq<Seq<u8>>)
    requires
        payloads.len() == texts.len(),
        forall|i: int|
            #![trigger payloads[i]]
            0 <= i < payloads.len() ==> {
                &&& payloads[i] != encode_utf8("[DONE]"@)
                &&& json_read_bytes(payloads[i]) == Ok::<Json, Seq<char>>(text_event(texts[i]))
            },
    ensures
        pieces_in(payloads).len() == texts.len(),
        forall|i: int|
            0 <= i < texts.len() ==> (#[trigger] pieces_in(payloads)[i]).content == Some(texts[i]),
        fragments_in(pieces_in(payloads)) == Seq::<FragmentView>::empty(),
    decreases payloads.len(),
{
    if payloads.len() > 0 {
        let rest = payloads.drop_last();
        let last = payloads.len() - 1;
        assert forall|i: int| #![trigger rest[i]] 0 <= i < rest.len() implies {
            &&& rest[i] != encode_utf8("[DONE]"@)
            &&& json_read_bytes(rest[i]) == Ok::<Json, Seq<char>>(text_event(texts.drop_last()[i]))
        } by {
            assert(rest[i] == payloads[i]);
        }
        lemma_text_events_are_pieces(texts.drop_last(), rest);
        assert(payloads[last] == payloads.last());
        law_a_text_event_is_its_text(texts[last]);
        let chunk = chunk_read(payloads.last())->0;
        assert(pieces_in(payloads) == pieces_in(rest).push(chunk));
        assert(pieces_in(payloads).drop_last() =~= pieces_in(rest));
        assert forall|i: int| 0 <= i < texts.len() implies (
        #[trigger] pieces_in(payloads)[i]).content == Some(texts[i]) by {
            if i < last {
                assert(pieces_in(payloads)[i] == pieces_in(rest)[i]);
            }
        }
        assert(fragments_in(pieces_in(payloads)) =~= Seq::<FragmentView>::empty());
    }
}

/// What a payload does to a reply: the one that ends the stream and one that is no piece of a reply
/// do nothing, and a piece adds what it says.
pub proof fn law_a_payload_adds_its_piece(reply: AccumulatedView, payload: Seq<u8>, document: Json)
    ensures
        after_payload(reply, encode_utf8("[DONE]"@)) == reply,
        json_read_bytes(payload) is Err ==> after_payload(reply, payload) == reply,
        payload != encode_utf8("[DONE]"@) && json_read_bytes(payload) == Ok::<Json, Seq<char>>(
            document,
        ) ==> {
            &&& chunk_of(document) is None ==> after_payload(reply, payload) == reply
            &&& chunk_of(document) matches Some(chunk) ==> after_payload(reply, payload)
                == reply.with_chunk(chunk)
        },
{
}

/// The payloads of a stream do to the reply what each of them does, one after the other, and the
/// frames of a stream are its payloads.
pub proof fn law_payloads_are_taken_one_by_one(
    reply: AccumulatedView,
    payloads: Seq<Seq<u8>>,
    more: Seq<u8>,
    label: Label,
)
    ensures
        after_payloads(reply, Seq::<Seq<u8>>::empty()) == reply,
        after_payloads(reply, payloads.push(more)) == after_payload(
            after_payloads(reply, payloads),
            more,
        ),
        (forall|i: int| 0 <= i < payloads.len() ==> fits_a_line(#[trigger] payloads[i]))
            ==> stream_start(label).after(frames(payloads)).reply == after_payloads(
            nothing_accumulated(),
            payloads,
        ),
{
    assert(payloads.push(more).drop_last() =~= payloads);
    if forall|i: int| 0 <= i < payloads.len() ==> fits_a_line(#[trigger] payloads[i]) {
        law_frames_are_read_as_their_payloads(payloads);
    }
}

/// A reply is a completion exactly where it says something or calls a tool, and then all of it is:
/// its text, its model, every call in order, and its cost.
pub proof fn law_a_completion_is_the_whole_reply(response: ResponseView, label: Label)
    ensures
        completion_of(response, label) is Ok <==> (response.content is Some || response.calls.len()
            > 0),
        completion_of(response, label) matches Err(error) ==> error is NoContent,
        completion_of(response, label) matches Ok(completion) ==> {
            &&& response.content matches Some(text) ==> completion.content == text
            &&& response.content is None ==> completion.content.len() == 0
            &&& completion.calls == response.calls
            &&& completion.usage == response.usage
            &&& completion.label == label
            &&& response.model matches Some(model) ==> completion.model == model
            &&& response.model is None ==> completion.model == "unreported"@
        },
{
}

/// The same of a stream, by the text and the calls that arrived.
pub proof fn law_a_completion_is_the_whole_stream(stream: StreamView)
    ensures
        stream.completion() is Ok <==> (stream.reply.content.len() > 0
            || stream.reply.calls.len() > 0),
        stream.completion() matches Err(error) ==> error is NoContent,
        stream.completion() matches Ok(completion) ==> {
            &&& completion.content == stream.reply.content
            &&& completion.calls.len() == stream.reply.calls.len()
            &&& forall|i: int|
                0 <= i < stream.reply.calls.len() ==> completion.calls[i] == (
                #[trigger] stream.reply.calls[i]).call
            &&& stream.reply.usage matches Some(usage) ==> completion.usage == usage
            &&& stream.reply.usage is None ==> completion.usage.prompt_tokens == 0
                && completion.usage.completion_tokens == 0
            &&& completion.label == stream.label
            &&& stream.reply.model matches Some(model) ==> completion.model == model
            &&& stream.reply.model is None ==> completion.model == "unreported"@
        },
        stream_start(stream.label).label == stream.label,
        stream_start(stream.label).reply == nothing_accumulated(),
        stream_start(stream.label).events == sse_start(),
{
    assert(stream.reply.tool_calls().len() == stream.reply.calls.len());
}

/// A reply that was read is the completion it comes to, and one that was not is refused with what is
/// wrong with it and how much arrived.
pub proof fn law_an_unreadable_reply_says_how_much_arrived(
    response: ResponseView,
    message: Seq<char>,
    length: nat,
    label: Label,
)
    ensures
        completion_of_read(Ok(response), length, label) == completion_of(response, label),
        completion_of_read(Err(message), length, label) == Err::<CompletionView, ChatErrorView>(
            ChatErrorView::Decode(message + " (received "@ + decimal(length) + " bytes)"@),
        ),
{
}

/// The bytes of a reply are read as what their document says, if it is a reply; what is said to be
/// wrong otherwise is what the reader of JSON says, or what is said of the shape.
pub proof fn law_a_reply_is_read_as_its_document<D: Fn(&Vec<u8>) -> String>(
    bytes: Vec<u8>,
    describe: D,
    read: Result<ResponseView, Seq<char>>,
)
    requires
        is_read(bytes, describe, read),
    ensures
        json_read_bytes(bytes@) matches Err(message) ==> read == Err::<ResponseView, Seq<char>>(
            message,
        ),
        json_read_bytes(bytes@) matches Ok(document) ==> {
            &&& response_of(document) matches Some(response) ==> read == Ok::<
                ResponseView,
                Seq<char>,
            >(response)
            &&& response_of(document) is None ==> (read matches Err(words)
                && exists|said: String| #[trigger]
                call_ensures(describe, (&bytes,), said) && said@ == words)
        },
{
}

/// The headers of a request, one by one: nothing else is among them.
pub proof fn law_every_header(
    streamed: bool,
    signing: SigningHeaders,
    credential: SubscriptionCredential,
)
    ensures
        ({
            let plain = request_headers(false, signing, None);
            &&& plain.len() == 3
            &&& plain[0] == ("content-type"@, "application/json"@)
            &&& plain[1] == ("digest"@, signing.digest@)
            &&& plain[2] == ("authorization"@, signing.authorization@)
        }),
        ({
            let live = request_headers(true, signing, None);
            &&& live.len() == 4
            &&& live[0] == ("content-type"@, "application/json"@)
            &&& live[1] == ("accept"@, "text/event-stream"@)
            &&& live[2] == ("digest"@, signing.digest@)
            &&& live[3] == ("authorization"@, signing.authorization@)
        }),
        request_headers(streamed, signing, Some(credential)) == request_headers(
            streamed,
            signing,
            None,
        ).push(("cookie"@, credential.cookie_name@ + "="@ + credential.cookie_value@)),
{
}

/// Where a request goes: to the premium host with the credential that was given, to the free host
/// where no subscription was asked or no premium host is known, and nowhere where the subscription
/// failed.
pub proof fn law_where_a_request_goes(
    config: Config,
    answer: Option<Result<SubscriptionCredential, String>>,
    credential: SubscriptionCredential,
    detail: String,
)
    ensures
        routed(config, None) == Ok::<_, ChatErrorView>(
            (config.endpoint@ + "/v1/chat/completions"@, None::<SubscriptionCredential>),
        ),
        config.premium_endpoint is None ==> routed(config, answer) == Ok::<_, ChatErrorView>(
            (config.endpoint@ + "/v1/chat/completions"@, None::<SubscriptionCredential>),
        ),
        config.premium_endpoint matches Some(premium) ==> {
            &&& routed(config, Some(Ok(credential))) == Ok::<_, ChatErrorView>(
                (premium@ + "/v1/chat/completions"@, Some(credential)),
            )
            &&& routed(config, Some(Err(detail))) == Err::<
                (Seq<char>, Option<SubscriptionCredential>),
                _,
            >(ChatErrorView::Subscription(detail@))
        },
{
}

/// A prepared request is the request that was asked for: its whole body, under a signature of that
/// body, with the headers of the route, and its reply comes untrusted and public.
pub proof fn law_what_is_sent_is_what_was_asked<F: Fn(&Vec<u8>) -> SigningHeaders>(
    http: HttpRequest,
    config: Config,
    answer: Option<Result<SubscriptionCredential, String>>,
    request: RequestView,
    streamed: bool,
    sign: F,
)
    requires
        is_prepared(Ok(http), config, answer, request, streamed, sign),
    ensures
        http.body@ == request_bytes(request, streamed),
        !http.reply_label.trusted,
        http.reply_label.public,
        routed(config, answer) matches Ok(route) && http.url@ == route.0 && exists|
            signing: SigningHeaders,
        |
            {
                &&& #[trigger] call_ensures(sign, (&http.body,), signing)
                &&& header_views(http.headers@) == request_headers(streamed, signing, route.1)
            },
{
}

/// A request that could not be routed is not made.
pub proof fn law_a_request_that_cannot_be_routed_is_not_made<F: Fn(&Vec<u8>) -> SigningHeaders>(
    r: Result<HttpRequest, ChatError>,
    config: Config,
    answer: Option<Result<SubscriptionCredential, String>>,
    request: RequestView,
    streamed: bool,
    sign: F,
)
    requires
        is_prepared(r, config, answer, request, streamed, sign),
    ensures
        routed(config, answer) is Ok <==> r is Ok,
        routed(config, answer) matches Err(error) ==> (r matches Err(e) && e@ == error),
{
}

/// What each error says: its own reason whole, and what it is about.
pub proof fn law_what_a_chat_error_says(detail: Seq<char>)
    ensures
        ChatErrorView::Encode(detail).message() == "could not encode the request: "@ + detail,
        ChatErrorView::Decode(detail).message() == "unexpected response: "@ + detail,
        ChatErrorView::Egress(detail).message() == detail,
        ChatErrorView::NoContent.message() == "the response contained no message content"@,
        ChatErrorView::Subscription(detail).message()
            == "the Leo subscription could not be used: "@ + detail
            + ". Run `bua import-leo-creds` to refresh it, or unset the premium endpoint to use the free tier"@,
{
}

/// Looking at a completion, an error or some headers leaves nothing of them out and changes nothing.
pub proof fn law_results_are_seen_whole(
    completion: Completion,
    error: ChatError,
    headers: Seq<(String, String)>,
    detail: String,
    egress: EgressError,
    credential: SubscriptionCredential,
)
    ensures
        completion@.content == completion.content.spec_value()@,
        completion@.label == completion.content.spec_label(),
        completion@.model == completion.model@,
        completion@.calls == call_views(completion.calls@),
        completion@.usage == completion.usage,
        completion_result(Ok(completion)) == Ok::<CompletionView, ChatErrorView>(completion@),
        completion_result(Err(error)) == Err::<CompletionView, ChatErrorView>(error@),
        ChatError::Encode(detail)@ == ChatErrorView::Encode(detail@),
        (ChatError::Decode { detail })@ == ChatErrorView::Decode(detail@),
        ChatError::Egress(egress)@ == ChatErrorView::Egress(egress.detail@),
        ChatError::NoContent@ == ChatErrorView::NoContent,
        ChatError::Subscription(detail)@ == ChatErrorView::Subscription(detail@),
        route_result(Ok((detail, None))) == Ok::<_, ChatErrorView>(
            (detail@, None::<SubscriptionCredential>),
        ),
        route_result(Ok((detail, Some(credential)))) == Ok::<_, ChatErrorView>(
            (detail@, Some(credential)),
        ),
        route_result(Err(error)) == Err::<(Seq<char>, Option<SubscriptionCredential>), _>(error@),
        header_views(headers).len() == headers.len(),
        forall|i: int|
            0 <= i < headers.len() ==> header_views(headers)[i] == (
                (#[trigger] headers[i]).0@,
                headers[i].1@,
            ),
{
}

/// A request asks the subscription exactly where there is one and the premium host is known.
pub proof fn law_when_a_subscription_is_asked<'a, S: Subscription>(client: AichatClient<'a, S>)
    ensures
        client.asks() <==> (client.subscription is Some && client.config.premium_endpoint is Some),
{
}

} // verus!
