//! AI features: cloud LLM streaming for article summaries and questions. Provider-agnostic
//! (Anthropic / OpenAI-compatible).

use crate::error::{AppError, AppErrorView, AppResult};
use crate::json::{
    at, field, item, json_document, law_fields_are_found_by_name, law_missing_fields_are_null, lookup,
    parse_json, text_in, Json, JsonView,
};
use crate::text::{
    decimal, decimal_int, decimal_value, is_white_space, law_decimals_are_read_back, law_trimming,
    lemma_trimmed_fixed, lemma_trimmed_idempotent, lemma_without_end, lemma_without_end_bounds,
    option_text, same_text, starts_with, trim, trim_end_of, trimmed, without_end, Class,
};
use vstd::prelude::*;

verus! {

/// Per-request cap for AI streaming, in seconds. The shared HTTP client carries the feed-fetch
/// timeout, which would truncate a long generation.
pub const AI_REQUEST_TIMEOUT_SECS: u64 = 300;

/// Default output token cap, so that a response stays bounded in length and cost.
pub const MAX_TOKENS: u32 = 1024;

/// Output token cap for a full-article translation, which is about as long as its source.
pub const TRANSLATE_MAX_TOKENS: u32 = 8192;

/// Hard cap on the buffer of unfinished lines. A provider delimits every event with a newline; an
/// endpoint that streams bytes with no newline at all must not grow the buffer without bound.
pub const MAX_SSE_BUFFER: usize = 8 * 1024 * 1024;

/// Token-level events streamed to the frontend.
#[derive(Debug, Clone)]
pub enum AiEvent {
    Delta(String),
    Done,
    Error(String),
}

/// The model of an [`AiEvent`].
pub enum AiEventView {
    Delta(Seq<char>),
    Done,
    Error(Seq<char>),
}

impl View for AiEvent {
    type V = AiEventView;

    open spec fn view(&self) -> AiEventView {
        match self {
            AiEvent::Delta(t) => AiEventView::Delta(t@),
            AiEvent::Done => AiEventView::Done,
            AiEvent::Error(m) => AiEventView::Error(m@),
        }
    }
}

#[derive(Debug, Clone, Copy, PartialEq, Eq, Structural)]
pub enum Provider {
    Anthropic,
    OpenAi,
}

// ---------------------------------------------------------------- configuration

/// Resolved AI configuration. It carries a secret and is never printed.
pub struct AiConfig {
    pub provider: Provider,
    pub api_key: String,
    pub model: String,
    /// API root, without a trailing slash: the request path of the provider is appended to it.
    pub base_url: String,
}

/// The setting without white space around it; a blank setting counts as none.
pub open spec fn given(setting: Option<Seq<char>>) -> Option<Seq<char>> {
    match setting {
        Some(t) => if trimmed(t).len() > 0 {
            Some(trimmed(t))
        } else {
            None
        },
        None => None,
    }
}

/// The provider that a setting selects.
pub open spec fn provider_named(setting: Option<Seq<char>>) -> Provider {
    if setting == Some("openai"@) {
        Provider::OpenAi
    } else {
        Provider::Anthropic
    }
}

/// The model used when none is set. `anthropic_model` is the one that the program ships for
/// Anthropic.
pub open spec fn default_model(p: Provider, anthropic_model: Seq<char>) -> Seq<char> {
    match p {
        Provider::Anthropic => anthropic_model,
        Provider::OpenAi => "gpt-4.1-mini"@,
    }
}

/// A model name that can stand in a request: it is not empty and carries no stray white space.
pub open spec fn is_model_name(name: Seq<char>) -> bool {
    name.len() > 0 && trimmed(name) == name
}

pub open spec fn default_root(p: Provider) -> Seq<char> {
    match p {
        Provider::Anthropic => "https://api.anthropic.com/v1"@,
        Provider::OpenAi => "https://api.openai.com/v1"@,
    }
}

/// The model to ask for.
pub open spec fn chosen_model(
    p: Provider,
    setting: Option<Seq<char>>,
    anthropic_model: Seq<char>,
) -> Seq<char> {
    match given(setting) {
        Some(m) => m,
        None => default_model(p, anthropic_model),
    }
}

/// The API root to send to.
pub open spec fn chosen_root(p: Provider, setting: Option<Seq<char>>) -> Seq<char> {
    match setting {
        Some(u) => if without_end(trimmed(u), Class::Only('/')).len() > 0 {
            without_end(trimmed(u), Class::Only('/'))
        } else {
            default_root(p)
        },
        None => default_root(p),
    }
}

proof fn lemma_given(setting: Option<Seq<char>>)
    ensures
        given(setting) matches Some(t) ==> t.len() > 0 && trimmed(t) == t,
{
    if let Some(t) = setting {
        lemma_trimmed_idempotent(t);
    }
}

/// Defaults and overrides alike are never empty, and the root never ends with a slash.
proof fn lemma_chosen(
    p: Provider,
    model: Option<Seq<char>>,
    root: Option<Seq<char>>,
    anthropic_model: Seq<char>,
)
    requires
        is_model_name(anthropic_model),
    ensures
        is_model_name(chosen_model(p, model, anthropic_model)),
        chosen_root(p, root).len() > 0,
        chosen_root(p, root).last() != '/',
{
    reveal_strlit("gpt-4.1-mini");
    reveal_strlit("https://api.anthropic.com/v1");
    reveal_strlit("https://api.openai.com/v1");
    lemma_given(model);
    lemma_trimmed_fixed("gpt-4.1-mini"@);
    if let Some(u) = root {
        let n = lemma_without_end_bounds(trimmed(u), Class::Only('/'));
    }
}

impl AiConfig {
    /// Every part is present, the key and the model carry no stray white space, and the root can
    /// take a path behind it.
    pub open spec fn valid(self) -> bool {
        &&& self.api_key@.len() > 0
        &&& trimmed(self.api_key@) == self.api_key@
        &&& is_model_name(self.model@)
        &&& self.base_url@.len() > 0
        &&& self.base_url@.last() != '/'
    }

    /// Builds a configuration from raw settings, applying per-provider defaults.
    ///
    /// The key lands in an auth header and the model name in the request body; a pasted value
    /// routinely carries a newline or a space from the clipboard, so both are trimmed here.
    /// `anthropic_model` is the model that the program ships for Anthropic.
    pub fn new(
        provider: Option<String>,
        api_key: Option<String>,
        model: Option<String>,
        base_url: Option<String>,
        anthropic_model: &str,
    ) -> (r: AppResult<AiConfig>)
        requires
            is_model_name(anthropic_model@),
        ensures
            match r {
                Ok(cfg) => {
                    let p = provider_named(option_text(provider));
                    &&& given(option_text(api_key)) == Some(cfg.api_key@)
                    &&& cfg.provider == p
                    &&& cfg.model@ == chosen_model(p, option_text(model), anthropic_model@)
                    &&& cfg.base_url@ == chosen_root(p, option_text(base_url))
                    &&& cfg.valid()
                },
                Err(e) => given(option_text(api_key)) is None && e@ == AppErrorView::Code(
                    "noAiKey"@,
                ),
            },
    {
        let ghost key_setting = option_text(api_key);
        let ghost model_setting = option_text(model);
        let ghost root_setting = option_text(base_url);
        let api_key = match api_key {
            Some(k) => trim(k.as_str()).to_string(),
            None => {
                return Err(AppError::code("noAiKey"));
            },
        };
        if api_key.as_str().is_empty() {
            return Err(AppError::code("noAiKey"));
        }
        let provider = match provider {
            Some(p) => if same_text(p.as_str(), "openai") {
                Provider::OpenAi
            } else {
                Provider::Anthropic
            },
            None => Provider::Anthropic,
        };
        let model = match model {
            Some(m) => {
                let t = trim(m.as_str());
                if t.is_empty() {
                    provider.default_model(anthropic_model).to_string()
                } else {
                    t.to_string()
                }
            },
            None => provider.default_model(anthropic_model).to_string(),
        };
        let base_url = match base_url {
            Some(u) => {
                let t = trim_end_of(trim(u.as_str()), Class::Only('/'));
                if t.is_empty() {
                    provider.default_base_url().to_string()
                } else {
                    t.to_string()
                }
            },
            None => provider.default_base_url().to_string(),
        };
        proof {
            lemma_given(key_setting);
            lemma_chosen(provider, model_setting, root_setting, anthropic_model@);
        }
        Ok(AiConfig { provider, api_key, model, base_url })
    }
}

impl Provider {
    /// The model used when none is set.
    pub fn default_model<'a>(self, anthropic_model: &'a str) -> (r: &'a str)
        ensures
            r@ == default_model(self, anthropic_model@),
    {
        match self {
            Provider::Anthropic => anthropic_model,
            Provider::OpenAi => "gpt-4.1-mini",
        }
    }

    /// The official API root, used when no custom one is set.
    pub fn default_base_url(self) -> (r: &'static str)
        ensures
            r@ == default_root(self),
    {
        match self {
            Provider::Anthropic => "https://api.anthropic.com/v1",
            Provider::OpenAi => "https://api.openai.com/v1",
        }
    }
}

// --------------------------------------------------------------------- requests

/// One HTTP request to a provider: a POST of `body` as JSON to `url`.
pub struct ChatRequest {
    pub url: String,
    pub headers: Vec<(String, String)>,
    /// The token of an `Authorization: Bearer` header.
    pub bearer: Option<String>,
    pub timeout_secs: u64,
    pub body: Json,
}

/// The headers of a request.
pub open spec fn header_texts(h: Seq<(String, String)>) -> Seq<(Seq<char>, Seq<char>)> {
    Seq::new(h.len(), |i: int| (h[i].0@, h[i].1@))
}

/// A chat message.
pub open spec fn message_body(role: Seq<char>, content: Seq<char>) -> JsonView {
    JsonView::Record(
        seq![("role"@, JsonView::Text(role)), ("content"@, JsonView::Text(content))],
    )
}

/// The Anthropic request body: the system prompt stands beside the messages.
pub open spec fn anthropic_body(
    model: Seq<char>,
    system: Seq<char>,
    user: Seq<char>,
    max_tokens: int,
) -> JsonView {
    JsonView::Record(
        seq![
            ("model"@, JsonView::Text(model)),
            ("max_tokens"@, JsonView::Number(decimal_int(max_tokens))),
            ("system"@, JsonView::Text(system)),
            ("stream"@, JsonView::Bool(true)),
            ("messages"@, JsonView::List(seq![message_body("user"@, user)])),
        ],
    )
}

/// The OpenAI request body: the system prompt is the first message.
pub open spec fn openai_body(
    model: Seq<char>,
    system: Seq<char>,
    user: Seq<char>,
    max_tokens: int,
) -> JsonView {
    JsonView::Record(
        seq![
            ("model"@, JsonView::Text(model)),
            ("max_tokens"@, JsonView::Number(decimal_int(max_tokens))),
            ("stream"@, JsonView::Bool(true)),
            (
                "messages"@,
                JsonView::List(seq![message_body("system"@, system), message_body("user"@, user)]),
            ),
        ],
    )
}

/// A record with these fields.
fn record(fields: Vec<(String, Json)>) -> (r: Json)
    ensures
        r@ == JsonView::Record(
            Seq::new(fields@.len(), |i: int| (fields@[i].0@, fields@[i].1@)),
        ),
{
    let ghost given = fields@;
    let r = Json::Record(fields);
    assert(r@->Record_0 =~= Seq::new(given.len(), |i: int| (given[i].0@, given[i].1@)));
    r
}

/// A list of these items.
fn list(items: Vec<Json>) -> (r: Json)
    ensures
        r@ == JsonView::List(Seq::new(items@.len(), |i: int| items@[i]@)),
{
    let ghost given = items@;
    let r = Json::List(items);
    assert(r@->List_0 =~= Seq::new(given.len(), |i: int| given[i]@));
    r
}

/// A text document.
fn text(t: &str) -> (r: Json)
    ensures
        r@ == JsonView::Text(t@),
{
    Json::Text(t.to_string())
}

fn message(role: &str, content: &str) -> (r: Json)
    ensures
        r@ == message_body(role@, content@),
{
    let fields = vec![("role".to_string(), text(role)), ("content".to_string(), text(content))];
    let ghost given = fields@;
    let r = record(fields);
    assert(r@->Record_0 =~= message_body(role@, content@)->Record_0) by {
        assert(given[0].0@ == "role"@);
        assert(given[1].0@ == "content"@);
    }
    r
}

/// Where the requests to a provider go.
pub open spec fn endpoint(p: Provider, root: Seq<char>) -> Seq<char> {
    match p {
        Provider::Anthropic => root + "/messages"@,
        Provider::OpenAi => root + "/chat/completions"@,
    }
}

/// The request to the Anthropic Messages API.
pub fn anthropic_request(cfg: &AiConfig, system: &str, user: &str, max_tokens: u32) -> (r:
    ChatRequest)
    ensures
        r.url@ == endpoint(Provider::Anthropic, cfg.base_url@),
        header_texts(r.headers@) == seq![
            ("x-api-key"@, cfg.api_key@),
            ("anthropic-version"@, "2023-06-01"@),
            ("content-type"@, "application/json"@),
        ],
        r.bearer is None,
        r.timeout_secs == AI_REQUEST_TIMEOUT_SECS,
        r.body@ == anthropic_body(cfg.model@, system@, user@, max_tokens as int),
{
    let mut url = cfg.base_url.clone();
    url.append("/messages");
    let headers = vec![
        ("x-api-key".to_string(), cfg.api_key.clone()),
        ("anthropic-version".to_string(), "2023-06-01".to_string()),
        ("content-type".to_string(), "application/json".to_string()),
    ];
    let messages = vec![message("user", user)];
    let ghost sent = messages@;
    let fields = vec![
        ("model".to_string(), text(cfg.model.as_str())),
        ("max_tokens".to_string(), Json::Number(decimal(max_tokens as i64))),
        ("system".to_string(), text(system)),
        ("stream".to_string(), Json::Bool(true)),
        ("messages".to_string(), list(messages)),
    ];
    let ghost given = fields@;
    let body = record(fields);
    proof {
        let want = anthropic_body(cfg.model@, system@, user@, max_tokens as int);
        assert(given[4].1@->List_0 =~= seq![message_body("user"@, user@)]) by {
            assert(sent[0]@ == message_body("user"@, user@));
        }
        assert(body@->Record_0 =~= want->Record_0) by {
            assert(given[0].1@ == want->Record_0[0].1);
            assert(given[1].1@ == want->Record_0[1].1);
            assert(given[3].1@ == want->Record_0[3].1);
        }
        assert(header_texts(headers@) =~= seq![
            ("x-api-key"@, cfg.api_key@),
            ("anthropic-version"@, "2023-06-01"@),
            ("content-type"@, "application/json"@),
        ]);
    }
    ChatRequest { url, headers, bearer: None, timeout_secs: AI_REQUEST_TIMEOUT_SECS, body }
}

/// The request to an OpenAI-compatible chat completions API.
pub fn openai_request(cfg: &AiConfig, system: &str, user: &str, max_tokens: u32) -> (r: ChatRequest)
    ensures
        r.url@ == endpoint(Provider::OpenAi, cfg.base_url@),
        r.headers@.len() == 0,
        option_text(r.bearer) == Some(cfg.api_key@),
        r.timeout_secs == AI_REQUEST_TIMEOUT_SECS,
        r.body@ == openai_body(cfg.model@, system@, user@, max_tokens as int),
{
    let mut url = cfg.base_url.clone();
    url.append("/chat/completions");
    let messages = vec![message("system", system), message("user", user)];
    let ghost sent = messages@;
    let fields = vec![
        ("model".to_string(), text(cfg.model.as_str())),
        ("max_tokens".to_string(), Json::Number(decimal(max_tokens as i64))),
        ("stream".to_string(), Json::Bool(true)),
        ("messages".to_string(), list(messages)),
    ];
    let ghost given = fields@;
    let body = record(fields);
    proof {
        let want = openai_body(cfg.model@, system@, user@, max_tokens as int);
        assert(given[3].1@->List_0 =~= seq![
            message_body("system"@, system@),
            message_body("user"@, user@),
        ]) by {
            assert(sent[0]@ == message_body("system"@, system@));
            assert(sent[1]@ == message_body("user"@, user@));
        }
        assert(body@->Record_0 =~= want->Record_0) by {
            assert(given[0].1@ == want->Record_0[0].1);
            assert(given[1].1@ == want->Record_0[1].1);
            assert(given[2].1@ == want->Record_0[2].1);
        }
    }
    ChatRequest {
        url,
        headers: Vec::new(),
        bearer: Some(cfg.api_key.clone()),
        timeout_secs: AI_REQUEST_TIMEOUT_SECS,
        body,
    }
}

/// The single-turn chat request for the configured provider.
pub fn chat_request(cfg: &AiConfig, system: &str, user: &str, max_tokens: u32) -> (r: ChatRequest)
    ensures
        r.timeout_secs == AI_REQUEST_TIMEOUT_SECS,
        match cfg.provider {
            Provider::Anthropic => {
                &&& r.url@ == endpoint(Provider::Anthropic, cfg.base_url@)
                &&& header_texts(r.headers@) == seq![
                    ("x-api-key"@, cfg.api_key@),
                    ("anthropic-version"@, "2023-06-01"@),
                    ("content-type"@, "application/json"@),
                ]
                &&& r.bearer is None
                &&& r.body@ == anthropic_body(cfg.model@, system@, user@, max_tokens as int)
            },
            Provider::OpenAi => {
                &&& r.url@ == endpoint(Provider::OpenAi, cfg.base_url@)
                &&& r.headers@.len() == 0
                &&& option_text(r.bearer) == Some(cfg.api_key@)
                &&& r.body@ == openai_body(cfg.model@, system@, user@, max_tokens as int)
            },
        },
{
    match cfg.provider {
        Provider::Anthropic => anthropic_request(cfg, system, user, max_tokens),
        Provider::OpenAi => openai_request(cfg, system, user, max_tokens),
    }
}

// ----------------------------------------------------------------- reading frames

/// The message of a provider error inside a frame.
///
/// On the OpenAI-compatible path only an object is an error: many compatible servers ship a
/// literal `"error": null` inside successful chunks.
pub open spec fn error_in(v: JsonView, p: Provider) -> Option<Seq<char>> {
    let err = match p {
        Provider::Anthropic => if text_in(at(v, "type"@)) == Some("error"@) {
            Some(at(v, "error"@))
        } else {
            None
        },
        Provider::OpenAi => match field(v, "error"@) {
            Some(e) => if e is Record {
                Some(e)
            } else {
                None
            },
            None => None,
        },
    };
    match err {
        None => None,
        Some(e) => Some(
            match text_in(at(e, "message"@)) {
                Some(m) => if m.len() > 0 {
                    m
                } else {
                    "stream error"@
                },
                None => "stream error"@,
            },
        ),
    }
}

/// An `error` field that is no object does not end an OpenAI-compatible stream: the frame counts
/// for the delta that it carries.
pub proof fn law_only_error_objects_count(v: JsonView)
    requires
        !(at(v, "error"@) is Record),
    ensures
        error_in(v, Provider::OpenAi) is None,
        frame_of(Some(v), Provider::OpenAi) == match delta_in(v, Provider::OpenAi) {
            Some(t) => FrameView::Delta(t),
            None => FrameView::Ignored,
        },
{
}

/// The piece of the response that a frame carries.
pub open spec fn delta_in(v: JsonView, p: Provider) -> Option<Seq<char>> {
    match p {
        Provider::Anthropic => if text_in(at(v, "type"@)) == Some("content_block_delta"@) {
            text_in(at(at(v, "delta"@), "text"@))
        } else {
            None
        },
        Provider::OpenAi => text_in(at(at(item(at(v, "choices"@), 0), "delta"@), "content"@)),
    }
}

/// The text behind `key`.
fn text_at<'a>(v: &'a Json, key: &str) -> (r: Option<&'a str>)
    ensures
        match r {
            Some(t) => text_in(at(v@, key@)) == Some(t@),
            None => text_in(at(v@, key@)) is None,
        },
{
    match v.get(key) {
        Some(x) => x.as_str(),
        None => None,
    }
}

/// Whether the text behind `key` is `wanted`.
fn text_at_is(v: &Json, key: &str, wanted: &str) -> (b: bool)
    ensures
        b == (text_in(at(v@, key@)) == Some(wanted@)),
{
    match text_at(v, key) {
        Some(t) => same_text(t, wanted),
        None => false,
    }
}

/// Detects a provider error object carried inside a frame.
pub fn extract_error(v: &Json, provider: Provider) -> (r: Option<String>)
    ensures
        option_text(r) == error_in(v@, provider),
{
    let message: Option<&str> = match provider {
        Provider::Anthropic => {
            if !text_at_is(v, "type", "error") {
                return None;
            }
            match v.get("error") {
                Some(e) => text_at(e, "message"),
                None => None,
            }
        },
        Provider::OpenAi => match v.get("error") {
            Some(e) => {
                if !e.is_record() {
                    return None;
                }
                text_at(e, "message")
            },
            None => {
                return None;
            },
        },
    };
    match message {
        Some(m) => if m.is_empty() {
            Some("stream error".to_string())
        } else {
            Some(m.to_string())
        },
        None => Some("stream error".to_string()),
    }
}

/// The piece of the response that a frame carries.
pub fn extract_delta(v: &Json, provider: Provider) -> (r: Option<String>)
    ensures
        option_text(r) == delta_in(v@, provider),
{
    let found: Option<&str> = match provider {
        Provider::Anthropic => if text_at_is(v, "type", "content_block_delta") {
            match v.get("delta") {
                Some(d) => text_at(d, "text"),
                None => None,
            }
        } else {
            None
        },
        Provider::OpenAi => match v.get("choices") {
            Some(choices) => match choices.get_item(0) {
                Some(first) => match first.get("delta") {
                    Some(d) => text_at(d, "content"),
                    None => None,
                },
                None => None,
            },
            None => None,
        },
    };
    match found {
        Some(t) => Some(t.to_string()),
        None => None,
    }
}

/// What a frame amounts to.
pub enum Frame {
    /// Nothing to forward.
    Ignored,
    /// A piece of the response.
    Delta(String),
    /// The provider reports this error.
    Failed(String),
}

/// The model of a [`Frame`].
pub enum FrameView {
    Ignored,
    Delta(Seq<char>),
    Failed(Seq<char>),
}

impl View for Frame {
    type V = FrameView;

    open spec fn view(&self) -> FrameView {
        match self {
            Frame::Ignored => FrameView::Ignored,
            Frame::Delta(t) => FrameView::Delta(t@),
            Frame::Failed(m) => FrameView::Failed(m@),
        }
    }
}

/// What the document of a frame amounts to. An error wins over a delta, and a payload that is no
/// JSON document is ignored.
pub open spec fn frame_of(document: Option<JsonView>, p: Provider) -> FrameView {
    match document {
        None => FrameView::Ignored,
        Some(v) => match error_in(v, p) {
            Some(m) => FrameView::Failed("AI stream error: "@ + m),
            None => match delta_in(v, p) {
                Some(t) => FrameView::Delta(t),
                None => FrameView::Ignored,
            },
        },
    }
}

/// What a frame amounts to, given the document read from its payload.
pub fn read_frame(document: &Option<Json>, provider: Provider) -> (r: Frame)
    ensures
        r@ == frame_of(
            match document {
                Some(v) => Some(v@),
                None => None,
            },
            provider,
        ),
{
    match document {
        None => Frame::Ignored,
        Some(v) => match extract_error(v, provider) {
            Some(m) => {
                let mut message = "AI stream error: ".to_string();
                message.append(m.as_str());
                Frame::Failed(message)
            },
            None => match extract_delta(v, provider) {
                Some(t) => Frame::Delta(t),
                None => Frame::Ignored,
            },
        },
    }
}

/// The payload of a server-sent-events line: what follows `data:`. A line of any other kind, an
/// empty payload and the closing `[DONE]` carry none.
pub open spec fn payload(line: Seq<char>) -> Option<Seq<char>> {
    let t = trimmed(line);
    if "data:"@.is_prefix_of(t) {
        let data = trimmed(t.skip("data:"@.len() as int));
        if data.len() == 0 || data == "[DONE]"@ {
            None
        } else {
            Some(data)
        }
    } else {
        None
    }
}

/// What a line amounts to.
pub open spec fn line_frame(line: Seq<char>, p: Provider) -> FrameView {
    match payload(line) {
        None => FrameView::Ignored,
        Some(data) => frame_of(json_document(data), p),
    }
}

/// What to do after handling one line.
pub enum LineOutcome {
    /// Keep consuming the stream.
    Continue,
    /// Send this event to the frontend.
    Send(AiEvent),
}

/// The payload of a line.
fn line_payload(line: &str) -> (r: Option<&str>)
    ensures
        match r {
            Some(d) => payload(line@) == Some(d@),
            None => payload(line@) is None,
        },
{
    let t = trim(line);
    if !starts_with(t, "data:") {
        return None;
    }
    let n: usize = "data:".unicode_len();
    let rest = t.substring_char(n, t.unicode_len());
    assert(rest@ =~= t@.skip("data:"@.len() as int));
    let data = trim(rest);
    if data.is_empty() || same_text(data, "[DONE]") {
        None
    } else {
        Some(data)
    }
}

/// Processes a single line: pulls the `data:` payload, surfaces any provider error, and appends a
/// text delta to `full`, to be sent on to the frontend.
pub fn handle_sse_line(line: &str, provider: Provider, full: &mut String) -> (r: AppResult<
    LineOutcome,
>)
    ensures
        match line_frame(line@, provider) {
            FrameView::Ignored => r matches Ok(LineOutcome::Continue) && final(full)@ == old(full)@,
            FrameView::Delta(t) => {
                &&& r matches Ok(LineOutcome::Send(e)) && e@ == AiEventView::Delta(t)
                &&& final(full)@ == old(full)@ + t
            },
            FrameView::Failed(m) => {
                &&& r matches Err(e) && e@ == AppErrorView::Other(m)
                &&& final(full)@ == old(full)@
            },
        },
{
    let document = match line_payload(line) {
        Some(data) => parse_json(data),
        None => {
            return Ok(LineOutcome::Continue);
        },
    };
    match read_frame(&document, provider) {
        Frame::Ignored => Ok(LineOutcome::Continue),
        Frame::Delta(t) => {
            full.append(t.as_str());
            Ok(LineOutcome::Send(AiEvent::Delta(t)))
        },
        Frame::Failed(m) => Err(AppError::other(m)),
    }
}

// ------------------------------------------------------------------------- laws

/// A piece of an OpenAI-compatible response is forwarded character for character, white space at
/// its ends too: what stands in `choices[0].delta.content` is the delta.
pub proof fn law_openai_deltas_are_exact(
    document: JsonView,
    choices: Seq<JsonView>,
    delta: JsonView,
    t: Seq<char>,
)
    requires
        field(document, "choices"@) == Some(JsonView::List(choices)),
        choices.len() > 0,
        field(choices[0], "delta"@) == Some(delta),
        field(delta, "content"@) == Some(JsonView::Text(t)),
        !(at(document, "error"@) is Record),
    ensures
        frame_of(Some(document), Provider::OpenAi) == FrameView::Delta(t),
{
}

/// A piece of an Anthropic response is forwarded character for character: what stands in
/// `delta.text` of a `content_block_delta` is the delta.
pub proof fn law_anthropic_deltas_are_exact(document: JsonView, delta: JsonView, t: Seq<char>)
    requires
        field(document, "type"@) == Some(JsonView::Text("content_block_delta"@)),
        field(document, "delta"@) == Some(delta),
        field(delta, "text"@) == Some(JsonView::Text(t)),
    ensures
        frame_of(Some(document), Provider::Anthropic) == FrameView::Delta(t),
{
    reveal_strlit("content_block_delta");
    reveal_strlit("error");
    assert("content_block_delta"@.len() != "error"@.len());
}

/// The smallest document with which a provider sends a piece of its answer.
pub open spec fn smallest_frame(p: Provider, t: Seq<char>) -> JsonView {
    match p {
        Provider::OpenAi => JsonView::Record(
            seq![
                (
                    "choices"@,
                    JsonView::List(
                        seq![
                            JsonView::Record(
                                seq![
                                    (
                                        "delta"@,
                                        JsonView::Record(seq![("content"@, JsonView::Text(t))]),
                                    ),
                                ],
                            ),
                        ],
                    ),
                ),
            ],
        ),
        Provider::Anthropic => JsonView::Record(
            seq![
                ("type"@, JsonView::Text("content_block_delta"@)),
                ("delta"@, JsonView::Record(seq![("text"@, JsonView::Text(t))])),
            ],
        ),
    }
}

/// The smallest frame of each provider carries any text exactly.
pub proof fn law_smallest_frames_carry_any_text(p: Provider, t: Seq<char>)
    ensures
        frame_of(Some(smallest_frame(p, t)), p) == FrameView::Delta(t),
{
    reveal_strlit("choices");
    reveal_strlit("error");
    reveal_strlit("type");
    reveal_strlit("delta");
    let none = Seq::<(Seq<char>, JsonView)>::empty();
    let content = JsonView::Record(seq![("content"@, JsonView::Text(t))]);
    law_fields_are_found_by_name(none, "content"@, JsonView::Text(t), none);
    assert(none.push(("content"@, JsonView::Text(t))) + none =~= seq![
        ("content"@, JsonView::Text(t)),
    ]);
    let choice = JsonView::Record(seq![("delta"@, content)]);
    law_fields_are_found_by_name(none, "delta"@, content, none);
    assert(none.push(("delta"@, content)) + none =~= seq![("delta"@, content)]);
    let choices = JsonView::List(seq![choice]);
    law_fields_are_found_by_name(none, "choices"@, choices, none);
    assert(none.push(("choices"@, choices)) + none =~= seq![("choices"@, choices)]);
    assert("choices"@.len() != "error"@.len());
    law_missing_fields_are_null(seq![("choices"@, choices)], "error"@);
    law_openai_deltas_are_exact(
        JsonView::Record(seq![("choices"@, choices)]),
        seq![choice],
        content,
        t,
    );
    let text = JsonView::Record(seq![("text"@, JsonView::Text(t))]);
    law_fields_are_found_by_name(none, "text"@, JsonView::Text(t), none);
    assert(none.push(("text"@, JsonView::Text(t))) + none =~= seq![("text"@, JsonView::Text(t))]);
    let kind = ("type"@, JsonView::Text("content_block_delta"@));
    let fields = seq![kind, ("delta"@, text)];
    law_fields_are_found_by_name(none, "type"@, kind.1, seq![("delta"@, text)]);
    assert(none.push(kind) + seq![("delta"@, text)] =~= fields);
    assert("type"@.len() != "delta"@.len());
    law_fields_are_found_by_name(seq![kind], "delta"@, text, none);
    assert(seq![kind].push(("delta"@, text)) + none =~= fields);
    law_anthropic_deltas_are_exact(JsonView::Record(fields), text, t);
}

/// A provider error is surfaced with its own message, and with `stream error` where it has none. It
/// wins over any delta beside it.
pub proof fn law_provider_errors_are_surfaced(document: JsonView, error: JsonView, m: Seq<char>)
    requires
        field(document, "error"@) == Some(error),
        error is Record,
    ensures
        field(error, "message"@) == Some(JsonView::Text(m)) && m.len() > 0 ==> frame_of(
            Some(document),
            Provider::OpenAi,
        ) == FrameView::Failed("AI stream error: "@ + m),
        !(at(error, "message"@) is Text) || at(error, "message"@) == JsonView::Text(
            Seq::empty(),
        ) ==> frame_of(Some(document), Provider::OpenAi) == FrameView::Failed(
            "AI stream error: "@ + "stream error"@,
        ),
        field(document, "type"@) == Some(JsonView::Text("error"@)) ==> frame_of(
            Some(document),
            Provider::Anthropic,
        ) == frame_of(Some(document), Provider::OpenAi),
{
}

/// An Anthropic error event is one by its kind, whatever else it carries.
pub proof fn law_anthropic_error_events(document: JsonView, m: Seq<char>)
    requires
        field(document, "type"@) == Some(JsonView::Text("error"@)),
    ensures
        at(at(document, "error"@), "message"@) == JsonView::Text(m) && m.len() > 0 ==> frame_of(
            Some(document),
            Provider::Anthropic,
        ) == FrameView::Failed("AI stream error: "@ + m),
        !(at(at(document, "error"@), "message"@) is Text) ==> frame_of(
            Some(document),
            Provider::Anthropic,
        ) == FrameView::Failed("AI stream error: "@ + "stream error"@),
{
}

/// What is neither an error nor a piece of the response is ignored: a payload that is no document, an
/// OpenAI frame without choices, an Anthropic event of another kind.
pub proof fn law_other_frames_are_ignored(document: JsonView, kind: Seq<char>)
    ensures
        frame_of(None, Provider::OpenAi) == FrameView::Ignored,
        frame_of(None, Provider::Anthropic) == FrameView::Ignored,
        field(document, "error"@) is None && field(document, "choices"@) is None ==> frame_of(
            Some(document),
            Provider::OpenAi,
        ) == FrameView::Ignored,
        field(document, "type"@) == Some(JsonView::Text(kind)) && kind != "error"@ && kind
            != "content_block_delta"@ ==> frame_of(Some(document), Provider::Anthropic)
            == FrameView::Ignored,
        field(document, "type"@) is None ==> frame_of(Some(document), Provider::Anthropic)
            == FrameView::Ignored,
{
}

/// A `data:` line amounts to the document behind it, whatever white space stands around and between
/// them; without a payload, or with `[DONE]`, it amounts to nothing.
pub proof fn law_data_lines(
    lead: Seq<char>,
    gap: Seq<char>,
    data: Seq<char>,
    tail: Seq<char>,
    p: Provider,
)
    requires
        forall|i: int| 0 <= i < lead.len() ==> is_white_space(#[trigger] lead[i]),
        forall|i: int| 0 <= i < gap.len() ==> is_white_space(#[trigger] gap[i]),
        forall|i: int| 0 <= i < tail.len() ==> is_white_space(#[trigger] tail[i]),
        data.len() > 0 ==> !is_white_space(data[0]) && !is_white_space(data.last()),
    ensures
        line_frame(lead + "data:"@ + gap + data + tail, p) == if data.len() == 0 || data
            == "[DONE]"@ {
            FrameView::Ignored
        } else {
            frame_of(json_document(data), p)
        },
{
    reveal_strlit("data:");
    let mark = "data:"@;
    let line = lead + mark + gap + data + tail;
    let nothing = Seq::<char>::empty();
    if data.len() == 0 {
        assert(line =~= lead + mark + (gap + tail));
        let white = gap + tail;
        assert forall|i: int| 0 <= i < white.len() implies is_white_space(#[trigger] white[i]) by {
            if i < gap.len() {
                assert(white[i] == gap[i]);
            } else {
                assert(white[i] == tail[i - gap.len()]);
            }
        }
        law_trimming(lead, mark, white);
        assert(mark.subrange(0, 5) =~= mark);
        assert(mark.skip(5) =~= nothing);
        assert(trimmed(nothing) =~= nothing);
    } else {
        let core = mark + gap + data;
        assert(core.last() == data.last());
        assert(core[0] == 'd');
        assert(line =~= lead + core + tail);
        law_trimming(lead, core, tail);
        assert(core.subrange(0, 5) =~= mark);
        assert(core.skip(5) =~= gap + data + nothing);
        law_trimming(gap, data, nothing);
    }
}

/// A line of any other kind, such as a comment or a blank line, amounts to nothing.
pub proof fn law_other_lines_are_ignored(line: Seq<char>, p: Provider)
    requires
        !"data:"@.is_prefix_of(trimmed(line)),
    ensures
        line_frame(line, p) == FrameView::Ignored,
{
}

/// Only the setting `openai`, letter for letter, selects OpenAI; anything else, and no setting at
/// all, selects Anthropic.
pub proof fn law_provider_selection(setting: Option<Seq<char>>)
    ensures
        provider_named(Some("openai"@)) == Provider::OpenAi,
        setting != Some("openai"@) ==> provider_named(setting) == Provider::Anthropic,
{
}

/// A pasted key or model name is taken without the white space around it, and a blank one counts as
/// none. A model that is given wins over the default of either provider.
pub proof fn law_pasted_settings_are_trimmed(
    lead: Seq<char>,
    core: Seq<char>,
    tail: Seq<char>,
    p: Provider,
    shipped: Seq<char>,
)
    requires
        forall|i: int| 0 <= i < lead.len() ==> is_white_space(#[trigger] lead[i]),
        forall|i: int| 0 <= i < tail.len() ==> is_white_space(#[trigger] tail[i]),
        core.len() > 0 ==> !is_white_space(core[0]) && !is_white_space(core.last()),
    ensures
        core.len() > 0 ==> given(Some(lead + core + tail)) == Some(core),
        core.len() == 0 ==> given(Some(lead + core + tail)) is None,
        given(None) is None,
        core.len() > 0 ==> chosen_model(p, Some(lead + core + tail), shipped) == core,
        core.len() == 0 ==> chosen_model(p, Some(lead + core + tail), shipped) == chosen_model(
            p,
            None,
            shipped,
        ),
        chosen_model(Provider::OpenAi, None, shipped) == "gpt-4.1-mini"@,
        chosen_model(Provider::Anthropic, None, shipped) == shipped,
{
    law_trimming(lead, core, tail);
}

/// A custom API root is taken without white space around it and without slashes at its end; where
/// nothing is left, and without one, the official root of the provider is used.
pub proof fn law_custom_roots(
    lead: Seq<char>,
    core: Seq<char>,
    slashes: Seq<char>,
    tail: Seq<char>,
    p: Provider,
)
    requires
        forall|i: int| 0 <= i < lead.len() ==> is_white_space(#[trigger] lead[i]),
        forall|i: int| 0 <= i < tail.len() ==> is_white_space(#[trigger] tail[i]),
        forall|i: int| 0 <= i < slashes.len() ==> #[trigger] slashes[i] == '/',
        core.len() > 0 ==> !is_white_space(core[0]) && !is_white_space(core.last()) && core.last()
            != '/',
    ensures
        core.len() > 0 ==> chosen_root(p, Some(lead + core + slashes + tail)) == core,
        core.len() == 0 ==> chosen_root(p, Some(lead + core + slashes + tail)) == chosen_root(
            p,
            None,
        ),
        chosen_root(Provider::Anthropic, None) == "https://api.anthropic.com/v1"@,
        chosen_root(Provider::OpenAi, None) == "https://api.openai.com/v1"@,
{
    let t = core + slashes;
    assert(lead + core + slashes + tail =~= lead + t + tail);
    if t.len() > 0 {
        if slashes.len() > 0 {
            assert(t.last() == slashes[slashes.len() - 1]);
            assert(core.len() == 0 ==> t[0] == slashes[0]);
        }
        assert(core.len() > 0 ==> t[0] == core[0]);
    }
    law_trimming(lead, t, tail);
    let l = core.len() as int;
    assert forall|k: int| l <= k < t.len() implies Class::Only('/').holds(#[trigger] t[k]) by {
        assert(t[k] == slashes[k - l]);
    }
    if l > 0 {
        assert(t[l - 1] == core.last());
    }
    lemma_without_end(t, Class::Only('/'), l);
    assert(t.take(l) =~= core);
}

/// What each request body says under which name: the model, the cap, the streaming flag, and the two
/// prompts where the provider looks for them.
pub proof fn law_request_bodies(
    model: Seq<char>,
    system: Seq<char>,
    user: Seq<char>,
    max_tokens: int,
)
    requires
        0 <= max_tokens,
    ensures
        ({
            let a = anthropic_body(model, system, user, max_tokens);
            &&& at(a, "model"@) == JsonView::Text(model)
            &&& at(a, "system"@) == JsonView::Text(system)
            &&& at(a, "stream"@) == JsonView::Bool(true)
            &&& at(a, "max_tokens"@) matches JsonView::Number(n) && decimal_value(n) == max_tokens
            &&& at(a, "messages"@) matches JsonView::List(m) && m.len() == 1
            &&& at(item(at(a, "messages"@), 0), "role"@) == JsonView::Text("user"@)
            &&& at(item(at(a, "messages"@), 0), "content"@) == JsonView::Text(user)
        }),
        ({
            let o = openai_body(model, system, user, max_tokens);
            &&& at(o, "model"@) == JsonView::Text(model)
            &&& at(o, "stream"@) == JsonView::Bool(true)
            &&& at(o, "max_tokens"@) matches JsonView::Number(n) && decimal_value(n) == max_tokens
            &&& at(o, "messages"@) matches JsonView::List(m) && m.len() == 2
            &&& at(item(at(o, "messages"@), 0), "role"@) == JsonView::Text("system"@)
            &&& at(item(at(o, "messages"@), 0), "content"@) == JsonView::Text(system)
            &&& at(item(at(o, "messages"@), 1), "role"@) == JsonView::Text("user"@)
            &&& at(item(at(o, "messages"@), 1), "content"@) == JsonView::Text(user)
        }),
{
    reveal_strlit("model");
    reveal_strlit("max_tokens");
    reveal_strlit("system");
    reveal_strlit("stream");
    reveal_strlit("messages");
    reveal_strlit("role");
    reveal_strlit("content");
    reveal_with_fuel(lookup, 6);
    law_decimals_are_read_back(max_tokens as nat);
    assert("system"@[1] != "stream"@[1]);
    assert("model"@.len() == 5 && "max_tokens"@.len() == 10 && "system"@.len() == 6 && "stream"@.len()
        == 6 && "messages"@.len() == 8 && "role"@.len() == 4 && "content"@.len() == 7);
}

/// Requests go to the configured root, and there to the path of the provider.
pub proof fn law_requests_go_to_the_configured_root(p: Provider, root: Seq<char>)
    ensures
        root.is_prefix_of(endpoint(p, root)),
        endpoint(Provider::Anthropic, root).skip(root.len() as int) == "/messages"@,
        endpoint(Provider::OpenAi, root).skip(root.len() as int) == "/chat/completions"@,
{
    assert(endpoint(p, root).subrange(0, root.len() as int) =~= root);
    assert((root + "/messages"@).skip(root.len() as int) =~= "/messages"@);
    assert((root + "/chat/completions"@).skip(root.len() as int) =~= "/chat/completions"@);
}

/// A translation may be about as long as a long article, any other answer an eighth of that.
pub proof fn law_answers_are_bounded()
    ensures
        MAX_TOKENS == 1024,
        TRANSLATE_MAX_TOKENS == 8 * MAX_TOKENS,
        AI_REQUEST_TIMEOUT_SECS == 300,
        MAX_SSE_BUFFER == 8388608,
{
}

} // verus!
