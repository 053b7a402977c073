//! The prompts behind the AI commands.

use crate::ai::{
    chosen_model, chosen_root, given, is_model_name, law_custom_roots, law_pasted_settings_are_trimmed,
    provider_named, AiConfig, Provider, MAX_TOKENS, TRANSLATE_MAX_TOKENS,
};
use crate::error::{AppError, AppErrorView, AppResult};
use crate::settings::{value_of, Settings, StoredView};
use crate::sse::{step_of, ActionView, ChatOutcome, Phase, StreamInput};
use crate::text::{
    blank, cut, is_blank, is_white_space, law_trimming, lemma_blank, occurs_at, option_text, same_text,
    trim, trimmed,
};
use vstd::prelude::*;

verus! {

/// One single-turn request.
pub struct Prompt {
    pub system: String,
    pub user: String,
    pub max_tokens: u32,
}

// ---------------------------------------------------------------- configuration

/// The first of the AI settings that could not be read, or else the missing key.
pub open spec fn config_error(s: Settings) -> Option<AppErrorView> {
    if s.at("ai_provider"@) is Unreadable {
        Some(AppErrorView::Other(s.at("ai_provider"@)->Unreadable_0))
    } else if s.at("ai_api_key"@) is Unreadable {
        Some(AppErrorView::Other(s.at("ai_api_key"@)->Unreadable_0))
    } else if s.at("ai_model"@) is Unreadable {
        Some(AppErrorView::Other(s.at("ai_model"@)->Unreadable_0))
    } else if s.at("ai_base_url"@) is Unreadable {
        Some(AppErrorView::Other(s.at("ai_base_url"@)->Unreadable_0))
    } else if given(value_of(s.at("ai_api_key"@))) is None {
        Some(AppErrorView::Code("noAiKey"@))
    } else {
        None
    }
}

/// `cfg` is what the AI settings say.
pub open spec fn configured_as(s: Settings, anthropic_model: Seq<char>, cfg: AiConfig) -> bool {
    let p = provider_named(value_of(s.at("ai_provider"@)));
    &&& cfg.provider == p
    &&& given(value_of(s.at("ai_api_key"@))) == Some(cfg.api_key@)
    &&& cfg.model@ == chosen_model(p, value_of(s.at("ai_model"@)), anthropic_model)
    &&& cfg.base_url@ == chosen_root(p, value_of(s.at("ai_base_url"@)))
    &&& cfg.valid()
}

/// Loads the AI provider configuration from the settings.
pub fn load_ai_config(settings: &Settings, anthropic_model: &str) -> (r: AppResult<AiConfig>)
    requires
        is_model_name(anthropic_model@),
    ensures
        match r {
            Ok(cfg) => config_error(*settings) is None && configured_as(
                *settings,
                anthropic_model@,
                cfg,
            ),
            Err(e) => config_error(*settings) == Some(e@),
        },
{
    let provider = settings.read("ai_provider")?;
    let api_key = settings.read("ai_api_key")?;
    let model = settings.read("ai_model")?;
    let base_url = settings.read("ai_base_url")?;
    AiConfig::new(provider, api_key, model, base_url, anthropic_model)
}

/// A request together with the provider that it goes to.
pub struct Chat {
    pub config: AiConfig,
    pub prompt: Prompt,
}

/// What keeps a chat from being started: an unusable configuration, or else input that leaves
/// nothing to ask for.
pub open spec fn chat_error(s: Settings, nothing_to_ask: bool, code: Seq<char>) -> Option<
    AppErrorView,
> {
    match config_error(s) {
        Some(e) => Some(e),
        None => if nothing_to_ask {
            Some(AppErrorView::Code(code))
        } else {
            None
        },
    }
}

// --------------------------------------------------------------------- language

/// Truncates to at most `max` characters without splitting one.
pub fn truncate(s: &str, max: usize) -> (r: String)
    ensures
        r@ == cut(s@, max as int),
{
    let n: usize = s.unicode_len();
    if n <= max {
        s.to_string()
    } else {
        let head = s.substring_char(0, max);
        assert(head@ =~= s@.take(max as int));
        head.to_string()
    }
}

/// The sentence that asks for an answer in the UI language.
pub open spec fn directive(language: Option<Seq<char>>) -> Seq<char> {
    if language == Some("zh"@) {
        "\n\nAlways write your response in Simplified Chinese."@
    } else if language == Some("ja"@) {
        "\n\nAlways write your response in Japanese."@
    } else {
        "\n\nAlways write your response in English."@
    }
}

/// The name of the UI language.
pub open spec fn language_name(language: Option<Seq<char>>) -> Seq<char> {
    if language == Some("zh"@) {
        "Simplified Chinese"@
    } else if language == Some("ja"@) {
        "Japanese"@
    } else {
        "English"@
    }
}

/// The UI language that is set.
pub open spec fn ui_language(s: Settings) -> Option<Seq<char>> {
    value_of(s.at("language"@))
}

/// A system-prompt directive, so that AI output matches the UI language rather than the language
/// of the source article.
pub fn response_language(settings: &Settings) -> (r: &'static str)
    ensures
        r@ == directive(ui_language(*settings)),
{
    match settings.value("language") {
        Some(l) => if same_text(l, "zh") {
            "\n\nAlways write your response in Simplified Chinese."
        } else if same_text(l, "ja") {
            "\n\nAlways write your response in Japanese."
        } else {
            "\n\nAlways write your response in English."
        },
        None => "\n\nAlways write your response in English.",
    }
}

/// The UI language as a bare language name, for prompts that name the target language inline.
pub fn target_language(settings: &Settings) -> (r: &'static str)
    ensures
        r@ == language_name(ui_language(*settings)),
{
    match settings.value("language") {
        Some(l) => if same_text(l, "zh") {
            "Simplified Chinese"
        } else if same_text(l, "ja") {
            "Japanese"
        } else {
            "English"
        },
        None => "English",
    }
}

// ---------------------------------------------------------------------- summary

/// Asks for a structured summary: the reader scans a one-sentence verdict and bullets far faster
/// than a dense paragraph.
pub const SUMMARY_SYSTEM: &'static str =
    "You are a sharp news editor. Summarize the article so a reader can \
     decide whether to read it in full.\n\n\
     Format the response in markdown using exactly this shape:\n\
     **TL;DR** — One sentence capturing the single most important point.\n\n\
     - Key fact, finding, or claim (under ~20 words)\n\
     - Another key point\n\
     - 3 to 5 bullets total, one idea each, no nested bullets\n\n\
     Output only this structure. No preamble, no closing remarks, no \
     section headers, no extra prose.";

/// The system message of a summary in the UI language.
pub open spec fn summary_system(language: Option<Seq<char>>) -> Seq<char> {
    SUMMARY_SYSTEM@ + directive(language)
}

/// The user message of a summary: the title, and as much of the body as fits.
pub open spec fn summary_user(title: Seq<char>, body: Seq<char>) -> Seq<char> {
    "Title: "@ + title + "\n\n"@ + cut(body, 8000)
}

/// The prompt for a summary of one article. An article without body text gives the model nothing
/// to summarise, and it would invent a summary from the bare title; such an article is refused.
pub fn ai_summarize(title: &str, body: &str, settings: &Settings, anthropic_model: &str) -> (r:
    AppResult<Chat>)
    requires
        is_model_name(anthropic_model@),
    ensures
        match r {
            Ok(c) => {
                &&& chat_error(*settings, is_blank(body@), "noArticleBody"@) is None
                &&& configured_as(*settings, anthropic_model@, c.config)
                &&& c.prompt.system@ == summary_system(ui_language(*settings))
                &&& c.prompt.user@ == summary_user(title@, body@)
                &&& c.prompt.max_tokens == MAX_TOKENS
            },
            Err(e) => chat_error(*settings, is_blank(body@), "noArticleBody"@) == Some(e@),
        },
{
    let config = load_ai_config(settings, anthropic_model)?;
    if blank(body) {
        return Err(AppError::code("noArticleBody"));
    }
    let mut system = SUMMARY_SYSTEM.to_string();
    system.append(response_language(settings));
    let mut user = "Title: ".to_string();
    user.append(title);
    user.append("\n\n");
    user.append(truncate(body, 8000).as_str());
    Ok(Chat { config, prompt: Prompt { system, user, max_tokens: MAX_TOKENS } })
}

/// The summary to persist, if there is one.
pub open spec fn kept_summary(text: Seq<char>, completed: bool) -> Option<Seq<char>> {
    if completed && !is_blank(text) {
        Some(trimmed(text))
    } else {
        None
    }
}

/// The summary to persist, if there is one. A summary that did not stream to completion is a
/// truncated fragment, and caching it would show a broken half-summary for good.
pub fn summary_to_keep(outcome: &ChatOutcome) -> (r: Option<String>)
    ensures
        option_text(r) == kept_summary(outcome.text@, outcome.completed),
{
    let t = trim(outcome.text.as_str());
    if outcome.completed && !t.is_empty() {
        Some(t.to_string())
    } else {
        None
    }
}

/// Nothing is kept of a summary whose reader has left: the step that learns of it gives a result
/// that is not kept, whatever had arrived by then.
pub proof fn law_abandoned_summaries_are_not_kept(
    p: Provider,
    phase: Phase,
    buf: Seq<u8>,
    full: Seq<char>,
)
    ensures
        match step_of(p, phase, buf, full, StreamInput::Refused).action {
            ActionView::Finish { text, completed } => kept_summary(text, completed) is None,
            _ => false,
        },
{
}

// --------------------------------------------------------------------- question

/// An article found for a question.
pub struct Hit {
    pub title: String,
    pub feed_title: String,
    pub body: String,
}

pub const ASK_SYSTEM: &'static str =
    "You answer the user's question using only the provided \
     articles from their RSS subscriptions. Cite the article \
     titles you draw from. If the articles do not contain the \
     answer, say so plainly.";

/// One article of the context.
pub open spec fn hit_text(h: Hit) -> Seq<char> {
    "## "@ + h.title@ + " — "@ + h.feed_title@ + "\n"@ + cut(h.body@, 1200) + "\n\n"@
}

/// The articles of the context, one after the other.
pub open spec fn context_of(hits: Seq<Hit>) -> Seq<char>
    decreases hits.len(),
{
    if hits.len() == 0 {
        seq![]
    } else {
        context_of(hits.drop_last()) + hit_text(hits.last())
    }
}

/// The user message of a question over a context.
pub open spec fn ask_user(context: Seq<char>, question: Seq<char>) -> Seq<char> {
    if is_blank(context) {
        "No relevant articles were found.\n\nQuestion: "@ + question
    } else {
        "Articles from the user's feeds:\n\n"@ + context + "---\n\nQuestion: "@ + question
    }
}

/// The system message of a question in the UI language.
pub open spec fn ask_system(language: Option<Seq<char>>) -> Seq<char> {
    ASK_SYSTEM@ + directive(language)
}

/// The prompt that answers a question from the subscribed articles found for it.
pub fn ai_ask(question: &str, hits: &Vec<Hit>, settings: &Settings, anthropic_model: &str) -> (r:
    AppResult<Chat>)
    requires
        is_model_name(anthropic_model@),
    ensures
        match r {
            Ok(c) => {
                &&& config_error(*settings) is None
                &&& configured_as(*settings, anthropic_model@, c.config)
                &&& c.prompt.system@ == ask_system(ui_language(*settings))
                &&& c.prompt.user@ == ask_user(context_of(hits@), question@)
                &&& c.prompt.max_tokens == MAX_TOKENS
            },
            Err(e) => config_error(*settings) == Some(e@),
        },
{
    let config = load_ai_config(settings, anthropic_model)?;
    let mut context = String::new();
    let n: usize = hits.len();
    let mut i: usize = 0;
    while i < n
        invariant
            n == hits@.len(),
            i <= n,
            context@ == context_of(hits@.take(i as int)),
        decreases n - i,
    {
        let ghost before = context@;
        assert(hits@.take(i + 1).drop_last() =~= hits@.take(i as int));
        let hit = &hits[i];
        context.append("## ");
        context.append(hit.title.as_str());
        context.append(" — ");
        context.append(hit.feed_title.as_str());
        context.append("\n");
        context.append(truncate(hit.body.as_str(), 1200).as_str());
        context.append("\n\n");
        assert(context@ =~= before + hit_text(*hit));
        i = i + 1;
    }
    assert(hits@.take(n as int) =~= hits@);
    let mut system = ASK_SYSTEM.to_string();
    system.append(response_language(settings));
    let user = if blank(context.as_str()) {
        let mut u = "No relevant articles were found.\n\nQuestion: ".to_string();
        u.append(question);
        u
    } else {
        let mut u = "Articles from the user's feeds:\n\n".to_string();
        u.append(context.as_str());
        u.append("---\n\nQuestion: ");
        u.append(question);
        u
    };
    Ok(Chat { config, prompt: Prompt { system, user, max_tokens: MAX_TOKENS } })
}

/// The model is told that nothing was found exactly when nothing was found.
pub proof fn law_context_is_blank_without_hits_only(hits: Seq<Hit>)
    ensures
        is_blank(context_of(hits)) <==> hits.len() == 0,
{
    lemma_blank(context_of(hits));
    if hits.len() > 0 {
        reveal_strlit("## ");
        let head = context_of(hits.drop_last());
        let h = hit_text(hits.last());
        assert(h[0] == '#');
        assert(context_of(hits)[head.len() as int] == h[0]);
    }
}

// ----------------------------------------------------------------------- digest

/// An article of a briefing.
pub struct DigestItem {
    pub title: String,
    pub feed: String,
    pub text: String,
}

pub const DIGEST_SYSTEM: &'static str =
    "You are the user's personal news briefer. From the recent \
     articles, write a crisp briefing: group related items into \
     2-4 themed sections with short headers, lead with what \
     matters most, and keep it skimmable. Plain prose, no preamble.";

/// One line of the corpus.
pub open spec fn digest_line(d: DigestItem) -> Seq<char> {
    "- ["@ + d.feed@ + "] "@ + d.title@ + ": "@ + cut(d.text@, 400) + "\n"@
}

/// The lines of the corpus.
pub open spec fn corpus_of(items: Seq<DigestItem>) -> Seq<char>
    decreases items.len(),
{
    if items.len() == 0 {
        seq![]
    } else {
        corpus_of(items.drop_last()) + digest_line(items.last())
    }
}

/// The system message of a briefing in the UI language.
pub open spec fn digest_system(language: Option<Seq<char>>) -> Seq<char> {
    DIGEST_SYSTEM@ + directive(language)
}

/// The user message of a briefing.
pub open spec fn digest_user(items: Seq<DigestItem>) -> Seq<char> {
    "Recent articles from my feeds:\n\n"@ + corpus_of(items)
}

/// The prompt for a briefing over the most recent articles; there must be some.
pub fn ai_digest(articles: &Vec<DigestItem>, settings: &Settings, anthropic_model: &str) -> (r:
    AppResult<Chat>)
    requires
        is_model_name(anthropic_model@),
    ensures
        match r {
            Ok(c) => {
                &&& chat_error(*settings, articles@.len() == 0, "noArticles"@) is None
                &&& configured_as(*settings, anthropic_model@, c.config)
                &&& c.prompt.system@ == digest_system(ui_language(*settings))
                &&& c.prompt.user@ == digest_user(articles@)
                &&& c.prompt.max_tokens == MAX_TOKENS
            },
            Err(e) => chat_error(*settings, articles@.len() == 0, "noArticles"@) == Some(e@),
        },
{
    let config = load_ai_config(settings, anthropic_model)?;
    let n: usize = articles.len();
    if n == 0 {
        return Err(AppError::code("noArticles"));
    }
    let mut corpus = String::new();
    let mut i: usize = 0;
    while i < n
        invariant
            n == articles@.len(),
            i <= n,
            corpus@ == corpus_of(articles@.take(i as int)),
        decreases n - i,
    {
        let ghost before = corpus@;
        assert(articles@.take(i + 1).drop_last() =~= articles@.take(i as int));
        let item = &articles[i];
        corpus.append("- [");
        corpus.append(item.feed.as_str());
        corpus.append("] ");
        corpus.append(item.title.as_str());
        corpus.append(": ");
        corpus.append(truncate(item.text.as_str(), 400).as_str());
        corpus.append("\n");
        assert(corpus@ =~= before + digest_line(*item));
        i = i + 1;
    }
    assert(articles@.take(n as int) =~= articles@);
    let mut system = DIGEST_SYSTEM.to_string();
    system.append(response_language(settings));
    let mut user = "Recent articles from my feeds:\n\n".to_string();
    user.append(corpus.as_str());
    Ok(Chat { config, prompt: Prompt { system, user, max_tokens: MAX_TOKENS } })
}

// ------------------------------------------------------------------ translation

pub const TRANSLATE_SYSTEM_HEAD: &'static str =
    "You are a professional translator. Translate the article the user \
     provides into ";

pub const TRANSLATE_SYSTEM_BODY: &'static str =
    ", including its title. Preserve the meaning, tone, \
     and paragraph structure, and keep any markdown formatting intact. \
     Render the title as a level-1 markdown heading. Translate only — add no \
     notes, commentary, or explanation. If a passage is already in ";

pub const TRANSLATE_SYSTEM_TAIL: &'static str = ", leave it unchanged.";

/// The system message of a translation into the UI language.
pub open spec fn translate_system(language: Option<Seq<char>>) -> Seq<char> {
    TRANSLATE_SYSTEM_HEAD@ + language_name(language) + TRANSLATE_SYSTEM_BODY@ + language_name(language)
        + TRANSLATE_SYSTEM_TAIL@
}

/// The user message of a translation: the title as a heading, and as much of the body as fits.
pub open spec fn translate_user(title: Seq<char>, body: Seq<char>) -> Seq<char> {
    "# "@ + title + "\n\n"@ + cut(body, 12000)
}

/// The prompt for a translation of one article into the UI language; an article without body text
/// is refused.
pub fn ai_translate(title: &str, body: &str, settings: &Settings, anthropic_model: &str) -> (r:
    AppResult<Chat>)
    requires
        is_model_name(anthropic_model@),
    ensures
        match r {
            Ok(c) => {
                &&& chat_error(*settings, is_blank(body@), "noArticleBody"@) is None
                &&& configured_as(*settings, anthropic_model@, c.config)
                &&& c.prompt.system@ == translate_system(ui_language(*settings))
                &&& c.prompt.user@ == translate_user(title@, body@)
                &&& c.prompt.max_tokens == TRANSLATE_MAX_TOKENS
            },
            Err(e) => chat_error(*settings, is_blank(body@), "noArticleBody"@) == Some(e@),
        },
{
    let config = load_ai_config(settings, anthropic_model)?;
    if blank(body) {
        return Err(AppError::code("noArticleBody"));
    }
    let lang = target_language(settings);
    let mut system = TRANSLATE_SYSTEM_HEAD.to_string();
    system.append(lang);
    system.append(TRANSLATE_SYSTEM_BODY);
    system.append(lang);
    system.append(TRANSLATE_SYSTEM_TAIL);
    let mut user = "# ".to_string();
    user.append(title);
    user.append("\n\n");
    user.append(truncate(body, 12000).as_str());
    Ok(Chat { config, prompt: Prompt { system, user, max_tokens: TRANSLATE_MAX_TOKENS } })
}

// ------------------------------------------------------------------------- laws

/// The contexts of two lists of hits, put one behind the other, are the context of both lists: no
/// article is dropped, repeated or moved.
pub proof fn law_contexts_are_put_together(a: Seq<Hit>, b: Seq<Hit>)
    ensures
        context_of(a + b) == context_of(a) + context_of(b),
    decreases b.len(),
{
    if b.len() == 0 {
        assert(a + b =~= a);
        assert(context_of(a) + context_of(b) =~= context_of(a));
    } else {
        law_contexts_are_put_together(a, b.drop_last());
        assert((a + b).drop_last() =~= a + b.drop_last());
        assert(context_of(a) + context_of(b.drop_last()) + hit_text(b.last()) =~= context_of(a) + (
        context_of(b.drop_last()) + hit_text(b.last())));
    }
}

/// Every article that was found stands in the message: its title, the title of its feed and the
/// first 1200 characters of its body, behind the articles found before it and ahead of those found
/// after it. The question ends the message.
pub proof fn law_every_article_is_in_the_message(
    before: Seq<Hit>,
    hit: Hit,
    after: Seq<Hit>,
    question: Seq<char>,
)
    ensures
        ask_user(context_of(before.push(hit) + after), question)
            == "Articles from the user's feeds:\n\n"@ + context_of(before) + ("## "@ + hit.title@
            + " — "@ + hit.feed_title@ + "\n"@ + (if hit.body@.len() <= 1200 {
            hit.body@
        } else {
            hit.body@.take(1200)
        }) + "\n\n"@) + context_of(after) + "---\n\nQuestion: "@ + question,
{
    let hits = before.push(hit) + after;
    law_context_is_blank_without_hits_only(hits);
    law_contexts_are_put_together(before.push(hit), after);
    assert(before.push(hit).drop_last() =~= before);
    assert(context_of(before.push(hit)) == context_of(before) + hit_text(hit));
    assert("Articles from the user's feeds:\n\n"@ + (context_of(before) + hit_text(hit)
        + context_of(after)) =~= "Articles from the user's feeds:\n\n"@ + context_of(before)
        + hit_text(hit) + context_of(after));
}

/// Where each part of the article at position `i` stands in the context, and how long the context is:
/// the sum of the lengths of its articles.
pub proof fn law_articles_stand_in_their_order(hits: Seq<Hit>, i: int)
    requires
        0 <= i < hits.len(),
    ensures
        ({
            let all = context_of(hits);
            let start = context_of(hits.take(i)).len() as int;
            let title = hits[i].title@;
            let feed = hits[i].feed_title@;
            let body = hits[i].body@;
            let kept = if body.len() <= 1200 {
                body.len() as int
            } else {
                1200
            };
            let end = start + 3 + title.len() + 3 + feed.len() + 1 + kept + 2;
            &&& occurs_at(all, title, start + 3)
            &&& occurs_at(all, feed, start + 3 + title.len() + 3)
            &&& occurs_at(all, body.take(kept), start + 3 + title.len() + 3 + feed.len() + 1)
            &&& context_of(hits.take(i + 1)).len() == end
            &&& end <= all.len()
        }),
        context_of(hits.take(hits.len() as int)) == context_of(hits),
        context_of(hits.take(0)).len() == 0,
{
    let start = context_of(hits.take(i));
    let h = hits[i];
    let title = h.title@;
    let feed = h.feed_title@;
    let kept = cut(h.body@, 1200);
    let all = context_of(hits);
    assert(hits =~= hits.take(i + 1) + hits.skip(i + 1));
    law_contexts_are_put_together(hits.take(i + 1), hits.skip(i + 1));
    assert(hits.take(i + 1).drop_last() =~= hits.take(i));
    assert(context_of(hits.take(i + 1)) == start + hit_text(h));
    reveal_strlit("## ");
    reveal_strlit(" — ");
    reveal_strlit("\n");
    reveal_strlit("\n\n");
    let rest = context_of(hits.skip(i + 1));
    assert(all == start + hit_text(h) + rest);
    let n = start.len() as int;
    assert(all.subrange(n + 3, n + 3 + title.len()) =~= title);
    let f = n + 3 + title.len() + 3;
    assert(all.subrange(f, f + feed.len()) =~= feed);
    let b = f + feed.len() + 1;
    assert(all.subrange(b, b + kept.len()) =~= kept);
    assert(h.body@.take(kept.len() as int) =~= kept);
    assert(hits.take(hits.len() as int) =~= hits);
    assert(hits.take(0) =~= Seq::<Hit>::empty());
}

/// Without any article the model is told so, and still asked.
pub proof fn law_questions_without_articles(question: Seq<char>)
    ensures
        ask_user(context_of(Seq::<Hit>::empty()), question)
            == "No relevant articles were found.\n\nQuestion: "@ + question,
{
    law_context_is_blank_without_hits_only(Seq::<Hit>::empty());
}

/// The lines of two lists of articles, put one behind the other, are the lines of both lists.
pub proof fn law_briefings_are_put_together(a: Seq<DigestItem>, b: Seq<DigestItem>)
    ensures
        corpus_of(a + b) == corpus_of(a) + corpus_of(b),
        digest_user(a + b) == digest_user(a) + corpus_of(b),
    decreases b.len(),
{
    if b.len() == 0 {
        assert(a + b =~= a);
        assert(corpus_of(a) + corpus_of(b) =~= corpus_of(a));
    } else {
        law_briefings_are_put_together(a, b.drop_last());
        assert((a + b).drop_last() =~= a + b.drop_last());
        assert(corpus_of(a) + corpus_of(b.drop_last()) + digest_line(b.last()) =~= corpus_of(a) + (
        corpus_of(b.drop_last()) + digest_line(b.last())));
    }
    assert("Recent articles from my feeds:\n\n"@ + (corpus_of(a) + corpus_of(b))
        =~= "Recent articles from my feeds:\n\n"@ + corpus_of(a) + corpus_of(b));
}

/// Each article of a briefing has a line of its own with its feed, its title and the first 400
/// characters of its text, behind the articles that come before it.
pub proof fn law_every_article_is_in_the_briefing(
    before: Seq<DigestItem>,
    d: DigestItem,
    after: Seq<DigestItem>,
)
    ensures
        digest_user(before.push(d) + after) == "Recent articles from my feeds:\n\n"@ + corpus_of(
            before,
        ) + ("- ["@ + d.feed@ + "] "@ + d.title@ + ": "@ + (if d.text@.len() <= 400 {
            d.text@
        } else {
            d.text@.take(400)
        }) + "\n"@) + corpus_of(after),
        corpus_of(Seq::<DigestItem>::empty()).len() == 0,
{
    law_briefings_are_put_together(before.push(d), after);
    assert(before.push(d).drop_last() =~= before);
    assert("Recent articles from my feeds:\n\n"@ + (corpus_of(before) + digest_line(d))
        =~= "Recent articles from my feeds:\n\n"@ + corpus_of(before) + digest_line(d));
}

/// The article that is summarised or translated is handed over whole, unless it is too long: then
/// its message is the start of what the whole message would be, cut at 8000 characters of the body
/// for a summary and at 12000 for a translation.
pub proof fn law_articles_are_handed_over_whole(title: Seq<char>, body: Seq<char>)
    ensures
        body.len() <= 8000 ==> summary_user(title, body) == "Title: "@ + title + "\n\n"@ + body,
        summary_user(title, body).is_prefix_of("Title: "@ + title + "\n\n"@ + body),
        body.len() > 8000 ==> summary_user(title, body).len() == 7 + title.len() + 2 + 8000,
        body.len() <= 12000 ==> translate_user(title, body) == "# "@ + title + "\n\n"@ + body,
        translate_user(title, body).is_prefix_of("# "@ + title + "\n\n"@ + body),
        body.len() > 12000 ==> translate_user(title, body).len() == 2 + title.len() + 2 + 12000,
{
    reveal_strlit("Title: ");
    reveal_strlit("# ");
    reveal_strlit("\n\n");
    let a = summary_user(title, body);
    let whole_a = "Title: "@ + title + "\n\n"@ + body;
    assert(whole_a.subrange(0, a.len() as int) =~= a);
    let b = translate_user(title, body);
    let whole_b = "# "@ + title + "\n\n"@ + body;
    assert(whole_b.subrange(0, b.len() as int) =~= b);
}

/// The answer is asked for in the UI language: Chinese for `zh`, Japanese for `ja`, English for
/// everything else. The language is named at the end of each system message, and in a translation
/// wherever the target language is spoken of.
pub proof fn law_answers_are_in_the_ui_language(language: Option<Seq<char>>)
    ensures
        ({
            let name = language_name(language);
            let sentence = "\n\nAlways write your response in "@ + name + "."@;
            &&& language == Some("zh"@) ==> name == "Simplified Chinese"@
            &&& language == Some("ja"@) ==> name == "Japanese"@
            &&& language != Some("zh"@) && language != Some("ja"@) ==> name == "English"@
            &&& summary_system(language) == SUMMARY_SYSTEM@ + sentence
            &&& ask_system(language) == ASK_SYSTEM@ + sentence
            &&& digest_system(language) == DIGEST_SYSTEM@ + sentence
            &&& occurs_at(translate_system(language), name, TRANSLATE_SYSTEM_HEAD@.len() as int)
            &&& occurs_at(
                translate_system(language),
                name,
                TRANSLATE_SYSTEM_HEAD@.len() + name.len() + TRANSLATE_SYSTEM_BODY@.len() as int,
            )
        }),
{
    reveal_strlit("zh");
    reveal_strlit("ja");
    assert("zh"@[0] != "ja"@[0]);
    reveal_strlit("\n\nAlways write your response in ");
    reveal_strlit("\n\nAlways write your response in Simplified Chinese.");
    reveal_strlit("\n\nAlways write your response in Japanese.");
    reveal_strlit("\n\nAlways write your response in English.");
    reveal_strlit("Simplified Chinese");
    reveal_strlit("Japanese");
    reveal_strlit("English");
    reveal_strlit(".");
    let name = language_name(language);
    assert(directive(language) =~= "\n\nAlways write your response in "@ + name + "."@);
    let t = translate_system(language);
    let h = TRANSLATE_SYSTEM_HEAD@.len() as int;
    assert(t.subrange(h, h + name.len()) =~= name);
    let k = h + name.len() + TRANSLATE_SYSTEM_BODY@.len();
    assert(t.subrange(k, k + name.len()) =~= name);
}

/// A summary that arrived whole is kept without the white space around it; a blank one, and a
/// fragment, is not kept at all.
pub proof fn law_whole_summaries_are_kept(lead: Seq<char>, core: Seq<char>, tail: Seq<char>)
    requires
        forall|i: int| 0 <= i < lead.len() ==> is_white_space(#[trigger] lead[i]),
        forall|i: int| 0 <= i < tail.len() ==> is_white_space(#[trigger] tail[i]),
        core.len() > 0 ==> !is_white_space(core[0]) && !is_white_space(core.last()),
    ensures
        core.len() > 0 ==> kept_summary(lead + core + tail, true) == Some(core),
        core.len() == 0 ==> kept_summary(lead + core + tail, true) is None,
        kept_summary(lead + core + tail, false) is None,
{
    law_trimming(lead, core, tail);
}

/// What the settings say reaches the configuration: the key, the model and the root without white
/// space around them, the root without slashes at its end, and the provider by its name.
pub proof fn law_settings_reach_the_configuration(
    s: Settings,
    shipped: Seq<char>,
    cfg: AiConfig,
    lead: Seq<char>,
    core: Seq<char>,
    slashes: Seq<char>,
    tail: Seq<char>,
)
    requires
        configured_as(s, shipped, cfg),
        forall|i: int| 0 <= i < lead.len() ==> is_white_space(#[trigger] lead[i]),
        forall|i: int| 0 <= i < tail.len() ==> is_white_space(#[trigger] tail[i]),
        forall|i: int| 0 <= i < slashes.len() ==> #[trigger] slashes[i] == '/',
        core.len() > 0,
        !is_white_space(core[0]),
        !is_white_space(core.last()),
        core.last() != '/',
    ensures
        s.at("ai_api_key"@) == StoredView::Value(lead + core + tail) ==> cfg.api_key@ == core,
        s.at("ai_model"@) == StoredView::Value(lead + core + tail) ==> cfg.model@ == core,
        s.at("ai_base_url"@) == StoredView::Value(lead + core + slashes + tail) ==> cfg.base_url@
            == core,
        s.at("ai_provider"@) == StoredView::Value("openai"@) <==> cfg.provider is OpenAi,
        s.at("ai_model"@) is Missing && cfg.provider is OpenAi ==> cfg.model@ == "gpt-4.1-mini"@,
        s.at("ai_model"@) is Missing && cfg.provider is Anthropic ==> cfg.model@ == shipped,
        s.at("ai_base_url"@) is Missing && cfg.provider is OpenAi ==> cfg.base_url@
            == "https://api.openai.com/v1"@,
        s.at("ai_base_url"@) is Missing && cfg.provider is Anthropic ==> cfg.base_url@
            == "https://api.anthropic.com/v1"@,
{
    law_pasted_settings_are_trimmed(lead, core, tail, cfg.provider, shipped);
    law_custom_roots(lead, core, slashes, tail, cfg.provider);
}

/// A chat needs a key and readable settings; where these are in order, only input without anything
/// to ask for is refused, under the code of the command.
pub proof fn law_chats_need_a_key(s: Settings, code: Seq<char>, m: Seq<char>)
    requires
        !(s.at("ai_provider"@) is Unreadable),
    ensures
        s.at("ai_api_key"@) == StoredView::Unreadable(m) ==> config_error(s) == Some(
            AppErrorView::Other(m),
        ),
        ({
            let readable = !(s.at("ai_api_key"@) is Unreadable) && !(s.at("ai_model"@) is Unreadable)
                && !(s.at("ai_base_url"@) is Unreadable);
            &&& readable && s.at("ai_api_key"@) is Missing ==> config_error(s) == Some(
                AppErrorView::Code("noAiKey"@),
            )
            &&& !readable ==> config_error(s) is Some
        }),
        config_error(s) is Some ==> chat_error(s, true, code) == config_error(s) && chat_error(
            s,
            false,
            code,
        ) == config_error(s),
        config_error(s) is None ==> chat_error(s, true, code) == Some(AppErrorView::Code(code)),
        config_error(s) is None ==> chat_error(s, false, code) is None,
{
}

} // verus!
