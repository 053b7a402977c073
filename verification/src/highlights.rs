//! Exporting an article's highlights.

use crate::error::{AppError, AppErrorView, AppResult};
use crate::settings::{is_configured, require_setting, requirement_error, Settings, StoredView};
use crate::text::{
    blank, byte_cut, byte_len, decimal, decimal_int, decimal_nat, is_blank, is_white_space,
    lemma_byte_cut, lemma_byte_len_add, lemma_byte_len_ascii, lemma_decimal_nat_digits,
    lemma_decimal_nat_len, lemma_without_end, lemma_without_end_bounds, lemma_without_start,
    lemma_without_start_bounds, option_text, pow10, take_bytes, trim, trim_end_of, trim_start_of,
    trimmed, width, without_end, without_start, Class,
};
use vstd::prelude::*;

verus! {

// ------------------------------------------------------------------ the article

/// What the store knows of one article.
pub struct ArticleDetail {
    pub title: String,
    pub url: Option<String>,
    pub author: Option<String>,
    pub feed_title: String,
    pub published_at: Option<i64>,
    pub content_html: Option<String>,
    pub extracted_html: Option<String>,
}

/// The article data that an export carries.
pub struct ExportArticle {
    pub title: String,
    pub url: Option<String>,
    pub author: Option<String>,
    pub feed_title: String,
    pub published_at: Option<i64>,
}

/// Both describe the same article.
pub open spec fn exports(article: ExportArticle, detail: ArticleDetail) -> bool {
    &&& article.title == detail.title
    &&& article.url == detail.url
    &&& article.author == detail.author
    &&& article.feed_title == detail.feed_title
    &&& article.published_at == detail.published_at
}

/// The part of an article that goes into an export.
pub fn load_for_export(detail: ArticleDetail) -> (r: ExportArticle)
    ensures
        exports(r, detail),
{
    ExportArticle {
        title: detail.title,
        url: detail.url,
        author: detail.author,
        feed_title: detail.feed_title,
        published_at: detail.published_at,
    }
}

// ------------------------------------------------------------------- file names

/// The longest file name, in bytes, that common file systems take.
pub const MAX_NAME_BYTES: usize = 255;

/// A character that some file system does not take in a name.
pub open spec fn is_reserved(c: char) -> bool {
    ||| c == '/'
    ||| c == '\\'
    ||| c == ':'
    ||| c == '*'
    ||| c == '?'
    ||| c == '"'
    ||| c == '<'
    ||| c == '>'
    ||| c == '|'
    ||| (c as u32) < 0x20
    ||| 0x7f <= (c as u32) < 0xa0
}

/// `c`, or a hyphen in its place.
pub open spec fn safe_char(c: char) -> char {
    if is_reserved(c) {
        '-'
    } else {
        c
    }
}

fn to_safe_char(c: char) -> (r: char)
    ensures
        r == safe_char(c),
{
    let p: u32 = c as u32;
    if c == '/' || c == '\\' || c == ':' || c == '*' || c == '?' || c == '"' || c == '<' || c == '>'
        || c == '|' || p < 0x20 || (0x7f <= p && p < 0xa0) {
        '-'
    } else {
        c
    }
}

/// The title without what may not begin or end a name.
pub open spec fn bare_title(title: Seq<char>) -> Seq<char> {
    without_end(without_start(title, Class::WhiteSpaceOrDot), Class::WhiteSpace)
}

/// The title as the stem of a file name.
pub open spec fn name_stem(title: Seq<char>) -> Seq<char> {
    bare_title(title).map_values(|c: char| safe_char(c))
}

/// The file name for a title: its stem, cut to leave room for the extension within the limit, or
/// the fallback where the title leaves no stem.
pub open spec fn file_name(title: Seq<char>, ext: Seq<char>, fallback: Seq<char>) -> Seq<char> {
    if name_stem(title).len() == 0 {
        fallback
    } else {
        byte_cut(name_stem(title), MAX_NAME_BYTES - byte_len(ext)) + ext
    }
}

/// Derives a filesystem-safe file name from a title: reserved characters become hyphens, leading
/// dots and surrounding white space go, and a long stem is cut between characters.
pub fn safe_filename(title: &str, ext: &str, fallback: &str) -> (r: String)
    requires
        byte_len(ext@) <= MAX_NAME_BYTES,
    ensures
        r@ == file_name(title@, ext@, fallback@),
{
    let bare = trim_end_of(trim_start_of(title, Class::WhiteSpaceOrDot), Class::WhiteSpace);
    let mut stem = String::new();
    for c in it: bare.chars()
        invariant
            it.seq() == bare@,
            stem@ == bare@.take(it.index() as int).map_values(|c: char| safe_char(c)),
    {
        stem.push(to_safe_char(c));
        assert(bare@.take(it.index() + 1) =~= bare@.take(it.index() as int).push(c));
        assert(stem@ =~= bare@.take(it.index() + 1).map_values(|c: char| safe_char(c)));
    }
    assert(bare@.take(bare@.len() as int) =~= bare@);
    if stem.as_str().is_empty() {
        fallback.to_string()
    } else {
        let ext_bytes: usize = crate::text::count_bytes(ext, MAX_NAME_BYTES);
        let mut name = take_bytes(stem.as_str(), MAX_NAME_BYTES - ext_bytes);
        name.append(ext);
        name
    }
}

/// The file name of an article's note.
pub open spec fn note_name(title: Seq<char>, article_id: int) -> Seq<char> {
    file_name(title, ".md"@, "highlights-"@ + decimal_int(article_id) + ".md"@)
}

/// Derives a filesystem-safe `.md` note name from an article title, falling back to a stable
/// `highlights-<id>.md` when the title yields an empty stem.
pub fn obsidian_note_filename(title: &str, article_id: i64) -> (r: String)
    ensures
        r@ == note_name(title@, article_id as int),
{
    let mut fallback = "highlights-".to_string();
    fallback.append(decimal(article_id).as_str());
    fallback.append(".md");
    proof {
        lemma_extension();
    }
    safe_filename(title, ".md", fallback.as_str())
}

proof fn lemma_extension()
    ensures
        ".md"@ == seq!['.', 'm', 'd'],
        byte_len(".md"@) == 3,
{
    reveal_strlit(".md");
    assert(".md"@ =~= seq!['.', 'm', 'd']);
    lemma_byte_len_ascii(".md"@);
}

/// The fallback name is short, plain and not hidden.
proof fn lemma_fallback(article_id: int)
    requires
        i64::MIN <= article_id <= i64::MAX,
    ensures
        ({
            let name = "highlights-"@ + decimal_int(article_id) + ".md"@;
            &&& byte_len(name) <= MAX_NAME_BYTES
            &&& name[0] == 'h'
            &&& forall|i: int| 0 <= i < name.len() ==> !is_reserved(#[trigger] name[i])
        }),
{
    let name = "highlights-"@ + decimal_int(article_id) + ".md"@;
    reveal_strlit("highlights-");
    lemma_extension();
    let n: nat = if article_id < 0 {
        (-article_id) as nat
    } else {
        article_id as nat
    };
    assert(n < pow10(20)) by {
        reveal_with_fuel(pow10, 21);
    }
    lemma_decimal_nat_len(n, 20);
    lemma_decimal_nat_digits(n);
    let d = decimal_nat(n);
    assert forall|i: int| 0 <= i < name.len() implies !is_reserved(#[trigger] name[i])
        && (name[i] as u32) < 0x80 by {
        let at = i - 11;
        if 0 <= at < decimal_int(article_id).len() {
            assert(name[i] == decimal_int(article_id)[at]);
            if article_id < 0 {
                if at > 0 {
                    assert(name[i] == d[at - 1]);
                }
            } else {
                assert(name[i] == d[at]);
            }
        }
    }
    lemma_byte_len_ascii(name);
}

/// Whatever the title, the note's name fits a file system's limit, ends in `.md`, holds no
/// reserved character and is not hidden.
pub proof fn law_note_names_are_safe(title: Seq<char>, article_id: i64)
    ensures
        byte_len(note_name(title, article_id as int)) <= MAX_NAME_BYTES,
        ".md"@.is_suffix_of(note_name(title, article_id as int)),
        note_name(title, article_id as int).len() > 3,
        note_name(title, article_id as int)[0] != '.',
        forall|i: int|
            0 <= i < note_name(title, article_id as int).len() ==> !is_reserved(
                #[trigger] note_name(title, article_id as int)[i],
            ),
{
    let name = note_name(title, article_id as int);
    let stem = name_stem(title);
    lemma_extension();
    lemma_fallback(article_id as int);
    if stem.len() > 0 {
        let room = MAX_NAME_BYTES - 3;
        let kept = byte_cut(stem, room);
        lemma_byte_cut(stem, room);
        lemma_byte_len_add(kept, ".md"@);
        let n = lemma_without_start_bounds(title, Class::WhiteSpaceOrDot);
        let t = title.skip(n);
        let m = lemma_without_end_bounds(t, Class::WhiteSpace);
        assert(t[0] == title[n]);
        assert(stem[0] == safe_char(t[0]));
        assert(kept.len() > 0);
        assert(kept == stem.subrange(0, kept.len() as int));
        assert(name[0] == kept[0]);
        assert(kept[0] == stem[0]);
        assert forall|i: int| 0 <= i < name.len() implies !is_reserved(#[trigger] name[i]) by {
            if i < kept.len() {
                assert(name[i] == kept[i]);
                assert(kept[i] == stem.subrange(0, kept.len() as int)[i]);
                assert(stem[i] == safe_char(bare_title(title)[i]));
            } else {
                assert(name[i] == ".md"@[i - kept.len()]);
            }
        }
    }
    assert(name.subrange(name.len() - 3, name.len() as int) =~= ".md"@);
}

/// A title of nothing but white space and dots gives the fallback name.
pub proof fn law_empty_titles_fall_back(title: Seq<char>, article_id: int)
    requires
        forall|i: int| 0 <= i < title.len() ==> is_white_space(#[trigger] title[i]) || title[i] == '.',
    ensures
        note_name(title, article_id) == "highlights-"@ + decimal_int(article_id) + ".md"@,
{
    let n = lemma_without_start_bounds(title, Class::WhiteSpaceOrDot);
    if n < title.len() {
        assert(!Class::WhiteSpaceOrDot.holds(title[n]));
    }
    let t = title.skip(n);
    let m = lemma_without_end_bounds(t, Class::WhiteSpace);
}

/// A short, ordinary title is kept as it stands.
pub proof fn law_ordinary_titles_are_kept(title: Seq<char>, article_id: int)
    requires
        0 < title.len(),
        byte_len(title) <= MAX_NAME_BYTES - 3,
        !is_white_space(title[0]) && title[0] != '.',
        !is_white_space(title.last()),
        forall|i: int| 0 <= i < title.len() ==> !is_reserved(#[trigger] title[i]),
    ensures
        note_name(title, article_id) == title + ".md"@,
{
    lemma_extension();
    assert(bare_title(title) == title);
    assert(name_stem(title) =~= title);
    lemma_byte_cut(title, MAX_NAME_BYTES - 3);
}

// ---------------------------------------------------------------------- exports

/// Where an Obsidian note goes.
pub struct NotePlan {
    pub folder: String,
    pub name: String,
}

/// Decides the folder and the name of an article's note in the configured vault.
pub fn export_highlights_to_obsidian(title: &str, article_id: i64, settings: &Settings) -> (r:
    AppResult<NotePlan>)
    ensures
        match r {
            Ok(plan) => {
                &&& requirement_error(settings.at("obsidian_vault"@), "noObsidianVault"@) is None
                &&& settings.at("obsidian_vault"@) matches StoredView::Value(v) && plan.folder@
                    == trimmed(v)
                &&& plan.name@ == note_name(title@, article_id as int)
            },
            Err(e) => requirement_error(settings.at("obsidian_vault"@), "noObsidianVault"@)
                == Some(e@),
        },
{
    let vault = require_setting(settings, "obsidian_vault", "noObsidianVault")?;
    Ok(
        NotePlan {
            folder: trim(vault.as_str()).to_string(),
            name: obsidian_note_filename(title, article_id),
        },
    )
}

/// What keeps highlights from going to Readwise.
pub open spec fn readwise_error(s: Settings, count: nat) -> Option<AppErrorView> {
    match requirement_error(s.at("readwise_token"@), "noReadwiseToken"@) {
        Some(e) => Some(e),
        None => if count == 0 {
            Some(AppErrorView::Code("noHighlights"@))
        } else {
            None
        },
    }
}

/// Decides the access token with which `count` highlights go to Readwise.
pub fn export_highlights_to_readwise(count: usize, settings: &Settings) -> (r: AppResult<String>)
    ensures
        match r {
            Ok(token) => {
                &&& readwise_error(*settings, count as nat) is None
                &&& settings.at("readwise_token"@) matches StoredView::Value(v) && token@
                    == trimmed(v)
            },
            Err(e) => readwise_error(*settings, count as nat) == Some(e@),
        },
{
    let token = require_setting(settings, "readwise_token", "noReadwiseToken")?;
    if count == 0 {
        return Err(AppError::code("noHighlights"));
    }
    Ok(trim(token.as_str()).to_string())
}

/// What keeps highlights from going to Notion.
pub open spec fn notion_error(s: Settings, count: nat) -> Option<AppErrorView> {
    match requirement_error(s.at("notion_token"@), "noNotionToken"@) {
        Some(e) => Some(e),
        None => match requirement_error(s.at("notion_page"@), "noNotionPage"@) {
            Some(e) => Some(e),
            None => if count == 0 {
                Some(AppErrorView::Code("noHighlights"@))
            } else {
                None
            },
        },
    }
}

/// The integration token and the target page of a Notion export.
pub struct NotionPlan {
    pub token: String,
    pub page: String,
}

/// Decides the token and the page with which `count` highlights go to Notion.
pub fn export_highlights_to_notion(count: usize, settings: &Settings) -> (r: AppResult<NotionPlan>)
    ensures
        match r {
            Ok(plan) => {
                &&& notion_error(*settings, count as nat) is None
                &&& settings.at("notion_token"@) matches StoredView::Value(v) && plan.token@
                    == trimmed(v)
                &&& settings.at("notion_page"@) matches StoredView::Value(v) && plan.page@
                    == trimmed(v)
            },
            Err(e) => notion_error(*settings, count as nat) == Some(e@),
        },
{
    let token = require_setting(settings, "notion_token", "noNotionToken")?;
    let page = require_setting(settings, "notion_page", "noNotionPage")?;
    if count == 0 {
        return Err(AppError::code("noHighlights"));
    }
    Ok(
        NotionPlan {
            token: trim(token.as_str()).to_string(),
            page: trim(page.as_str()).to_string(),
        },
    )
}

/// A highlight on an article: the quote plus its anchoring context.
pub struct NewHighlight {
    pub article_id: i64,
    pub quote: String,
    pub prefix: String,
    pub suffix: String,
    pub text_offset: i64,
    pub color: String,
    pub note: String,
}

/// Admits a highlight to the store: it is kept as it came, unless its quote is blank.
pub fn create_highlight(highlight: NewHighlight) -> (r: AppResult<NewHighlight>)
    ensures
        match r {
            Ok(h) => h == highlight && !is_blank(highlight.quote@),
            Err(e) => e@ == AppErrorView::Code("emptyHighlight"@) && is_blank(highlight.quote@),
        },
{
    if blank(highlight.quote.as_str()) {
        Err(AppError::code("emptyHighlight"))
    } else {
        Ok(highlight)
    }
}

// ------------------------------------------------------------------------- laws

proof fn lemma_byte_len_bound(s: Seq<char>)
    ensures
        byte_len(s) <= 4 * s.len(),
    decreases s.len(),
{
    if s.len() == 0 {
        assert(s =~= seq![]);
        lemma_byte_len_ascii(s);
    } else {
        let t = s.drop_last();
        lemma_byte_len_bound(t);
        lemma_byte_len_add(t, seq![s.last()]);
        assert(t + seq![s.last()] =~= s);
        lemma_byte_len_one(s.last());
    }
}

/// The characters that may not stand in a file name.
pub proof fn law_reserved_characters(c: char)
    ensures
        is_reserved(c) <==> {
            ||| c == '/' || c == '\\' || c == ':' || c == '*' || c == '?'
            ||| c == '"' || c == '<' || c == '>' || c == '|'
            ||| c <= '\u{1f}' || '\u{7f}' <= c <= '\u{9f}'
        },
{
}

/// The note of a title is named after it, character by character: the characters that file systems
/// reserve and the control characters become hyphens, every other character stands for itself. White
/// space around the title, and dots before it, are left out.
pub proof fn law_note_names_follow_the_title(
    lead: Seq<char>,
    title: Seq<char>,
    tail: Seq<char>,
    article_id: int,
)
    requires
        forall|i: int| 0 <= i < lead.len() ==> is_white_space(#[trigger] lead[i]) || lead[i] == '.',
        forall|i: int| 0 <= i < tail.len() ==> is_white_space(#[trigger] tail[i]),
        0 < title.len() <= 63,
        !is_white_space(title[0]) && title[0] != '.',
        !is_white_space(title.last()),
    ensures
        ({
            let name = note_name(lead + title + tail, article_id);
            &&& name.len() == title.len() + 3
            &&& name.skip(title.len() as int) == ".md"@
            &&& forall|i: int|
                0 <= i < title.len() ==> {
                    let c = title[i];
                    let reserved = {
                        ||| c == '/' || c == '\\' || c == ':' || c == '*' || c == '?'
                        ||| c == '"' || c == '<' || c == '>' || c == '|'
                        ||| c <= '\u{1f}' || '\u{7f}' <= c <= '\u{9f}'
                    };
                    #[trigger] name[i] == if reserved {
                        '-'
                    } else {
                        c
                    }
                }
        }),
{
    let all = lead + title + tail;
    let n = lead.len() as int;
    assert forall|k: int| 0 <= k < n implies Class::WhiteSpaceOrDot.holds(#[trigger] all[k]) by {
        assert(all[k] == lead[k]);
    }
    assert(all[n] == title[0]);
    lemma_without_start(all, Class::WhiteSpaceOrDot, n);
    let t = all.skip(n);
    assert(t =~= title + tail);
    let l = title.len() as int;
    assert forall|k: int| l <= k < t.len() implies Class::WhiteSpace.holds(#[trigger] t[k]) by {
        assert(t[k] == tail[k - l]);
    }
    assert(t[l - 1] == title.last());
    lemma_without_end(t, Class::WhiteSpace, l);
    assert(t.take(l) =~= title);
    let stem = name_stem(all);
    assert(stem.len() == l);
    lemma_extension();
    lemma_byte_len_bound(stem);
    lemma_byte_cut(stem, MAX_NAME_BYTES - 3);
    let name = note_name(all, article_id);
    assert(name == stem + ".md"@);
    assert(name.skip(l) =~= ".md"@);
    assert(name.len() == l + 3);
    assert forall|i: int| 0 <= i < title.len() implies ({
        let c = title[i];
        let reserved = {
            ||| c == '/' || c == '\\' || c == ':' || c == '*' || c == '?'
            ||| c == '"' || c == '<' || c == '>' || c == '|'
            ||| c <= '\u{1f}' || '\u{7f}' <= c <= '\u{9f}'
        };
        #[trigger] name[i] == if reserved {
            '-'
        } else {
            c
        }
    }) by {
        assert(name[i] == stem[i]);
        assert(stem[i] == safe_char(title[i]));
        law_reserved_characters(title[i]);
    }
}

/// A long name is cut between characters, and not earlier than it has to be: what is kept with its
/// extension takes at most 255 bytes, and one character more would not fit.
pub proof fn law_long_titles_are_cut_late(title: Seq<char>, article_id: int) -> (n: int)
    requires
        name_stem(title).len() > 0,
    ensures
        0 <= n <= name_stem(title).len(),
        note_name(title, article_id) == name_stem(title).take(n) + ".md"@,
        byte_len(name_stem(title).take(n)) <= 252,
        n < name_stem(title).len() ==> byte_len(name_stem(title).take(n + 1)) > 252,
{
    let stem = name_stem(title);
    lemma_extension();
    lemma_byte_cut(stem, 252);
    let kept = byte_cut(stem, 252);
    let n = kept.len() as int;
    assert(stem.take(n) =~= kept);
    if n < stem.len() {
        assert(stem.take(n + 1) =~= kept + seq![stem[n]]);
        lemma_byte_len_add(kept, seq![stem[n]]);
        lemma_byte_len_one(stem[n]);
    }
    n
}

/// The encoding of one character.
proof fn lemma_byte_len_one(c: char)
    ensures
        byte_len(seq![c]) == width(c),
        1 <= width(c) <= 4,
{
    lemma_byte_cut(seq![c], width(c) as int);
    assert(seq![c].drop_first() =~= Seq::<char>::empty());
    assert(byte_cut(Seq::<char>::empty(), 0) =~= Seq::<char>::empty());
    assert(byte_cut(seq![c], width(c) as int) =~= seq![c]);
    lemma_byte_cut(seq![c], width(c) - 1);
    assert(byte_cut(seq![c], width(c) - 1) =~= Seq::<char>::empty());
    if byte_len(seq![c]) <= width(c) - 1 {
        assert(byte_cut(seq![c], width(c) - 1) == seq![c]);
        assert(seq![c].len() == 1);
    }
}

/// Exports name what they lack: the token, the page, and at last the highlights themselves.
pub proof fn law_exports_name_what_they_lack(s: Settings, count: nat)
    ensures
        s.at("readwise_token"@) is Missing ==> readwise_error(s, count) == Some(
            AppErrorView::Code("noReadwiseToken"@),
        ),
        is_configured(s.at("readwise_token"@)) ==> readwise_error(s, count) == if count == 0 {
            Some(AppErrorView::Code("noHighlights"@))
        } else {
            None
        },
        s.at("notion_token"@) is Missing ==> notion_error(s, count) == Some(
            AppErrorView::Code("noNotionToken"@),
        ),
        is_configured(s.at("notion_token"@)) && s.at("notion_page"@) is Missing ==> notion_error(
            s,
            count,
        ) == Some(AppErrorView::Code("noNotionPage"@)),
        is_configured(s.at("notion_token"@)) && is_configured(s.at("notion_page"@)) ==> notion_error(
            s,
            count,
        ) == if count == 0 {
            Some(AppErrorView::Code("noHighlights"@))
        } else {
            None
        },
{
}

/// An export carries every field of the stored article.
pub proof fn law_exports_are_complete(article: ExportArticle, detail: ArticleDetail)
    requires
        exports(article, detail),
    ensures
        article.title@ == detail.title@,
        option_text(article.url) == option_text(detail.url),
        option_text(article.author) == option_text(detail.author),
        article.feed_title@ == detail.feed_title@,
        article.published_at == detail.published_at,
{
}

} // verus!
