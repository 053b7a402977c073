//! Small decisions of the reader: counts, tags, filter rules and full-text extraction.

use crate::error::{AppError, AppErrorView, AppResult};
use crate::text::{blank, is_blank, is_white_space, law_trimming, trim, trimmed};
use vstd::prelude::*;

verus! {

// ----------------------------------------------------------------------- counts

/// The counts behind the smart views.
pub struct SmartCounts {
    pub unread: i64,
    pub starred: i64,
    pub read_later: i64,
}

/// The counts, from what the store counted.
pub fn smart_counts(counted: (i64, i64, i64)) -> (r: SmartCounts)
    ensures
        r.unread == counted.0,
        r.starred == counted.1,
        r.read_later == counted.2,
{
    SmartCounts { unread: counted.0, starred: counted.1, read_later: counted.2 }
}

/// How much the store holds.
pub struct StorageStats {
    pub db_bytes: i64,
    pub article_count: i64,
    pub feed_count: i64,
}

/// The size of the store, from what it measured.
pub fn storage_stats(measured: (i64, i64, i64)) -> (r: StorageStats)
    ensures
        r.db_bytes == measured.0,
        r.article_count == measured.1,
        r.feed_count == measured.2,
{
    StorageStats { db_bytes: measured.0, article_count: measured.1, feed_count: measured.2 }
}

/// Whether a FreshRSS server is linked, and which.
pub struct FreshRssStatus {
    pub connected: bool,
    pub url: Option<String>,
}

/// A server is linked exactly when its URL is stored.
pub fn freshrss_status(url: Option<String>) -> (r: FreshRssStatus)
    ensures
        r.connected == (url is Some),
        r.url == url,
{
    FreshRssStatus { connected: url.is_some(), url }
}

/// What a rule would match.
pub struct RulePreview {
    pub count: i64,
    pub samples: Vec<String>,
}

/// The preview, from what the store matched.
pub fn preview_rule(matched: (i64, Vec<String>)) -> (r: RulePreview)
    ensures
        r.count == matched.0,
        r.samples == matched.1,
{
    let (count, samples) = matched;
    RulePreview { count, samples }
}

// ------------------------------------------------------------------------- tags

/// The name that a typed tag name stands for; a blank one stands for none.
pub open spec fn tag_named(typed: Seq<char>) -> Option<Seq<char>> {
    if is_blank(typed) {
        None
    } else {
        Some(trimmed(typed))
    }
}

/// The name under which a tag is created or renamed: trimmed, and never empty.
pub fn tag_name(name: &str) -> (r: AppResult<String>)
    ensures
        match r {
            Ok(n) => tag_named(name@) == Some(n@),
            Err(e) => tag_named(name@) is None && e@ == AppErrorView::Code("emptyTagName"@),
        },
{
    let name = trim(name);
    if name.is_empty() {
        Err(AppError::code("emptyTagName"))
    } else {
        Ok(name.to_string())
    }
}

// ------------------------------------------------------------------------ rules

/// The texts of a filter rule.
pub struct RuleDraft {
    pub name: String,
    pub query: String,
}

/// The name and the query that a typed rule stands for; one with a blank query stands for none.
pub open spec fn rule_named(name: Seq<char>, query: Seq<char>) -> Option<(Seq<char>, Seq<char>)> {
    if is_blank(query) {
        None
    } else {
        Some((trimmed(name), trimmed(query)))
    }
}

/// The name and the query with which a rule is created or updated: both trimmed, the query never
/// empty.
pub fn rule_draft(name: &str, query: &str) -> (r: AppResult<RuleDraft>)
    ensures
        match r {
            Ok(d) => rule_named(name@, query@) == Some((d.name@, d.query@)),
            Err(e) => rule_named(name@, query@) is None && e@ == AppErrorView::Code(
                "emptyRuleQuery"@,
            ),
        },
{
    if blank(query) {
        return Err(AppError::code("emptyRuleQuery"));
    }
    Ok(RuleDraft { name: trim(name).to_string(), query: trim(query).to_string() })
}

// -------------------------------------------------------------------- full text

/// The page from which the full text of an article is extracted.
pub fn extract_fulltext(url: Option<String>) -> (r: AppResult<String>)
    ensures
        match r {
            Ok(u) => url == Some(u),
            Err(e) => url is None && e@ == AppErrorView::Code("noArticleUrl"@),
        },
{
    match url {
        Some(u) => Ok(u),
        None => Err(AppError::code("noArticleUrl")),
    }
}

// ------------------------------------------------------------------------- laws

/// Tags and rules are named without the white space around what was typed. A tag needs a name and a
/// rule needs a query; the name of a rule may be blank.
pub proof fn law_typed_names_are_trimmed(
    lead: Seq<char>,
    core: Seq<char>,
    tail: Seq<char>,
    other: Seq<char>,
)
    requires
        forall|i: int| 0 <= i < lead.len() ==> is_white_space(#[trigger] lead[i]),
        forall|i: int| 0 <= i < tail.len() ==> is_white_space(#[trigger] tail[i]),
        core.len() > 0 ==> !is_white_space(core[0]) && !is_white_space(core.last()),
    ensures
        core.len() > 0 ==> tag_named(lead + core + tail) == Some(core),
        core.len() == 0 ==> tag_named(lead + core + tail) is None,
        core.len() > 0 ==> (rule_named(other, lead + core + tail) matches Some((_, query)) && query
            == core),
        core.len() == 0 ==> rule_named(other, lead + core + tail) is None,
        rule_named(lead + core + tail, other) matches Some((name, _)) ==> name == core,
{
    law_trimming(lead, core, tail);
}

} // verus!
