//! Sending one article to a read-later, archive or note service.

use crate::error::{AppErrorView, AppResult};
use crate::highlights::{exports, ArticleDetail, ExportArticle};
use crate::sanitize::{entity, escaped};
use crate::settings::{
    is_configured, require_setting, requirement_error, value_of, Settings, StoredView,
};
use crate::text::{
    ascii_lower, blank, is_blank, is_white_space, law_lower_case, law_trimming, lemma_blank,
    lemma_without_start, option_text, replace, replaced, same_text, to_ascii_lower, trim,
    trim_start_of, trimmed, without_start, Class,
};
use vstd::prelude::*;

verus! {

// ------------------------------------------------------------------- plain text

/// The block-level tags that become a line break.
pub open spec fn is_break_tag(name: Seq<char>) -> bool {
    ||| name == "p"@
    ||| name == "br"@
    ||| name == "div"@
    ||| name == "li"@
    ||| name == "h1"@
    ||| name == "h2"@
    ||| name == "h3"@
    ||| name == "h4"@
    ||| name == "h5"@
    ||| name == "h6"@
    ||| name == "tr"@
    ||| name == "blockquote"@
    ||| name == "section"@
    ||| name == "article"@
}

fn break_tag(name: &str) -> (b: bool)
    ensures
        b == is_break_tag(name@),
{
    same_text(name, "p") || same_text(name, "br") || same_text(name, "div") || same_text(name, "li")
        || same_text(name, "h1") || same_text(name, "h2") || same_text(name, "h3") || same_text(
        name,
        "h4",
    ) || same_text(name, "h5") || same_text(name, "h6") || same_text(name, "tr") || same_text(
        name,
        "blockquote",
    ) || same_text(name, "section") || same_text(name, "article")
}

/// A character that ends a tag name: white space before the attributes, or the slash of a
/// self-closing tag.
pub open spec fn ends_name(c: char) -> bool {
    c == ' ' || c == '\t' || c == '\n' || c == '\r' || c == '\u{c}' || c == '/'
}

/// `s` up to the first character that ends a name.
pub open spec fn first_piece(s: Seq<char>) -> Seq<char>
    decreases s.len(),
{
    if s.len() == 0 || ends_name(s[0]) {
        seq![]
    } else {
        seq![s[0]] + first_piece(s.drop_first())
    }
}

/// The name in what stands between `<` and `>`.
pub open spec fn tag_name(tag: Seq<char>) -> Seq<char> {
    first_piece(without_start(tag, Class::Only('/')))
}

proof fn lemma_first_piece(s: Seq<char>, n: int)
    requires
        0 <= n <= s.len(),
        forall|k: int| 0 <= k < n ==> !ends_name(#[trigger] s[k]),
        n == s.len() || ends_name(s[n]),
    ensures
        first_piece(s) == s.take(n),
    decreases n,
{
    if n == 0 {
        assert(s.take(0) =~= seq![]);
    } else {
        let t = s.drop_first();
        assert(!ends_name(s[0]));
        assert forall|k: int| 0 <= k < n - 1 implies !ends_name(#[trigger] t[k]) by {
            assert(t[k] == s[k + 1]);
        }
        lemma_first_piece(t, n - 1);
        assert(seq![s[0]] + t.take(n - 1) =~= s.take(n));
    }
}

/// The name in what stands between `<` and `>`.
fn name_in_tag(tag: &str) -> (r: &str)
    ensures
        r@ == tag_name(tag@),
{
    let t = trim_start_of(tag, Class::Only('/'));
    let mut n: usize = 0;
    let mut total: usize = 0;
    let mut open: bool = true;
    let all: usize = t.unicode_len();
    for c in it: t.chars()
        invariant
            it.seq() == t@,
            all == t@.len(),
            total == it.index(),
            n <= total,
            open ==> n == total,
            !open ==> n < total && ends_name(t@[n as int]),
            forall|k: int| 0 <= k < n ==> !ends_name(#[trigger] t@[k]),
    {
        assert(c == t@[total as int]);
        if open {
            if c == ' ' || c == '\t' || c == '\n' || c == '\r' || c == '\u{c}' || c == '/' {
                open = false;
            } else {
                n = n + 1;
            }
        }
        total = total + 1;
    }
    proof {
        lemma_first_piece(t@, n as int);
        assert(t@.take(n as int) =~= t@.subrange(0, n as int));
    }
    t.substring_char(0, n)
}

/// What a reading of markup has found so far: whether a tag is open, the characters of the open tag
/// in small letters, and the text outside tags.
pub struct Stripped {
    pub in_tag: bool,
    pub tag: Seq<char>,
    pub out: Seq<char>,
}

/// The effect of one character. A `>` that closes no tag is text.
pub open spec fn strip_step(st: Stripped, c: char) -> Stripped {
    if c == '<' {
        Stripped { in_tag: true, tag: seq![], out: st.out }
    } else if c == '>' && st.in_tag {
        Stripped {
            in_tag: false,
            tag: seq![],
            out: if is_break_tag(tag_name(st.tag)) {
                st.out.push('\n')
            } else {
                st.out
            },
        }
    } else if st.in_tag {
        Stripped { in_tag: true, tag: st.tag.push(ascii_lower(c)), out: st.out }
    } else {
        Stripped { in_tag: false, tag: st.tag, out: st.out.push(c) }
    }
}

/// The effect of a run of characters.
pub open spec fn strip(html: Seq<char>) -> Stripped
    decreases html.len(),
{
    if html.len() == 0 {
        Stripped { in_tag: false, tag: seq![], out: seq![] }
    } else {
        strip_step(strip(html.drop_last()), html.last())
    }
}

/// `s` with the entities of a sanitised body decoded. `&amp;` comes last: decoding it first would
/// decode an escaped entity twice.
pub open spec fn decoded(s: Seq<char>) -> Seq<char> {
    let lt = replaced(s, "&lt;"@, "<"@);
    let gt = replaced(lt, "&gt;"@, ">"@);
    let quot = replaced(gt, "&quot;"@, "\""@);
    let apos = replaced(quot, "&#39;"@, "'"@);
    let nbsp = replaced(apos, "&nbsp;"@, " "@);
    replaced(nbsp, "&amp;"@, "&"@)
}

/// The plain text of an HTML body.
pub open spec fn body_text(html: Seq<char>) -> Seq<char> {
    decoded(strip(html).out)
}

/// Decodes the handful of entities that a sanitised body can carry, each of them once.
fn decode_entities(s: &str) -> (r: String)
    ensures
        r@ == decoded(s@),
{
    proof {
        reveal_strlit("&lt;");
        reveal_strlit("&gt;");
        reveal_strlit("&quot;");
        reveal_strlit("&#39;");
        reveal_strlit("&nbsp;");
        reveal_strlit("&amp;");
    }
    let lt = replace(s, "&lt;", "<");
    let gt = replace(lt.as_str(), "&gt;", ">");
    let quot = replace(gt.as_str(), "&quot;", "\"");
    let apos = replace(quot.as_str(), "&#39;", "'");
    let nbsp = replace(apos.as_str(), "&nbsp;", " ");
    replace(nbsp.as_str(), "&amp;", "&")
}

/// Strips HTML tags from a body, collapsing each block element to a newline so that the plain text
/// keeps paragraph breaks. Good enough for a Notion page body.
pub fn html_to_text(html: &str) -> (r: String)
    ensures
        r@ == body_text(html@),
{
    let mut out = String::new();
    let mut in_tag: bool = false;
    // The tag in small letters, gathered while inside `<...>`.
    let mut tag = String::new();
    for c in it: html.chars()
        invariant
            it.seq() == html@,
            in_tag == strip(html@.take(it.index() as int)).in_tag,
            tag@ == strip(html@.take(it.index() as int)).tag,
            out@ == strip(html@.take(it.index() as int)).out,
    {
        proof {
            let next = html@.take(it.index() + 1);
            assert(next.drop_last() =~= html@.take(it.index() as int));
            assert(next.last() == c);
        }
        if c == '<' {
            in_tag = true;
            tag = String::new();
        } else if c == '>' && in_tag {
            in_tag = false;
            if break_tag(name_in_tag(tag.as_str())) {
                out.push('\n');
            }
            tag = String::new();
        } else if in_tag {
            tag.push(to_ascii_lower(c));
        } else {
            out.push(c);
        }
    }
    assert(html@.take(html@.len() as int) =~= html@);
    decode_entities(out.as_str())
}

// ------------------------------------------------- laws of escaping and decoding

/// The characters that are still written as entities.
pub struct Coding {
    pub lt: bool,
    pub gt: bool,
    pub quot: bool,
    pub apos: bool,
}

/// How `c` is written: `&` always as an entity, the others where the coding says so.
pub open spec fn coded_char(k: Coding, c: char) -> Seq<char> {
    if c == '&' || (c == '<' && k.lt) || (c == '>' && k.gt) || (c == '"' && k.quot) || (c == '\''
        && k.apos) {
        entity(c)
    } else {
        seq![c]
    }
}

/// `s` with each character written as the coding says.
pub open spec fn coded(k: Coding, s: Seq<char>) -> Seq<char>
    decreases s.len(),
{
    if s.len() == 0 {
        seq![]
    } else {
        coded_char(k, s[0]) + coded(k, s.drop_first())
    }
}

/// What the entities are made of.
proof fn lemma_entities()
    ensures
        "&amp;"@ == seq!['&', 'a', 'm', 'p', ';'],
        "&lt;"@ == seq!['&', 'l', 't', ';'],
        "&gt;"@ == seq!['&', 'g', 't', ';'],
        "&quot;"@ == seq!['&', 'q', 'u', 'o', 't', ';'],
        "&#39;"@ == seq!['&', '#', '3', '9', ';'],
        "&nbsp;"@ == seq!['&', 'n', 'b', 's', 'p', ';'],
        "<"@ == seq!['<'],
        ">"@ == seq!['>'],
        "\""@ == seq!['"'],
        "'"@ == seq!['\''],
        "&"@ == seq!['&'],
{
    reveal_strlit("&lt;");
    reveal_strlit("&gt;");
    reveal_strlit("&quot;");
    reveal_strlit("&#39;");
    reveal_strlit("&nbsp;");
    reveal_strlit("&amp;");
    reveal_strlit("<");
    reveal_strlit(">");
    reveal_strlit("\"");
    reveal_strlit("'");
    reveal_strlit("&");
    assert("&amp;"@ =~= seq!['&', 'a', 'm', 'p', ';']);
    assert("&lt;"@ =~= seq!['&', 'l', 't', ';']);
    assert("&gt;"@ =~= seq!['&', 'g', 't', ';']);
    assert("&quot;"@ =~= seq!['&', 'q', 'u', 'o', 't', ';']);
    assert("&#39;"@ =~= seq!['&', '#', '3', '9', ';']);
    assert("&nbsp;"@ =~= seq!['&', 'n', 'b', 's', 'p', ';']);
    assert("<"@ =~= seq!['<']);
    assert(">"@ =~= seq!['>']);
    assert("\""@ =~= seq!['"']);
    assert("'"@ =~= seq!['\'']);
    assert("&"@ =~= seq!['&']);
}

/// An entity begins with `&` and holds no other.
pub open spec fn is_entity_shaped(e: Seq<char>) -> bool {
    e.len() > 1 && e[0] == '&' && forall|i: int| 0 < i < e.len() ==> #[trigger] e[i] != '&'
}

/// Characters other than `&` are not part of an occurrence of an entity.
proof fn lemma_replaced_passes(b: Seq<char>, t: Seq<char>, from: Seq<char>, to: Seq<char>)
    requires
        is_entity_shaped(from),
        forall|i: int| 0 <= i < b.len() ==> #[trigger] b[i] != '&',
    ensures
        replaced(b + t, from, to) == b + replaced(t, from, to),
    decreases b.len(),
{
    if b.len() == 0 {
        assert(b + t =~= t);
        assert(b + replaced(t, from, to) =~= replaced(t, from, to));
    } else {
        let s = b + t;
        assert(b[0] != '&');
        if from.is_prefix_of(s) {
            assert(from[0] == s.subrange(0, from.len() as int)[0]);
        }
        let rest = b.drop_first();
        assert forall|i: int| 0 <= i < rest.len() implies #[trigger] rest[i] != '&' by {
            assert(rest[i] == b[i + 1]);
        }
        assert(s.drop_first() =~= rest + t);
        lemma_replaced_passes(rest, t, from, to);
        assert(seq![b[0]] + (rest + replaced(t, from, to)) =~= b + replaced(t, from, to));
    }
}

/// An entity other than the one looked for is passed over.
proof fn lemma_replaced_passes_entity(
    e: Seq<char>,
    t: Seq<char>,
    from: Seq<char>,
    to: Seq<char>,
    d: int,
)
    requires
        is_entity_shaped(from),
        is_entity_shaped(e),
        0 <= d < e.len(),
        d < from.len(),
        e[d] != from[d],
    ensures
        replaced(e + t, from, to) == e + replaced(t, from, to),
{
    let s = e + t;
    if from.is_prefix_of(s) {
        assert(from[d] == s.subrange(0, from.len() as int)[d]);
        assert(s[d] == e[d]);
    }
    let rest = e.drop_first();
    assert forall|i: int| 0 <= i < rest.len() implies #[trigger] rest[i] != '&' by {
        assert(rest[i] == e[i + 1]);
    }
    assert(s.drop_first() =~= rest + t);
    lemma_replaced_passes(rest, t, from, to);
    assert(seq![s[0]] + (rest + replaced(t, from, to)) =~= e + replaced(t, from, to));
}

/// An occurrence is replaced.
proof fn lemma_replaced_hit(t: Seq<char>, from: Seq<char>, to: Seq<char>)
    requires
        from.len() > 0,
    ensures
        replaced(from + t, from, to) == to + replaced(t, from, to),
{
    let s = from + t;
    assert(s.subrange(0, from.len() as int) =~= from);
    assert(s.skip(from.len() as int) =~= t);
}

/// Which entity is decoded next.
pub enum Pass {
    Lt,
    Gt,
    Quot,
    Apos,
    Nbsp,
}

pub open spec fn pass_entity(p: Pass) -> Seq<char> {
    match p {
        Pass::Lt => "&lt;"@,
        Pass::Gt => "&gt;"@,
        Pass::Quot => "&quot;"@,
        Pass::Apos => "&#39;"@,
        Pass::Nbsp => "&nbsp;"@,
    }
}

pub open spec fn pass_text(p: Pass) -> Seq<char> {
    match p {
        Pass::Lt => "<"@,
        Pass::Gt => ">"@,
        Pass::Quot => "\""@,
        Pass::Apos => "'"@,
        Pass::Nbsp => " "@,
    }
}

/// The coding after a pass.
pub open spec fn after_pass(k: Coding, p: Pass) -> Coding {
    match p {
        Pass::Lt => Coding { lt: false, ..k },
        Pass::Gt => Coding { gt: false, ..k },
        Pass::Quot => Coding { quot: false, ..k },
        Pass::Apos => Coding { apos: false, ..k },
        Pass::Nbsp => k,
    }
}

/// A pass decodes its own entity and leaves every other one.
proof fn lemma_pass(k: Coding, p: Pass, s: Seq<char>)
    ensures
        replaced(coded(k, s), pass_entity(p), pass_text(p)) == coded(after_pass(k, p), s),
    decreases s.len(),
{
    lemma_entities();
    let from = pass_entity(p);
    let to = pass_text(p);
    if s.len() > 0 {
        let c = s[0];
        let t = coded(k, s.drop_first());
        lemma_pass(k, p, s.drop_first());
        let e = coded_char(k, c);
        if e == seq![c] && c != '&' {
            assert(coded_char(after_pass(k, p), c) == seq![c]);
            lemma_replaced_passes(e, t, from, to);
        } else if e == from {
            lemma_replaced_hit(t, from, to);
            assert(coded_char(after_pass(k, p), c) == to);
        } else {
            assert(is_entity_shaped(e));
            assert(coded_char(after_pass(k, p), c) == e);
            if e[1] != from[1] {
                lemma_replaced_passes_entity(e, t, from, to, 1);
            } else {
                assert(false);
            }
        }
    }
}

/// The last pass decodes `&`, the only entity that is left.
proof fn lemma_last_pass(k: Coding, s: Seq<char>)
    requires
        !k.lt,
        !k.gt,
        !k.quot,
        !k.apos,
    ensures
        replaced(coded(k, s), "&amp;"@, "&"@) == s,
    decreases s.len(),
{
    lemma_entities();
    if s.len() == 0 {
        assert(coded(k, s) =~= s);
    } else {
        let c = s[0];
        let t = coded(k, s.drop_first());
        lemma_last_pass(k, s.drop_first());
        if c == '&' {
            lemma_replaced_hit(t, "&amp;"@, "&"@);
        } else {
            lemma_replaced_passes(seq![c], t, "&amp;"@, "&"@);
        }
        assert(seq![c] + s.drop_first() =~= s);
    }
}

/// Everything coded is what escaping writes.
proof fn lemma_coded_is_escaped(k: Coding, s: Seq<char>)
    requires
        k.lt,
        k.gt,
        k.quot,
        k.apos,
    ensures
        coded(k, s) == escaped(s),
    decreases s.len(),
{
    if s.len() > 0 {
        let c = s[0];
        assert(coded_char(k, c) == entity(c));
        lemma_coded_is_escaped(k, s.drop_first());
        lemma_escaped_front(s);
    }
}

/// Escaping works from the front as well as from the back.
proof fn lemma_escaped_front(s: Seq<char>)
    requires
        s.len() > 0,
    ensures
        escaped(s) == entity(s[0]) + escaped(s.drop_first()),
    decreases s.len(),
{
    if s.len() == 1 {
        assert(s.drop_last() =~= seq![]);
        assert(s.drop_first() =~= seq![]);
        assert(escaped(s.drop_last()) + entity(s.last()) =~= entity(s[0]));
        assert(entity(s[0]) + escaped(s.drop_first()) =~= entity(s[0]));
    } else {
        lemma_escaped_front(s.drop_last());
        let mid = s.drop_last().drop_first();
        assert(s.drop_first().drop_last() =~= mid);
        assert((entity(s[0]) + escaped(mid)) + entity(s.last()) =~= entity(s[0]) + (escaped(mid)
            + entity(s.last())));
    }
}

/// Escaped text holds none of the characters that could break out of an element or an attribute.
pub proof fn law_escaped_text_is_inert(s: Seq<char>)
    ensures
        forall|i: int|
            0 <= i < escaped(s).len() ==> {
                let c = #[trigger] escaped(s)[i];
                c != '<' && c != '>' && c != '"' && c != '\''
            },
    decreases s.len(),
{
    lemma_entities();
    if s.len() > 0 {
        law_escaped_text_is_inert(s.drop_last());
        let head = escaped(s.drop_last());
        assert forall|i: int| 0 <= i < escaped(s).len() implies ({
            let c = #[trigger] escaped(s)[i];
            c != '<' && c != '>' && c != '"' && c != '\''
        }) by {
            if i < head.len() {
                assert(escaped(s)[i] == head[i]);
            } else {
                assert(escaped(s)[i] == entity(s.last())[i - head.len()]);
            }
        }
    }
}

/// Text without tags passes through untouched.
proof fn lemma_strip_text(s: Seq<char>)
    requires
        forall|i: int| 0 <= i < s.len() ==> #[trigger] s[i] != '<',
    ensures
        strip(s).out == s,
        !strip(s).in_tag,
    decreases s.len(),
{
    if s.len() > 0 {
        let t = s.drop_last();
        assert forall|i: int| 0 <= i < t.len() implies #[trigger] t[i] != '<' by {
            assert(t[i] == s[i]);
        }
        lemma_strip_text(t);
        assert(t.push(s.last()) =~= s);
    } else {
        assert(strip(s).out =~= s);
    }
}

/// Reading escaped text gives back what was escaped: every entity is decoded exactly once.
pub proof fn law_escape_then_read_back(s: Seq<char>)
    ensures
        body_text(escaped(s)) == s,
{
    law_escaped_text_is_inert(s);
    assert forall|i: int| 0 <= i < escaped(s).len() implies #[trigger] escaped(s)[i] != '<' by {}
    lemma_strip_text(escaped(s));
    let k0 = Coding { lt: true, gt: true, quot: true, apos: true };
    lemma_coded_is_escaped(k0, s);
    lemma_pass(k0, Pass::Lt, s);
    let k1 = after_pass(k0, Pass::Lt);
    lemma_pass(k1, Pass::Gt, s);
    let k2 = after_pass(k1, Pass::Gt);
    lemma_pass(k2, Pass::Quot, s);
    let k3 = after_pass(k2, Pass::Quot);
    lemma_pass(k3, Pass::Apos, s);
    let k4 = after_pass(k3, Pass::Apos);
    lemma_pass(k4, Pass::Nbsp, s);
    lemma_last_pass(k4, s);
}

/// Plain text is read as it stands, a `>` in it too.
pub proof fn law_plain_text_passes(s: Seq<char>)
    requires
        forall|i: int| 0 <= i < s.len() ==> #[trigger] s[i] != '<' && s[i] != '&',
    ensures
        body_text(s) == s,
{
    lemma_strip_text(s);
    lemma_entities();
    let nothing = Seq::<char>::empty();
    assert(s + nothing =~= s);
    lemma_replaced_passes(s, nothing, "&lt;"@, "<"@);
    lemma_replaced_passes(s, nothing, "&gt;"@, ">"@);
    lemma_replaced_passes(s, nothing, "&quot;"@, "\""@);
    lemma_replaced_passes(s, nothing, "&#39;"@, "'"@);
    lemma_replaced_passes(s, nothing, "&nbsp;"@, " "@);
    lemma_replaced_passes(s, nothing, "&amp;"@, "&"@);
}

/// `s` in small letters.
pub open spec fn lowered(s: Seq<char>) -> Seq<char> {
    s.map_values(|c: char| ascii_lower(c))
}

/// What an open tag has gathered after the characters of `inner`.
proof fn lemma_inside_tag(before: Seq<char>, inner: Seq<char>)
    requires
        forall|i: int| 0 <= i < inner.len() ==> #[trigger] inner[i] != '<' && inner[i] != '>',
    ensures
        strip(before.push('<') + inner) == (Stripped {
            in_tag: true,
            tag: lowered(inner),
            out: strip(before).out,
        }),
    decreases inner.len(),
{
    let s = before.push('<') + inner;
    if inner.len() == 0 {
        assert(s =~= before.push('<'));
        assert(s.drop_last() =~= before);
        assert(lowered(inner) =~= seq![]);
    } else {
        let t = inner.drop_last();
        assert forall|i: int| 0 <= i < t.len() implies #[trigger] t[i] != '<' && t[i] != '>' by {
            assert(t[i] == inner[i]);
        }
        lemma_inside_tag(before, t);
        assert(s.drop_last() =~= before.push('<') + t);
        assert(s.last() == inner.last());
        assert(lowered(t).push(ascii_lower(inner.last())) =~= lowered(inner));
    }
}

/// A tag leaves a line break where its name is that of a block element, and nothing otherwise,
/// whatever attributes it carries and whether it opens the element, closes it or does both.
pub proof fn law_tag_becomes_at_most_a_break(before: Seq<char>, inner: Seq<char>)
    requires
        forall|i: int| 0 <= i < inner.len() ==> #[trigger] inner[i] != '<' && inner[i] != '>',
    ensures
        !strip((before.push('<') + inner).push('>')).in_tag,
        strip((before.push('<') + inner).push('>')).out == if is_break_tag(
            tag_name(lowered(inner)),
        ) {
            strip(before).out.push('\n')
        } else {
            strip(before).out
        },
{
    lemma_inside_tag(before, inner);
    let s = (before.push('<') + inner).push('>');
    assert(s.drop_last() =~= before.push('<') + inner);
}

// ------------------------------------------------------------------ the article

/// One article, ready to be sent.
pub struct ShareArticle {
    pub title: String,
    pub url: Option<String>,
    pub author: Option<String>,
    pub feed_title: String,
    pub published_at: Option<i64>,
    pub body_html: String,
}

/// The body that is sent: the extracted full text where there is any, else what the feed supplied.
pub open spec fn shared_body(extracted: Option<Seq<char>>, content: Option<Seq<char>>) -> Seq<char> {
    match extracted {
        Some(h) if !is_blank(h) => h,
        _ => match content {
            Some(c) => c,
            None => Seq::empty(),
        },
    }
}

/// Both describe the same article.
pub open spec fn shares(article: ShareArticle, detail: ArticleDetail) -> bool {
    &&& article.title == detail.title
    &&& article.url == detail.url
    &&& article.author == detail.author
    &&& article.feed_title == detail.feed_title
    &&& article.published_at == detail.published_at
    &&& article.body_html@ == shared_body(
        option_text(detail.extracted_html),
        option_text(detail.content_html),
    )
}

/// Prepares an article for sending. The body prefers the extracted full text, falling back to the
/// feed-supplied content.
pub fn load_for_share(detail: ArticleDetail) -> (r: ShareArticle)
    ensures
        shares(r, detail),
{
    let content = match detail.content_html {
        Some(c) => c,
        None => String::new(),
    };
    let body_html = match detail.extracted_html {
        Some(h) => if blank(h.as_str()) {
            content
        } else {
            h
        },
        None => content,
    };
    ShareArticle {
        title: detail.title,
        url: detail.url,
        author: detail.author,
        feed_title: detail.feed_title,
        published_at: detail.published_at,
        body_html,
    }
}

// ------------------------------------------------------------------ the targets

/// The four "Send to…" targets.
#[derive(Debug, Clone, Copy)]
pub enum ShareTarget {
    Pocket,
    Instapaper,
    Kindle,
    Notion,
}

/// Which targets currently have complete credentials configured; only those are offered.
pub struct ShareTargets {
    pub pocket: bool,
    pub instapaper: bool,
    pub kindle: bool,
    pub notion: bool,
}

/// Every setting that a target needs holds something.
pub open spec fn is_offered(s: Settings, target: ShareTarget) -> bool {
    match target {
        ShareTarget::Pocket => is_configured(s.at("pocket_consumer_key"@)) && is_configured(
            s.at("pocket_access_token"@),
        ),
        ShareTarget::Instapaper => is_configured(s.at("instapaper_username"@)) && is_configured(
            s.at("instapaper_password"@),
        ),
        ShareTarget::Kindle => {
            &&& is_configured(s.at("kindle_smtp_host"@))
            &&& is_configured(s.at("kindle_smtp_username"@))
            &&& is_configured(s.at("kindle_smtp_password"@))
            &&& is_configured(s.at("kindle_address"@))
        },
        ShareTarget::Notion => is_configured(s.at("notion_token"@)) && is_configured(
            s.at("notion_page"@),
        ),
    }
}

/// Reports which share targets are configured. A setting that cannot be read counts as not set.
pub fn share_targets(settings: &Settings) -> (r: ShareTargets)
    ensures
        r.pocket == is_offered(*settings, ShareTarget::Pocket),
        r.instapaper == is_offered(*settings, ShareTarget::Instapaper),
        r.kindle == is_offered(*settings, ShareTarget::Kindle),
        r.notion == is_offered(*settings, ShareTarget::Notion),
{
    ShareTargets {
        pocket: settings.configured("pocket_consumer_key") && settings.configured(
            "pocket_access_token",
        ),
        instapaper: settings.configured("instapaper_username") && settings.configured(
            "instapaper_password",
        ),
        kindle: settings.configured("kindle_smtp_host") && settings.configured(
            "kindle_smtp_username",
        ) && settings.configured("kindle_smtp_password") && settings.configured("kindle_address"),
        notion: settings.configured("notion_token") && settings.configured("notion_page"),
    }
}

// ------------------------------------------------------------------ the request

/// The mail settings of the Kindle target as they are stored.
pub struct KindleSettings {
    pub smtp_host: Option<String>,
    pub smtp_port: Option<String>,
    pub smtp_username: Option<String>,
    pub smtp_password: Option<String>,
    pub from_address: Option<String>,
    pub address: Option<String>,
}

/// What is to be sent, and with which credentials.
pub enum SendRequest {
    Pocket { consumer_key: String, access_token: String, article: ShareArticle },
    Instapaper { username: String, password: String, article: ShareArticle },
    Kindle { settings: KindleSettings, article: ShareArticle },
    Notion { token: String, page: String, entry: ExportArticle, body_text: String },
}

/// The first of two errors.
pub open spec fn either_error(a: Option<AppErrorView>, b: Option<AppErrorView>) -> Option<
    AppErrorView,
> {
    if a is Some {
        a
    } else {
        b
    }
}

/// The error of a setting that could not be read.
pub open spec fn read_error(s: StoredView) -> Option<AppErrorView> {
    match s {
        StoredView::Unreadable(m) => Some(AppErrorView::Other(m)),
        _ => None,
    }
}

/// What keeps an article from being sent.
pub open spec fn send_error(s: Settings, target: ShareTarget) -> Option<AppErrorView> {
    match target {
        ShareTarget::Pocket => either_error(
            requirement_error(s.at("pocket_consumer_key"@), "noPocketConfig"@),
            requirement_error(s.at("pocket_access_token"@), "noPocketConfig"@),
        ),
        ShareTarget::Instapaper => either_error(
            requirement_error(s.at("instapaper_username"@), "noInstapaperConfig"@),
            requirement_error(s.at("instapaper_password"@), "noInstapaperConfig"@),
        ),
        ShareTarget::Kindle => either_error(
            read_error(s.at("kindle_smtp_host"@)),
            either_error(
                read_error(s.at("kindle_smtp_port"@)),
                either_error(
                    read_error(s.at("kindle_smtp_username"@)),
                    either_error(
                        read_error(s.at("kindle_smtp_password"@)),
                        either_error(
                            read_error(s.at("kindle_from_address"@)),
                            read_error(s.at("kindle_address"@)),
                        ),
                    ),
                ),
            ),
        ),
        ShareTarget::Notion => either_error(
            requirement_error(s.at("notion_token"@), "noNotionToken"@),
            requirement_error(s.at("notion_page"@), "noNotionPage"@),
        ),
    }
}

/// `text` is the setting `key` without surrounding white space.
pub open spec fn is_trimmed_setting(s: Settings, key: Seq<char>, text: Seq<char>) -> bool {
    value_of(s.at(key)) is Some && text == trimmed(value_of(s.at(key))->Some_0)
}

/// `request` sends the article of `detail` to `target` with the stored credentials.
pub open spec fn is_request(
    s: Settings,
    target: ShareTarget,
    detail: ArticleDetail,
    request: SendRequest,
) -> bool {
    match request {
        SendRequest::Pocket { consumer_key, access_token, article } => {
            &&& target is Pocket
            &&& is_trimmed_setting(s, "pocket_consumer_key"@, consumer_key@)
            &&& is_trimmed_setting(s, "pocket_access_token"@, access_token@)
            &&& shares(article, detail)
        },
        SendRequest::Instapaper { username, password, article } => {
            &&& target is Instapaper
            &&& is_trimmed_setting(s, "instapaper_username"@, username@)
            &&& is_trimmed_setting(s, "instapaper_password"@, password@)
            &&& shares(article, detail)
        },
        SendRequest::Kindle { settings, article } => {
            &&& target is Kindle
            &&& option_text(settings.smtp_host) == value_of(s.at("kindle_smtp_host"@))
            &&& option_text(settings.smtp_port) == value_of(s.at("kindle_smtp_port"@))
            &&& option_text(settings.smtp_username) == value_of(s.at("kindle_smtp_username"@))
            &&& option_text(settings.smtp_password) == value_of(s.at("kindle_smtp_password"@))
            &&& option_text(settings.from_address) == value_of(s.at("kindle_from_address"@))
            &&& option_text(settings.address) == value_of(s.at("kindle_address"@))
            &&& shares(article, detail)
        },
        SendRequest::Notion { token, page, entry, body_text: text } => {
            &&& target is Notion
            &&& is_trimmed_setting(s, "notion_token"@, token@)
            &&& is_trimmed_setting(s, "notion_page"@, page@)
            &&& exports(entry, detail)
            &&& text@ == body_text(
                shared_body(option_text(detail.extracted_html), option_text(detail.content_html)),
            )
        },
    }
}

/// Decides how one article is sent to a read-later, archive or note service. The error carries a
/// localisable code when the chosen target is not configured.
pub fn send_article(target: ShareTarget, detail: ArticleDetail, settings: &Settings) -> (r:
    AppResult<SendRequest>)
    ensures
        match r {
            Ok(request) => send_error(*settings, target) is None && is_request(
                *settings,
                target,
                detail,
                request,
            ),
            Err(e) => send_error(*settings, target) == Some(e@),
        },
{
    let article = load_for_share(detail);
    match target {
        ShareTarget::Pocket => {
            let key = require_setting(settings, "pocket_consumer_key", "noPocketConfig")?;
            let token = require_setting(settings, "pocket_access_token", "noPocketConfig")?;
            Ok(
                SendRequest::Pocket {
                    consumer_key: trim(key.as_str()).to_string(),
                    access_token: trim(token.as_str()).to_string(),
                    article,
                },
            )
        },
        ShareTarget::Instapaper => {
            let user = require_setting(settings, "instapaper_username", "noInstapaperConfig")?;
            let pass = require_setting(settings, "instapaper_password", "noInstapaperConfig")?;
            Ok(
                SendRequest::Instapaper {
                    username: trim(user.as_str()).to_string(),
                    password: trim(pass.as_str()).to_string(),
                    article,
                },
            )
        },
        ShareTarget::Kindle => {
            let stored = KindleSettings {
                smtp_host: settings.read("kindle_smtp_host")?,
                smtp_port: settings.read("kindle_smtp_port")?,
                smtp_username: settings.read("kindle_smtp_username")?,
                smtp_password: settings.read("kindle_smtp_password")?,
                from_address: settings.read("kindle_from_address")?,
                address: settings.read("kindle_address")?,
            };
            Ok(SendRequest::Kindle { settings: stored, article })
        },
        ShareTarget::Notion => {
            let text = html_to_text(article.body_html.as_str());
            let token = require_setting(settings, "notion_token", "noNotionToken")?;
            let page = require_setting(settings, "notion_page", "noNotionPage")?;
            Ok(
                SendRequest::Notion {
                    token: trim(token.as_str()).to_string(),
                    page: trim(page.as_str()).to_string(),
                    entry: ExportArticle {
                        title: article.title,
                        url: article.url,
                        author: article.author,
                        feed_title: article.feed_title,
                        published_at: article.published_at,
                    },
                    body_text: text,
                },
            )
        },
    }
}

/// A target is offered exactly when sending to it is not refused. The Kindle target is left out:
/// there the mail transport has the last word on the settings.
pub proof fn law_offered_targets_are_not_refused(s: Settings, target: ShareTarget)
    requires
        !(target is Kindle),
    ensures
        is_offered(s, target) <==> send_error(s, target) is None,
{
}

// ------------------------------------------------------------------------- laws

/// Text behind a closed tag is added as it stands.
proof fn lemma_strip_text_behind(before: Seq<char>, text: Seq<char>)
    requires
        !strip(before).in_tag,
        forall|i: int| 0 <= i < text.len() ==> #[trigger] text[i] != '<',
    ensures
        !strip(before + text).in_tag,
        strip(before + text).out == strip(before).out + text,
    decreases text.len(),
{
    let s = before + text;
    if text.len() == 0 {
        assert(s =~= before);
        assert(strip(before).out + text =~= strip(before).out);
    } else {
        let t = text.drop_last();
        assert forall|i: int| 0 <= i < t.len() implies #[trigger] t[i] != '<' by {
            assert(t[i] == text[i]);
        }
        lemma_strip_text_behind(before, t);
        assert(s.drop_last() =~= before + t);
        assert(s.last() == text.last());
        assert((strip(before).out + t).push(text.last()) =~= strip(before).out + text);
    }
}

/// Text without markup is decoded to itself.
proof fn lemma_decoded_text(s: Seq<char>)
    requires
        forall|i: int| 0 <= i < s.len() ==> #[trigger] s[i] != '&',
    ensures
        decoded(s) == s,
{
    lemma_entities();
    let nothing = Seq::<char>::empty();
    assert(s + nothing =~= s);
    lemma_replaced_passes(s, nothing, "&lt;"@, "<"@);
    lemma_replaced_passes(s, nothing, "&gt;"@, ">"@);
    lemma_replaced_passes(s, nothing, "&quot;"@, "\""@);
    lemma_replaced_passes(s, nothing, "&#39;"@, "'"@);
    lemma_replaced_passes(s, nothing, "&nbsp;"@, " "@);
    lemma_replaced_passes(s, nothing, "&amp;"@, "&"@);
}

/// The name of a tag is what stands before white space or a slash.
proof fn lemma_tag_name(slashes: Seq<char>, name: Seq<char>, rest: Seq<char>)
    requires
        forall|i: int| 0 <= i < slashes.len() ==> #[trigger] slashes[i] == '/',
        forall|i: int| 0 <= i < name.len() ==> !ends_name(#[trigger] name[i]),
        name.len() > 0,
        rest.len() == 0 || ends_name(rest[0]),
    ensures
        tag_name(slashes + name + rest) == name,
{
    let tag = slashes + name + rest;
    let n = slashes.len() as int;
    assert forall|k: int| 0 <= k < n implies Class::Only('/').holds(#[trigger] tag[k]) by {
        assert(tag[k] == slashes[k]);
    }
    assert(tag[n] == name[0]);
    assert(!ends_name(name[0]));
    lemma_without_start(tag, Class::Only('/'), n);
    let t = tag.skip(n);
    assert(t =~= name + rest);
    assert forall|k: int| 0 <= k < name.len() implies !ends_name(#[trigger] t[k]) by {
        assert(t[k] == name[k]);
    }
    lemma_first_piece(t, name.len() as int);
    assert(t.take(name.len() as int) =~= name);
}

/// The plain text of `a`, then one tag, then `b` is `a`, a line break where the tag is that of a
/// block element, and `b`. The tag may open the element or close it, spell its name in capital
/// letters, carry attributes and close itself.
#[verifier::rlimit(40)]
pub proof fn law_block_elements_become_line_breaks(
    a: Seq<char>,
    slashes: Seq<char>,
    name: Seq<char>,
    rest: Seq<char>,
    b: Seq<char>,
)
    requires
        forall|i: int| 0 <= i < a.len() ==> #[trigger] a[i] != '<' && a[i] != '&',
        forall|i: int| 0 <= i < b.len() ==> #[trigger] b[i] != '<' && b[i] != '&',
        slashes == seq!['/'] || slashes.len() == 0,
        name.len() > 0,
        forall|i: int|
            0 <= i < name.len() ==> {
                let c = #[trigger] name[i];
                &&& c != '<' && c != '>' && c != '/'
                &&& c != ' ' && c != '\t' && c != '\n' && c != '\r' && c != '\u{c}'
            },
        forall|i: int| 0 <= i < rest.len() ==> #[trigger] rest[i] != '<' && rest[i] != '>',
        rest.len() == 0 || rest[0] == ' ' || rest[0] == '\t' || rest[0] == '\n' || rest[0] == '\r'
            || rest[0] == '\u{c}' || rest[0] == '/',
    ensures
        ({
            let small = lowered(name);
            let block = {
                ||| small == "p"@
                ||| small == "br"@
                ||| small == "div"@
                ||| small == "li"@
                ||| small == "h1"@
                ||| small == "h2"@
                ||| small == "h3"@
                ||| small == "h4"@
                ||| small == "h5"@
                ||| small == "h6"@
                ||| small == "tr"@
                ||| small == "blockquote"@
                ||| small == "section"@
                ||| small == "article"@
            };
            body_text((a.push('<') + (slashes + name + rest)).push('>') + b) == if block {
                a.push('\n') + b
            } else {
                a + b
            }
        }),
{
    let inner = slashes + name + rest;
    assert forall|i: int| 0 <= i < inner.len() implies #[trigger] inner[i] != '<' && inner[i]
        != '>' by {
        if i < slashes.len() {
            assert(inner[i] == slashes[i]);
        } else if i < slashes.len() + name.len() {
            assert(inner[i] == name[i - slashes.len()]);
        } else {
            assert(inner[i] == rest[i - slashes.len() - name.len()]);
        }
    }
    law_tag_becomes_at_most_a_break(a, inner);
    assert(lowered(inner) =~= lowered(slashes) + lowered(name) + lowered(rest));
    assert forall|i: int| 0 <= i < lowered(name).len() implies !ends_name(
        #[trigger] lowered(name)[i],
    ) by {
        law_lower_case(name[i]);
    }
    assert forall|i: int| 0 <= i < lowered(slashes).len() implies #[trigger] lowered(slashes)[i]
        == '/' by {
        law_lower_case(slashes[i]);
    }
    if rest.len() > 0 {
        law_lower_case(rest[0]);
    }
    lemma_tag_name(lowered(slashes), lowered(name), lowered(rest));
    lemma_strip_text(a);
    let tagged = (a.push('<') + inner).push('>');
    lemma_strip_text_behind(tagged, b);
    let out = strip(tagged + b).out;
    assert forall|i: int| 0 <= i < out.len() implies #[trigger] out[i] != '&' by {
        let n = strip(tagged).out.len();
        if i >= n {
            assert(out[i] == b[i - n]);
        } else if i < a.len() {
            assert(out[i] == a[i]);
        }
    }
    lemma_decoded_text(out);
}

/// Each element that begins or ends a line of text, by its name.
pub proof fn law_block_elements_by_name(a: Seq<char>, name: Seq<char>, b: Seq<char>)
    requires
        forall|i: int| 0 <= i < a.len() ==> #[trigger] a[i] != '<' && a[i] != '&',
        forall|i: int| 0 <= i < b.len() ==> #[trigger] b[i] != '<' && b[i] != '&',
        ({
            ||| name == "p"@
            ||| name == "br"@
            ||| name == "div"@
            ||| name == "li"@
            ||| name == "h1"@
            ||| name == "h2"@
            ||| name == "h3"@
            ||| name == "h4"@
            ||| name == "h5"@
            ||| name == "h6"@
            ||| name == "tr"@
            ||| name == "blockquote"@
            ||| name == "section"@
            ||| name == "article"@
        }),
    ensures
        body_text(a + "<"@ + name + ">"@ + b) == a + "\n"@ + b,
        body_text(a + "</"@ + name + ">"@ + b) == a + "\n"@ + b,
        body_text(a + "<"@ + name + " />"@ + b) == a + "\n"@ + b,
{
    reveal_strlit("p");
    reveal_strlit("br");
    reveal_strlit("div");
    reveal_strlit("li");
    reveal_strlit("h1");
    reveal_strlit("h2");
    reveal_strlit("h3");
    reveal_strlit("h4");
    reveal_strlit("h5");
    reveal_strlit("h6");
    reveal_strlit("tr");
    reveal_strlit("blockquote");
    reveal_strlit("section");
    reveal_strlit("article");
    reveal_strlit("<");
    reveal_strlit("</");
    reveal_strlit(">");
    reveal_strlit(" />");
    reveal_strlit("\n");
    let none = Seq::<char>::empty();
    assert forall|i: int| 0 <= i < name.len() implies ({
        let c = #[trigger] name[i];
        'a' <= c <= 'z' || '1' <= c <= '6'
    }) by {}
    assert forall|i: int| 0 <= i < name.len() implies ascii_lower(#[trigger] name[i]) == name[i] by {
        law_lower_case(name[i]);
    }
    assert(lowered(name) =~= name);
    law_block_elements_become_line_breaks(a, none, name, none, b);
    assert((a.push('<') + (none + name + none)).push('>') + b =~= a + "<"@ + name + ">"@ + b);
    law_block_elements_become_line_breaks(a, seq!['/'], name, none, b);
    assert((a.push('<') + (seq!['/'] + name + none)).push('>') + b =~= a + "</"@ + name + ">"@ + b);
    law_block_elements_become_line_breaks(a, none, name, seq![' ', '/'], b);
    assert((a.push('<') + (none + name + seq![' ', '/'])).push('>') + b =~= a + "<"@ + name + " />"@
        + b);
    assert(a.push('\n') + b =~= a + "\n"@ + b);
}

/// Tags may follow each other with any text between them: what is read of the whole is what was read
/// before the last tag, the mark that this tag leaves, and the text behind it.
pub proof fn law_text_and_tags_are_read_in_turn(before: Seq<char>, inner: Seq<char>, text: Seq<char>)
    requires
        forall|i: int| 0 <= i < inner.len() ==> #[trigger] inner[i] != '<' && inner[i] != '>',
        forall|i: int| 0 <= i < text.len() ==> #[trigger] text[i] != '<',
    ensures
        ({
            let tagged = (before.push('<') + inner).push('>');
            let out = strip(before).out;
            &&& strip(before.push('<') + inner).out == out
            &&& strip(tagged).out == out || strip(tagged).out == out.push('\n')
            &&& strip(tagged + text).out == strip(tagged).out + text
        }),
{
    lemma_inside_tag(before, inner);
    law_tag_becomes_at_most_a_break(before, inner);
    lemma_strip_text_behind((before.push('<') + inner).push('>'), text);
}

/// A non-breaking space is read as a space.
pub proof fn law_non_breaking_spaces(a: Seq<char>, b: Seq<char>)
    requires
        forall|i: int| 0 <= i < a.len() ==> #[trigger] a[i] != '<' && a[i] != '&',
        forall|i: int| 0 <= i < b.len() ==> #[trigger] b[i] != '<' && b[i] != '&',
    ensures
        body_text(a + ("&nbsp;"@ + b)) == a + (" "@ + b),
{
    lemma_entities();
    reveal_strlit("&nbsp;");
    reveal_strlit("&lt;");
    reveal_strlit("&gt;");
    reveal_strlit("&quot;");
    reveal_strlit("&#39;");
    reveal_strlit("&amp;");
    reveal_strlit(" ");
    let e = "&nbsp;"@;
    let s = a + (e + b);
    assert forall|i: int| 0 <= i < s.len() implies #[trigger] s[i] != '<' by {
        if i < a.len() {
            assert(s[i] == a[i]);
        } else if i >= a.len() + e.len() {
            assert(s[i] == b[i - a.len() - e.len()]);
        } else {
            assert(s[i] == e[i - a.len()]);
        }
    }
    lemma_strip_text(s);
    let nothing = Seq::<char>::empty();
    assert(b + nothing =~= b);
    lemma_replaced_passes(a, e + b, "&lt;"@, "<"@);
    lemma_replaced_passes_entity(e, b, "&lt;"@, "<"@, 1);
    lemma_replaced_passes(b, nothing, "&lt;"@, "<"@);
    lemma_replaced_passes(a, e + b, "&gt;"@, ">"@);
    lemma_replaced_passes_entity(e, b, "&gt;"@, ">"@, 1);
    lemma_replaced_passes(b, nothing, "&gt;"@, ">"@);
    lemma_replaced_passes(a, e + b, "&quot;"@, "\""@);
    lemma_replaced_passes_entity(e, b, "&quot;"@, "\""@, 1);
    lemma_replaced_passes(b, nothing, "&quot;"@, "\""@);
    lemma_replaced_passes(a, e + b, "&#39;"@, "'"@);
    lemma_replaced_passes_entity(e, b, "&#39;"@, "'"@, 1);
    lemma_replaced_passes(b, nothing, "&#39;"@, "'"@);
    lemma_replaced_passes(a, e + b, e, " "@);
    lemma_replaced_hit(b, e, " "@);
    lemma_replaced_passes(b, nothing, e, " "@);
    let out = a + (" "@ + b);
    assert forall|i: int| 0 <= i < out.len() implies #[trigger] out[i] != '&' by {
        if i < a.len() {
            assert(out[i] == a[i]);
        } else if i > a.len() {
            assert(out[i] == b[i - a.len() - 1]);
        }
    }
    assert(out + nothing =~= out);
    lemma_replaced_passes(out, nothing, "&amp;"@, "&"@);
}

/// The extracted full text is sent where it holds anything but white space; else the content of the
/// feed is, and nothing where there is none.
pub proof fn law_extracted_text_is_preferred(h: Seq<char>, content: Option<Seq<char>>, c: Seq<char>)
    ensures
        (exists|i: int| 0 <= i < h.len() && !is_white_space(#[trigger] h[i])) ==> shared_body(
            Some(h),
            content,
        ) == h,
        (forall|i: int| 0 <= i < h.len() ==> is_white_space(#[trigger] h[i])) ==> shared_body(
            Some(h),
            content,
        ) == shared_body(None, content),
        shared_body(None, Some(c)) == c,
        shared_body(None, None).len() == 0,
{
    lemma_blank(h);
}

/// The article that is sent keeps every field of the stored one.
pub proof fn law_shared_articles_are_complete(article: ShareArticle, detail: ArticleDetail)
    requires
        shares(article, detail),
    ensures
        article.title@ == detail.title@,
        option_text(article.url) == option_text(detail.url),
        option_text(article.author) == option_text(detail.author),
        article.feed_title@ == detail.feed_title@,
        article.published_at == detail.published_at,
{
}

/// Credentials are sent as they are stored, without white space around them; the mail settings are
/// handed on as they stand.
pub proof fn law_stored_credentials_are_sent(
    s: Settings,
    target: ShareTarget,
    detail: ArticleDetail,
    request: SendRequest,
    lead: Seq<char>,
    core: Seq<char>,
    tail: Seq<char>,
)
    requires
        is_request(s, target, detail, request),
        forall|i: int| 0 <= i < lead.len() ==> is_white_space(#[trigger] lead[i]),
        forall|i: int| 0 <= i < tail.len() ==> is_white_space(#[trigger] tail[i]),
        core.len() > 0,
        !is_white_space(core[0]),
        !is_white_space(core.last()),
    ensures
        ({
            let stored = StoredView::Value(lead + core + tail);
            match request {
                SendRequest::Pocket { consumer_key, access_token, article } => {
                    &&& target is Pocket
                    &&& s.at("pocket_consumer_key"@) == stored ==> consumer_key@ == core
                    &&& s.at("pocket_access_token"@) == stored ==> access_token@ == core
                    &&& shares(article, detail)
                },
                SendRequest::Instapaper { username, password, article } => {
                    &&& target is Instapaper
                    &&& s.at("instapaper_username"@) == stored ==> username@ == core
                    &&& s.at("instapaper_password"@) == stored ==> password@ == core
                    &&& shares(article, detail)
                },
                SendRequest::Kindle { settings, article } => {
                    let t = Some(lead + core + tail);
                    &&& target is Kindle
                    &&& s.at("kindle_smtp_host"@) == stored ==> option_text(settings.smtp_host) == t
                    &&& s.at("kindle_smtp_port"@) == stored ==> option_text(settings.smtp_port) == t
                    &&& s.at("kindle_smtp_username"@) == stored ==> option_text(
                        settings.smtp_username,
                    ) == t
                    &&& s.at("kindle_smtp_password"@) == stored ==> option_text(
                        settings.smtp_password,
                    ) == t
                    &&& s.at("kindle_from_address"@) == stored ==> option_text(
                        settings.from_address,
                    ) == t
                    &&& s.at("kindle_address"@) == stored ==> option_text(settings.address) == t
                    &&& shares(article, detail)
                },
                SendRequest::Notion { token, page, entry, body_text: text } => {
                    &&& target is Notion
                    &&& s.at("notion_token"@) == stored ==> token@ == core
                    &&& s.at("notion_page"@) == stored ==> page@ == core
                    &&& entry.title@ == detail.title@
                    &&& option_text(detail.extracted_html) == Some(lead + core + tail) ==> text@
                        == body_text(lead + core + tail)
                },
            }
        }),
{
    law_trimming(lead, core, tail);
}

/// A target is refused under its own code as long as one of its settings is missing, and offered
/// once all of them hold something.
pub proof fn law_targets_need_their_settings(s: Settings)
    ensures
        s.at("pocket_consumer_key"@) is Missing ==> send_error(s, ShareTarget::Pocket) == Some(
            AppErrorView::Code("noPocketConfig"@),
        ),
        is_configured(s.at("pocket_consumer_key"@)) && s.at("pocket_access_token"@) is Missing
            ==> send_error(s, ShareTarget::Pocket) == Some(AppErrorView::Code("noPocketConfig"@)),
        is_configured(s.at("pocket_consumer_key"@)) && is_configured(s.at("pocket_access_token"@))
            <==> is_offered(s, ShareTarget::Pocket),
        s.at("instapaper_username"@) is Missing ==> send_error(s, ShareTarget::Instapaper) == Some(
            AppErrorView::Code("noInstapaperConfig"@),
        ),
        is_configured(s.at("instapaper_username"@)) && s.at("instapaper_password"@) is Missing
            ==> send_error(s, ShareTarget::Instapaper) == Some(
            AppErrorView::Code("noInstapaperConfig"@),
        ),
        is_configured(s.at("instapaper_username"@)) && is_configured(s.at("instapaper_password"@))
            <==> is_offered(s, ShareTarget::Instapaper),
        s.at("notion_token"@) is Missing ==> send_error(s, ShareTarget::Notion) == Some(
            AppErrorView::Code("noNotionToken"@),
        ),
        is_configured(s.at("notion_token"@)) && s.at("notion_page"@) is Missing ==> send_error(
            s,
            ShareTarget::Notion,
        ) == Some(AppErrorView::Code("noNotionPage"@)),
        is_configured(s.at("notion_token"@)) && is_configured(s.at("notion_page"@)) <==> is_offered(
            s,
            ShareTarget::Notion,
        ),
        is_offered(s, ShareTarget::Kindle) <==> is_configured(s.at("kindle_smtp_host"@))
            && is_configured(s.at("kindle_smtp_username"@)) && is_configured(
            s.at("kindle_smtp_password"@),
        ) && is_configured(s.at("kindle_address"@)),
{
}

/// Mail goes out unless one of its six settings could not be read; the first such failure is the
/// one that is reported.
pub proof fn law_mail_settings_must_be_readable(s: Settings, m: Seq<char>)
    ensures
        s.at("kindle_smtp_host"@) == StoredView::Unreadable(m) ==> send_error(s, ShareTarget::Kindle)
            == Some(AppErrorView::Other(m)),
        !(s.at("kindle_smtp_host"@) is Unreadable) && s.at("kindle_smtp_port"@)
            == StoredView::Unreadable(m) ==> send_error(s, ShareTarget::Kindle) == Some(
            AppErrorView::Other(m),
        ),
        (send_error(s, ShareTarget::Kindle) is Some) <==> {
            ||| s.at("kindle_smtp_host"@) is Unreadable
            ||| s.at("kindle_smtp_port"@) is Unreadable
            ||| s.at("kindle_smtp_username"@) is Unreadable
            ||| s.at("kindle_smtp_password"@) is Unreadable
            ||| s.at("kindle_from_address"@) is Unreadable
            ||| s.at("kindle_address"@) is Unreadable
        },
{
}

/// A bare ampersand is kept, with what stands behind it, unless the two make one of the six entities
/// that are decoded.
pub proof fn law_other_entities_are_kept(a: Seq<char>, b: Seq<char>)
    requires
        forall|i: int| 0 <= i < a.len() ==> #[trigger] a[i] != '<' && a[i] != '&',
        forall|i: int| 0 <= i < b.len() ==> #[trigger] b[i] != '<' && b[i] != '&',
        !"&lt;"@.is_prefix_of("&"@ + b),
        !"&gt;"@.is_prefix_of("&"@ + b),
        !"&quot;"@.is_prefix_of("&"@ + b),
        !"&#39;"@.is_prefix_of("&"@ + b),
        !"&nbsp;"@.is_prefix_of("&"@ + b),
        !"&amp;"@.is_prefix_of("&"@ + b),
    ensures
        body_text(a + ("&"@ + b)) == a + ("&"@ + b),
{
    lemma_entities();
    reveal_strlit("&");
    reveal_strlit("&nbsp;");
    let s = a + ("&"@ + b);
    assert forall|i: int| 0 <= i < s.len() implies #[trigger] s[i] != '<' by {
        if i < a.len() {
            assert(s[i] == a[i]);
        } else if i > a.len() {
            assert(s[i] == b[i - a.len() - 1]);
        }
    }
    lemma_strip_text(s);
    lemma_bare_ampersand(a, b, "&lt;"@, "<"@);
    lemma_bare_ampersand(a, b, "&gt;"@, ">"@);
    lemma_bare_ampersand(a, b, "&quot;"@, "\""@);
    lemma_bare_ampersand(a, b, "&#39;"@, "'"@);
    lemma_bare_ampersand(a, b, "&nbsp;"@, " "@);
    lemma_bare_ampersand(a, b, "&amp;"@, "&"@);
}

/// An ampersand that does not begin the entity looked for is passed over.
proof fn lemma_bare_ampersand(a: Seq<char>, b: Seq<char>, from: Seq<char>, to: Seq<char>)
    requires
        is_entity_shaped(from),
        forall|i: int| 0 <= i < a.len() ==> #[trigger] a[i] != '&',
        forall|i: int| 0 <= i < b.len() ==> #[trigger] b[i] != '&',
        !from.is_prefix_of("&"@ + b),
    ensures
        replaced(a + ("&"@ + b), from, to) == a + ("&"@ + b),
{
    reveal_strlit("&");
    let nothing = Seq::<char>::empty();
    let t = "&"@ + b;
    assert(b + nothing =~= b);
    lemma_replaced_passes(b, nothing, from, to);
    assert(t.drop_first() =~= b);
    assert(seq![t[0]] + b =~= t);
    lemma_replaced_passes(a, t, from, to);
}

} // verus!
