//! HTML sanitising and text extraction. Every piece of feed- or web-supplied HTML passes through
//! [`sanitize`] before it is stored or rendered.

use crate::text::{
    ascii_lower, collapse_white_space, collapsed, concatenated, holds_text, is_white_space,
    law_collapsing, law_trimming, lemma_words_split, occurs_at, option_text, same_text, single_spaced,
    starts_with, trim, trimmed, words,
};
use vstd::prelude::*;

verus! {

// ------------------------------------------------------------------ sanitize

#[verifier::external_type_specification]
#[verifier::external_body]
pub struct ExUrl(url::Url);

#[verifier::external_type_specification]
#[verifier::external_body]
pub struct ExUrlError(url::ParseError);

/// The absolute URL that `url::Url::parse` reads from a text, if it reads one.
pub uninterp spec fn parsed_url(text: Seq<char>) -> Option<url::Url>;

/// `url::Url::parse` reads an absolute URL. The result depends on the text alone; its value and
/// its refusal are both named by [`parsed_url`].
#[verifier::external_body]
pub(crate) fn parse_url(text: &str) -> (r: Result<url::Url, url::ParseError>)
    ensures
        match r {
            Ok(u) => parsed_url(text@) == Some(u),
            Err(_) => parsed_url(text@) is None,
        },
{
    url::Url::parse(text)
}

/// What an `ammonia::Builder` with its default whitelist makes of `html` once it was told to set
/// `rel` on links, to let `generic` through on every element, to set `attribute` to `value` on
/// each `tag`, and to resolve relative URLs against `base` where there is one.
pub uninterp spec fn cleaned_html(
    html: Seq<char>,
    rel: Seq<char>,
    generic: Seq<char>,
    tag: Seq<char>,
    attribute: Seq<char>,
    value: Seq<char>,
    base: Option<url::Url>,
) -> Seq<char>;

/// Wherever `start` stands in `html`, `mark` follows inside the same tag.
pub open spec fn every_tag_carries(html: Seq<char>, start: Seq<char>, mark: Seq<char>) -> bool {
    forall|i: int| #[trigger]
        occurs_at(html, start, i) ==> exists|j: int|
            i < j && #[trigger] occurs_at(html, mark, j) && !html.subrange(i, j).contains('>')
}

/// ` name="value"`, as an attribute is written.
pub open spec fn attribute_text(name: Seq<char>, value: Seq<char>) -> Seq<char> {
    " "@ + name + "=\""@ + value + "\""@
}

/// `value` stands in an attribute as it is: it holds no character that is escaped there.
pub open spec fn is_plain_value(value: Seq<char>) -> bool {
    !value.contains('&') && !value.contains('<') && !value.contains('>') && !value.contains('"')
        && !value.contains('\u{a0}')
}

/// `s` ends inside a quoted value.
pub open spec fn ends_in_quotes(s: Seq<char>) -> bool
    decreases s.len(),
{
    if s.len() == 0 {
        false
    } else {
        (s.last() == '"') != ends_in_quotes(s.drop_last())
    }
}

/// An attribute begins behind position `j`, in the tag that begins at position `i`.
pub open spec fn attribute_begins(html: Seq<char>, i: int, j: int) -> bool {
    &&& 0 <= i < j < html.len()
    &&& html[i] == '<'
    &&& html[j] == ' '
    &&& !html.subrange(i, j).contains('>')
    &&& !ends_in_quotes(html.subrange(i, j))
}

/// The attributes that the default whitelist lets through on some element.
pub open spec fn is_whitelisted_attribute(name: Seq<char>) -> bool {
    ||| name == "align"@
    ||| name == "alt"@
    ||| name == "char"@
    ||| name == "charoff"@
    ||| name == "cite"@
    ||| name == "colspan"@
    ||| name == "datetime"@
    ||| name == "dir"@
    ||| name == "headers"@
    ||| name == "height"@
    ||| name == "href"@
    ||| name == "hreflang"@
    ||| name == "lang"@
    ||| name == "rowspan"@
    ||| name == "scope"@
    ||| name == "size"@
    ||| name == "span"@
    ||| name == "src"@
    ||| name == "start"@
    ||| name == "summary"@
    ||| name == "title"@
    ||| name == "width"@
}

/// Every attribute in `html` is on the default whitelist or is `rel`, `generic` or `attribute`.
pub open spec fn holds_only_attributes(
    html: Seq<char>,
    generic: Seq<char>,
    attribute: Seq<char>,
) -> bool {
    forall|i: int, j: int| #[trigger]
        attribute_begins(html, i, j) ==> exists|name: Seq<char>|
            {
                &&& is_whitelisted_attribute(name) || name == "rel"@ || name == generic || name
                    == attribute
                &&& #[trigger] occurs_at(html, name + "=\""@, j + 1)
            }
}

/// `name` can stand in a tag as it is.
pub open spec fn is_plain_name(name: Seq<char>) -> bool {
    !name.contains('<') && !name.contains('>') && !name.contains('"') && !name.contains(' ')
}

/// No attribute in `html` is an event handler: none begins with `on`, in capital or small letters.
pub open spec fn holds_no_event_handler(html: Seq<char>) -> bool {
    forall|i: int, j: int| #[trigger]
        attribute_begins(html, i, j) && j + 2 < html.len() ==> !(ascii_lower(html[j + 1]) == 'o'
            && ascii_lower(html[j + 2]) == 'n')
}

/// The text from position `k` on begins with a scheme: a `:` comes before any slash, query, fragment
/// or closing quote.
pub open spec fn is_absolute_at(html: Seq<char>, k: int) -> bool {
    exists|m: int|
        {
            &&& k <= m < html.len()
            &&& #[trigger] html[m] == ':'
            &&& !html.subrange(k, m).contains('/') && !html.subrange(k, m).contains('?')
            &&& !html.subrange(k, m).contains('#') && !html.subrange(k, m).contains('"')
        }
}

/// No `src` and no `href` in `html` is relative.
pub open spec fn every_address_is_absolute(html: Seq<char>) -> bool {
    forall|i: int, j: int| #[trigger]
        attribute_begins(html, i, j) ==> {
            &&& occurs_at(html, "src=\""@, j + 1) ==> is_absolute_at(html, j + 6)
            &&& occurs_at(html, "href=\""@, j + 1) ==> is_absolute_at(html, j + 7)
        }
}

/// `ammonia::Builder::clean` on a builder with the default whitelist and the given settings. The
/// result depends on the arguments alone and is named by [`cleaned_html`]. The builder asserts that
/// `rel` is not among the generic attributes while it sets `rel` itself.
///
/// The result holds only tags of the whitelist, and `<` and `>` are escaped in texts and attribute
/// values. So, while the attribute names hold neither: no `script` and no `style` tag stands in it;
/// every `a` tag carries the `rel` that was asked for, whatever it carried before; and the
/// `referrerpolicy` that is asked for on `img` stands in every such tag. An attribute is written as
/// a space, its name and its quoted value, in which `"` is escaped; attributes off the whitelist are
/// dropped, and so are elements outside the HTML namespace, so that no name carries a prefix. With a
/// base, a relative `src` or `href` is replaced by the URL that it resolves to, or dropped where it
/// resolves to none. To which URL it resolves is part of the named result and not said otherwise.
#[verifier::external_body]
fn clean_html(
    html: &str,
    rel: &str,
    generic: &str,
    tag: &str,
    attribute: &str,
    value: &str,
    base: Option<url::Url>,
) -> (r: String)
    requires
        generic@ != "rel"@,
    ensures
        r@ == cleaned_html(html@, rel@, generic@, tag@, attribute@, value@, base),
        !generic@.contains('<') && !attribute@.contains('<') && !attribute@.contains('>') ==> {
            &&& !holds_text(r@, "<script"@)
            &&& !holds_text(r@, "<style"@)
            &&& is_plain_value(rel@) ==> !holds_text(r@, "<a>"@) && every_tag_carries(
                r@,
                "<a "@,
                attribute_text("rel"@, rel@),
            )
            &&& tag@ == "img"@ && attribute@ == "referrerpolicy"@ && is_plain_value(value@)
                ==> every_tag_carries(r@, "<img"@, attribute_text(attribute@, value@))
        },
        is_plain_name(generic@) && is_plain_name(attribute@) ==> holds_only_attributes(
            r@,
            generic@,
            attribute@,
        ),
        is_plain_name(generic@) && is_plain_name(attribute@) && attribute@ != "src"@ && attribute@
            != "href"@ && base is Some ==> every_address_is_absolute(r@),
{
    let mut builder = ammonia::Builder::default();
    builder
        .link_rel(Some(rel))
        .add_generic_attributes([generic])
        .set_tag_attribute_value(tag, attribute, value)
        .url_relative(match base {
            Some(b) => ammonia::UrlRelative::RewriteWithBase(b),
            None => ammonia::UrlRelative::PassThrough,
        });
    builder.clean(html).to_string()
}

/// The `rel` value that every link carries.
pub const LINK_REL: &'static str = "noopener noreferrer nofollow";

/// The base URL that a text stands for; a text that is no absolute URL stands for none.
pub open spec fn base_url(base: Option<Seq<char>>) -> Option<url::Url> {
    match base {
        Some(b) => parsed_url(b),
        None => None,
    }
}

/// The sanitised form of `html`.
pub open spec fn sanitized(html: Seq<char>, base: Option<Seq<char>>) -> Seq<char> {
    cleaned_html(
        html,
        LINK_REL@,
        "loading"@,
        "img"@,
        "referrerpolicy"@,
        "no-referrer"@,
        base_url(base),
    )
}

pub open spec fn option_str(o: Option<&str>) -> Option<Seq<char>> {
    match o {
        Some(t) => Some(t@),
        None => None,
    }
}

/// Sanitises untrusted HTML for safe rendering inside the reader.
///
/// Links get [`LINK_REL`], the `loading` attribute is let through, and images are loaded without a
/// Referer: many image hosts refuse hotlinked requests that carry one. Relative URLs are rewritten
/// against `base`, so that feed images and links resolve; a `base` that is no absolute URL is
/// ignored.
pub fn sanitize(html: &str, base: Option<&str>) -> (r: String)
    ensures
        r@ == sanitized(html@, option_str(base)),
        !holds_text(r@, "<script"@),
        !holds_text(r@, "<style"@),
        !holds_text(r@, "<a>"@),
        every_tag_carries(r@, "<a "@, attribute_text("rel"@, LINK_REL@)),
        every_tag_carries(r@, "<img"@, attribute_text("referrerpolicy"@, "no-referrer"@)),
        holds_only_attributes(r@, "loading"@, "referrerpolicy"@),
        holds_no_event_handler(r@),
        base_url(option_str(base)) is Some ==> every_address_is_absolute(r@),
{
    let parsed: Option<url::Url> = match base {
        Some(b) => match parse_url(b) {
            Ok(u) => Some(u),
            Err(_) => None,
        },
        None => None,
    };
    proof {
        reveal_strlit("loading");
        reveal_strlit("rel");
        reveal_strlit("referrerpolicy");
        assert("loading"@.len() != "rel"@.len());
        assert(!"loading"@.contains('<'));
        assert(!"referrerpolicy"@.contains('<'));
        assert(!"referrerpolicy"@.contains('>'));
        reveal_strlit("noopener noreferrer nofollow");
        reveal_strlit("no-referrer");
        assert(is_plain_value(LINK_REL@));
        assert(is_plain_value("no-referrer"@));
        assert(is_plain_name("loading"@));
        assert(is_plain_name("referrerpolicy"@));
        reveal_strlit("src");
        reveal_strlit("href");
        assert("referrerpolicy"@.len() != "src"@.len() && "referrerpolicy"@.len() != "href"@.len());
    }
    let clean = clean_html(
        html,
        LINK_REL,
        "loading",
        "img",
        "referrerpolicy",
        "no-referrer",
        parsed,
    );
    proof {
        lemma_no_event_handler(clean@);
    }
    clean
}

/// The names of the attributes that are let through do not begin with an `o`.
proof fn lemma_attribute_names(name: Seq<char>)
    requires
        is_whitelisted_attribute(name) || name == "rel"@ || name == "loading"@ || name
            == "referrerpolicy"@,
    ensures
        name.len() > 0,
        ascii_lower(name[0]) != 'o',
{
    reveal_strlit("align");
    reveal_strlit("alt");
    reveal_strlit("char");
    reveal_strlit("charoff");
    reveal_strlit("cite");
    reveal_strlit("colspan");
    reveal_strlit("datetime");
    reveal_strlit("dir");
    reveal_strlit("headers");
    reveal_strlit("height");
    reveal_strlit("href");
    reveal_strlit("hreflang");
    reveal_strlit("lang");
    reveal_strlit("rowspan");
    reveal_strlit("scope");
    reveal_strlit("size");
    reveal_strlit("span");
    reveal_strlit("src");
    reveal_strlit("start");
    reveal_strlit("summary");
    reveal_strlit("title");
    reveal_strlit("width");
    reveal_strlit("rel");
    reveal_strlit("loading");
    reveal_strlit("referrerpolicy");
}

/// Where only these attributes stand, no event handler does.
proof fn lemma_no_event_handler(html: Seq<char>)
    requires
        holds_only_attributes(html, "loading"@, "referrerpolicy"@),
    ensures
        holds_no_event_handler(html),
{
    assert forall|i: int, j: int| #[trigger]
        attribute_begins(html, i, j) && j + 2 < html.len() implies !(ascii_lower(html[j + 1]) == 'o'
        && ascii_lower(html[j + 2]) == 'n') by {
        let name = choose|name: Seq<char>|
            {
                &&& is_whitelisted_attribute(name) || name == "rel"@ || name == "loading"@ || name
                    == "referrerpolicy"@
                &&& #[trigger] occurs_at(html, name + "=\""@, j + 1)
            };
        lemma_attribute_names(name);
        let written = name + "=\""@;
        assert(html.subrange(j + 1, j + 1 + written.len())[0] == written[0]);
    }
}

/// A base that is no absolute URL counts as no base.
pub proof fn law_unreadable_base_counts_as_none(html: Seq<char>, base: Seq<char>)
    requires
        parsed_url(base) is None,
    ensures
        sanitized(html, Some(base)) == sanitized(html, None),
{
}

// ------------------------------------------------------------- text extraction

/// One edge of a depth-first walk over an HTML tree.
pub enum DomEvent {
    /// An element of this name begins.
    Open(String),
    /// An element of this name ends.
    Close(String),
    /// A text node.
    Text(String),
    /// An edge of any other node.
    Other,
}

/// The model of a [`DomEvent`].
pub enum DomEventView {
    Open(Seq<char>),
    Close(Seq<char>),
    Text(Seq<char>),
    Other,
}

impl View for DomEvent {
    type V = DomEventView;

    open spec fn view(&self) -> DomEventView {
        match self {
            DomEvent::Open(n) => DomEventView::Open(n@),
            DomEvent::Close(n) => DomEventView::Close(n@),
            DomEvent::Text(t) => DomEventView::Text(t@),
            DomEvent::Other => DomEventView::Other,
        }
    }
}

pub open spec fn event_views(v: Seq<DomEvent>) -> Seq<DomEventView> {
    Seq::new(v.len(), |i: int| v[i]@)
}

/// The walk over the tree that `scraper::Html::parse_fragment` builds.
pub uninterp spec fn fragment_events(html: Seq<char>) -> Seq<DomEventView>;

/// `scraper::Html::parse_fragment`, and the edges of its tree in the order of
/// `ego_tree::NodeRef::traverse`, one event for each edge. The result depends on the text alone
/// and is named by [`fragment_events`].
#[verifier::external_body]
fn walk_fragment(html: &str) -> (r: Vec<DomEvent>)
    ensures
        event_views(r@) == fragment_events(html@),
{
    scraper::Html::parse_fragment(html).tree.root().traverse().map(|edge| match edge {
        ego_tree::iter::Edge::Open(node) => match node.value() {
            scraper::Node::Element(el) => DomEvent::Open(el.name().to_string()),
            scraper::Node::Text(t) => DomEvent::Text(t.text.to_string()),
            _ => DomEvent::Other,
        },
        ego_tree::iter::Edge::Close(node) => match node.value() {
            scraper::Node::Element(el) => DomEvent::Close(el.name().to_string()),
            _ => DomEvent::Other,
        },
    }).collect()
}

/// Tags whose text content is dropped wholesale: it is not human-readable copy.
pub open spec fn is_skip_tag(name: Seq<char>) -> bool {
    name == "script"@ || name == "style"@ || name == "template"@ || name == "noscript"@
}

/// Block-level tags: their edges are word boundaries.
pub open spec fn is_block_tag(name: Seq<char>) -> bool {
    ||| name == "address"@
    ||| name == "article"@
    ||| name == "aside"@
    ||| name == "blockquote"@
    ||| name == "br"@
    ||| name == "caption"@
    ||| name == "dd"@
    ||| name == "div"@
    ||| name == "dl"@
    ||| name == "dt"@
    ||| name == "figcaption"@
    ||| name == "figure"@
    ||| name == "footer"@
    ||| name == "h1"@
    ||| name == "h2"@
    ||| name == "h3"@
    ||| name == "h4"@
    ||| name == "h5"@
    ||| name == "h6"@
    ||| name == "header"@
    ||| name == "hr"@
    ||| name == "li"@
    ||| name == "main"@
    ||| name == "nav"@
    ||| name == "ol"@
    ||| name == "p"@
    ||| name == "pre"@
    ||| name == "section"@
    ||| name == "table"@
    ||| name == "td"@
    ||| name == "th"@
    ||| name == "tr"@
    ||| name == "ul"@
}

fn skip_tag(name: &str) -> (b: bool)
    ensures
        b == is_skip_tag(name@),
{
    same_text(name, "script") || same_text(name, "style") || same_text(name, "template")
        || same_text(name, "noscript")
}

fn block_tag(name: &str) -> (b: bool)
    ensures
        b == is_block_tag(name@),
{
    same_text(name, "address") || same_text(name, "article") || same_text(name, "aside")
        || same_text(name, "blockquote") || same_text(name, "br") || same_text(name, "caption")
        || same_text(name, "dd") || same_text(name, "div") || same_text(name, "dl") || same_text(
        name,
        "dt",
    ) || same_text(name, "figcaption") || same_text(name, "figure") || same_text(name, "footer")
        || same_text(name, "h1") || same_text(name, "h2") || same_text(name, "h3") || same_text(
        name,
        "h4",
    ) || same_text(name, "h5") || same_text(name, "h6") || same_text(name, "header") || same_text(
        name,
        "hr",
    ) || same_text(name, "li") || same_text(name, "main") || same_text(name, "nav") || same_text(
        name,
        "ol",
    ) || same_text(name, "p") || same_text(name, "pre") || same_text(name, "section") || same_text(
        name,
        "table",
    ) || same_text(name, "td") || same_text(name, "th") || same_text(name, "tr") || same_text(
        name,
        "ul",
    )
}

/// What a walk has gathered so far: how many skipped elements are open, and the text outside them.
pub struct Gathered {
    pub skip: nat,
    pub out: Seq<char>,
}

/// The effect of one edge.
pub open spec fn gather_step(st: Gathered, e: DomEventView) -> Gathered {
    match e {
        DomEventView::Open(name) => if is_skip_tag(name) {
            Gathered { skip: st.skip + 1, out: st.out }
        } else if st.skip == 0 && is_block_tag(name) {
            Gathered { skip: 0, out: st.out.push(' ') }
        } else {
            st
        },
        DomEventView::Close(name) => if is_skip_tag(name) {
            Gathered { skip: if st.skip == 0 { 0 } else { (st.skip - 1) as nat }, out: st.out }
        } else if st.skip == 0 && is_block_tag(name) {
            Gathered { skip: 0, out: st.out.push(' ') }
        } else {
            st
        },
        DomEventView::Text(t) => if st.skip == 0 {
            Gathered { skip: 0, out: st.out + t }
        } else {
            st
        },
        DomEventView::Other => st,
    }
}

/// The effect of a run of edges.
pub open spec fn gather(st: Gathered, events: Seq<DomEventView>) -> Gathered
    decreases events.len(),
{
    if events.len() == 0 {
        st
    } else {
        gather_step(gather(st, events.drop_last()), events.last())
    }
}

/// Before the first edge nothing is open and nothing gathered.
pub open spec fn gather_start() -> Gathered {
    Gathered { skip: 0, out: seq![] }
}

/// The plain text of a walk: the words of what it gathers, with single spaces between them.
pub open spec fn plain_text(events: Seq<DomEventView>) -> Seq<char> {
    collapsed(gather(gather_start(), events).out)
}

/// The plain text of a walk over an HTML tree.
pub fn text_of_events(events: &Vec<DomEvent>) -> (r: String)
    ensures
        r@ == plain_text(event_views(events@)),
{
    let mut out = String::new();
    // Depth of the open script/style/... elements: text is dropped while it is not zero.
    let mut skip: usize = 0;
    let n: usize = events.len();
    let mut i: usize = 0;
    let ghost all = event_views(events@);
    while i < n
        invariant
            n == events@.len(),
            all == event_views(events@),
            i <= n,
            skip <= i,
            skip == gather(gather_start(), all.take(i as int)).skip,
            out@ == gather(gather_start(), all.take(i as int)).out,
        decreases n - i,
    {
        proof {
            assert(all.take(i + 1).drop_last() =~= all.take(i as int));
            assert(all.take(i + 1).last() == events@[i as int]@);
        }
        match &events[i] {
            DomEvent::Open(name) => {
                if skip_tag(name.as_str()) {
                    skip = skip + 1;
                } else if skip == 0 && block_tag(name.as_str()) {
                    out.push(' ');
                }
            },
            DomEvent::Text(t) => {
                if skip == 0 {
                    out.append(t.as_str());
                }
            },
            DomEvent::Close(name) => {
                if skip_tag(name.as_str()) {
                    if skip > 0 {
                        skip = skip - 1;
                    }
                } else if skip == 0 && block_tag(name.as_str()) {
                    out.push(' ');
                }
            },
            DomEvent::Other => {},
        }
        i = i + 1;
    }
    assert(all.take(n as int) =~= all);
    collapse_white_space(out.as_str())
}

proof fn lemma_gather_split(st: Gathered, a: Seq<DomEventView>, b: Seq<DomEventView>)
    ensures
        gather(st, a + b) == gather(gather(st, a), b),
    decreases b.len(),
{
    if b.len() == 0 {
        assert(a + b =~= a);
    } else {
        assert((a + b).drop_last() =~= a + b.drop_last());
        lemma_gather_split(st, a, b.drop_last());
    }
}

/// The text gathered earlier has no influence on what is gathered next.
proof fn lemma_gather_prefix(skip: nat, before: Seq<char>, events: Seq<DomEventView>)
    ensures
        gather(Gathered { skip, out: before }, events).skip == gather(
            Gathered { skip, out: seq![] },
            events,
        ).skip,
        gather(Gathered { skip, out: before }, events).out == before + gather(
            Gathered { skip, out: seq![] },
            events,
        ).out,
    decreases events.len(),
{
    if events.len() == 0 {
        assert(before + seq![] =~= before);
    } else {
        lemma_gather_prefix(skip, before, events.drop_last());
        let x = gather(Gathered { skip, out: before }, events.drop_last());
        let y = gather(Gathered { skip, out: seq![] }, events.drop_last());
        assert(gather_step(x, events.last()).out =~= before + gather_step(y, events.last()).out);
    }
}

/// An edge at which a word ends: a block-level element begins or ends.
pub open spec fn is_block_edge(e: DomEventView) -> bool {
    match e {
        DomEventView::Open(name) => is_block_tag(name) && !is_skip_tag(name),
        DomEventView::Close(name) => is_block_tag(name) && !is_skip_tag(name),
        _ => false,
    }
}

/// An edge of an element that is neither block-level nor skipped.
pub open spec fn is_inline_edge(e: DomEventView) -> bool {
    match e {
        DomEventView::Open(name) => !is_block_tag(name) && !is_skip_tag(name),
        DomEventView::Close(name) => !is_block_tag(name) && !is_skip_tag(name),
        _ => false,
    }
}

/// The plain text holds white space only as single spaces between words.
pub proof fn law_plain_text_is_single_spaced(events: Seq<DomEventView>)
    ensures
        single_spaced(plain_text(events)),
        collapsed(plain_text(events)) == plain_text(events),
{
    law_collapsing(gather(gather_start(), events).out);
}

/// Text on either side of a block edge does not run together: the words of the whole are the words
/// before the edge and the words after it.
pub proof fn law_block_edges_separate_words(
    before: Seq<DomEventView>,
    edge: DomEventView,
    after: Seq<DomEventView>,
)
    requires
        is_block_edge(edge),
        gather(gather_start(), before).skip == 0,
    ensures
        words(plain_text(before.push(edge) + after)) == words(plain_text(before)) + words(
            plain_text(after),
        ),
{
    let a = gather(gather_start(), before);
    lemma_gather_split(gather_start(), before.push(edge), after);
    assert(before.push(edge).drop_last() =~= before);
    let x = gather(gather_start(), before.push(edge));
    assert(x == gather_step(a, edge));
    assert(x.out == a.out.push(' ') && x.skip == 0);
    lemma_gather_prefix(0, a.out.push(' '), after);
    lemma_words_split(a.out, ' ', gather(gather_start(), after).out);
    law_collapsing(gather(gather_start(), before.push(edge) + after).out);
    law_collapsing(a.out);
    law_collapsing(gather(gather_start(), after).out);
}

/// An inline edge leaves no trace in the text.
pub proof fn law_inline_edges_vanish(
    before: Seq<DomEventView>,
    edge: DomEventView,
    after: Seq<DomEventView>,
)
    requires
        is_inline_edge(edge),
    ensures
        plain_text(before.push(edge) + after) == plain_text(before + after),
{
    lemma_gather_split(gather_start(), before.push(edge), after);
    lemma_gather_split(gather_start(), before, after);
    assert(before.push(edge).drop_last() =~= before);
}

/// Nothing inside a skipped element reaches the text: a subtree whose skipped elements close
/// inside it vanishes with the element around it.
pub proof fn law_skipped_content_is_dropped(
    before: Seq<DomEventView>,
    name: Seq<char>,
    inside: Seq<DomEventView>,
    after: Seq<DomEventView>,
)
    requires
        is_skip_tag(name),
        gather(Gathered { skip: 1, out: seq![] }, inside).skip == 1,
        forall|k: int|
            0 <= k <= inside.len() ==> gather(
                Gathered { skip: 1, out: seq![] },
                #[trigger] inside.take(k),
            ).skip >= 1,
    ensures
        plain_text(
            before.push(DomEventView::Open(name)) + inside.push(DomEventView::Close(name)) + after,
        ) == plain_text(before + after),
{
    let open = DomEventView::Open(name);
    let close = DomEventView::Close(name);
    let a = gather(gather_start(), before);
    lemma_gather_split(gather_start(), before.push(open) + inside.push(close), after);
    lemma_gather_split(gather_start(), before.push(open), inside.push(close));
    lemma_gather_split(gather_start(), before, after);
    assert(before.push(open).drop_last() =~= before);
    assert(inside.push(close).drop_last() =~= inside);
    assert(inside.take(inside.len() as int) =~= inside);
    lemma_gather_silent(a, inside, inside.len() as int);
}

/// While a skipped element is open, nothing is gathered.
proof fn lemma_gather_silent(a: Gathered, inside: Seq<DomEventView>, k: int)
    requires
        0 <= k <= inside.len(),
        forall|j: int|
            0 <= j <= inside.len() ==> gather(
                Gathered { skip: 1, out: seq![] },
                #[trigger] inside.take(j),
            ).skip >= 1,
    ensures
        gather(Gathered { skip: a.skip + 1, out: a.out }, inside.take(k)).out == a.out,
        gather(Gathered { skip: a.skip + 1, out: a.out }, inside.take(k)).skip == a.skip + gather(
            Gathered { skip: 1, out: seq![] },
            inside.take(k),
        ).skip,
    decreases k,
{
    if k > 0 {
        assert(inside.take(k).drop_last() =~= inside.take(k - 1));
        lemma_gather_silent(a, inside, k - 1);
        assert(gather(Gathered { skip: 1, out: seq![] }, inside.take(k)).skip >= 1);
    }
}

/// Strips all markup from HTML, yielding collapsed plain text. Used for the full-text index, list
/// snippets and AI prompt context.
///
/// Entities are decoded, a space stands at every block boundary so that adjacent paragraphs and
/// headings keep their words apart, and inline tags join seamlessly. The walk is iterative, so
/// deeply nested markup cannot exhaust the stack.
pub fn html_to_text(html: &str) -> (r: String)
    ensures
        r@ == plain_text(fragment_events(html@)),
{
    let events = walk_fragment(html);
    text_of_events(&events)
}

// ------------------------------------------------------------------ first image

pub open spec fn option_texts(v: Seq<Option<String>>) -> Seq<Option<Seq<char>>> {
    Seq::new(v.len(), |i: int| option_text(v[i]))
}

/// For each element that `css` selects in the tree of `html`, in order, the value of its
/// attribute `name`; nothing where `css` is no selector.
pub uninterp spec fn selected_attributes(
    html: Seq<char>,
    css: Seq<char>,
    name: Seq<char>,
) -> Option<Seq<Option<Seq<char>>>>;

/// `scraper::Html::select` on a parsed fragment, with the value of one attribute of each element
/// it yields, in its order. The result depends on the texts alone and is named by
/// [`selected_attributes`]. A lone type selector such as `img` is always a valid one.
#[verifier::external_body]
fn select_attributes(html: &str, css: &str, name: &str) -> (r: Option<Vec<Option<String>>>)
    ensures
        match r {
            Some(v) => selected_attributes(html@, css@, name@) == Some(option_texts(v@)),
            None => selected_attributes(html@, css@, name@) is None,
        },
        css@ == "img"@ ==> r is Some,
{
    match scraper::Selector::parse(css) {
        Ok(selector) => Some(
            scraper::Html::parse_fragment(html)
                .select(&selector)
                .map(|el| el.value().attr(name).map(String::from))
                .collect(),
        ),
        Err(_) => None,
    }
}

/// A source that a thumbnail can be loaded from: an absolute web address.
pub open spec fn is_web_address(src: Seq<char>) -> bool {
    "http://"@.is_prefix_of(src) || "https://"@.is_prefix_of(src)
}

/// The first source that is a web address once white space around it is dropped.
pub open spec fn first_usable(sources: Seq<Option<Seq<char>>>) -> Option<Seq<char>>
    decreases sources.len(),
{
    if sources.len() == 0 {
        None
    } else {
        match sources[0] {
            Some(src) if is_web_address(trimmed(src)) => Some(trimmed(src)),
            _ => first_usable(sources.drop_first()),
        }
    }
}

/// A thumbnail is the first source that is a web address: every source before it is missing or
/// unusable, and no thumbnail means that there is no usable source at all.
pub proof fn law_thumbnail_is_the_first_web_address(sources: Seq<Option<Seq<char>>>) -> (n: int)
    ensures
        0 <= n <= sources.len(),
        forall|i: int|
            0 <= i < n ==> (#[trigger] sources[i] matches Some(src) ==> !is_web_address(
                trimmed(src),
            )),
        match first_usable(sources) {
            Some(t) => {
                &&& n < sources.len()
                &&& sources[n] matches Some(src) && t == trimmed(src) && is_web_address(t)
            },
            None => n == sources.len(),
        },
    decreases sources.len(),
{
    if sources.len() == 0 {
        0
    } else {
        match sources[0] {
            Some(src) if is_web_address(trimmed(src)) => 0,
            _ => {
                let rest = sources.drop_first();
                let m = law_thumbnail_is_the_first_web_address(rest);
                assert forall|i: int| 0 <= i < m + 1 implies (#[trigger] sources[i] matches Some(src)
                    ==> !is_web_address(trimmed(src))) by {
                    if i > 0 {
                        assert(sources[i] == rest[i - 1]);
                    }
                }
                m + 1
            },
        }
    }
}

/// The first source of a list that is a web address, trimmed.
pub fn first_usable_source(sources: &Vec<Option<String>>) -> (r: Option<String>)
    ensures
        option_text(r) == first_usable(option_texts(sources@)),
{
    let n: usize = sources.len();
    let mut i: usize = 0;
    let ghost all = option_texts(sources@);
    assert(all.skip(0) =~= all);
    while i < n
        invariant
            n == sources@.len(),
            i <= n,
            all == option_texts(sources@),
            first_usable(all) == first_usable(all.skip(i as int)),
        decreases n - i,
    {
        assert(all.skip(i as int)[0] == option_text(sources@[i as int]));
        assert(all.skip(i as int).drop_first() =~= all.skip(i + 1));
        if let Some(value) = &sources[i] {
            let src = trim(value.as_str());
            if starts_with(src, "http://") || starts_with(src, "https://") {
                return Some(src.to_string());
            }
        }
        i = i + 1;
    }
    None
}

/// The first usable image URL embedded in a block of sanitised HTML, a thumbnail for feeds that
/// ship none. A source that is not absolute cannot be resolved, and a `data:` blob is an inline
/// pixel rather than a thumbnail; both are passed over.
pub fn first_image(html: &str) -> (r: Option<String>)
    ensures
        selected_attributes(html@, "img"@, "src"@) is Some,
        option_text(r) == first_usable(selected_attributes(html@, "img"@, "src"@)->0),
{
    match select_attributes(html, "img", "src") {
        Some(sources) => first_usable_source(&sources),
        None => None,
    }
}

// --------------------------------------------------------------------- escaping

/// How `c` is written in element text or in an attribute value.
pub open spec fn entity(c: char) -> Seq<char> {
    if c == '&' {
        "&amp;"@
    } else if c == '<' {
        "&lt;"@
    } else if c == '>' {
        "&gt;"@
    } else if c == '"' {
        "&quot;"@
    } else if c == '\'' {
        "&#39;"@
    } else {
        seq![c]
    }
}

/// `s` with each character written as its [`entity`].
pub open spec fn escaped(s: Seq<char>) -> Seq<char>
    decreases s.len(),
{
    if s.len() == 0 {
        seq![]
    } else {
        escaped(s.drop_last()) + entity(s.last())
    }
}

/// HTML-escapes a string for safe interpolation into element text or an attribute value. Escapes
/// the five characters that can break out of either context (`& < > " '`).
pub fn escape_html(s: &str) -> (r: String)
    ensures
        r@ == escaped(s@),
{
    let mut out = String::new();
    for c in it: s.chars()
        invariant
            it.seq() == s@,
            out@ == escaped(s@.take(it.index() as int)),
    {
        let ghost next = s@.take(it.index() + 1);
        let ghost before = out@;
        proof {
            assert(next.drop_last() =~= s@.take(it.index() as int));
            assert(next.last() == c);
        }
        match c {
            '&' => out.append("&amp;"),
            '<' => out.append("&lt;"),
            '>' => out.append("&gt;"),
            '"' => out.append("&quot;"),
            '\'' => out.append("&#39;"),
            _ => out.push(c),
        }
        assert(out@ =~= before + entity(c));
    }
    assert(s@.take(s@.len() as int) =~= s@);
    out
}

// ------------------------------------------------------------------------- laws

/// The texts of the text nodes of a walk, in their order.
pub open spec fn texts_in(events: Seq<DomEventView>) -> Seq<Seq<char>>
    decreases events.len(),
{
    if events.len() == 0 {
        seq![]
    } else {
        match events.last() {
            DomEventView::Text(t) => texts_in(events.drop_last()).push(t),
            _ => texts_in(events.drop_last()),
        }
    }
}

/// No element of the walk is one whose content is dropped.
pub open spec fn skips_nothing(events: Seq<DomEventView>) -> bool {
    forall|i: int|
        0 <= i < events.len() ==> match #[trigger] events[i] {
            DomEventView::Open(name) => {
                name != "script"@ && name != "style"@ && name != "template"@ && name != "noscript"@
            },
            DomEventView::Close(name) => {
                name != "script"@ && name != "style"@ && name != "template"@ && name != "noscript"@
            },
            _ => true,
        }
}

proof fn lemma_nothing_is_skipped(st: Gathered, events: Seq<DomEventView>)
    requires
        skips_nothing(events),
    ensures
        gather(st, events).skip == st.skip,
        st.skip > 0 ==> gather(st, events).out == st.out,
    decreases events.len(),
{
    if events.len() > 0 {
        let t = events.drop_last();
        assert forall|i: int| 0 <= i < t.len() implies match #[trigger] t[i] {
            DomEventView::Open(name) => {
                name != "script"@ && name != "style"@ && name != "template"@ && name != "noscript"@
            },
            DomEventView::Close(name) => {
                name != "script"@ && name != "style"@ && name != "template"@ && name != "noscript"@
            },
            _ => true,
        } by {
            assert(t[i] == events[i]);
        }
        lemma_nothing_is_skipped(st, t);
        assert(events[events.len() - 1] == events.last());
    }
}

proof fn lemma_inline_text(events: Seq<DomEventView>)
    requires
        forall|i: int|
            0 <= i < events.len() ==> #[trigger] events[i] is Text || is_inline_edge(events[i])
                || events[i] is Other,
    ensures
        gather(gather_start(), events) == (Gathered { skip: 0, out: concatenated(texts_in(events)) }),
    decreases events.len(),
{
    if events.len() > 0 {
        let t = events.drop_last();
        assert forall|i: int| 0 <= i < t.len() implies #[trigger] t[i] is Text || is_inline_edge(t[i])
            || t[i] is Other by {
            assert(t[i] == events[i]);
        }
        lemma_inline_text(t);
        assert(events[events.len() - 1] == events.last());
        if let DomEventView::Text(text) = events.last() {
            assert(texts_in(t).push(text).drop_last() =~= texts_in(t));
        }
    }
}

/// Text nodes with nothing but inline edges between them run together as they stand: white space
/// at the end of one node or at the start of the next keeps two words apart, and without any they
/// are one word.
pub proof fn law_inline_text_runs_together(events: Seq<DomEventView>)
    requires
        forall|i: int|
            0 <= i < events.len() ==> #[trigger] events[i] is Text || is_inline_edge(events[i])
                || events[i] is Other,
    ensures
        words(plain_text(events)) == words(concatenated(texts_in(events))),
        plain_text(events) == collapsed(concatenated(texts_in(events))),
{
    lemma_inline_text(events);
    law_collapsing(concatenated(texts_in(events)));
}

/// It makes no difference where a text is cut into two nodes.
pub proof fn law_text_nodes_may_be_cut(
    before: Seq<DomEventView>,
    a: Seq<char>,
    b: Seq<char>,
    after: Seq<DomEventView>,
)
    ensures
        plain_text(before.push(DomEventView::Text(a)).push(DomEventView::Text(b)) + after)
            == plain_text(before.push(DomEventView::Text(a + b)) + after),
{
    let one = before.push(DomEventView::Text(a + b));
    let first = before.push(DomEventView::Text(a));
    let two = first.push(DomEventView::Text(b));
    lemma_gather_split(gather_start(), one, after);
    lemma_gather_split(gather_start(), two, after);
    assert(one.drop_last() =~= before);
    assert(two.drop_last() =~= first);
    assert(first.drop_last() =~= before);
    let st = gather(gather_start(), before);
    assert(gather(gather_start(), first) == gather_step(st, DomEventView::Text(a)));
    assert(gather(gather_start(), two) == gather_step(
        gather(gather_start(), first),
        DomEventView::Text(b),
    ));
    assert(gather(gather_start(), one) == gather_step(st, DomEventView::Text(a + b)));
    assert(st.out + (a + b) =~= st.out + a + b);
}

/// Which elements keep the words before and after their edges apart, and which leave no trace: the
/// block-level elements of HTML do the one, every other element does the other.
#[verifier::rlimit(40)]
pub proof fn law_block_level_elements(
    before: Seq<DomEventView>,
    name: Seq<char>,
    after: Seq<DomEventView>,
)
    requires
        skips_nothing(before),
        name != "script"@,
        name != "style"@,
        name != "template"@,
        name != "noscript"@,
    ensures
        ({
            let block = {
                ||| name == "address"@
                ||| name == "article"@
                ||| name == "aside"@
                ||| name == "blockquote"@
                ||| name == "br"@
                ||| name == "caption"@
                ||| name == "dd"@
                ||| name == "div"@
                ||| name == "dl"@
                ||| name == "dt"@
                ||| name == "figcaption"@
                ||| name == "figure"@
                ||| name == "footer"@
                ||| name == "h1"@
                ||| name == "h2"@
                ||| name == "h3"@
                ||| name == "h4"@
                ||| name == "h5"@
                ||| name == "h6"@
                ||| name == "header"@
                ||| name == "hr"@
                ||| name == "li"@
                ||| name == "main"@
                ||| name == "nav"@
                ||| name == "ol"@
                ||| name == "p"@
                ||| name == "pre"@
                ||| name == "section"@
                ||| name == "table"@
                ||| name == "td"@
                ||| name == "th"@
                ||| name == "tr"@
                ||| name == "ul"@
            };
            let opened = plain_text(before.push(DomEventView::Open(name)) + after);
            let closed = plain_text(before.push(DomEventView::Close(name)) + after);
            &&& block ==> words(opened) == words(plain_text(before)) + words(plain_text(after))
            &&& block ==> words(closed) == words(plain_text(before)) + words(plain_text(after))
            &&& !block ==> opened == plain_text(before + after)
            &&& !block ==> closed == plain_text(before + after)
        }),
{
    let open = DomEventView::Open(name);
    let close = DomEventView::Close(name);
    lemma_nothing_is_skipped(gather_start(), before);
    if is_block_tag(name) {
        law_block_edges_separate_words(before, open, after);
        law_block_edges_separate_words(before, close, after);
    } else {
        law_inline_edges_vanish(before, open, after);
        law_inline_edges_vanish(before, close, after);
    }
}

/// Scripts, styles, templates and `noscript` fallbacks vanish with everything inside them.
pub proof fn law_scripts_and_styles_vanish(
    before: Seq<DomEventView>,
    name: Seq<char>,
    inside: Seq<DomEventView>,
    after: Seq<DomEventView>,
)
    requires
        name == "script"@ || name == "style"@ || name == "template"@ || name == "noscript"@,
        skips_nothing(inside),
    ensures
        plain_text(
            before.push(DomEventView::Open(name)) + inside.push(DomEventView::Close(name)) + after,
        ) == plain_text(before + after),
{
    let st = Gathered { skip: 1, out: seq![] };
    assert forall|k: int| 0 <= k <= inside.len() implies gather(st, #[trigger] inside.take(k)).skip
        >= 1 by {
        let t = inside.take(k);
        assert forall|i: int| 0 <= i < t.len() implies match #[trigger] t[i] {
            DomEventView::Open(name) => {
                name != "script"@ && name != "style"@ && name != "template"@ && name != "noscript"@
            },
            DomEventView::Close(name) => {
                name != "script"@ && name != "style"@ && name != "template"@ && name != "noscript"@
            },
            _ => true,
        } by {
            assert(t[i] == inside[i]);
        }
        lemma_nothing_is_skipped(st, t);
    }
    lemma_nothing_is_skipped(st, inside);
    law_skipped_content_is_dropped(before, name, inside, after);
}

/// The thumbnail is the first source that begins with `http://` or `https://` once white space
/// around it is gone, without that white space; what stands behind it does not count.
pub proof fn law_thumbnails_are_web_addresses(
    before: Seq<Option<Seq<char>>>,
    lead: Seq<char>,
    address: Seq<char>,
    tail: Seq<char>,
    after: Seq<Option<Seq<char>>>,
)
    requires
        forall|i: int|
            0 <= i < before.len() ==> (#[trigger] before[i] matches Some(src) ==> !"http://"@
                .is_prefix_of(trimmed(src)) && !"https://"@.is_prefix_of(trimmed(src))),
        forall|i: int| 0 <= i < lead.len() ==> is_white_space(#[trigger] lead[i]),
        forall|i: int| 0 <= i < tail.len() ==> is_white_space(#[trigger] tail[i]),
        "http://"@.is_prefix_of(address) || "https://"@.is_prefix_of(address),
        !is_white_space(address.last()),
    ensures
        first_usable(before) is None,
        first_usable(before.push(Some(lead + address + tail)) + after) == Some(address),
    decreases before.len(),
{
    let all = before.push(Some(lead + address + tail)) + after;
    reveal_strlit("http://");
    reveal_strlit("https://");
    assert(address.len() > 0 && address[0] == 'h') by {
        if "http://"@.is_prefix_of(address) {
            assert(address.subrange(0, 7)[0] == 'h');
        } else {
            assert(address.subrange(0, 8)[0] == 'h');
        }
    }
    law_trimming(lead, address, tail);
    if before.len() == 0 {
        assert(all[0] == Some(lead + address + tail));
    } else {
        let rest = before.drop_first();
        assert forall|i: int| 0 <= i < rest.len() implies (#[trigger] rest[i] matches Some(src)
            ==> !"http://"@.is_prefix_of(trimmed(src)) && !"https://"@.is_prefix_of(
            trimmed(src),
        )) by {
            assert(rest[i] == before[i + 1]);
        }
        law_thumbnails_are_web_addresses(rest, lead, address, tail, after);
        assert(all[0] == before[0]);
        assert(all.drop_first() =~= rest.push(Some(lead + address + tail)) + after);
    }
}

/// Escaping goes character by character. Five characters are written as entities, and every other
/// one stands for itself.
pub proof fn law_escaping_goes_by_character(a: Seq<char>, c: char, b: Seq<char>)
    ensures
        escaped(a + b) == escaped(a) + escaped(b),
        escaped(seq!['&']) == "&amp;"@,
        escaped(seq!['<']) == "&lt;"@,
        escaped(seq!['>']) == "&gt;"@,
        escaped(seq!['"']) == "&quot;"@,
        escaped(seq!['\'']) == "&#39;"@,
        c != '&' && c != '<' && c != '>' && c != '"' && c != '\'' ==> escaped(seq![c]) == seq![c],
    decreases b.len(),
{
    reveal_with_fuel(escaped, 2);
    let nothing = Seq::<char>::empty();
    assert forall|x: char| escaped(#[trigger] seq![x]) == entity(x) by {
        assert(seq![x].drop_last() =~= nothing);
        assert(escaped(nothing) + entity(x) =~= entity(x));
    }
    if b.len() == 0 {
        assert(a + b =~= a);
        assert(escaped(a) + escaped(b) =~= escaped(a));
    } else {
        law_escaping_goes_by_character(a, c, b.drop_last());
        assert((a + b).drop_last() =~= a + b.drop_last());
        assert(escaped(a) + escaped(b.drop_last()) + entity(b.last()) =~= escaped(a) + (escaped(
            b.drop_last(),
        ) + entity(b.last())));
    }
}

/// Relative addresses are resolved against the base that the caller names, where it is a URL.
pub proof fn law_the_base_is_passed_on(html: Seq<char>, base: Seq<char>, u: url::Url)
    requires
        parsed_url(base) == Some(u),
    ensures
        sanitized(html, Some(base)) == cleaned_html(
            html,
            "noopener noreferrer nofollow"@,
            "loading"@,
            "img"@,
            "referrerpolicy"@,
            "no-referrer"@,
            Some(u),
        ),
        sanitized(html, None) == cleaned_html(
            html,
            "noopener noreferrer nofollow"@,
            "loading"@,
            "img"@,
            "referrerpolicy"@,
            "no-referrer"@,
            None,
        ),
{
}

/// How many elements with dropped content these edges leave open.
pub open spec fn left_open(events: Seq<DomEventView>) -> int
    decreases events.len(),
{
    if events.len() == 0 {
        0
    } else {
        left_open(events.drop_last()) + match events.last() {
            DomEventView::Open(name) => if name == "script"@ || name == "style"@ || name
                == "template"@ || name == "noscript"@ {
                1int
            } else {
                0
            },
            DomEventView::Close(name) => if name == "script"@ || name == "style"@ || name
                == "template"@ || name == "noscript"@ {
                -1int
            } else {
                0
            },
            _ => 0,
        }
    }
}

proof fn lemma_left_open(inside: Seq<DomEventView>, k: int)
    requires
        0 <= k <= inside.len(),
        forall|j: int| 0 <= j <= inside.len() ==> left_open(#[trigger] inside.take(j)) >= 0,
    ensures
        gather(Gathered { skip: 1, out: seq![] }, inside.take(k)).skip == 1 + left_open(
            inside.take(k),
        ),
    decreases k,
{
    if k > 0 {
        assert(inside.take(k).drop_last() =~= inside.take(k - 1));
        lemma_left_open(inside, k - 1);
        assert(left_open(inside.take(k - 1)) >= 0);
        assert(left_open(inside.take(k)) >= 0);
    }
}

/// Elements with dropped content may stand inside one another: what the outermost of them holds
/// vanishes with it, also behind the end of an inner one.
pub proof fn law_nested_skipped_elements_vanish(
    before: Seq<DomEventView>,
    name: Seq<char>,
    inside: Seq<DomEventView>,
    after: Seq<DomEventView>,
)
    requires
        name == "script"@ || name == "style"@ || name == "template"@ || name == "noscript"@,
        forall|k: int| 0 <= k <= inside.len() ==> left_open(#[trigger] inside.take(k)) >= 0,
        left_open(inside) == 0,
    ensures
        plain_text(
            before.push(DomEventView::Open(name)) + inside.push(DomEventView::Close(name)) + after,
        ) == plain_text(before + after),
{
    let st = Gathered { skip: 1, out: seq![] };
    assert forall|k: int| 0 <= k <= inside.len() implies gather(st, #[trigger] inside.take(k)).skip
        >= 1 by {
        lemma_left_open(inside, k);
    }
    lemma_left_open(inside, inside.len() as int);
    assert(inside.take(inside.len() as int) =~= inside);
    law_skipped_content_is_dropped(before, name, inside, after);
}

/// Comments and the like leave no trace, and neither does the end of an element with dropped content
/// that was never begun.
pub proof fn law_stray_edges_vanish(
    before: Seq<DomEventView>,
    name: Seq<char>,
    after: Seq<DomEventView>,
)
    requires
        name == "script"@ || name == "style"@ || name == "template"@ || name == "noscript"@,
    ensures
        plain_text(before.push(DomEventView::Other) + after) == plain_text(before + after),
        skips_nothing(before) ==> plain_text(before.push(DomEventView::Close(name)) + after)
            == plain_text(before + after),
{
    let other = before.push(DomEventView::Other);
    let close = before.push(DomEventView::Close(name));
    lemma_gather_split(gather_start(), other, after);
    lemma_gather_split(gather_start(), close, after);
    lemma_gather_split(gather_start(), before, after);
    assert(other.drop_last() =~= before);
    assert(close.drop_last() =~= before);
    if skips_nothing(before) {
        lemma_nothing_is_skipped(gather_start(), before);
    }
}

} // verus!
