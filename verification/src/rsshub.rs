//! RSSHub support: the `rsshub://` URL namespace.
//!
//! RSSHub generates feeds for sites that ship none. A subscription can be written
//! `rsshub://<route>`, e.g. `rsshub://github/issue/DIYgod/RSSHub`, and is stored in that
//! instance-independent form. It is expanded to a concrete URL against the configured instance at
//! fetch time only, so changing the instance re-routes every RSSHub feed at once.

use crate::text::{
    ascii_lower, chars_of, contains, holds_text, is_white_space, law_lower_case, law_trimming,
    lemma_trimmed_edges, lemma_trimmed_fixed, lemma_trimmed_idempotent, lemma_without_end,
    lemma_without_end_bounds, lemma_without_start, lemma_without_start_bounds, occurs_at,
    to_ascii_lower, trim, trim_end_of, trim_start_of, trimmed, without_end, without_start, Class,
};
use vstd::prelude::*;

verus! {

/// The setting key holding the chosen instance base URL.
pub const INSTANCE_SETTING: &'static str = "rsshub_instance";

/// The public instance, used when none is configured.
pub const DEFAULT_INSTANCE: &'static str = "https://rsshub.app";

/// The namespace scheme, with the `://` separator.
pub const SCHEME: &'static str = "rsshub://";

/// `t` begins with the scheme, in capital or small letters.
pub open spec fn begins_with_scheme(t: Seq<char>) -> bool {
    SCHEME@.len() <= t.len() && forall|i: int|
        0 <= i < SCHEME@.len() ==> ascii_lower(#[trigger] t[i]) == SCHEME@[i]
}

/// `url` is an `rsshub://` URL: the scheme stands at its start, after white space at most.
pub open spec fn is_rsshub(url: Seq<char>) -> bool {
    begins_with_scheme(without_start(url, Class::WhiteSpace))
}

/// The route of an `rsshub://` URL: what follows the scheme, without white space and slashes before
/// it and without white space behind it.
pub open spec fn route(url: Seq<char>) -> Seq<char> {
    without_end(
        without_start(
            without_start(url, Class::WhiteSpace).skip(SCHEME@.len() as int),
            Class::WhiteSpaceOrSlash,
        ),
        Class::WhiteSpace,
    )
}

/// The stored form of a URL.
pub open spec fn canonical_form(url: Seq<char>) -> Seq<char> {
    if is_rsshub(url) {
        SCHEME@ + route(url)
    } else {
        trimmed(url)
    }
}

/// The base URL that a user-entered instance stands for.
pub open spec fn normalized_instance(raw: Seq<char>) -> Seq<char> {
    let t = trimmed(raw);
    if t.len() == 0 {
        DEFAULT_INSTANCE@
    } else if holds_text(t, "://"@) {
        without_end(t, Class::Only('/'))
    } else {
        without_end("https://"@ + t, Class::Only('/'))
    }
}

/// The URL to fetch for `url` while `instance` is configured.
pub open spec fn expanded(url: Seq<char>, instance: Seq<char>) -> Seq<char> {
    if is_rsshub(url) {
        normalized_instance(instance) + seq!['/'] + route(url)
    } else {
        url
    }
}

/// Whether `url` is an `rsshub://` namespace URL. The scheme match is case-insensitive and
/// tolerant of leading white space.
pub fn is_rsshub_url(url: &str) -> (b: bool)
    ensures
        b == is_rsshub(url@),
{
    let t = chars_of(trim_start_of(url, Class::WhiteSpace));
    let scheme = chars_of(SCHEME);
    let n: usize = scheme.len();
    if t.len() < n {
        return false;
    }
    let mut i: usize = 0;
    while i < n
        invariant
            t@ == without_start(url@, Class::WhiteSpace),
            scheme@ == SCHEME@,
            n == SCHEME@.len(),
            n <= t@.len(),
            i <= n,
            forall|k: int| 0 <= k < i ==> ascii_lower(#[trigger] t@[k]) == SCHEME@[k],
        decreases n - i,
    {
        if to_ascii_lower(t[i]) != scheme[i] {
            assert(ascii_lower(t@[i as int]) != SCHEME@[i as int]);
            return false;
        }
        i = i + 1;
    }
    true
}

/// Normalises a user-entered instance base URL: trims it, falls back to the public instance when
/// it is blank, adds `https://` when no scheme was typed, and drops trailing slashes so that
/// [`expand`] can join a route with a single separator.
pub fn normalize_instance(raw: &str) -> (r: String)
    ensures
        r@ == normalized_instance(raw@),
{
    let t = trim(raw);
    if t.is_empty() {
        return DEFAULT_INSTANCE.to_string();
    }
    if contains(t, "://") {
        trim_end_of(t, Class::Only('/')).to_string()
    } else {
        let mut with_scheme = "https://".to_string();
        with_scheme.append(t);
        trim_end_of(with_scheme.as_str(), Class::Only('/')).to_string()
    }
}

/// The portion of an `rsshub://` URL after the scheme, with surrounding white space and leading
/// slashes stripped.
pub fn route_of(url: &str) -> (r: &str)
    requires
        is_rsshub(url@),
    ensures
        r@ == route(url@),
{
    let t = trim_start_of(url, Class::WhiteSpace);
    let n: usize = SCHEME.unicode_len();
    let all: usize = t.unicode_len();
    let rest = t.substring_char(n, all);
    assert(rest@ =~= t@.skip(n as int));
    trim_end_of(trim_start_of(rest, Class::WhiteSpaceOrSlash), Class::WhiteSpace)
}

/// Canonical stored form of an `rsshub://` URL: lowercase scheme, no leading slashes on the route,
/// surrounding white space trimmed. Keeps the database free of trivially different duplicates of
/// the same route. Any other URL is only trimmed.
pub fn canonical(url: &str) -> (r: String)
    ensures
        r@ == canonical_form(url@),
{
    if !is_rsshub_url(url) {
        return trim(url).to_string();
    }
    let mut out = SCHEME.to_string();
    out.append(route_of(url));
    out
}

/// Expands an `rsshub://<route>` URL into a concrete URL against `instance`, which is normalised
/// first, so the raw stored setting may be passed. Any other URL is returned unchanged, so this is
/// safe to apply to every feed URL on the fetch path.
pub fn expand(url: &str, instance: &str) -> (r: String)
    ensures
        r@ == expanded(url@, instance@),
{
    if !is_rsshub_url(url) {
        return url.to_string();
    }
    let mut out = normalize_instance(instance);
    out.push('/');
    out.append(route_of(url));
    assert(out@ =~= expanded(url@, instance@));
    out
}

// ------------------------------------------------------------------------- laws

/// What the scheme is made of.
proof fn lemma_scheme()
    ensures
        SCHEME@ == seq!['r', 's', 's', 'h', 'u', 'b', ':', '/', '/'],
{
    reveal_strlit("rsshub://");
    assert(SCHEME@ =~= seq!['r', 's', 's', 'h', 'u', 'b', ':', '/', '/']);
}

/// The stored form begins with the scheme itself and the route behind it is found again.
proof fn lemma_canonical_parts(r: Seq<char>)
    ensures
        without_start(SCHEME@ + r, Class::WhiteSpace) == SCHEME@ + r,
        is_rsshub(SCHEME@ + r),
        (SCHEME@ + r).skip(SCHEME@.len() as int) == r,
{
    lemma_scheme();
    let c = SCHEME@ + r;
    assert(c[0] == 'r');
    assert forall|i: int| 0 <= i < SCHEME@.len() implies ascii_lower(#[trigger] c[i]) == SCHEME@[i] by {
        assert(c[i] == SCHEME@[i]);
    }
    assert(c.skip(SCHEME@.len() as int) =~= r);
}

/// A route begins neither with a slash nor with white space, and does not end with white space.
proof fn lemma_route_edges(url: Seq<char>)
    ensures
        route(url).len() > 0 ==> route(url)[0] != '/' && !is_white_space(route(url)[0])
            && !is_white_space(route(url).last()),
{
    let t = without_start(url, Class::WhiteSpace).skip(SCHEME@.len() as int);
    let n = lemma_without_start_bounds(t, Class::WhiteSpaceOrSlash);
    let u = t.skip(n);
    let m = lemma_without_end_bounds(u, Class::WhiteSpace);
    if route(url).len() > 0 {
        assert(route(url)[0] == t[n]);
        assert(!Class::WhiteSpaceOrSlash.holds(t[n]));
        assert(!Class::WhiteSpace.holds(u[m - 1]));
    }
}

/// Trimming keeps a URL inside the namespace or outside it.
proof fn lemma_trimmed_keeps_namespace(url: Seq<char>)
    ensures
        is_rsshub(trimmed(url)) == is_rsshub(url),
{
    lemma_scheme();
    let a = without_start(url, Class::WhiteSpace);
    let n = lemma_without_start_bounds(url, Class::WhiteSpace);
    let m = lemma_without_end_bounds(a, Class::WhiteSpace);
    lemma_trimmed_edges(url);
    let t = trimmed(url);
    assert(t == a.take(m));
    assert(without_start(t, Class::WhiteSpace) == t);
    if begins_with_scheme(a) && m < SCHEME@.len() {
        assert(ascii_lower(a[m]) == SCHEME@[m]);
        assert(Class::WhiteSpace.holds(a[m]));
        assert(false);
    }
    if begins_with_scheme(a) {
        assert forall|i: int| 0 <= i < SCHEME@.len() implies ascii_lower(#[trigger] t[i])
            == SCHEME@[i] by {
            assert(t[i] == a[i]);
        }
    }
    if begins_with_scheme(t) {
        assert forall|i: int| 0 <= i < SCHEME@.len() implies ascii_lower(#[trigger] a[i])
            == SCHEME@[i] by {
            assert(t[i] == a[i]);
        }
    }
}

/// The stored form of an RSSHub URL is an RSSHub URL, and that of any other URL is not.
pub proof fn law_canonical_keeps_namespace(url: Seq<char>)
    ensures
        is_rsshub(canonical_form(url)) == is_rsshub(url),
{
    if is_rsshub(url) {
        lemma_canonical_parts(route(url));
    } else {
        lemma_trimmed_keeps_namespace(url);
    }
}

/// The stored form is its own stored form.
pub proof fn law_canonical_is_idempotent(url: Seq<char>)
    ensures
        canonical_form(canonical_form(url)) == canonical_form(url),
{
    if is_rsshub(url) {
        let r = route(url);
        lemma_canonical_parts(r);
        lemma_route_edges(url);
    } else {
        lemma_trimmed_keeps_namespace(url);
        lemma_trimmed_idempotent(url);
    }
}

/// A subscription fetches the same document from its stored form as from the URL that was typed,
/// whatever the instance.
pub proof fn law_canonical_then_expand(url: Seq<char>, instance: Seq<char>)
    requires
        is_rsshub(url),
    ensures
        expanded(canonical_form(url), instance) == expanded(url, instance),
{
    let r = route(url);
    lemma_canonical_parts(r);
    lemma_route_edges(url);
}

/// Trivially different spellings of one route are stored as one: white space before the scheme,
/// capital letters in it, white space and slashes before the route in whatever order, and white
/// space behind it make no difference.
pub proof fn law_spellings_share_a_stored_form(
    lead: Seq<char>,
    scheme: Seq<char>,
    pad: Seq<char>,
    r: Seq<char>,
    tail: Seq<char>,
)
    requires
        forall|i: int| 0 <= i < lead.len() ==> is_white_space(#[trigger] lead[i]),
        scheme.len() == SCHEME@.len(),
        begins_with_scheme(scheme),
        forall|i: int| 0 <= i < pad.len() ==> is_white_space(#[trigger] pad[i]) || pad[i] == '/',
        r.len() > 0,
        !is_white_space(r[0]) && r[0] != '/',
        !is_white_space(r.last()),
        forall|i: int| 0 <= i < tail.len() ==> is_white_space(#[trigger] tail[i]),
    ensures
        is_rsshub(lead + scheme + pad + r + tail),
        canonical_form(lead + scheme + pad + r + tail) == SCHEME@ + r,
{
    lemma_scheme();
    let url = lead + scheme + pad + r + tail;
    let a = scheme + pad + r + tail;
    let n = lead.len() as int;
    assert(url.skip(n) =~= a);
    assert(url[n] == scheme[0]);
    assert(ascii_lower(scheme[0]) == SCHEME@[0]);
    assert forall|k: int| 0 <= k < n implies Class::WhiteSpace.holds(#[trigger] url[k]) by {
        assert(url[k] == lead[k]);
    }
    lemma_without_start(url, Class::WhiteSpace, n);
    assert forall|i: int| 0 <= i < SCHEME@.len() implies ascii_lower(#[trigger] a[i]) == SCHEME@[i] by {
        assert(a[i] == scheme[i]);
    }
    let b = pad + r + tail;
    assert(a.skip(SCHEME@.len() as int) =~= b);
    let m = pad.len() as int;
    assert(b[m] == r[0]);
    assert forall|k: int| 0 <= k < m implies Class::WhiteSpaceOrSlash.holds(#[trigger] b[k]) by {
        assert(b[k] == pad[k]);
    }
    lemma_without_start(b, Class::WhiteSpaceOrSlash, m);
    let c = r + tail;
    assert(b.skip(m) =~= c);
    let l = r.len() as int;
    assert(c[l - 1] == r.last());
    assert forall|k: int| l <= k < c.len() implies Class::WhiteSpace.holds(#[trigger] c[k]) by {
        assert(c[k] == tail[k - l]);
    }
    lemma_without_end(c, Class::WhiteSpace, l);
    assert(c.take(l) =~= r);
}

/// Changing the instance re-routes a feed and nothing else: the route behind the instance stays.
pub proof fn law_instance_change_keeps_route(url: Seq<char>, old_one: Seq<char>, new_one: Seq<char>)
    requires
        is_rsshub(url),
    ensures
        expanded(url, old_one).skip(normalized_instance(old_one).len() as int) == expanded(
            url,
            new_one,
        ).skip(normalized_instance(new_one).len() as int),
        normalized_instance(new_one).is_prefix_of(expanded(url, new_one)),
{
    let tail = seq!['/'] + route(url);
    assert(expanded(url, old_one).skip(normalized_instance(old_one).len() as int) =~= tail);
    assert(expanded(url, new_one).skip(normalized_instance(new_one).len() as int) =~= tail);
    assert(expanded(url, new_one).subrange(0, normalized_instance(new_one).len() as int)
        =~= normalized_instance(new_one));
}

/// An instance and a route are joined by exactly one slash.
pub proof fn law_single_separator(url: Seq<char>, instance: Seq<char>)
    ensures
        normalized_instance(instance).len() > 0,
        normalized_instance(instance).last() != '/',
        route(url).len() > 0 ==> route(url)[0] != '/',
{
    lemma_route_edges(url);
    lemma_default_instance();
    let t = trimmed(instance);
    if t.len() > 0 {
        lemma_normalized_edges(t);
    }
}

proof fn lemma_default_instance()
    ensures
        DEFAULT_INSTANCE@.len() > 8,
        DEFAULT_INSTANCE@[0] == 'h',
        DEFAULT_INSTANCE@.last() == 'p',
        occurs_at(DEFAULT_INSTANCE@, "://"@, 5),
        "https://"@ == seq!['h', 't', 't', 'p', 's', ':', '/', '/'],
        "://"@ == seq![':', '/', '/'],
{
    reveal_strlit("https://rsshub.app");
    reveal_strlit("https://");
    reveal_strlit("://");
    assert("https://"@ =~= seq!['h', 't', 't', 'p', 's', ':', '/', '/']);
    assert("://"@ =~= seq![':', '/', '/']);
    assert(DEFAULT_INSTANCE@.subrange(5, 8) =~= "://"@);
}

/// What dropping the slashes at the end of a base URL leaves.
proof fn lemma_normalized_edges(t: Seq<char>)
    ensures
        holds_text(t, "://"@) ==> without_end(t, Class::Only('/')).len() > 0 && without_end(
            t,
            Class::Only('/'),
        ).last() != '/' && without_end(t, Class::Only('/'))[0] == t[0],
        without_end("https://"@ + t, Class::Only('/')).len() > 0,
        without_end("https://"@ + t, Class::Only('/')).last() != '/',
        without_end("https://"@ + t, Class::Only('/'))[0] == 'h',
{
    lemma_default_instance();
    let n = lemma_without_end_bounds(t, Class::Only('/'));
    if holds_text(t, "://"@) {
        let i = choose|i: int| occurs_at(t, "://"@, i);
        assert(t.subrange(i, i + 3)[0] == ':');
        assert(t[i] == ':');
        assert(n > i) by {
            if n <= i {
                assert(Class::Only('/').holds(t[i]));
            }
        }
    }
    let w = "https://"@ + t;
    let m = lemma_without_end_bounds(w, Class::Only('/'));
    assert(w[5] == ':');
    assert(m > 5) by {
        if m <= 5 {
            assert(Class::Only('/').holds(w[5]));
        }
    }
}

/// A blank instance stands for the public one, and the public one for itself.
pub proof fn law_blank_instance_is_the_public_one(raw: Seq<char>)
    requires
        trimmed(raw).len() == 0,
    ensures
        normalized_instance(raw) == DEFAULT_INSTANCE@,
        normalized_instance(DEFAULT_INSTANCE@) == DEFAULT_INSTANCE@,
{
    lemma_default_instance();
    lemma_trimmed_fixed(DEFAULT_INSTANCE@);
}

/// A normalised instance is its own normal form. Left out are instances whose normal form has no
/// `://` (`https://`, of which the slashes are dropped) or ends in white space (`host /`).
pub proof fn law_normalize_is_idempotent(raw: Seq<char>)
    requires
        holds_text(normalized_instance(raw), "://"@),
        !is_white_space(normalized_instance(raw).last()),
    ensures
        normalized_instance(normalized_instance(raw)) == normalized_instance(raw),
{
    lemma_default_instance();
    let n = normalized_instance(raw);
    let t = trimmed(raw);
    law_single_separator(raw, raw);
    lemma_trimmed_edges(raw);
    if t.len() > 0 {
        lemma_normalized_edges(t);
    }
    assert(!is_white_space(n[0]));
    lemma_trimmed_fixed(n);
}

/// The namespace by its letters: behind any white space stand the characters `rsshub://`, the letters
/// in either case.
pub proof fn law_the_namespace_is_rsshub(lead: Seq<char>, url: Seq<char>)
    requires
        forall|i: int| 0 <= i < lead.len() ==> is_white_space(#[trigger] lead[i]),
        url.len() > 0,
        !is_white_space(url[0]),
    ensures
        is_rsshub(lead + url) <==> {
            &&& url.len() >= 9
            &&& url[0] == 'r' || url[0] == 'R'
            &&& url[1] == 's' || url[1] == 'S'
            &&& url[2] == 's' || url[2] == 'S'
            &&& url[3] == 'h' || url[3] == 'H'
            &&& url[4] == 'u' || url[4] == 'U'
            &&& url[5] == 'b' || url[5] == 'B'
            &&& url[6] == ':'
            &&& url[7] == '/'
            &&& url[8] == '/'
        },
{
    lemma_scheme();
    let s = lead + url;
    let n = lead.len() as int;
    assert forall|k: int| 0 <= k < n implies Class::WhiteSpace.holds(#[trigger] s[k]) by {
        assert(s[k] == lead[k]);
    }
    assert(s[n] == url[0]);
    lemma_without_start(s, Class::WhiteSpace, n);
    assert(s.skip(n) =~= url);
    if is_rsshub(s) {
        assert(ascii_lower(url[0]) == SCHEME@[0]);
        assert(ascii_lower(url[1]) == SCHEME@[1]);
        assert(ascii_lower(url[2]) == SCHEME@[2]);
        assert(ascii_lower(url[3]) == SCHEME@[3]);
        assert(ascii_lower(url[4]) == SCHEME@[4]);
        assert(ascii_lower(url[5]) == SCHEME@[5]);
        assert(ascii_lower(url[6]) == SCHEME@[6]);
        assert(ascii_lower(url[7]) == SCHEME@[7]);
        assert(ascii_lower(url[8]) == SCHEME@[8]);
    }
    assert forall|c: char| #[trigger] ascii_lower(c) == c || 'A' <= c <= 'Z' by {
        law_lower_case(c);
    }
    law_lower_case(url[0]);
    if url.len() >= 9 {
        law_lower_case(url[1]);
        law_lower_case(url[2]);
        law_lower_case(url[3]);
        law_lower_case(url[4]);
        law_lower_case(url[5]);
        law_lower_case(url[6]);
        law_lower_case(url[7]);
        law_lower_case(url[8]);
    }
}

/// A route is fetched from the instance that is set: its address without white space around it and
/// without slashes at its end, with `https://` before it where no scheme was typed, then one slash,
/// then the route.
pub proof fn law_routes_are_fetched_from_the_instance(
    r: Seq<char>,
    lead: Seq<char>,
    host: Seq<char>,
    slashes: Seq<char>,
    tail: Seq<char>,
)
    requires
        r.len() > 0,
        !is_white_space(r[0]) && r[0] != '/',
        !is_white_space(r.last()),
        forall|i: int| 0 <= i < lead.len() ==> is_white_space(#[trigger] lead[i]),
        forall|i: int| 0 <= i < slashes.len() ==> #[trigger] slashes[i] == '/',
        forall|i: int| 0 <= i < tail.len() ==> is_white_space(#[trigger] tail[i]),
        host.len() > 0,
        !is_white_space(host[0]),
        !is_white_space(host.last()) && host.last() != '/',
    ensures
        holds_text(host + slashes, "://"@) ==> expanded(
            "rsshub://"@ + r,
            lead + host + slashes + tail,
        ) == host + "/"@ + r,
        !holds_text(host + slashes, "://"@) ==> expanded(
            "rsshub://"@ + r,
            lead + host + slashes + tail,
        ) == "https://"@ + host + "/"@ + r,
        canonical_form("rsshub://"@ + r) == "rsshub://"@ + r,
{
    lemma_scheme();
    lemma_default_instance();
    reveal_strlit("/");
    let nothing = Seq::<char>::empty();
    assert forall|i: int| 0 <= i < SCHEME@.len() implies ascii_lower(#[trigger] SCHEME@[i])
        == SCHEME@[i] by {}
    law_spellings_share_a_stored_form(nothing, SCHEME@, nothing, r, nothing);
    let url = "rsshub://"@ + r;
    assert(nothing + SCHEME@ + nothing + r + nothing =~= url);
    lemma_canonical_parts(r);
    assert(SCHEME@ + route(url) == SCHEME@ + r);
    assert(route(url) =~= (SCHEME@ + route(url)).skip(SCHEME@.len() as int));
    assert(r =~= (SCHEME@ + r).skip(SCHEME@.len() as int));
    let t = host + slashes;
    assert(lead + host + slashes + tail =~= lead + t + tail);
    if slashes.len() > 0 {
        assert(t.last() == slashes[slashes.len() - 1]);
    } else {
        assert(t =~= host);
    }
    assert(t[0] == host[0]);
    law_trimming(lead, t, tail);
    let l = host.len() as int;
    assert forall|k: int| l <= k < t.len() implies Class::Only('/').holds(#[trigger] t[k]) by {
        assert(t[k] == slashes[k - l]);
    }
    assert(t[l - 1] == host.last());
    lemma_without_end(t, Class::Only('/'), l);
    assert(t.take(l) =~= host);
    let w = "https://"@ + t;
    assert forall|k: int| l + 8 <= k < w.len() implies Class::Only('/').holds(#[trigger] w[k]) by {
        assert(w[k] == t[k - 8]);
    }
    assert(w[l + 7] == t[l - 1]);
    lemma_without_end(w, Class::Only('/'), l + 8);
    assert(w.take(l + 8) =~= "https://"@ + host);
    assert(seq!['/'] =~= "/"@);
}

/// A URL outside the namespace is fetched as it is, and stored without white space around it.
pub proof fn law_other_urls_are_left_alone(
    lead: Seq<char>,
    url: Seq<char>,
    tail: Seq<char>,
    instance: Seq<char>,
)
    requires
        forall|i: int| 0 <= i < lead.len() ==> is_white_space(#[trigger] lead[i]),
        forall|i: int| 0 <= i < tail.len() ==> is_white_space(#[trigger] tail[i]),
        url.len() > 0,
        !is_white_space(url[0]) && !is_white_space(url.last()),
        !is_rsshub(lead + url + tail),
    ensures
        expanded(lead + url + tail, instance) == lead + url + tail,
        canonical_form(lead + url + tail) == url,
{
    law_trimming(lead, url, tail);
}

} // verus!
