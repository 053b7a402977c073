//! Text primitives. Every string is modelled by its sequence of characters.

use vstd::prelude::*;
use vstd::utf8::{encode_scalar, encode_utf8, encode_utf8_decode_utf8};

verus! {

/// `String::push` appends one character to the end of the string.
pub assume_specification[ String::push ](s: &mut String, c: char)
    ensures
        final(s)@ == old(s)@.push(c),
;

// ---------------------------------------------------------------- characters

/// The characters that carry the Unicode property White_Space.
pub open spec fn is_white_space(c: char) -> bool {
    let p = c as u32;
    ||| 0x09 <= p <= 0x0d
    ||| p == 0x20
    ||| p == 0x85
    ||| p == 0xa0
    ||| p == 0x1680
    ||| 0x2000 <= p <= 0x200a
    ||| p == 0x2028
    ||| p == 0x2029
    ||| p == 0x202f
    ||| p == 0x205f
    ||| p == 0x3000
}

/// Whether `c` is white space in the sense of [`is_white_space`].
pub fn white_space(c: char) -> (b: bool)
    ensures
        b == is_white_space(c),
{
    let p: u32 = c as u32;
    (0x09 <= p && p <= 0x0d) || p == 0x20 || p == 0x85 || p == 0xa0 || p == 0x1680 || (0x2000 <= p
        && p <= 0x200a) || p == 0x2028 || p == 0x2029 || p == 0x202f || p == 0x205f || p == 0x3000
}

/// `c` with an ASCII capital letter replaced by its small letter.
pub open spec fn ascii_lower(c: char) -> char {
    if 'A' <= c <= 'Z' {
        ((c as u8) + 32) as char
    } else {
        c
    }
}

/// The ASCII small letter of `c`; any other character is returned as it is.
pub fn to_ascii_lower(c: char) -> (r: char)
    ensures
        r == ascii_lower(c),
{
    if 'A' <= c && c <= 'Z' {
        ((c as u8) + 32) as char
    } else {
        c
    }
}

/// A set of characters that trimming removes.
#[derive(Clone, Copy)]
pub enum Class {
    WhiteSpace,
    /// Exactly one character.
    Only(char),
    /// White space and full stops.
    WhiteSpaceOrDot,
    /// White space and slashes.
    WhiteSpaceOrSlash,
}

impl Class {
    pub open spec fn holds(self, c: char) -> bool {
        match self {
            Class::WhiteSpace => is_white_space(c),
            Class::Only(x) => c == x,
            Class::WhiteSpaceOrDot => is_white_space(c) || c == '.',
            Class::WhiteSpaceOrSlash => is_white_space(c) || c == '/',
        }
    }

    /// Whether `c` belongs to the class.
    pub fn has(self, c: char) -> (b: bool)
        ensures
            b == self.holds(c),
    {
        match self {
            Class::WhiteSpace => white_space(c),
            Class::Only(x) => c == x,
            Class::WhiteSpaceOrDot => white_space(c) || c == '.',
            Class::WhiteSpaceOrSlash => white_space(c) || c == '/',
        }
    }
}

// ------------------------------------------------------------------ trimming

/// `s` without its longest prefix made of `class`.
pub open spec fn without_start(s: Seq<char>, class: Class) -> Seq<char>
    decreases s.len(),
{
    if s.len() > 0 && class.holds(s[0]) {
        without_start(s.drop_first(), class)
    } else {
        s
    }
}

/// `s` without its longest suffix made of `class`.
pub open spec fn without_end(s: Seq<char>, class: Class) -> Seq<char>
    decreases s.len(),
{
    if s.len() > 0 && class.holds(s.last()) {
        without_end(s.drop_last(), class)
    } else {
        s
    }
}

/// `s` without white space at either end.
pub open spec fn trimmed(s: Seq<char>) -> Seq<char> {
    without_end(without_start(s, Class::WhiteSpace), Class::WhiteSpace)
}

/// Nothing is left of `s` once it is trimmed.
pub open spec fn is_blank(s: Seq<char>) -> bool {
    trimmed(s).len() == 0
}

pub proof fn lemma_without_start(s: Seq<char>, class: Class, n: int)
    requires
        0 <= n <= s.len(),
        forall|k: int| 0 <= k < n ==> class.holds(#[trigger] s[k]),
        n == s.len() || !class.holds(s[n]),
    ensures
        without_start(s, class) == s.skip(n),
    decreases n,
{
    if n == 0 {
        assert(s.skip(0) =~= s);
    } else {
        assert(class.holds(s[0]));
        let t = s.drop_first();
        assert forall|k: int| 0 <= k < n - 1 implies class.holds(#[trigger] t[k]) by {
            assert(t[k] == s[k + 1]);
        }
        lemma_without_start(t, class, n - 1);
        assert(t.skip(n - 1) =~= s.skip(n));
    }
}

pub proof fn lemma_without_end(s: Seq<char>, class: Class, n: int)
    requires
        0 <= n <= s.len(),
        forall|k: int| n <= k < s.len() ==> class.holds(#[trigger] s[k]),
        n == 0 || !class.holds(s[n - 1]),
    ensures
        without_end(s, class) == s.take(n),
    decreases s.len() - n,
{
    if n == s.len() {
        assert(s.take(n) =~= s);
    } else {
        assert(class.holds(s.last()));
        let t = s.drop_last();
        lemma_without_end(t, class, n);
        assert(t.take(n) =~= s.take(n));
    }
}

/// What remains after [`without_start`] is a suffix that does not begin with the class.
pub proof fn lemma_without_start_bounds(s: Seq<char>, class: Class) -> (n: int)
    ensures
        0 <= n <= s.len(),
        without_start(s, class) == s.skip(n),
        forall|k: int| 0 <= k < n ==> class.holds(#[trigger] s[k]),
        n < s.len() ==> !class.holds(s[n]),
    decreases s.len(),
{
    if s.len() > 0 && class.holds(s[0]) {
        let t = s.drop_first();
        let m = lemma_without_start_bounds(t, class);
        assert(t.skip(m) =~= s.skip(m + 1));
        assert forall|k: int| 0 <= k < m + 1 implies class.holds(#[trigger] s[k]) by {
            if k > 0 {
                assert(t[k - 1] == s[k]);
            }
        }
        assert(m < t.len() ==> t[m] == s[m + 1]);
        m + 1
    } else {
        assert(s.skip(0) =~= s);
        0
    }
}

/// What remains after [`without_end`] is a prefix that does not end with the class.
pub proof fn lemma_without_end_bounds(s: Seq<char>, class: Class) -> (n: int)
    ensures
        0 <= n <= s.len(),
        without_end(s, class) == s.take(n),
        forall|k: int| n <= k < s.len() ==> class.holds(#[trigger] s[k]),
        n > 0 ==> !class.holds(s[n - 1]),
    decreases s.len(),
{
    if s.len() > 0 && class.holds(s.last()) {
        let t = s.drop_last();
        let n = lemma_without_end_bounds(t, class);
        assert(t.take(n) =~= s.take(n));
        assert forall|k: int| n <= k < s.len() implies class.holds(#[trigger] s[k]) by {
            if k < t.len() {
                assert(t[k] == s[k]);
            }
        }
        n
    } else {
        assert(s.take(s.len() as int) =~= s);
        s.len() as int
    }
}

/// A trimmed text neither begins nor ends with white space.
pub proof fn lemma_trimmed_edges(s: Seq<char>)
    ensures
        trimmed(s).len() <= s.len(),
        trimmed(s).len() > 0 ==> !is_white_space(trimmed(s)[0]) && !is_white_space(
            trimmed(s).last(),
        ),
{
    let n = lemma_without_start_bounds(s, Class::WhiteSpace);
    let t = s.skip(n);
    let m = lemma_without_end_bounds(t, Class::WhiteSpace);
    assert(!Class::WhiteSpace.holds(s[n]) || n == s.len());
}

/// A text that neither begins nor ends with white space is its own trimmed form.
pub proof fn lemma_trimmed_fixed(s: Seq<char>)
    requires
        s.len() > 0 ==> !is_white_space(s[0]) && !is_white_space(s.last()),
    ensures
        trimmed(s) == s,
{
}

/// Trimming twice changes nothing more.
pub proof fn lemma_trimmed_idempotent(s: Seq<char>)
    ensures
        trimmed(trimmed(s)) == trimmed(s),
{
    lemma_trimmed_edges(s);
    lemma_trimmed_fixed(trimmed(s));
}

/// A blank text holds nothing but white space.
pub proof fn lemma_blank(s: Seq<char>)
    ensures
        is_blank(s) <==> forall|i: int| 0 <= i < s.len() ==> is_white_space(#[trigger] s[i]),
{
    let n = lemma_without_start_bounds(s, Class::WhiteSpace);
    let t = s.skip(n);
    let m = lemma_without_end_bounds(t, Class::WhiteSpace);
    if n < s.len() {
        assert(!is_white_space(s[n]));
        assert(t[0] == s[n]);
        assert(m > 0) by {
            if m == 0 {
                assert(Class::WhiteSpace.holds(t[0]));
            }
        }
    } else {
        assert forall|i: int| 0 <= i < s.len() implies is_white_space(#[trigger] s[i]) by {
            assert(Class::WhiteSpace.holds(s[i]));
        }
    }
}

/// `s` without its longest prefix made of `class`.
pub fn trim_start_of(s: &str, class: Class) -> (r: &str)
    ensures
        r@ == without_start(s@, class),
{
    let mut n: usize = 0;
    let mut total: usize = 0;
    let mut in_run: bool = true;
    let all: usize = s.unicode_len();
    for c in it: s.chars()
        invariant
            it.seq() == s@,
            all == s@.len(),
            total == it.index(),
            n <= total,
            in_run ==> n == total,
            !in_run ==> n < total && !class.holds(s@[n as int]),
            forall|k: int| 0 <= k < n ==> class.holds(#[trigger] s@[k]),
    {
        assert(c == s@[total as int]);
        if in_run {
            if class.has(c) {
                n = n + 1;
            } else {
                in_run = false;
            }
        }
        total = total + 1;
    }
    proof {
        lemma_without_start(s@, class, n as int);
        assert(s@.skip(n as int) =~= s@.subrange(n as int, s@.len() as int));
    }
    s.substring_char(n, all)
}

/// `s` without its longest suffix made of `class`.
pub fn trim_end_of(s: &str, class: Class) -> (r: &str)
    ensures
        r@ == without_end(s@, class),
{
    let mut keep: usize = 0;
    let mut total: usize = 0;
    let all: usize = s.unicode_len();
    for c in it: s.chars()
        invariant
            it.seq() == s@,
            all == s@.len(),
            total == it.index(),
            keep <= total,
            forall|k: int| keep <= k < total ==> class.holds(#[trigger] s@[k]),
            keep == 0 || !class.holds(s@[keep - 1]),
    {
        assert(c == s@[total as int]);
        total = total + 1;
        if !class.has(c) {
            keep = total;
        }
    }
    proof {
        lemma_without_end(s@, class, keep as int);
        assert(s@.take(keep as int) =~= s@.subrange(0, keep as int));
    }
    s.substring_char(0, keep)
}

/// `s` without white space at either end.
pub fn trim(s: &str) -> (r: &str)
    ensures
        r@ == trimmed(s@),
{
    trim_end_of(trim_start_of(s, Class::WhiteSpace), Class::WhiteSpace)
}

/// Whether `s` holds nothing but white space.
pub fn blank(s: &str) -> (b: bool)
    ensures
        b == is_blank(s@),
{
    trim(s).is_empty()
}

// ------------------------------------------------------- comparing, searching

/// The characters of an optional text.
pub open spec fn option_text(o: Option<String>) -> Option<Seq<char>> {
    match o {
        Some(t) => Some(t@),
        None => None,
    }
}

/// Whether two texts hold the same characters.
pub fn same_text(a: &str, b: &str) -> (r: bool)
    ensures
        r == (a@ == b@),
{
    let x = a.as_bytes();
    let y = b.as_bytes();
    if x.len() != y.len() {
        return false;
    }
    let n: usize = x.len();
    let mut i: usize = 0;
    while i < n
        invariant
            n == x@.len(),
            n == y@.len(),
            i <= n,
            x@ == encode_utf8(a@),
            y@ == encode_utf8(b@),
            forall|k: int| 0 <= k < i ==> x@[k] == y@[k],
        decreases n - i,
    {
        if x[i] != y[i] {
            return false;
        }
        i = i + 1;
    }
    proof {
        assert(x@ =~= y@);
        encode_utf8_decode_utf8(a@);
        encode_utf8_decode_utf8(b@);
    }
    true
}

/// The characters of `s` as a vector.
pub fn chars_of(s: &str) -> (v: Vec<char>)
    ensures
        v@ == s@,
{
    let mut v: Vec<char> = Vec::new();
    for c in it: s.chars()
        invariant
            it.seq() == s@,
            v@ =~= s@.take(it.index() as int),
    {
        v.push(c);
    }
    assert(s@.take(s@.len() as int) =~= s@);
    v
}

/// `p` stands in `s` at position `i`.
pub open spec fn occurs_at(s: Seq<char>, p: Seq<char>, i: int) -> bool {
    0 <= i && i + p.len() <= s.len() && s.subrange(i, i + p.len()) == p
}

/// `p` stands somewhere in `s`.
pub open spec fn holds_text(s: Seq<char>, p: Seq<char>) -> bool {
    exists|i: int| occurs_at(s, p, i)
}

/// Whether `p` stands in `s` at position `i`.
pub fn at_position(s: &Vec<char>, p: &Vec<char>, i: usize) -> (b: bool)
    requires
        i <= s@.len(),
    ensures
        b == occurs_at(s@, p@, i as int),
{
    let n: usize = p.len();
    let all: usize = s.len();
    if all - i < n {
        return false;
    }
    let mut k: usize = 0;
    while k < n
        invariant
            n == p@.len(),
            all == s@.len(),
            k <= n,
            i + n <= all,
            forall|j: int| 0 <= j < k ==> s@[i + j] == p@[j],
        decreases n - k,
    {
        if s[i + k] != p[k] {
            assert(s@.subrange(i as int, i + n)[k as int] != p@[k as int]);
            return false;
        }
        k = k + 1;
    }
    assert(s@.subrange(i as int, i + n) =~= p@);
    true
}

/// Whether `s` begins with `p`.
pub fn starts_with(s: &str, p: &str) -> (b: bool)
    ensures
        b == p@.is_prefix_of(s@),
{
    let v = chars_of(s);
    let w = chars_of(p);
    at_position(&v, &w, 0)
}

/// Whether `p` stands somewhere in `s`.
pub fn contains(s: &str, p: &str) -> (b: bool)
    ensures
        b == holds_text(s@, p@),
{
    let v = chars_of(s);
    let w = chars_of(p);
    let n: usize = v.len();
    let mut i: usize = 0;
    while i < n
        invariant
            v@ == s@,
            w@ == p@,
            n == v@.len(),
            i <= n,
            forall|k: int| 0 <= k < i ==> !occurs_at(s@, p@, k),
        decreases n - i,
    {
        if at_position(&v, &w, i) {
            return true;
        }
        i = i + 1;
    }
    at_position(&v, &w, n)
}

// ---------------------------------------------------------------- replacing

/// `s` with each occurrence of `from` replaced by `to`, read from left to right without overlap.
pub open spec fn replaced(s: Seq<char>, from: Seq<char>, to: Seq<char>) -> Seq<char>
    decreases s.len(),
{
    if s.len() == 0 || from.len() == 0 {
        s
    } else if from.is_prefix_of(s) {
        to + replaced(s.skip(from.len() as int), from, to)
    } else {
        seq![s[0]] + replaced(s.drop_first(), from, to)
    }
}

/// `s` with each occurrence of `from` replaced by `to`.
pub fn replace(s: &str, from: &str, to: &str) -> (r: String)
    requires
        from@.len() > 0,
    ensures
        r@ == replaced(s@, from@, to@),
{
    let v = chars_of(s);
    let w = chars_of(from);
    let n: usize = v.len();
    let m: usize = w.len();
    let mut out = String::new();
    let mut i: usize = 0;
    assert(s@.skip(0) =~= s@);
    while i < n
        invariant
            v@ == s@,
            w@ == from@,
            n == v@.len(),
            m == w@.len(),
            m > 0,
            i <= n,
            out@ + replaced(s@.skip(i as int), from@, to@) == replaced(s@, from@, to@),
        decreases n - i,
    {
        let ghost before = out@;
        let ghost rest = s@.skip(i as int);
        proof {
            assert(from@.is_prefix_of(rest) == occurs_at(s@, from@, i as int)) by {
                if from@.len() <= rest.len() {
                    assert(rest.subrange(0, from@.len() as int) =~= s@.subrange(
                        i as int,
                        i + from@.len(),
                    ));
                }
            }
        }
        if at_position(&v, &w, i) {
            out.append(to);
            i = i + m;
            proof {
                assert(rest.skip(m as int) =~= s@.skip(i as int));
                assert(before + (to@ + replaced(s@.skip(i as int), from@, to@)) =~= (before + to@)
                    + replaced(s@.skip(i as int), from@, to@));
            }
        } else {
            out.push(v[i]);
            i = i + 1;
            proof {
                assert(rest.drop_first() =~= s@.skip(i as int));
                assert(before + (seq![rest[0]] + replaced(s@.skip(i as int), from@, to@))
                    =~= before.push(rest[0]) + replaced(s@.skip(i as int), from@, to@));
            }
        }
    }
    assert(out@ + replaced(s@.skip(n as int), from@, to@) =~= out@);
    out
}

// -------------------------------------------------------------------- words

/// The maximal runs of characters other than white space, in order: a character begins a new word
/// where the text starts or white space stands before it, and extends the last word elsewhere.
pub open spec fn words(s: Seq<char>) -> Seq<Seq<char>>
    decreases s.len(),
{
    if s.len() == 0 {
        seq![]
    } else {
        let before = words(s.drop_last());
        let c = s.last();
        if is_white_space(c) {
            before
        } else if s.len() == 1 || is_white_space(s[s.len() - 2]) {
            before.push(seq![c])
        } else {
            before.drop_last().push(before.last().push(c))
        }
    }
}

/// The texts of `parts` one after the other, with `sep` between two neighbours.
pub open spec fn joined(parts: Seq<Seq<char>>, sep: Seq<char>) -> Seq<char>
    decreases parts.len(),
{
    if parts.len() == 0 {
        seq![]
    } else if parts.len() == 1 {
        parts[0]
    } else {
        joined(parts.drop_last(), sep) + sep + parts.last()
    }
}

/// A text ends in a word exactly where its last character is not white space.
pub proof fn lemma_words_nonempty(s: Seq<char>)
    ensures
        s.len() > 0 && !is_white_space(s.last()) ==> words(s).len() > 0,
        forall|i: int| 0 <= i < words(s).len() ==> (#[trigger] words(s)[i]).len() > 0,
    decreases s.len(),
{
    if s.len() > 0 {
        lemma_words_nonempty(s.drop_last());
        if s.len() > 1 {
            assert(s.drop_last().last() == s[s.len() - 2]);
        }
        let before = words(s.drop_last());
        assert forall|i: int| 0 <= i < words(s).len() implies (#[trigger] words(s)[i]).len() > 0 by {
            if i < before.len() {
                assert(before[i].len() > 0);
            }
        }
    }
}

/// White space separates: the words of a text around it are the words before it and those after.
pub proof fn lemma_words_split(a: Seq<char>, w: char, b: Seq<char>)
    requires
        is_white_space(w),
    ensures
        words(a.push(w) + b) == words(a) + words(b),
    decreases b.len(),
{
    let s = a.push(w) + b;
    if b.len() == 0 {
        assert(s =~= a.push(w));
        assert(s.drop_last() =~= a);
        assert(words(a) + words(b) =~= words(a));
    } else {
        let rest = b.drop_last();
        let c = b.last();
        assert(s.drop_last() =~= a.push(w) + rest);
        assert(s.last() == c);
        lemma_words_split(a, w, rest);
        lemma_words_nonempty(rest);
        let before = words(a) + words(rest);
        if is_white_space(c) {
        } else if b.len() == 1 {
            assert(s[s.len() - 2] == w);
            assert(words(rest) =~= seq![]);
            assert(before.push(seq![c]) =~= words(a) + words(b));
        } else {
            assert(s[s.len() - 2] == b[b.len() - 2]);
            assert(rest.last() == b[b.len() - 2]);
            if is_white_space(b[b.len() - 2]) {
                assert(before.push(seq![c]) =~= words(a) + words(rest).push(seq![c]));
            } else {
                assert(words(rest).len() > 0);
                assert(before.last() == words(rest).last());
                let longer = before.last().push(c);
                assert(before.drop_last().push(longer) =~= words(a)
                    + words(rest).drop_last().push(longer));
            }
        }
    }
}

/// A word: at least one character, and no white space among them.
pub open spec fn is_word(w: Seq<char>) -> bool {
    w.len() > 0 && forall|i: int| 0 <= i < w.len() ==> !is_white_space(#[trigger] w[i])
}

/// Everything that [`words`] lists is a word.
pub proof fn lemma_words_are_words(s: Seq<char>)
    ensures
        forall|i: int| 0 <= i < words(s).len() ==> is_word(#[trigger] words(s)[i]),
    decreases s.len(),
{
    if s.len() > 0 {
        let before = words(s.drop_last());
        let c = s.last();
        lemma_words_are_words(s.drop_last());
        lemma_words_nonempty(s.drop_last());
        if s.len() > 1 {
            assert(s.drop_last().last() == s[s.len() - 2]);
        }
        assert forall|i: int| 0 <= i < words(s).len() implies is_word(#[trigger] words(s)[i]) by {
            if is_white_space(c) {
            } else if s.len() == 1 || is_white_space(s[s.len() - 2]) {
                if i < before.len() {
                    assert(words(s)[i] == before[i]);
                } else {
                    assert(words(s)[i] == seq![c]);
                }
            } else {
                if i < before.len() - 1 {
                    assert(words(s)[i] == before[i]);
                } else {
                    assert(is_word(before[before.len() - 1]));
                    assert(words(s)[i] == before.last().push(c));
                }
            }
        }
    }
}

/// A word by itself has exactly one word.
pub proof fn lemma_words_of_word(w: Seq<char>)
    requires
        is_word(w),
    ensures
        words(w) == seq![w],
    decreases w.len(),
{
    let rest = w.drop_last();
    assert(!is_white_space(w[w.len() - 1]));
    if w.len() == 1 {
        assert(rest =~= seq![]);
        assert(words(rest) =~= seq![]);
        assert(seq![w.last()] =~= w);
        assert(words(w) =~= seq![w]);
    } else {
        assert forall|i: int| 0 <= i < rest.len() implies !is_white_space(#[trigger] rest[i]) by {
            assert(rest[i] == w[i]);
        }
        lemma_words_of_word(rest);
        assert(!is_white_space(w[w.len() - 2]));
        assert(rest.push(w.last()) =~= w);
        assert(words(w) =~= seq![w]);
    }
}

/// Splitting undoes joining: words joined by spaces are found again.
pub proof fn lemma_words_of_joined(parts: Seq<Seq<char>>)
    requires
        forall|i: int| 0 <= i < parts.len() ==> is_word(#[trigger] parts[i]),
    ensures
        words(joined(parts, seq![' '])) == parts,
    decreases parts.len(),
{
    if parts.len() == 0 {
        assert(words(joined(parts, seq![' '])) =~= parts);
    } else if parts.len() == 1 {
        lemma_words_of_word(parts[0]);
        assert(seq![parts[0]] =~= parts);
    } else {
        let rest = parts.drop_last();
        assert forall|i: int| 0 <= i < rest.len() implies is_word(#[trigger] rest[i]) by {
            assert(rest[i] == parts[i]);
        }
        lemma_words_of_joined(rest);
        let head = joined(rest, seq![' ']);
        assert(is_word(parts[parts.len() - 1]));
        lemma_words_of_word(parts.last());
        lemma_words_split(head, ' ', parts.last());
        assert(head + seq![' '] + parts.last() =~= head.push(' ') + parts.last());
        assert(rest + seq![parts.last()] =~= parts);
    }
}

/// White space occurs in `s` as single spaces between other characters only.
pub open spec fn single_spaced(s: Seq<char>) -> bool {
    forall|i: int|
        0 <= i < s.len() && is_white_space(#[trigger] s[i]) ==> {
            &&& s[i] == ' '
            &&& 0 < i < s.len() - 1
            &&& !is_white_space(s[i - 1])
            &&& !is_white_space(s[i + 1])
        }
}

/// Words joined by spaces hold no other white space, and none at the ends.
pub proof fn lemma_joined_single_spaced(parts: Seq<Seq<char>>)
    requires
        forall|i: int| 0 <= i < parts.len() ==> is_word(#[trigger] parts[i]),
    ensures
        single_spaced(joined(parts, seq![' '])),
        parts.len() > 0 ==> joined(parts, seq![' ']).len() > 0,
    decreases parts.len(),
{
    let s = joined(parts, seq![' ']);
    if parts.len() == 1 {
        assert(is_word(parts[0]));
    } else if parts.len() > 1 {
        let rest = parts.drop_last();
        assert forall|i: int| 0 <= i < rest.len() implies is_word(#[trigger] rest[i]) by {
            assert(rest[i] == parts[i]);
        }
        lemma_joined_single_spaced(rest);
        let head = joined(rest, seq![' ']);
        let w = parts.last();
        assert(is_word(parts[parts.len() - 1]));
        assert(s == head + seq![' '] + w);
        assert(!is_white_space(head[head.len() - 1]));
        assert(!is_white_space(w[0]));
        assert forall|i: int| 0 <= i < s.len() && is_white_space(#[trigger] s[i]) implies ({
            &&& s[i] == ' '
            &&& 0 < i < s.len() - 1
            &&& !is_white_space(s[i - 1])
            &&& !is_white_space(s[i + 1])
        }) by {
            if i < head.len() {
                assert(s[i] == head[i]);
                assert(s[i - 1] == head[i - 1]);
                assert(s[i + 1] == head[i + 1]);
            } else if i == head.len() {
                assert(s[i - 1] == head[head.len() - 1]);
                assert(s[i + 1] == w[0]);
            } else {
                assert(s[i] == w[i - head.len() - 1]);
            }
        }
    }
}

/// The collapsed form of a text.
pub open spec fn collapsed(s: Seq<char>) -> Seq<char> {
    joined(words(s), seq![' '])
}

/// Collapsing white space keeps the words of a text, leaves white space only as single spaces
/// between words, and changes nothing when it is done again.
pub proof fn law_collapsing(s: Seq<char>)
    ensures
        words(collapsed(s)) == words(s),
        single_spaced(collapsed(s)),
        collapsed(collapsed(s)) == collapsed(s),
{
    lemma_words_are_words(s);
    lemma_words_of_joined(words(s));
    lemma_joined_single_spaced(words(s));
}

/// The words of `s`, joined by single spaces.
pub fn collapse_white_space(s: &str) -> (r: String)
    ensures
        r@ == collapsed(s@),
{
    let mut out = String::new();
    let mut started: bool = false;
    let mut pending: bool = false;
    for c in it: s.chars()
        invariant
            it.seq() == s@,
            out@ == joined(words(s@.take(it.index() as int)), seq![' ']),
            started == (words(s@.take(it.index() as int)).len() > 0),
            pending == (it.index() > 0 && is_white_space(s@[it.index() - 1])),
    {
        let ghost i = it.index() as int;
        let ghost done = s@.take(i);
        let ghost next = s@.take(i + 1);
        let ghost before = out@;
        proof {
            assert(next.drop_last() =~= done);
            assert(next.last() == c);
            if i > 0 {
                assert(next[next.len() - 2] == s@[i - 1]);
                assert(done.last() == s@[i - 1]);
            }
            lemma_words_nonempty(done);
        }
        if white_space(c) {
            pending = true;
        } else {
            if started && pending {
                out.push(' ');
            }
            out.push(c);
            proof {
                let w = words(done);
                if i == 0 || is_white_space(s@[i - 1]) {
                    assert(words(next) == w.push(seq![c]));
                    assert(words(next).drop_last() =~= w);
                    if w.len() > 0 {
                        assert(before.push(' ').push(c) =~= before + seq![' '] + seq![c]);
                    } else {
                        assert(before.push(c) =~= seq![c]);
                    }
                } else {
                    let longer = w.last().push(c);
                    assert(words(next) == w.drop_last().push(longer));
                    assert(words(next).drop_last() =~= w.drop_last());
                    if w.len() == 1 {
                        assert(before =~= w[0]);
                    } else {
                        assert(before == joined(w.drop_last(), seq![' ']) + seq![' '] + w.last());
                        assert(before.push(c) =~= joined(w.drop_last(), seq![' ']) + seq![' ']
                            + longer);
                    }
                }
            }
            started = true;
            pending = false;
        }
    }
    assert(s@.take(s@.len() as int) =~= s@);
    out
}

// ------------------------------------------------------------------ numbers

pub open spec fn digit(d: int) -> char {
    ((48 + d) as u8) as char
}

/// `n` in decimal notation.
pub open spec fn decimal_nat(n: nat) -> Seq<char>
    decreases n,
{
    if n < 10 {
        seq![digit(n as int)]
    } else {
        decimal_nat(n / 10).push(digit((n % 10) as int))
    }
}

/// `n` in decimal notation, with a minus sign before a negative number.
pub open spec fn decimal_int(n: int) -> Seq<char> {
    if n < 0 {
        seq!['-'] + decimal_nat((-n) as nat)
    } else {
        decimal_nat(n as nat)
    }
}

/// Appends `n` in decimal notation.
fn push_decimal(out: &mut String, n: u64)
    ensures
        final(out)@ == old(out)@ + decimal_nat(n as nat),
    decreases n,
{
    if n >= 10 {
        push_decimal(out, n / 10);
    }
    let d: u8 = (n % 10) as u8;
    out.push((48 + d) as char);
    assert(out@ =~= old(out)@ + decimal_nat(n as nat));
}

/// `n` in decimal notation.
pub fn decimal(n: i64) -> (s: String)
    ensures
        s@ == decimal_int(n as int),
{
    let mut out = String::new();
    if n < 0 {
        out.push('-');
        let magnitude: u64 = (-(n as i128)) as u64;
        push_decimal(&mut out, magnitude);
        assert(out@ =~= seq!['-'] + decimal_nat(magnitude as nat));
    } else {
        push_decimal(&mut out, n as u64);
        assert(out@ =~= decimal_nat(n as nat));
    }
    out
}

/// A decimal number is no longer than its count of digits allows.
pub proof fn lemma_decimal_nat_len(n: nat, digits: nat)
    requires
        digits > 0,
        n < pow10(digits),
    ensures
        1 <= decimal_nat(n).len() <= digits,
    decreases digits,
{
    if n >= 10 {
        if digits == 1 {
            reveal_with_fuel(pow10, 2);
        } else {
            assert(n / 10 < pow10((digits - 1) as nat)) by (nonlinear_arith)
                requires
                    n < 10 * pow10((digits - 1) as nat),
            ;
            lemma_decimal_nat_len(n / 10, (digits - 1) as nat);
        }
    }
}

/// Ten to the power `k`.
pub open spec fn pow10(k: nat) -> nat
    decreases k,
{
    if k == 0 {
        1
    } else {
        10 * pow10((k - 1) as nat)
    }
}

// ------------------------------------------------------------------ cutting

/// The first `max` characters of `s`, or all of it when it is shorter.
pub open spec fn cut(s: Seq<char>, max: int) -> Seq<char> {
    if s.len() <= max {
        s
    } else {
        s.take(max)
    }
}

/// The number of bytes of the UTF-8 encoding of `c`.
pub open spec fn width(c: char) -> nat {
    encode_scalar(c as u32).len()
}

/// The number of bytes of the UTF-8 encoding of `s`.
pub open spec fn byte_len(s: Seq<char>) -> nat {
    encode_utf8(s).len()
}

/// The number of bytes that UTF-8 takes for `c`.
pub fn utf8_width(c: char) -> (n: usize)
    ensures
        n == width(c),
        1 <= n <= 4,
{
    let p: u32 = c as u32;
    if p < 0x80 {
        1
    } else if p < 0x800 {
        2
    } else if p < 0x10000 {
        3
    } else {
        4
    }
}

/// The longest prefix of `s` whose UTF-8 encoding takes at most `max` bytes.
pub open spec fn byte_cut(s: Seq<char>, max: int) -> Seq<char>
    decreases s.len(),
{
    if s.len() == 0 || width(s[0]) > max {
        seq![]
    } else {
        seq![s[0]] + byte_cut(s.drop_first(), max - width(s[0]))
    }
}

/// [`byte_cut`] gives a prefix that keeps to its limit, and no longer prefix would.
pub proof fn lemma_byte_cut(s: Seq<char>, max: int)
    requires
        0 <= max,
    ensures
        byte_cut(s, max).is_prefix_of(s),
        byte_len(byte_cut(s, max)) <= max,
        byte_cut(s, max).len() < s.len() ==> byte_len(byte_cut(s, max)) + width(
            s[byte_cut(s, max).len() as int],
        ) > max,
        byte_len(s) <= max ==> byte_cut(s, max) == s,
    decreases s.len(),
{
    if s.len() > 0 && width(s[0]) <= max {
        let rest = s.drop_first();
        lemma_byte_cut(rest, max - width(s[0]));
        let cutoff = byte_cut(s, max);
        assert(cutoff.drop_first() =~= byte_cut(rest, max - width(s[0])));
        assert(cutoff =~= s.take(cutoff.len() as int)) by {
            let c = byte_cut(rest, max - width(s[0]));
            assert forall|k: int| 0 <= k < cutoff.len() implies cutoff[k] == s[k] by {
                if k > 0 {
                    assert(cutoff[k] == c[k - 1]);
                    assert(c[k - 1] == rest.subrange(0, c.len() as int)[k - 1]);
                }
            }
        }
        if byte_len(s) <= max {
            assert(cutoff =~= s);
        }
    }
}

/// The encodings of two texts, one after the other, encode the joined text.
pub proof fn lemma_byte_len_add(a: Seq<char>, b: Seq<char>)
    ensures
        byte_len(a + b) == byte_len(a) + byte_len(b),
    decreases a.len(),
{
    if a.len() == 0 {
        assert(a + b =~= b);
    } else {
        assert((a + b).drop_first() =~= a.drop_first() + b);
        lemma_byte_len_add(a.drop_first(), b);
    }
}

/// A text of ASCII characters takes one byte for each.
pub proof fn lemma_byte_len_ascii(s: Seq<char>)
    requires
        forall|i: int| 0 <= i < s.len() ==> (#[trigger] s[i] as u32) < 0x80,
    ensures
        byte_len(s) == s.len(),
    decreases s.len(),
{
    if s.len() > 0 {
        let rest = s.drop_first();
        assert((s[0] as u32) < 0x80);
        assert forall|i: int| 0 <= i < rest.len() implies (#[trigger] rest[i] as u32) < 0x80 by {
            assert(rest[i] == s[i + 1]);
        }
        lemma_byte_len_ascii(rest);
    }
}

/// A decimal number is made of digits.
pub proof fn lemma_decimal_nat_digits(n: nat)
    ensures
        forall|i: int|
            0 <= i < decimal_nat(n).len() ==> 48 <= (#[trigger] decimal_nat(n)[i] as u32) <= 57,
    decreases n,
{
    if n >= 10 {
        lemma_decimal_nat_digits(n / 10);
        let head = decimal_nat(n / 10);
        assert forall|i: int| 0 <= i < decimal_nat(n).len() implies 48 <= (#[trigger] decimal_nat(
            n,
        )[i] as u32) <= 57 by {
            if i < head.len() {
                assert(decimal_nat(n)[i] == head[i]);
            }
        }
    }
}

/// The bytes of `s`, which takes at most `max`.
pub fn count_bytes(s: &str, max: usize) -> (n: usize)
    requires
        byte_len(s@) <= max,
    ensures
        n == byte_len(s@),
{
    let mut n: usize = 0;
    assert(s@.take(0) =~= seq![]);
    for c in it: s.chars()
        invariant
            it.seq() == s@,
            byte_len(s@) <= max,
            n == byte_len(s@.take(it.index() as int)),
    {
        proof {
            let i = it.index() as int;
            assert(s@ =~= s@.take(i) + seq![c] + s@.skip(i + 1));
            assert(s@.take(i + 1) =~= s@.take(i) + seq![c]);
            lemma_byte_len_add(s@.take(i) + seq![c], s@.skip(i + 1));
            lemma_byte_len_add(s@.take(i), seq![c]);
            lemma_byte_len_one(c);
        }
        n = n + utf8_width(c);
    }
    assert(s@.take(s@.len() as int) =~= s@);
    n
}

/// One character takes its width.
pub proof fn lemma_byte_len_one(c: char)
    ensures
        byte_len(seq![c]) == width(c),
{
    assert(seq![c].drop_first() =~= seq![]);
    reveal_with_fuel(encode_utf8, 2);
    assert(encode_scalar(c as u32) + Seq::<u8>::empty() =~= encode_scalar(c as u32));
}

/// The longest prefix of `s` whose UTF-8 encoding takes at most `max` bytes.
pub fn take_bytes(s: &str, max: usize) -> (r: String)
    ensures
        r@ == byte_cut(s@, max as int),
{
    let mut out = String::new();
    let mut room: usize = max;
    let mut open: bool = true;
    assert(s@.skip(0) =~= s@);
    for c in it: s.chars()
        invariant
            it.seq() == s@,
            open ==> byte_cut(s@, max as int) == out@ + byte_cut(
                s@.skip(it.index() as int),
                room as int,
            ),
            !open ==> byte_cut(s@, max as int) == out@,
    {
        let ghost rest = s@.skip(it.index() as int);
        assert(rest[0] == c);
        assert(rest.drop_first() =~= s@.skip(it.index() + 1));
        if open {
            let w: usize = utf8_width(c);
            if w <= room {
                let ghost before = out@;
                out.push(c);
                room = room - w;
                assert(before + (seq![c] + byte_cut(rest.drop_first(), room as int)) =~= out@
                    + byte_cut(rest.drop_first(), room as int));
            } else {
                open = false;
                assert(out@ + Seq::<char>::empty() =~= out@);
            }
        }
    }
    assert(s@.skip(s@.len() as int) =~= seq![]);
    assert(out@ + Seq::<char>::empty() =~= out@);
    out
}

// ------------------------------------------------------------------------- laws

/// Trimming removes the white space around a text and nothing of the text itself.
pub proof fn law_trimming(lead: Seq<char>, core: Seq<char>, tail: Seq<char>)
    requires
        forall|i: int| 0 <= i < lead.len() ==> is_white_space(#[trigger] lead[i]),
        forall|i: int| 0 <= i < tail.len() ==> is_white_space(#[trigger] tail[i]),
        core.len() > 0 ==> !is_white_space(core[0]) && !is_white_space(core.last()),
    ensures
        trimmed(lead + core + tail) == core,
        is_blank(lead + core + tail) <==> core.len() == 0,
{
    let s = lead + core + tail;
    let n = lead.len() as int;
    if core.len() == 0 {
        assert forall|i: int| 0 <= i < s.len() implies is_white_space(#[trigger] s[i]) by {
            if i < n {
                assert(s[i] == lead[i]);
            } else {
                assert(s[i] == tail[i - n]);
            }
        }
        lemma_blank(s);
        assert(trimmed(s) =~= core);
    } else {
        assert(s[n] == core[0]);
        assert forall|k: int| 0 <= k < n implies Class::WhiteSpace.holds(#[trigger] s[k]) by {
            assert(s[k] == lead[k]);
        }
        lemma_without_start(s, Class::WhiteSpace, n);
        let t = core + tail;
        assert(s.skip(n) =~= t);
        let l = core.len() as int;
        assert(t[l - 1] == core.last());
        assert forall|k: int| l <= k < t.len() implies Class::WhiteSpace.holds(#[trigger] t[k]) by {
            assert(t[k] == tail[k - l]);
        }
        lemma_without_end(t, Class::WhiteSpace, l);
        assert(t.take(l) =~= core);
    }
}

/// Only the capital letters of ASCII change, each to the letter that stands thirty-two places on.
pub proof fn law_lower_case(c: char)
    ensures
        'A' <= c <= 'Z' ==> ascii_lower(c) as u32 == c as u32 + 32,
        !('A' <= c <= 'Z') ==> ascii_lower(c) == c,
{
}

/// Replacing leaves a text alone that does not hold the pattern.
pub proof fn law_nothing_to_replace(s: Seq<char>, from: Seq<char>, to: Seq<char>)
    requires
        from.len() > 0,
        forall|i: int| !#[trigger] occurs_at(s, from, i),
    ensures
        replaced(s, from, to) == s,
    decreases s.len(),
{
    if s.len() > 0 {
        let rest = s.drop_first();
        assert(!from.is_prefix_of(s)) by {
            if from.is_prefix_of(s) {
                assert(occurs_at(s, from, 0));
            }
        }
        assert forall|i: int| !#[trigger] occurs_at(rest, from, i) by {
            if occurs_at(rest, from, i) {
                assert(rest.subrange(i, i + from.len()) =~= s.subrange(
                    i + 1,
                    i + 1 + from.len(),
                ));
                assert(occurs_at(s, from, i + 1));
            }
        }
        law_nothing_to_replace(rest, from, to);
        assert(seq![s[0]] + rest =~= s);
    } else {
        assert(replaced(s, from, to) =~= s);
    }
}

/// The first occurrence is replaced, what stands before it stays, and replacing goes on behind it.
pub proof fn law_first_occurrence_is_replaced(
    a: Seq<char>,
    from: Seq<char>,
    b: Seq<char>,
    to: Seq<char>,
)
    requires
        from.len() > 0,
        forall|i: int| 0 <= i < a.len() ==> !#[trigger] occurs_at(a + from + b, from, i),
    ensures
        replaced(a + from + b, from, to) == a + to + replaced(b, from, to),
    decreases a.len(),
{
    let s = a + from + b;
    if a.len() == 0 {
        assert(s.subrange(0, from.len() as int) =~= from);
        assert(s.skip(from.len() as int) =~= b);
        assert(a + to + replaced(b, from, to) =~= to + replaced(b, from, to));
    } else {
        assert(!from.is_prefix_of(s)) by {
            if from.is_prefix_of(s) {
                assert(occurs_at(s, from, 0));
            }
        }
        let rest = a.drop_first();
        let t = rest + from + b;
        assert(s.drop_first() =~= t);
        assert forall|i: int| 0 <= i < rest.len() implies !#[trigger] occurs_at(t, from, i) by {
            if occurs_at(t, from, i) {
                assert(t.subrange(i, i + from.len()) =~= s.subrange(i + 1, i + 1 + from.len()));
                assert(occurs_at(s, from, i + 1));
            }
        }
        law_first_occurrence_is_replaced(rest, from, b, to);
        assert(seq![s[0]] + (rest + to + replaced(b, from, to)) =~= a + to + replaced(b, from, to));
    }
}

/// All the characters of several texts, one text behind the other.
pub open spec fn concatenated(parts: Seq<Seq<char>>) -> Seq<char>
    decreases parts.len(),
{
    if parts.len() == 0 {
        seq![]
    } else {
        concatenated(parts.drop_last()) + parts.last()
    }
}

/// Splitting into words loses no character but white space and changes the order of none.
pub proof fn law_words_keep_every_character(s: Seq<char>)
    ensures
        concatenated(words(s)) == s.filter(|c: char| !is_white_space(c)),
    decreases s.len(),
{
    let keeps = |c: char| !is_white_space(c);
    reveal(Seq::filter);
    if s.len() == 0 {
        assert(concatenated(words(s)) =~= s.filter(keeps));
    } else {
        let t = s.drop_last();
        law_words_keep_every_character(t);
        let before = words(t);
        let c = s.last();
        if is_white_space(c) {
        } else if s.len() == 1 || is_white_space(s[s.len() - 2]) {
            assert(before.push(seq![c]).drop_last() =~= before);
            assert(concatenated(before) + seq![c] =~= concatenated(before).push(c));
        } else {
            lemma_words_nonempty(t);
            assert(t.last() == s[s.len() - 2]);
            let longer = before.last().push(c);
            assert(before.drop_last().push(longer).drop_last() =~= before.drop_last());
            assert(concatenated(before.drop_last()) + longer =~= concatenated(before).push(c));
        }
    }
}

/// A cut text is the beginning of the whole and as long as the limit allows.
pub proof fn law_cutting(s: Seq<char>, max: int)
    requires
        0 <= max,
    ensures
        cut(s, max).is_prefix_of(s),
        cut(s, max).len() == if s.len() <= max {
            s.len() as int
        } else {
            max
        },
{
    assert(s.subrange(0, s.len() as int) =~= s);
}

/// The number that decimal digits stand for.
pub open spec fn decimal_value(digits: Seq<char>) -> nat
    decreases digits.len(),
{
    if digits.len() == 0 {
        0
    } else {
        (decimal_value(digits.drop_last()) * 10 + (digits.last() as u32 - 48)) as nat
    }
}

/// A number is read back from its decimal notation, which has no leading zero.
pub proof fn law_decimals_are_read_back(n: nat)
    ensures
        decimal_value(decimal_nat(n)) == n,
        decimal_nat(n).len() > 0,
        n > 0 ==> decimal_nat(n)[0] != '0',
        n == 0 ==> decimal_nat(n) == seq!['0'],
    decreases n,
{
    if n < 10 {
        let d = seq![digit(n as int)];
        assert(d.drop_last() =~= seq![]);
        assert(decimal_value(d.drop_last()) == 0);
        assert(d.last() as u32 == 48 + n);
    } else {
        law_decimals_are_read_back(n / 10);
        let d = decimal_nat(n / 10);
        let c = digit((n % 10) as int);
        assert(d.push(c).drop_last() =~= d);
        assert(c as u32 == 48 + n % 10);
        assert(d.push(c)[0] == d[0]);
    }
}

/// The white space of Unicode, by its characters.
pub proof fn law_white_space_characters(c: char)
    ensures
        is_white_space(c) <==> {
            ||| c == '\t' || c == '\n' || c == '\u{b}' || c == '\u{c}' || c == '\r' || c == ' '
            ||| c == '\u{85}' || c == '\u{a0}' || c == '\u{1680}'
            ||| '\u{2000}' <= c <= '\u{200a}'
            ||| c == '\u{2028}' || c == '\u{2029}' || c == '\u{202f}' || c == '\u{205f}'
            ||| c == '\u{3000}'
        },
{
}

/// A negative number is written with a minus sign before its digits.
pub proof fn law_signs_stand_before_the_digits(n: nat)
    ensures
        decimal_int(n as int) == decimal_nat(n),
        n > 0 ==> decimal_int(-(n as int)) == "-"@ + decimal_nat(n),
{
    reveal_strlit("-");
    if n > 0 {
        assert(decimal_int(-(n as int)) =~= "-"@ + decimal_nat(n));
    }
}

} // verus!
