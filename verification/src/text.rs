//! Character-level text utilities used throughout the library.
//!
//! Text is modelled by its view, a `Seq<char>`.  Most work happens on
//! `Vec<char>` buffers obtained with [`chars_of`] and turned back into a
//! `String` with [`string_of`].
use vstd::prelude::*;

verus! {

// ─── Outside behaviour of std's character and string functions ─────────────

/// Whether a character beyond ASCII has the Unicode `White_Space` property
/// (what `char::is_whitespace` computes for it).
pub uninterp spec fn whitespace_beyond_ascii(c: char) -> bool;

/// Whether a character beyond ASCII has the Unicode `Uppercase` property
/// (what `char::is_uppercase` computes for it).
pub uninterp spec fn uppercase_beyond_ascii(c: char) -> bool;

/// The Unicode lower-case mapping of a text that holds a character beyond
/// ASCII (what `str::to_lowercase` computes for it).
pub uninterp spec fn lowercase_beyond_ascii(s: Seq<char>) -> Seq<char>;

/// The Unicode upper-case mapping of a text that holds a character beyond
/// ASCII (what `str::to_uppercase` computes for it).
pub uninterp spec fn uppercase_text_beyond_ascii(s: Seq<char>) -> Seq<char>;

/// Whether `c` is an ASCII character.
pub open spec fn is_ascii_char(c: char) -> bool {
    (c as u32) < 128
}

/// Whether every character of `s` is ASCII.
pub open spec fn all_ascii(s: Seq<char>) -> bool {
    forall|i: int| 0 <= i < s.len() ==> #[trigger] is_ascii_char(s[i])
}

/// The ASCII white space: space, tab, line feed, vertical tab, form feed, carriage return.
pub open spec fn ascii_whitespace(c: char) -> bool {
    c == ' ' || c == '\t' || c == '\n' || c == '\x0B' || c == '\x0C' || c == '\r'
}

/// Whether `c` has the Unicode `White_Space` property (what `char::is_whitespace` computes).
#[verifier::opaque]
pub open spec fn unicode_whitespace(c: char) -> bool {
    if is_ascii_char(c) { ascii_whitespace(c) } else { whitespace_beyond_ascii(c) }
}

/// The line feed is white space.
pub proof fn lemma_newline_is_whitespace()
    ensures
        unicode_whitespace('\n'),
{
    reveal(unicode_whitespace);
}

/// Whether `c` has the Unicode `Uppercase` property (what `char::is_uppercase` computes).
pub open spec fn unicode_uppercase(c: char) -> bool {
    if is_ascii_char(c) { 65 <= (c as u32) <= 90 } else { uppercase_beyond_ascii(c) }
}

/// The ASCII lower-case of a character: `A`-`Z` become `a`-`z`, others stay.
pub open spec fn ascii_lower(c: char) -> char {
    if 65 <= (c as u32) <= 90 { ((c as u32) + 32) as char } else { c }
}

/// The ASCII upper-case of a character: `a`-`z` become `A`-`Z`, others stay.
pub open spec fn ascii_upper(c: char) -> char {
    if 97 <= (c as u32) <= 122 { ((c as u32) - 32) as char } else { c }
}

/// The Unicode lower-case mapping of a whole string (what `str::to_lowercase` computes).
pub open spec fn unicode_lowercase(s: Seq<char>) -> Seq<char> {
    if all_ascii(s) { s.map_values(|c: char| ascii_lower(c)) } else { lowercase_beyond_ascii(s) }
}

/// The Unicode upper-case mapping of a whole string (what `str::to_uppercase` computes).
pub open spec fn unicode_upper_text(s: Seq<char>) -> Seq<char> {
    if all_ascii(s) { s.map_values(|c: char| ascii_upper(c)) } else { uppercase_text_beyond_ascii(s) }
}

/// Trusted: `str::to_uppercase`.  On ASCII text it maps `a`-`z` to `A`-`Z`
/// and keeps every other character, as std documents; on other text the
/// result is the named `uppercase_text_beyond_ascii` of the input.
#[verifier::external_body]
pub(crate) fn to_uppercase(s: &str) -> (r: String)
    ensures
        r@ == unicode_upper_text(s@),
        !all_ascii(s@) ==> r@ == uppercase_text_beyond_ascii(s@),
{
    s.to_uppercase()
}

/// Trusted: `String::push` appends the character at the end of the string.
#[verifier::external_body]
pub(crate) fn push_char(s: &mut String, c: char)
    ensures
        final(s)@ == old(s)@.push(c),
{
    s.push(c)
}

/// Trusted: `char::is_whitespace`.  Of ASCII characters exactly space, tab,
/// line feed, vertical tab, form feed and carriage return are white space,
/// as std documents; beyond ASCII the result is the named
/// `whitespace_beyond_ascii` property.
#[verifier::external_body]
pub(crate) fn is_whitespace(c: char) -> (b: bool)
    ensures
        b == unicode_whitespace(c),
        !is_ascii_char(c) ==> b == whitespace_beyond_ascii(c),
{
    c.is_whitespace()
}

/// Trusted: `char::is_uppercase`.  Of ASCII characters exactly `A`-`Z` are
/// upper case; beyond ASCII the result is the named `uppercase_beyond_ascii`
/// property.
#[verifier::external_body]
pub(crate) fn is_uppercase(c: char) -> (b: bool)
    ensures
        b == unicode_uppercase(c),
        !is_ascii_char(c) ==> b == uppercase_beyond_ascii(c),
{
    c.is_uppercase()
}

/// Trusted: `str::to_lowercase`.  On ASCII text it maps `A`-`Z` to `a`-`z`
/// and keeps every other character, as std documents; on other text the
/// result is the named `lowercase_beyond_ascii` of the input.
#[verifier::external_body]
pub(crate) fn to_lowercase(s: &str) -> (r: String)
    ensures
        r@ == unicode_lowercase(s@),
        !all_ascii(s@) ==> r@ == lowercase_beyond_ascii(s@),
{
    s.to_lowercase()
}

// ─── Sequence facts ────────────────────────────────────────────────────────

/// What a sequence holds after a push.
pub proof fn lemma_push_contains<A>(s: Seq<A>, x: A)
    ensures
        forall|p: A| #[trigger] s.push(x).contains(p) <==> (s.contains(p) || p == x),
{
    assert forall|p: A| #[trigger] s.push(x).contains(p) <==> (s.contains(p) || p == x) by {
        if s.push(x).contains(p) {
            let w = choose|w: int| 0 <= w < s.push(x).len() && s.push(x)[w] == p;
            if w < s.len() {
                assert(s[w] == p);
            }
        }
        if s.contains(p) {
            let w = choose|w: int| 0 <= w < s.len() && s[w] == p;
            assert(s.push(x)[w] == p);
        }
        if p == x {
            assert(s.push(x)[s.len() as int] == p);
        }
    }
}

/// Pushing a new element keeps a sequence free of duplicates.
pub proof fn lemma_push_no_dup<A>(s: Seq<A>, x: A)
    requires
        s.no_duplicates(),
        !s.contains(x),
    ensures
        s.push(x).no_duplicates(),
{
    assert forall|i: int, j: int| 0 <= i < s.push(x).len() && 0 <= j < s.push(x).len() && i != j implies s.push(x)[i] != s.push(x)[j] by {
        if i == s.len() as int {
            assert(s[j] == s.push(x)[j]);
        } else if j == s.len() as int {
            assert(s[i] == s.push(x)[i]);
        }
    }
}

/// The text views of a list after a push.
pub proof fn lemma_views_push(v: Seq<String>, x: String)
    ensures
        views(v.push(x)) =~= views(v).push(x@),
{
}

// ─── Conversions ────────────────────────────────────────────────────────────

/// The characters of `s`, in order.
pub fn chars_of(s: &str) -> (out: Vec<char>)
    ensures
        out@ == s@,
{
    let mut out: Vec<char> = Vec::new();
    for c in it: s.chars()
        invariant
            out@ == it.seq().take(it.index() as int),
            it.seq() == s@,
    {
        out.push(c);
    }
    out
}

/// A `String` holding exactly the characters of `v`.
pub fn string_of(v: &Vec<char>) -> (s: String)
    ensures
        s@ == v@,
{
    let mut s = String::new();
    let mut i: usize = 0;
    while i < v.len()
        invariant
            i <= v.len(),
            s@ == v@.take(i as int),
        decreases v.len() - i,
    {
        push_char(&mut s, v[i]);
        i = i + 1;
        assert(s@ =~= v@.take(i as int));
    }
    assert(v@.take(v.len() as int) =~= v@);
    s
}

/// A copy of `s` as an owned `String`.
pub fn owned(s: &str) -> (r: String)
    ensures
        r@ == s@,
{
    String::from_str(s)
}

/// `a` followed by `b`.
pub fn concat2(a: &str, b: &str) -> (r: String)
    ensures
        r@ == a@ + b@,
{
    let mut r = String::from_str(a);
    r.append(b);
    r
}

/// `a`, `b` and `c` in a row.
pub fn concat3(a: &str, b: &str, c: &str) -> (r: String)
    ensures
        r@ == a@ + b@ + c@,
{
    let mut r = String::from_str(a);
    r.append(b);
    r.append(c);
    r
}

/// A copy of a list of strings.
pub fn copy_strings(v: &Vec<String>) -> (r: Vec<String>)
    ensures
        r@.len() == v@.len(),
        forall|i: int| 0 <= i < v@.len() ==> #[trigger] r@[i]@ == v@[i]@,
{
    let mut r: Vec<String> = Vec::new();
    let mut i: usize = 0;
    while i < v.len()
        invariant
            i <= v.len(),
            r@.len() == i,
            forall|k: int| 0 <= k < i ==> #[trigger] r@[k]@ == v@[k]@,
        decreases v.len() - i,
    {
        r.push(owned(v[i].as_str()));
        i = i + 1;
    }
    r
}

/// The views of a list of strings.
pub open spec fn views(v: Seq<String>) -> Seq<Seq<char>> {
    v.map_values(|s: String| s@)
}

// ─── Equality and search ────────────────────────────────────────────────────

/// Whether two character buffers hold the same text.
pub fn chars_eq(a: &Vec<char>, b: &Vec<char>) -> (r: bool)
    ensures
        r == (a@ == b@),
{
    if a.len() != b.len() {
        return false;
    }
    let mut i: usize = 0;
    while i < a.len()
        invariant
            i <= a.len(),
            a.len() == b.len(),
            forall|k: int| 0 <= k < i ==> a@[k] == b@[k],
        decreases a.len() - i,
    {
        if a[i] != b[i] {
            return false;
        }
        i = i + 1;
    }
    assert(a@ =~= b@);
    true
}

/// Whether two strings hold the same text.
pub fn str_eq(a: &str, b: &str) -> (r: bool)
    ensures
        r == (a@ == b@),
{
    let x = chars_of(a);
    let y = chars_of(b);
    chars_eq(&x, &y)
}

/// Whether `s` is one of `v`'s texts.
pub fn contains_text(v: &Vec<String>, s: &str) -> (r: bool)
    ensures
        r == views(v@).contains(s@),
{
    let mut i: usize = 0;
    while i < v.len()
        invariant
            i <= v.len(),
            forall|k: int| 0 <= k < i ==> v@[k]@ != s@,
        decreases v.len() - i,
    {
        if str_eq(v[i].as_str(), s) {
            assert(views(v@)[i as int] == s@);
            return true;
        }
        i = i + 1;
    }
    proof {
        if views(v@).contains(s@) {
            let k = choose|k: int| 0 <= k < views(v@).len() && views(v@)[k] == s@;
            assert(v@[k]@ == s@);
        }
    }
    false
}

/// Whether `needle` occurs in `hay` starting at index `at`.
pub open spec fn occurs_at(hay: Seq<char>, needle: Seq<char>, at: int) -> bool {
    0 <= at && at + needle.len() <= hay.len() && hay.subrange(at, at + needle.len()) == needle
}

/// Whether `needle` occurs anywhere in `hay`.
pub open spec fn occurs_in(hay: Seq<char>, needle: Seq<char>) -> bool {
    exists|at: int| occurs_at(hay, needle, at)
}

/// The first index at which `needle` occurs in `hay`, if any.
pub open spec fn first_occurrence(hay: Seq<char>, needle: Seq<char>) -> Option<int> {
    if occurs_in(hay, needle) {
        Some(choose|at: int| occurs_at(hay, needle, at) && forall|j: int| 0 <= j < at ==> !occurs_at(hay, needle, j))
    } else {
        None
    }
}

/// Whether `needle` occurs in `hay` at index `at` (executable).
pub fn matches_at(hay: &Vec<char>, needle: &Vec<char>, at: usize) -> (r: bool)
    ensures
        r == occurs_at(hay@, needle@, at as int),
{
    if at > hay.len() || needle.len() > hay.len() - at {
        return false;
    }
    let mut i: usize = 0;
    while i < needle.len()
        invariant
            i <= needle.len(),
            at + needle.len() <= hay.len(),
            forall|k: int| 0 <= k < i ==> hay@[at + k] == needle@[k],
        decreases needle.len() - i,
    {
        if hay[at + i] != needle[i] {
            assert(hay@.subrange(at as int, at + needle.len())[i as int] != needle@[i as int]);
            return false;
        }
        i = i + 1;
    }
    assert(hay@.subrange(at as int, at + needle.len()) =~= needle@);
    true
}

/// The first index at which `needle` occurs in `hay` (what `str::find` reports, counted in characters).
pub fn find(hay: &Vec<char>, needle: &Vec<char>) -> (r: Option<usize>)
    ensures
        match r {
            Some(at) => occurs_at(hay@, needle@, at as int) && forall|j: int|
                0 <= j < at ==> !occurs_at(hay@, needle@, j),
            None => !occurs_in(hay@, needle@),
        },
        r matches Some(at) ==> first_occurrence(hay@, needle@) == Some(at as int),
        r is None ==> first_occurrence(hay@, needle@) is None,
{
    let mut at: usize = 0;
    while at < hay.len()
        invariant
            at <= hay.len(),
            forall|j: int| 0 <= j < at ==> !occurs_at(hay@, needle@, j),
        decreases hay.len() - at,
    {
        if matches_at(hay, needle, at) {
            proof {
                lemma_first_is_choice(hay@, needle@, at as int);
            }
            return Some(at);
        }
        at = at + 1;
    }
    if matches_at(hay, needle, at) {
        proof {
            lemma_first_is_choice(hay@, needle@, at as int);
        }
        return Some(at);
    }
    assert forall|j: int| !occurs_at(hay@, needle@, j) by {
        if 0 <= j && j < at {
        }
    }
    None
}

/// An occurrence with none before it is the first occurrence.
pub proof fn lemma_first_is_choice(hay: Seq<char>, needle: Seq<char>, at: int)
    requires
        occurs_at(hay, needle, at),
        forall|j: int| 0 <= j < at ==> !occurs_at(hay, needle, j),
    ensures
        first_occurrence(hay, needle) == Some(at),
{
    let w = choose|w: int| occurs_at(hay, needle, w) && forall|j: int| 0 <= j < w ==> !occurs_at(hay, needle, j);
    assert(occurs_in(hay, needle));
    if w < at {
    } else if w > at {
        assert(!occurs_at(hay, needle, at));
    }
}

/// Whether `needle` occurs in `hay` (what `str::contains` reports).
pub fn contains(hay: &str, needle: &str) -> (r: bool)
    ensures
        r == occurs_in(hay@, needle@),
{
    let h = chars_of(hay);
    let n = chars_of(needle);
    find(&h, &n).is_some()
}

/// Whether `prefix` is a prefix of `s`.
pub fn starts_with(s: &str, prefix: &str) -> (r: bool)
    ensures
        r == prefix@.is_prefix_of(s@),
{
    let h = chars_of(s);
    let n = chars_of(prefix);
    let r = matches_at(&h, &n, 0);
    proof {
        if r {
            assert(s@.subrange(0, prefix@.len() as int) == prefix@);
        }
        if prefix@.is_prefix_of(s@) {
            assert(occurs_at(h@, n@, 0));
        }
    }
    r
}

/// Whether `suffix` is a suffix of `s`.
pub fn ends_with(s: &str, suffix: &str) -> (r: bool)
    ensures
        r == suffix@.is_suffix_of(s@),
{
    let h = chars_of(s);
    let n = chars_of(suffix);
    if n.len() > h.len() {
        return false;
    }
    let r = matches_at(&h, &n, h.len() - n.len());
    proof {
        if suffix@.is_suffix_of(s@) {
            assert(occurs_at(h@, n@, h@.len() - n@.len()));
        }
    }
    r
}

// ─── Splitting and joining ──────────────────────────────────────────────────

/// The pieces of `s` between occurrences of `sep` (what `str::split` with a character yields).
pub open spec fn split_by(s: Seq<char>, sep: char) -> Seq<Seq<char>>
    decreases s.len(),
{
    if s.len() == 0 {
        seq![Seq::<char>::empty()]
    } else {
        let rest = split_by(s.drop_last(), sep);
        if s.last() == sep {
            rest.push(Seq::<char>::empty())
        } else {
            rest.update(rest.len() - 1, rest.last().push(s.last()))
        }
    }
}

/// `split_by` never yields an empty list of pieces.
pub proof fn lemma_split_by_nonempty(s: Seq<char>, sep: char)
    ensures
        split_by(s, sep).len() >= 1,
    decreases s.len(),
{
    if s.len() > 0 {
        lemma_split_by_nonempty(s.drop_last(), sep);
    }
}

/// Splits `s` at every occurrence of `sep`.
pub fn split_chars(s: &Vec<char>, sep: char) -> (parts: Vec<Vec<char>>)
    ensures
        parts@.len() == split_by(s@, sep).len(),
        forall|i: int| 0 <= i < parts@.len() ==> #[trigger] parts@[i]@ == split_by(s@, sep)[i],
{
    let mut parts: Vec<Vec<char>> = Vec::new();
    let mut cur: Vec<char> = Vec::new();
    let mut i: usize = 0;
    while i < s.len()
        invariant
            i <= s.len(),
            parts@.len() + 1 == split_by(s@.take(i as int), sep).len(),
            forall|k: int| 0 <= k < parts@.len() ==> #[trigger] parts@[k]@ == split_by(s@.take(i as int), sep)[k],
            cur@ == split_by(s@.take(i as int), sep).last(),
        decreases s.len() - i,
    {
        proof {
            lemma_split_by_nonempty(s@.take(i as int), sep);
            assert(s@.take(i + 1).drop_last() =~= s@.take(i as int));
            assert(s@.take(i + 1).last() == s@[i as int]);
        }
        if s[i] == sep {
            let done = cur;
            parts.push(done);
            cur = Vec::new();
        } else {
            cur.push(s[i]);
        }
        i = i + 1;
        proof {
            lemma_split_by_nonempty(s@.take(i as int), sep);
        }
    }
    proof {
        assert(s@.take(s.len() as int) =~= s@);
        lemma_split_by_nonempty(s@, sep);
    }
    parts.push(cur);
    parts
}

/// The pieces of `parts` joined with `sep` between neighbours (what `join` on a slice gives).
pub open spec fn join_with(parts: Seq<Seq<char>>, sep: Seq<char>) -> Seq<char>
    decreases parts.len(),
{
    if parts.len() == 0 {
        Seq::<char>::empty()
    } else if parts.len() == 1 {
        parts[0]
    } else {
        join_with(parts.drop_last(), sep) + sep + parts.last()
    }
}

/// Joins strings with `sep` between neighbours.
pub fn join(parts: &Vec<String>, sep: &str) -> (r: String)
    ensures
        r@ == join_with(views(parts@), sep@),
{
    let mut r = String::new();
    let ghost vs = views(parts@);
    let mut i: usize = 0;
    while i < parts.len()
        invariant
            i <= parts.len(),
            vs == views(parts@),
            r@ == join_with(vs.take(i as int), sep@),
        decreases parts.len() - i,
    {
        proof {
            assert(vs.take(i + 1).drop_last() =~= vs.take(i as int));
        }
        if i > 0 {
            r.append(sep);
        } else {
            assert(vs.take(0) =~= Seq::<Seq<char>>::empty());
        }
        r.append(parts[i].as_str());
        i = i + 1;
        proof {
            if i == 1 {
                assert(vs.take(1) =~= seq![parts@[0]@]);
            }
        }
    }
    assert(vs.take(parts.len() as int) =~= vs);
    r
}

// ─── Numbers ────────────────────────────────────────────────────────────────

/// The decimal digit character for `d < 10`.
pub open spec fn digit_char(d: nat) -> char {
    if d == 0 { '0' }
    else if d == 1 { '1' }
    else if d == 2 { '2' }
    else if d == 3 { '3' }
    else if d == 4 { '4' }
    else if d == 5 { '5' }
    else if d == 6 { '6' }
    else if d == 7 { '7' }
    else if d == 8 { '8' }
    else { '9' }
}

/// The decimal representation of `n`, without leading zeros (what `{}` prints for an integer).
pub open spec fn decimal(n: nat) -> Seq<char>
    decreases n,
{
    if n < 10 {
        seq![digit_char(n)]
    } else {
        decimal(n / 10).push(digit_char(n % 10))
    }
}

fn digit(d: usize) -> (c: char)
    requires
        d < 10,
    ensures
        c == digit_char(d as nat),
{
    if d == 0 { '0' }
    else if d == 1 { '1' }
    else if d == 2 { '2' }
    else if d == 3 { '3' }
    else if d == 4 { '4' }
    else if d == 5 { '5' }
    else if d == 6 { '6' }
    else if d == 7 { '7' }
    else if d == 8 { '8' }
    else { '9' }
}

/// The decimal representation of `n`.
pub fn decimal_string(n: usize) -> (s: String)
    ensures
        s@ == decimal(n as nat),
    decreases n,
{
    if n < 10 {
        let mut s = String::new();
        push_char(&mut s, digit(n));
        assert(s@ =~= seq![digit_char(n as nat)]);
        s
    } else {
        let mut s = decimal_string(n / 10);
        push_char(&mut s, digit(n % 10));
        s
    }
}

// ─── Whitespace ─────────────────────────────────────────────────────────────

/// The number of leading whitespace characters of `s`.
pub open spec fn leading_ws(s: Seq<char>) -> nat
    decreases s.len(),
{
    if s.len() > 0 && unicode_whitespace(s[0]) {
        1 + leading_ws(s.drop_first())
    } else {
        0
    }
}

/// The number of trailing whitespace characters of `s`.
pub open spec fn trailing_ws(s: Seq<char>) -> nat
    decreases s.len(),
{
    if s.len() > 0 && unicode_whitespace(s.last()) {
        1 + trailing_ws(s.drop_last())
    } else {
        0
    }
}

/// `s` without trailing whitespace (what `str::trim_end` gives).
pub open spec fn trim_end_spec(s: Seq<char>) -> Seq<char> {
    s.take(s.len() - trailing_ws(s))
}

/// `s` without leading or trailing whitespace (what `str::trim` gives).
pub open spec fn trim_spec(s: Seq<char>) -> Seq<char> {
    trim_end_spec(s).skip(leading_ws(trim_end_spec(s)) as int)
}

proof fn lemma_trailing_ws_bound(s: Seq<char>)
    ensures
        trailing_ws(s) <= s.len(),
    decreases s.len(),
{
    if s.len() > 0 && unicode_whitespace(s.last()) {
        lemma_trailing_ws_bound(s.drop_last());
    }
}

proof fn lemma_leading_ws_bound(s: Seq<char>)
    ensures
        leading_ws(s) <= s.len(),
    decreases s.len(),
{
    if s.len() > 0 && unicode_whitespace(s[0]) {
        lemma_leading_ws_bound(s.drop_first());
    }
}

/// `v` without trailing whitespace.
pub fn trim_end_chars(v: &Vec<char>) -> (r: Vec<char>)
    ensures
        r@ == trim_end_spec(v@),
{
    let mut end: usize = v.len();
    assert(v@.take(end as int) =~= v@);
    while end > 0 && is_whitespace(v[end - 1])
        invariant
            end <= v.len(),
            trailing_ws(v@) == (v.len() - end) + trailing_ws(v@.take(end as int)),
        decreases end,
    {
        proof {
            assert(v@.take(end as int).drop_last() =~= v@.take(end - 1));
        }
        end = end - 1;
    }
    proof {
        assert(trailing_ws(v@.take(end as int)) == 0);
        lemma_trailing_ws_bound(v@);
    }
    let mut r: Vec<char> = Vec::new();
    let mut i: usize = 0;
    while i < end
        invariant
            i <= end <= v.len(),
            r@ == v@.take(i as int),
        decreases end - i,
    {
        r.push(v[i]);
        i = i + 1;
        assert(r@ =~= v@.take(i as int));
    }
    r
}

/// `v` without leading whitespace.
pub fn trim_start_chars(v: &Vec<char>) -> (r: Vec<char>)
    ensures
        r@ == v@.skip(leading_ws(v@) as int),
{
    let mut start: usize = 0;
    assert(v@.skip(0) =~= v@);
    while start < v.len() && is_whitespace(v[start])
        invariant
            start <= v.len(),
            leading_ws(v@) == start + leading_ws(v@.skip(start as int)),
        decreases v.len() - start,
    {
        proof {
            assert(v@.skip(start as int).drop_first() =~= v@.skip(start + 1));
        }
        start = start + 1;
    }
    proof {
        assert(leading_ws(v@.skip(start as int)) == 0);
    }
    let mut r: Vec<char> = Vec::new();
    let mut i: usize = start;
    while i < v.len()
        invariant
            start <= i <= v.len(),
            r@ == v@.subrange(start as int, i as int),
        decreases v.len() - i,
    {
        r.push(v[i]);
        i = i + 1;
        assert(r@ =~= v@.subrange(start as int, i as int));
    }
    assert(r@ =~= v@.skip(start as int));
    r
}

/// `v` without leading or trailing whitespace.
pub fn trim_chars(v: &Vec<char>) -> (r: Vec<char>)
    ensures
        r@ == trim_spec(v@),
{
    let e = trim_end_chars(v);
    trim_start_chars(&e)
}

// ─── Words ──────────────────────────────────────────────────────────────────

/// The words of `s`: its maximal runs of non-whitespace characters (what
/// `str::split_whitespace` yields).
pub open spec fn words(s: Seq<char>) -> Seq<Seq<char>>
    decreases s.len(),
{
    if s.len() == 0 {
        Seq::<Seq<char>>::empty()
    } else {
        let prev = words(s.drop_last());
        let c = s.last();
        if unicode_whitespace(c) {
            prev
        } else if s.len() >= 2 && !unicode_whitespace(s[s.len() - 2]) {
            prev.update(prev.len() - 1, prev.last().push(c))
        } else {
            prev.push(seq![c])
        }
    }
}

/// Splits `s` into its words.
pub fn split_words(s: &str) -> (r: Vec<String>)
    ensures
        views(r@) == words(s@),
{
    let v = chars_of(s);
    let mut done: Vec<String> = Vec::new();
    let mut cur: Vec<char> = Vec::new();
    let mut i: usize = 0;
    while i < v.len()
        invariant
            i <= v.len(),
            words(v@.take(i as int)) == if cur@.len() > 0 {
                views(done@).push(cur@)
            } else {
                views(done@)
            },
            cur@.len() > 0 <==> (i > 0 && !unicode_whitespace(v@[i - 1])),
        decreases v.len() - i,
    {
        let c = v[i];
        proof {
            assert(v@.take(i + 1).drop_last() =~= v@.take(i as int));
            assert(v@.take(i + 1).last() == c);
            if i > 0 {
                assert(v@.take(i + 1)[i - 1] == v@[i - 1]);
            }
        }
        if is_whitespace(c) {
            if cur.len() > 0 {
                let ghost old_done = done@;
                let finished = string_of(&cur);
                done.push(finished);
                proof {
                    lemma_views_push(old_done, done@.last());
                }
                cur = Vec::new();
            }
        } else {
            let ghost old_cur = cur@;
            cur.push(c);
            proof {
                if old_cur.len() > 0 {
                    assert(cur@ =~= old_cur.push(c));
                } else {
                    assert(cur@ =~= seq![c]);
                }
            }
        }
        i = i + 1;
    }
    proof {
        assert(v@.take(v.len() as int) =~= v@);
    }
    if cur.len() > 0 {
        let ghost old_done = done@;
        let finished = string_of(&cur);
        done.push(finished);
        proof {
            lemma_views_push(old_done, done@.last());
        }
    }
    done
}


// ─── Trimming a given character ─────────────────────────────────────────────

/// `s` without its leading run of `c` (what `str::trim_start_matches` gives for a character).
pub open spec fn trim_start_char(s: Seq<char>, c: char) -> Seq<char>
    decreases s.len(),
{
    if s.len() > 0 && s[0] == c {
        trim_start_char(s.drop_first(), c)
    } else {
        s
    }
}

/// `s` without its trailing run of `c` (what `str::trim_end_matches` gives for a character).
pub open spec fn trim_end_char(s: Seq<char>, c: char) -> Seq<char>
    decreases s.len(),
{
    if s.len() > 0 && s.last() == c {
        trim_end_char(s.drop_last(), c)
    } else {
        s
    }
}

/// `s` without leading or trailing runs of `c` (what `str::trim_matches` gives for a character).
pub open spec fn trim_char(s: Seq<char>, c: char) -> Seq<char> {
    trim_end_char(trim_start_char(s, c), c)
}

/// `s` without its leading run of `c`.
pub fn trim_start_matches_char(s: &str, c: char) -> (r: String)
    ensures
        r@ == trim_start_char(s@, c),
{
    let v = chars_of(s);
    let mut start: usize = 0;
    assert(v@.skip(0) =~= v@);
    while start < v.len() && v[start] == c
        invariant
            start <= v.len(),
            trim_start_char(s@, c) == trim_start_char(v@.skip(start as int), c),
            v@ == s@,
        decreases v.len() - start,
    {
        assert(v@.skip(start as int).drop_first() =~= v@.skip(start + 1));
        start = start + 1;
    }
    let mut out: Vec<char> = Vec::new();
    let mut i: usize = start;
    while i < v.len()
        invariant
            start <= i <= v.len(),
            out@ == v@.subrange(start as int, i as int),
        decreases v.len() - i,
    {
        out.push(v[i]);
        i = i + 1;
        assert(out@ =~= v@.subrange(start as int, i as int));
    }
    assert(out@ =~= v@.skip(start as int));
    string_of(&out)
}

/// `s` without its trailing run of `c`.
pub fn trim_end_matches_char(s: &str, c: char) -> (r: String)
    ensures
        r@ == trim_end_char(s@, c),
{
    let v = chars_of(s);
    let mut end: usize = v.len();
    assert(v@.take(end as int) =~= v@);
    while end > 0 && v[end - 1] == c
        invariant
            end <= v.len(),
            trim_end_char(s@, c) == trim_end_char(v@.take(end as int), c),
            v@ == s@,
        decreases end,
    {
        assert(v@.take(end as int).drop_last() =~= v@.take(end - 1));
        end = end - 1;
    }
    let mut out: Vec<char> = Vec::new();
    let mut i: usize = 0;
    while i < end
        invariant
            i <= end <= v.len(),
            out@ == v@.take(i as int),
        decreases end - i,
    {
        out.push(v[i]);
        i = i + 1;
        assert(out@ =~= v@.take(i as int));
    }
    string_of(&out)
}

/// `s` without leading or trailing runs of `c`.
pub fn trim_matches_char(s: &str, c: char) -> (r: String)
    ensures
        r@ == trim_char(s@, c),
{
    let a = trim_start_matches_char(s, c);
    trim_end_matches_char(a.as_str(), c)
}

/// `s` without leading or trailing whitespace.
pub fn trim_str(s: &str) -> (r: String)
    ensures
        r@ == trim_spec(s@),
{
    let v = chars_of(s);
    let t = trim_chars(&v);
    string_of(&t)
}


// ─── Lines and delimiters ───────────────────────────────────────────────────

/// A line without the carriage return that ended it.
pub open spec fn strip_cr(x: Seq<char>) -> Seq<char> {
    if x.len() > 0 && x.last() == '\r' {
        x.drop_last()
    } else {
        x
    }
}

/// The lines of `s` (what `str::lines` yields): the pieces between
/// newlines, without a final empty piece, each line that a newline ended
/// stripped of one carriage return.
pub open spec fn lines_of(s: Seq<char>) -> Seq<Seq<char>> {
    let parts = split_by(s, '\n');
    let kept = if parts.last().len() == 0 { parts.drop_last() } else { parts };
    Seq::new(kept.len(), |k: int| if k < parts.len() - 1 { strip_cr(kept[k]) } else { kept[k] })
}

/// The lines of `s`.
pub fn lines(s: &str) -> (r: Vec<String>)
    ensures
        views(r@) == lines_of(s@),
{
    let v = chars_of(s);
    let parts = split_chars(&v, '\n');
    proof {
        lemma_split_by_nonempty(s@, '\n');
    }
    let ghost ps = split_by(s@, '\n');
    let n: usize = if parts[parts.len() - 1].len() == 0 { parts.len() - 1 } else { parts.len() };
    assert(parts@[parts.len() - 1]@ == ps.last());
    let mut r: Vec<String> = Vec::new();
    let mut k: usize = 0;
    while k < n
        invariant
            k <= n <= parts.len(),
            parts@.len() == ps.len(),
            ps == split_by(s@, '\n'),
            n == (if ps.last().len() == 0 { ps.len() - 1 } else { ps.len() as int }),
            forall|m: int| 0 <= m < parts@.len() ==> #[trigger] parts@[m]@ == ps[m],
            r@.len() == k,
            forall|m: int| 0 <= m < k ==> #[trigger] r@[m]@ == lines_of(s@)[m],
        decreases n - k,
    {
        let part = &parts[k];
        let line = if k + 1 < parts.len() && part.len() > 0 && part[part.len() - 1] == '\r' {
            let mut t: Vec<char> = Vec::new();
            let mut j: usize = 0;
            while j + 1 < part.len()
                invariant
                    j + 1 <= part.len(),
                    t@ == part@.take(j as int),
                decreases part.len() - j,
            {
                t.push(part[j]);
                j = j + 1;
                assert(t@ =~= part@.take(j as int));
            }
            assert(t@ =~= part@.drop_last());
            string_of(&t)
        } else {
            string_of(part)
        };
        r.push(line);
        k = k + 1;
    }
    assert(views(r@) =~= lines_of(s@));
    r
}

/// The text of `s` before the first occurrence of `pat` (all of it when
/// `pat` does not occur): the first piece `str::split` yields.
pub open spec fn text_before(s: Seq<char>, pat: Seq<char>) -> Seq<char> {
    match first_occurrence(s, pat) {
        Some(k) => s.take(k),
        None => s,
    }
}

/// The text of `s` after the first occurrence of `pat`, if it occurs (the
/// second part `str::split_once` yields).
pub open spec fn text_after(s: Seq<char>, pat: Seq<char>) -> Option<Seq<char>> {
    match first_occurrence(s, pat) {
        Some(k) => Some(s.skip(k + pat.len())),
        None => None,
    }
}

/// The text of `s` before the first occurrence of `pat`.
pub fn before_first(s: &str, pat: &str) -> (r: String)
    ensures
        r@ == text_before(s@, pat@),
{
    let v = chars_of(s);
    let p = chars_of(pat);
    match find(&v, &p) {
        Some(k) => {
            let mut out: Vec<char> = Vec::new();
            let mut i: usize = 0;
            while i < k
                invariant
                    i <= k <= v.len(),
                    out@ == v@.take(i as int),
                decreases k - i,
            {
                out.push(v[i]);
                i = i + 1;
                assert(out@ =~= v@.take(i as int));
            }
            string_of(&out)
        },
        None => owned(s),
    }
}

/// The text of `s` after the first occurrence of `pat`, if it occurs.
pub fn after_first(s: &str, pat: &str) -> (r: Option<String>)
    ensures
        opt_view(r) == text_after(s@, pat@),
{
    let v = chars_of(s);
    let p = chars_of(pat);
    match find(&v, &p) {
        Some(k) => {
            let plen = p.len();
            assert(occurs_at(v@, p@, k as int));
            let vlen = v.len();
            assert(k + plen <= vlen);
            let start = k + plen;
            let mut out: Vec<char> = Vec::new();
            let mut i: usize = start;
            while i < v.len()
                invariant
                    start <= i <= v.len(),
                    out@ == v@.subrange(start as int, i as int),
                decreases v.len() - i,
            {
                out.push(v[i]);
                i = i + 1;
                assert(out@ =~= v@.subrange(start as int, i as int));
            }
            assert(out@ =~= v@.skip(start as int));
            Some(string_of(&out))
        },
        None => None,
    }
}

/// The view of an optional string.
pub open spec fn opt_view(o: Option<String>) -> Option<Seq<char>> {
    match o {
        Some(x) => Some(x@),
        None => None,
    }
}

/// `s` without its leading repetitions of `p` (what `str::trim_start_matches` gives for a text).
pub open spec fn trim_start_text(s: Seq<char>, p: Seq<char>) -> Seq<char>
    decreases s.len(),
{
    if p.len() > 0 && p.is_prefix_of(s) {
        trim_start_text(s.skip(p.len() as int), p)
    } else {
        s
    }
}

/// `s` without its leading repetitions of `p`.
pub fn trim_start_matches_text(s: &str, p: &str) -> (r: String)
    ensures
        r@ == trim_start_text(s@, p@),
{
    let v = chars_of(s);
    let n = chars_of(p);
    let mut start: usize = 0;
    assert(v@.skip(0) =~= v@);
    while n.len() > 0 && start <= v.len() && matches_at(&v, &n, start)
        invariant
            start <= v.len(),
            n@ == p@,
            v@ == s@,
            trim_start_text(s@, p@) == trim_start_text(v@.skip(start as int), p@),
        decreases v.len() - start,
    {
        proof {
            let rest = v@.skip(start as int);
            assert(rest.subrange(0, p@.len() as int) =~= v@.subrange(start as int, start + p@.len()));
            assert(p@.is_prefix_of(rest));
            assert(rest.skip(p@.len() as int) =~= v@.skip(start + p@.len()));
        }
        start = start + n.len();
    }
    proof {
        let rest = v@.skip(start as int);
        if p@.len() > 0 && p@.is_prefix_of(rest) {
            assert(rest.subrange(0, p@.len() as int) =~= v@.subrange(start as int, start + p@.len()));
        }
    }
    let mut out: Vec<char> = Vec::new();
    let mut i: usize = start;
    while i < v.len()
        invariant
            start <= i <= v.len(),
            out@ == v@.subrange(start as int, i as int),
        decreases v.len() - i,
    {
        out.push(v[i]);
        i = i + 1;
        assert(out@ =~= v@.subrange(start as int, i as int));
    }
    assert(out@ =~= v@.skip(start as int));
    string_of(&out)
}

/// The first word of `s`, or the empty text when it has none.
pub open spec fn first_word(s: Seq<char>) -> Seq<char> {
    if words(s).len() > 0 { words(s)[0] } else { Seq::<char>::empty() }
}

/// The last word of `s`, or the empty text when it has none.
pub open spec fn last_word(s: Seq<char>) -> Seq<char> {
    if words(s).len() > 0 { words(s).last() } else { Seq::<char>::empty() }
}

/// The first word of `s`, or an empty string.
pub fn first_word_of(s: &str) -> (r: String)
    ensures
        r@ == first_word(s@),
{
    let ws = split_words(s);
    if ws.len() > 0 {
        assert(views(ws@)[0] == ws@[0]@);
        owned(ws[0].as_str())
    } else {
        String::new()
    }
}

/// The last word of `s`, or an empty string.
pub fn last_word_of(s: &str) -> (r: String)
    ensures
        r@ == last_word(s@),
{
    let ws = split_words(s);
    if ws.len() > 0 {
        assert(views(ws@)[ws.len() - 1] == ws@[ws.len() - 1]@);
        owned(ws[ws.len() - 1].as_str())
    } else {
        String::new()
    }
}

/// `s` without its first `n` characters.
pub fn drop_chars(s: &str, n: usize) -> (r: String)
    requires
        n <= s@.len(),
    ensures
        r@ == s@.skip(n as int),
{
    let v = chars_of(s);
    let mut out: Vec<char> = Vec::new();
    let mut i: usize = n;
    while i < v.len()
        invariant
            n <= i <= v.len(),
            v@ == s@,
            out@ == v@.subrange(n as int, i as int),
        decreases v.len() - i,
    {
        out.push(v[i]);
        i = i + 1;
        assert(out@ =~= v@.subrange(n as int, i as int));
    }
    assert(out@ =~= v@.skip(n as int));
    string_of(&out)
}

// ─── Facts about first occurrences and trimming ─────────────────────────────

proof fn lemma_minimal_occurrence(hay: Seq<char>, needle: Seq<char>, w: int)
    requires
        occurs_at(hay, needle, w),
    ensures
        exists|k: int| occurs_at(hay, needle, k) && forall|j: int| 0 <= j < k ==> !occurs_at(hay, needle, j),
    decreases w,
{
    if exists|j: int| 0 <= j < w && occurs_at(hay, needle, j) {
        let j = choose|j: int| 0 <= j < w && occurs_at(hay, needle, j);
        lemma_minimal_occurrence(hay, needle, j);
    } else {
        assert(forall|j: int| 0 <= j < w ==> !occurs_at(hay, needle, j));
    }
}

/// The first occurrence is an occurrence with none before it; there is
/// none exactly when the needle does not occur.
pub proof fn lemma_first_occurrence(hay: Seq<char>, needle: Seq<char>)
    ensures
        match first_occurrence(hay, needle) {
            Some(k) => occurs_at(hay, needle, k) && forall|j: int| 0 <= j < k ==> !occurs_at(hay, needle, j),
            None => !occurs_in(hay, needle),
        },
{
    if occurs_in(hay, needle) {
        let w = choose|w: int| occurs_at(hay, needle, w);
        lemma_minimal_occurrence(hay, needle, w);
    }
}

proof fn lemma_trailing_split(x: Seq<char>)
    ensures
        trailing_ws(x) <= x.len(),
        trailing_ws(x) < x.len() ==> !unicode_whitespace(x[x.len() - trailing_ws(x) - 1]),
        forall|k: int| x.len() - trailing_ws(x) <= k < x.len() ==> unicode_whitespace(#[trigger] x[k]),
    decreases x.len(),
{
    if x.len() > 0 && unicode_whitespace(x.last()) {
        lemma_trailing_split(x.drop_last());
        assert forall|k: int| x.len() - trailing_ws(x) <= k < x.len() implies unicode_whitespace(#[trigger] x[k]) by {
            if k < x.len() - 1 {
                assert(x[k] == x.drop_last()[k]);
            }
        }
        if trailing_ws(x) < x.len() {
            assert(x[x.len() - trailing_ws(x) - 1] == x.drop_last()[x.drop_last().len() - trailing_ws(x.drop_last()) - 1]);
        }
    }
}

proof fn lemma_leading_split(x: Seq<char>)
    ensures
        leading_ws(x) <= x.len(),
        leading_ws(x) < x.len() ==> !unicode_whitespace(x[leading_ws(x) as int]),
        forall|k: int| 0 <= k < leading_ws(x) ==> unicode_whitespace(#[trigger] x[k]),
    decreases x.len(),
{
    if x.len() > 0 && unicode_whitespace(x[0]) {
        lemma_leading_split(x.drop_first());
        assert forall|k: int| 0 <= k < leading_ws(x) implies unicode_whitespace(#[trigger] x[k]) by {
            if k > 0 {
                assert(x[k] == x.drop_first()[k - 1]);
            }
        }
        if leading_ws(x) < x.len() {
            assert(x[leading_ws(x) as int] == x.drop_first()[leading_ws(x.drop_first()) as int]);
        }
    }
}

/// A trimmed text is a piece of the original and, when not empty, starts
/// and ends with characters that are not white space.
pub proof fn lemma_trim_edges(x: Seq<char>) -> (lo: int)
    ensures
        0 <= lo,
        lo + trim_spec(x).len() <= x.len(),
        trim_spec(x) == x.subrange(lo, lo + trim_spec(x).len()),
        trim_spec(x).len() > 0 ==> !unicode_whitespace(trim_spec(x)[0]) && !unicode_whitespace(trim_spec(x).last()),
{
    lemma_trailing_split(x);
    let e = trim_end_spec(x);
    lemma_leading_split(e);
    let lw = leading_ws(e) as int;
    let t = trim_spec(x);
    assert(t == e.skip(lw));
    assert(t =~= x.subrange(lw, lw + t.len()));
    if t.len() > 0 {
        assert(t[0] == e[lw]);
        assert(t.last() == x[x.len() - trailing_ws(x) - 1]);
    }
    lw
}

/// Trimming a text that is already trimmed, framed by newlines, gives it back.
pub proof fn lemma_trim_framed(a: Seq<char>)
    requires
        a.len() > 0,
        !unicode_whitespace(a[0]),
        !unicode_whitespace(a.last()),
        unicode_whitespace('\n'),
    ensures
        trim_spec(seq!['\n'] + a + seq!['\n']) == a,
{
    let x = seq!['\n'] + a + seq!['\n'];
    assert(x.drop_last() =~= seq!['\n'] + a);
    assert(x.drop_last().last() == a.last());
    assert(trailing_ws(x.drop_last()) == 0);
    assert(trailing_ws(x) == 1);
    let e = trim_end_spec(x);
    assert(e =~= seq!['\n'] + a);
    assert(e.drop_first() =~= a);
    assert(leading_ws(a) == 0);
    assert(leading_ws(e) == 1);
    assert(e.skip(1) =~= a);
}

proof fn lemma_trailing_ws_prefix(p: Seq<char>, a: Seq<char>)
    requires
        trailing_ws(a) < a.len(),
    ensures
        trailing_ws(p + a) == trailing_ws(a),
    decreases a.len(),
{
    assert((p + a).last() == a.last());
    if unicode_whitespace(a.last()) {
        assert((p + a).drop_last() =~= p + a.drop_last());
        lemma_trailing_ws_prefix(p, a.drop_last());
    }
}

/// Trimming a text framed by newlines trims the text itself, when that
/// leaves something.
pub proof fn lemma_trim_newline_framed(a: Seq<char>)
    requires
        trim_spec(a).len() > 0,
    ensures
        trim_spec(seq!['\n'] + a + seq!['\n']) == trim_spec(a),
{
    lemma_newline_is_whitespace();
    lemma_trailing_ws_bound(a);
    let n = seq!['\n'];
    let x = n + a + n;
    if trailing_ws(a) == a.len() {
        assert(trim_end_spec(a) =~= Seq::<char>::empty());
    }
    assert(x.drop_last() =~= n + a);
    lemma_trailing_ws_prefix(n, a);
    assert(trailing_ws(x) == trailing_ws(a) + 1);
    let e = trim_end_spec(a);
    assert(trim_end_spec(x) =~= n + e);
    assert((n + e).drop_first() =~= e);
    assert(leading_ws(n + e) == 1 + leading_ws(e));
    lemma_leading_split(e);
    assert((n + e).skip(1 + leading_ws(e) as int) =~= e.skip(leading_ws(e) as int));
}

} // verus!
