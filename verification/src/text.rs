//! Character classes and the small text operations the word analysis is built
//! from: cleaning a message, splitting it into words, trimming, stripping
//! prefixes and measuring UTF-8 lengths.
use vstd::prelude::*;
use vstd::string::StringExecFns;

verus! {

broadcast use vstd::string::group_string_axioms;

// ---------------------------------------------------------------------------
// Character classes
// ---------------------------------------------------------------------------

/// Unicode `White_Space`, the set `char::is_whitespace` tests for.
pub open spec fn is_space(c: char) -> bool {
    let u: u32 = c as u32;
    ||| 0x09 <= u <= 0x0D
    ||| u == 0x20
    ||| u == 0x85
    ||| u == 0xA0
    ||| u == 0x1680
    ||| 0x2000 <= u <= 0x200A
    ||| u == 0x2028
    ||| u == 0x2029
    ||| u == 0x202F
    ||| u == 0x205F
    ||| u == 0x3000
}

/// ASCII punctuation: `!"#$%&'()*+,-./:;<=>?@[\]^_`{|}~`.
pub open spec fn is_ascii_punct(c: char) -> bool {
    let u: u32 = c as u32;
    ||| 0x21 <= u <= 0x2F
    ||| 0x3A <= u <= 0x40
    ||| 0x5B <= u <= 0x60
    ||| 0x7B <= u <= 0x7E
}

/// The letters of the Russian alphabet: `а`..=`я`, `А`..=`Я`, `ё` and `Ё`.
pub open spec fn is_cyrillic(c: char) -> bool {
    let u: u32 = c as u32;
    ||| 0x430 <= u <= 0x44F
    ||| 0x410 <= u <= 0x42F
    ||| u == 0x451
    ||| u == 0x401
}

/// The lower-case form of a character: upper-case Russian letters map to
/// their lower-case letter, everything else stays.
pub open spec fn lower(c: char) -> char {
    let u: u32 = c as u32;
    if 0x410 <= u <= 0x42F {
        (u + 0x20) as char
    } else if u == 0x401 {
        0x451u32 as char
    } else {
        c
    }
}

/// The upper-case form of a character: lower-case Russian letters map to
/// their upper-case letter, everything else stays.
pub open spec fn upper(c: char) -> char {
    let u: u32 = c as u32;
    if 0x430 <= u <= 0x44F {
        (u - 0x20) as char
    } else if u == 0x451 {
        0x401u32 as char
    } else {
        c
    }
}

/// The letter `ы`, which the analysis strips from the end of words.
pub open spec fn yery() -> char {
    'ы'
}

pub fn is_space_char(c: char) -> (r: bool)
    ensures
        r == is_space(c),
{
    let u: u32 = c as u32;
    (0x09 <= u && u <= 0x0D) || u == 0x20 || u == 0x85 || u == 0xA0 || u == 0x1680 || (0x2000 <= u
        && u <= 0x200A) || u == 0x2028 || u == 0x2029 || u == 0x202F || u == 0x205F || u == 0x3000
}

pub fn is_ascii_punct_char(c: char) -> (r: bool)
    ensures
        r == is_ascii_punct(c),
{
    let u: u32 = c as u32;
    (0x21 <= u && u <= 0x2F) || (0x3A <= u && u <= 0x40) || (0x5B <= u && u <= 0x60) || (0x7B <= u
        && u <= 0x7E)
}

pub fn is_cyrillic_char(c: char) -> (r: bool)
    ensures
        r == is_cyrillic(c),
{
    let u: u32 = c as u32;
    (0x430 <= u && u <= 0x44F) || (0x410 <= u && u <= 0x42F) || u == 0x451 || u == 0x401
}

/// The `char` with the given code point.
///
/// Calls `char::from_u32`, which, as its documentation says, returns the
/// `char` whose value is `code` when `code` is a Unicode scalar value, and
/// `None` otherwise.
#[verifier::external_body]
fn char_from_code(code: u32) -> (r: Option<char>)
    ensures
        (code < 0xD800 || 0xE000 <= code <= 0x10FFFF) ==> r == Some(code as char),
        !(code < 0xD800 || 0xE000 <= code <= 0x10FFFF) ==> r is None,
{
    char::from_u32(code)
}

/// The digit character for `d`.
pub fn char_from_digit(d: u32) -> (r: char)
    requires
        d < 10,
    ensures
        r == (0x30 + d) as char,
{
    match char_from_code(0x30 + d) {
        Some(c) => c,
        None => '0',
    }
}

pub fn lower_char(c: char) -> (r: char)
    ensures
        r == lower(c),
{
    let u: u32 = c as u32;
    if 0x410 <= u && u <= 0x42F {
        match char_from_code(u + 0x20) {
            Some(l) => l,
            None => c,
        }
    } else if u == 0x401 {
        match char_from_code(0x451) {
            Some(l) => l,
            None => c,
        }
    } else {
        c
    }
}

// ---------------------------------------------------------------------------
// Strings and character vectors
// ---------------------------------------------------------------------------

/// Appends one character to the end of a string.
///
/// Calls `String::push`, which, as its documentation says, appends the given
/// `char` to the end of the string.
#[verifier::external_body]
pub(crate) fn push_char(s: &mut String, c: char)
    ensures
        final(s)@ == old(s)@.push(c),
{
    s.push(c);
}

/// The characters of a string slice, in order.
pub fn chars_of(s: &str) -> (v: Vec<char>)
    ensures
        v@ == s@,
{
    let mut v: Vec<char> = Vec::new();
    for c in it: s.chars()
        invariant
            it.seq() == s@,
            v@ == it.seq().take(it.index() as int),
    {
        v.push(c);
    }
    v
}

/// A string holding exactly the given characters.
pub fn string_of(v: &Vec<char>) -> (s: String)
    ensures
        s@ == v@,
{
    let mut s = String::new();
    for i in 0..v.len()
        invariant
            s@ == v@.take(i as int),
    {
        push_char(&mut s, v[i]);
        assert(v@.take(i + 1) == v@.take(i as int).push(v@[i as int]));
    }
    assert(v@.take(v.len() as int) == v@);
    s
}

/// Appends a string slice to a string.
pub fn append(s: &mut String, t: &str)
    ensures
        final(s)@ == old(s)@ + t@,
{
    s.append(t);
}

/// Whether two character sequences are equal.
pub fn same_chars(a: &Vec<char>, b: &Vec<char>) -> (r: bool)
    ensures
        r == (a@ == b@),
{
    if a.len() != b.len() {
        return false;
    }
    for i in 0..a.len()
        invariant
            a@.len() == b@.len(),
            forall|j: int| 0 <= j < i ==> a@[j] == b@[j],
    {
        if a[i] != b[i] {
            return false;
        }
    }
    assert(a@ =~= b@);
    true
}

/// Whether two string slices hold the same text.
pub fn same_text(a: &str, b: &str) -> (r: bool)
    ensures
        r == (a@ == b@),
{
    let va = chars_of(a);
    let vb = chars_of(b);
    same_chars(&va, &vb)
}

/// What `str::to_lowercase` returns for a text.
pub uninterp spec fn lowercase(s: Seq<char>) -> Seq<char>;

/// The lower-case form of a text.
///
/// Calls `str::to_lowercase`, which returns the lower-case equivalent of the
/// text as a new `String`; the result depends on the text alone and is
/// named `lowercase`. Nothing more of it is stated here: the Unicode case
/// tables it follows are not written out.
#[verifier::external_body]
pub(crate) fn to_lowercase(s: &str) -> (r: String)
    ensures
        r@ == lowercase(s@),
{
    s.to_lowercase()
}

/// `p` occurs in `s`.
pub open spec fn contains(s: Seq<char>, p: Seq<char>) -> bool {
    exists|i: int| 0 <= i <= s.len() - p.len() && #[trigger] s.subrange(i, i + p.len()) == p
}

/// Whether `p` occurs in `s`.
pub fn contains_text(s: &Vec<char>, p: &Vec<char>) -> (r: bool)
    ensures
        r == contains(s@, p@),
{
    if p.len() > s.len() {
        return false;
    }
    if p.len() == 0 {
        assert(s@.subrange(0int, 0int + p@.len()) =~= p@);
        return true;
    }
    let last: usize = s.len() - p.len();
    let mut at: usize = 0;
    while at <= last
        invariant
            last == s@.len() - p@.len(),
            last < s.len(),
            at <= last + 1,
            forall|i: int| 0 <= i < at ==> #[trigger] s@.subrange(i, i + p@.len()) != p@,
        decreases last + 1 - at,
    {
        if matches_at(s, at, p) {
            assert(s@.subrange(at as int, at + p@.len()) == p@);
            return true;
        }
        at = at + 1;
    }
    false
}

// ---------------------------------------------------------------------------
// Cleaning a message
// ---------------------------------------------------------------------------

/// ASCII punctuation becomes a space; every other character stays.
pub open spec fn punct_to_space(c: char) -> char {
    if is_ascii_punct(c) {
        ' '
    } else {
        c
    }
}

/// The message reduced to lower-case Russian letters and white space:
/// ASCII punctuation becomes a space, other characters that are neither
/// Russian letters nor white space are dropped, and letters are lowered.
pub open spec fn cleaned(t: Seq<char>) -> Seq<char>
    decreases t.len(),
{
    if t.len() == 0 {
        seq![]
    } else {
        let c = punct_to_space(t.last());
        if is_cyrillic(c) || is_space(c) {
            cleaned(t.drop_last()).push(lower(c))
        } else {
            cleaned(t.drop_last())
        }
    }
}

pub fn clean(t: &str) -> (r: Vec<char>)
    ensures
        r@ == cleaned(t@),
{
    let v = chars_of(t);
    let mut out: Vec<char> = Vec::new();
    for i in 0..v.len()
        invariant
            v@ == t@,
            out@ == cleaned(v@.take(i as int)),
    {
        assert(v@.take(i + 1).drop_last() == v@.take(i as int));
        let c0 = v[i];
        let c = if is_ascii_punct_char(c0) {
            ' '
        } else {
            c0
        };
        if is_cyrillic_char(c) || is_space_char(c) {
            let l = lower_char(c);
            out.push(l);
        }
    }
    assert(v@.take(v.len() as int) == v@);
    out
}

// ---------------------------------------------------------------------------
// Splitting
// ---------------------------------------------------------------------------

/// Scanning state of `split_ws`: the finished words and the word in progress.
pub open spec fn scan_ws(s: Seq<char>) -> (Seq<Seq<char>>, Seq<char>)
    decreases s.len(),
{
    if s.len() == 0 {
        (seq![], seq![])
    } else {
        let (words, cur) = scan_ws(s.drop_last());
        let c = s.last();
        if is_space(c) {
            if cur.len() > 0 {
                (words.push(cur), seq![])
            } else {
                (words, seq![])
            }
        } else {
            (words, cur.push(c))
        }
    }
}

/// The maximal runs of non-white-space characters, in order
/// (what `str::split_whitespace` yields).
pub open spec fn split_ws(s: Seq<char>) -> Seq<Seq<char>> {
    let (words, cur) = scan_ws(s);
    if cur.len() > 0 {
        words.push(cur)
    } else {
        words
    }
}

pub fn split_whitespace(s: &Vec<char>) -> (r: Vec<Vec<char>>)
    ensures
        r@.len() == split_ws(s@).len(),
        forall|i: int| 0 <= i < r@.len() ==> #[trigger] r@[i]@ == split_ws(s@)[i],
{
    let mut words: Vec<Vec<char>> = Vec::new();
    let mut cur: Vec<char> = Vec::new();
    for i in 0..s.len()
        invariant
            words@.len() == scan_ws(s@.take(i as int)).0.len(),
            forall|j: int|
                0 <= j < words@.len() ==> #[trigger] words@[j]@ == scan_ws(s@.take(i as int)).0[j],
            cur@ == scan_ws(s@.take(i as int)).1,
    {
        assert(s@.take(i + 1).drop_last() == s@.take(i as int));
        let c = s[i];
        if is_space_char(c) {
            if cur.len() > 0 {
                let done = cur;
                words.push(done);
                cur = Vec::new();
            }
        } else {
            cur.push(c);
        }
    }
    assert(s@.take(s.len() as int) == s@);
    if cur.len() > 0 {
        words.push(cur);
    }
    words
}

/// Scanning state of `split_on`: the finished pieces and the piece in progress.
pub open spec fn scan_sep(s: Seq<char>, sep: char) -> (Seq<Seq<char>>, Seq<char>)
    decreases s.len(),
{
    if s.len() == 0 {
        (seq![], seq![])
    } else {
        let (pieces, cur) = scan_sep(s.drop_last(), sep);
        let c = s.last();
        if c == sep {
            (pieces.push(cur), seq![])
        } else {
            (pieces, cur.push(c))
        }
    }
}

/// The pieces between occurrences of `sep`, empty pieces included
/// (what `str::split` with a `char` pattern yields).
pub open spec fn split_on(s: Seq<char>, sep: char) -> Seq<Seq<char>> {
    let (pieces, cur) = scan_sep(s, sep);
    pieces.push(cur)
}

pub fn split_char(s: &Vec<char>, sep: char) -> (r: Vec<Vec<char>>)
    ensures
        r@.len() == split_on(s@, sep).len(),
        forall|i: int| 0 <= i < r@.len() ==> #[trigger] r@[i]@ == split_on(s@, sep)[i],
{
    let mut pieces: Vec<Vec<char>> = Vec::new();
    let mut cur: Vec<char> = Vec::new();
    for i in 0..s.len()
        invariant
            pieces@.len() == scan_sep(s@.take(i as int), sep).0.len(),
            forall|j: int|
                0 <= j < pieces@.len() ==> #[trigger] pieces@[j]@ == scan_sep(
                    s@.take(i as int),
                    sep,
                ).0[j],
            cur@ == scan_sep(s@.take(i as int), sep).1,
    {
        assert(s@.take(i + 1).drop_last() == s@.take(i as int));
        let c = s[i];
        if c == sep {
            let done = cur;
            pieces.push(done);
            cur = Vec::new();
        } else {
            cur.push(c);
        }
    }
    assert(s@.take(s.len() as int) == s@);
    pieces.push(cur);
    pieces
}

// ---------------------------------------------------------------------------
// Trimming and stripping
// ---------------------------------------------------------------------------

/// White space removed from the start.
pub open spec fn trim_start_ws(s: Seq<char>) -> Seq<char>
    decreases s.len(),
{
    if s.len() > 0 && is_space(s[0]) {
        trim_start_ws(s.drop_first())
    } else {
        s
    }
}

/// White space removed from the end.
pub open spec fn trim_end_ws(s: Seq<char>) -> Seq<char>
    decreases s.len(),
{
    if s.len() > 0 && is_space(s.last()) {
        trim_end_ws(s.drop_last())
    } else {
        s
    }
}

/// White space removed from both ends (what `str::trim` returns).
pub open spec fn trim_ws(s: Seq<char>) -> Seq<char> {
    trim_end_ws(trim_start_ws(s))
}

/// Every trailing occurrence of `c` removed (what `str::trim_end_matches`
/// with a one-character pattern returns).
pub open spec fn trim_end_char(s: Seq<char>, c: char) -> Seq<char>
    decreases s.len(),
{
    if s.len() > 0 && s.last() == c {
        trim_end_char(s.drop_last(), c)
    } else {
        s
    }
}

/// Leading copies of `p` removed one after another, as long as they are
/// there (what `str::trim_start_matches` with a string pattern returns).
pub open spec fn strip_all(s: Seq<char>, p: Seq<char>) -> Seq<char>
    decreases s.len(),
{
    if p.len() > 0 && p.len() <= s.len() && s.take(p.len() as int) == p {
        strip_all(s.skip(p.len() as int), p)
    } else {
        s
    }
}

pub fn trim(s: &Vec<char>) -> (r: Vec<char>)
    ensures
        r@ == trim_ws(s@),
{
    let mut start: usize = 0;
    assert(s@.skip(0) == s@);
    while start < s.len() && is_space_char(s[start])
        invariant
            start <= s.len(),
            trim_start_ws(s@) == trim_start_ws(s@.skip(start as int)),
        decreases s.len() - start,
    {
        assert(s@.skip(start as int).drop_first() == s@.skip(start + 1));
        start = start + 1;
    }
    let mut end: usize = s.len();
    while end > start && is_space_char(s[end - 1])
        invariant
            start <= end <= s.len(),
            trim_start_ws(s@) == s@.skip(start as int),
            trim_ws(s@) == trim_end_ws(s@.subrange(start as int, end as int)),
        decreases end,
    {
        assert(s@.subrange(start as int, end as int).drop_last() == s@.subrange(
            start as int,
            end - 1,
        ));
        end = end - 1;
    }
    let mut r: Vec<char> = Vec::new();
    let mut k: usize = start;
    while k < end
        invariant
            start <= k <= end <= s.len(),
            r@ == s@.subrange(start as int, k as int),
        decreases end - k,
    {
        r.push(s[k]);
        assert(s@.subrange(start as int, k + 1) == s@.subrange(start as int, k as int).push(
            s@[k as int],
        ));
        k = k + 1;
    }
    r
}

pub fn trim_end_matching(s: &Vec<char>, c: char) -> (r: Vec<char>)
    ensures
        r@ == trim_end_char(s@, c),
{
    let mut end: usize = s.len();
    assert(s@.take(s@.len() as int) == s@);
    while end > 0 && s[end - 1] == c
        invariant
            end <= s.len(),
            trim_end_char(s@, c) == trim_end_char(s@.take(end as int), c),
        decreases end,
    {
        assert(s@.take(end as int).drop_last() == s@.take(end - 1));
        end = end - 1;
    }
    let mut r: Vec<char> = Vec::new();
    let mut k: usize = 0;
    while k < end
        invariant
            k <= end <= s.len(),
            r@ == s@.take(k as int),
        decreases end - k,
    {
        r.push(s[k]);
        assert(s@.take(k + 1) == s@.take(k as int).push(s@[k as int]));
        k = k + 1;
    }
    r
}

/// Whether `p` is a prefix of `s` starting at position `at`.
pub fn matches_at(s: &Vec<char>, at: usize, p: &Vec<char>) -> (r: bool)
    requires
        at <= s.len(),
    ensures
        r == (p@.len() <= s@.len() - at && s@.subrange(at as int, at + p@.len()) == p@),
{
    if p.len() > s.len() - at {
        return false;
    }
    let mut i: usize = 0;
    while i < p.len()
        invariant
            at <= s.len(),
            i <= p@.len(),
            p@.len() <= s@.len() - at,
            forall|j: int| 0 <= j < i ==> s@[at + j] == p@[j],
        decreases p@.len() - i,
    {
        if s[at + i] != p[i] {
            assert(s@.subrange(at as int, at + p@.len())[i as int] != p@[i as int]);
            return false;
        }
        i = i + 1;
    }
    assert(s@.subrange(at as int, at + p@.len()) =~= p@);
    true
}

pub fn strip_prefix_repeatedly(s: &Vec<char>, p: &Vec<char>) -> (r: Vec<char>)
    ensures
        r@ == strip_all(s@, p@),
{
    let mut at: usize = 0;
    assert(s@.skip(0) == s@);
    if p.len() > 0 {
        while matches_at(s, at, p)
            invariant
                p@.len() > 0,
                at <= s.len(),
                strip_all(s@, p@) == strip_all(s@.skip(at as int), p@),
            decreases s.len() - at,
        {
            assert(s@.skip(at as int).take(p@.len() as int) == s@.subrange(
                at as int,
                at + p@.len(),
            ));
            assert(s@.skip(at as int).skip(p@.len() as int) == s@.skip(at + p@.len()));
            at = at + p.len();
        }
        assert(s@.skip(at as int).take(p@.len() as int) =~= s@.subrange(
            at as int,
            at + p@.len(),
        ) || p@.len() > s@.len() - at);
    } else {
        assert(s@.skip(0) == s@);
    }
    let mut r: Vec<char> = Vec::new();
    let mut k: usize = at;
    while k < s.len()
        invariant
            at <= k <= s.len(),
            r@ == s@.subrange(at as int, k as int),
        decreases s.len() - k,
    {
        r.push(s[k]);
        assert(s@.subrange(at as int, k + 1) == s@.subrange(at as int, k as int).push(
            s@[k as int],
        ));
        k = k + 1;
    }
    assert(s@.subrange(at as int, s@.len() as int) == s@.skip(at as int));
    r
}

// ---------------------------------------------------------------------------
// UTF-8 lengths
// ---------------------------------------------------------------------------

/// The number of bytes UTF-8 takes for a character.
pub open spec fn utf8_width(c: char) -> nat {
    let u: u32 = c as u32;
    if u < 0x80 {
        1
    } else if u < 0x800 {
        2
    } else if u < 0x10000 {
        3
    } else {
        4
    }
}

/// The number of bytes UTF-8 takes for a character sequence (what
/// `str::len` returns).
pub open spec fn byte_len(s: Seq<char>) -> nat
    decreases s.len(),
{
    if s.len() == 0 {
        0
    } else {
        utf8_width(s[0]) + byte_len(s.drop_first())
    }
}

/// `byte_len` is the length of vstd's UTF-8 encoding of the sequence, the
/// length `str::len` reports.
pub proof fn lemma_byte_len_is_encoded_len(s: Seq<char>)
    ensures
        byte_len(s) == vstd::utf8::encode_utf8(s).len(),
    decreases s.len(),
{
    if s.len() > 0 {
        lemma_byte_len_is_encoded_len(s.drop_first());
        vstd::utf8::char_is_scalar(s[0]);
        let u = s[0] as u32;
        assert(vstd::utf8::is_scalar(u));
        assert(vstd::utf8::encode_scalar(u).len() == utf8_width(s[0]));
    }
}

/// The number of characters whose UTF-8 bytes fill exactly the first `n`
/// bytes of `s`, or `None` when byte `n` falls inside a character (so that
/// slicing the string there would panic).
pub open spec fn boundary(s: Seq<char>, n: nat) -> Option<nat>
    decreases s.len(),
{
    if n == 0 {
        Some(0)
    } else if s.len() == 0 || utf8_width(s[0]) > n {
        None
    } else {
        match boundary(s.drop_first(), (n - utf8_width(s[0])) as nat) {
            Some(k) => Some(k + 1),
            None => None,
        }
    }
}

pub fn utf8_width_of(c: char) -> (r: usize)
    ensures
        r == utf8_width(c),
{
    let u: u32 = c as u32;
    if u < 0x80 {
        1
    } else if u < 0x800 {
        2
    } else if u < 0x10000 {
        3
    } else {
        4
    }
}

proof fn lemma_byte_len_push(s: Seq<char>, c: char)
    ensures
        byte_len(s.push(c)) == byte_len(s) + utf8_width(c),
    decreases s.len(),
{
    if s.len() == 0 {
        assert(s.push(c).drop_first() =~= seq![]);
        assert(byte_len(seq![]) == 0);
        assert(s.push(c)[0] == c);
    } else {
        lemma_byte_len_push(s.drop_first(), c);
        assert(s.push(c).drop_first() =~= s.drop_first().push(c));
        assert(s.push(c)[0] == s[0]);
    }
}

/// The UTF-8 length of a character vector.
pub fn byte_length(s: &Vec<char>) -> (r: u128)
    ensures
        r == byte_len(s@),
        r <= 4 * s.len(),
{
    let mut total: u128 = 0;
    for i in 0..s.len()
        invariant
            total == byte_len(s@.take(i as int)),
            total <= 4 * i,
    {
        proof {
            lemma_byte_len_push(s@.take(i as int), s@[i as int]);
            assert(s@.take(i + 1) == s@.take(i as int).push(s@[i as int]));
        }
        let w = utf8_width_of(s[i]);
        total = total + w as u128;
    }
    assert(s@.take(s.len() as int) == s@);
    total
}

/// The characters of `v` from position `from` up to position `to`.
pub fn slice_chars(v: &Vec<char>, from: usize, to: usize) -> (r: Vec<char>)
    requires
        from <= to <= v@.len(),
    ensures
        r@ == v@.subrange(from as int, to as int),
{
    let mut r: Vec<char> = Vec::new();
    let mut k: usize = from;
    while k < to
        invariant
            from <= k <= to <= v@.len(),
            r@ == v@.subrange(from as int, k as int),
        decreases to - k,
    {
        r.push(v[k]);
        assert(v@.subrange(from as int, k + 1) == v@.subrange(from as int, k as int).push(
            v@[k as int],
        ));
        k = k + 1;
    }
    r
}

/// The character position of byte `n`, when byte `n` starts a character.
pub fn char_boundary(s: &Vec<char>, n: u128) -> (r: Option<usize>)
    ensures
        r matches Some(k) ==> boundary(s@, n as nat) == Some(k as nat),
        r is None ==> boundary(s@, n as nat) is None,
{
    let mut k: usize = 0;
    let mut rest: u128 = n;
    assert(s@.skip(0) == s@);
    while rest > 0 && k < s.len() && utf8_width_of(s[k]) as u128 <= rest
        invariant
            k <= s.len(),
            rest <= n,
            boundary(s@, n as nat) == (match boundary(s@.skip(k as int), rest as nat) {
                Some(j) => Some((j + k) as nat),
                None => None,
            }),
        decreases rest,
    {
        assert(s@.skip(k as int).drop_first() == s@.skip(k + 1));
        rest = rest - utf8_width_of(s[k]) as u128;
        k = k + 1;
    }
    if rest == 0 {
        Some(k)
    } else {
        None
    }
}

} // verus!
