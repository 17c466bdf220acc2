//! Finding loanwords, and words with a borrowed prefix, in a message.
use vstd::prelude::*;

use crate::morpheme::{Loan, PrefixData, Root, WordData};
use crate::similarity::{agrees, is_similar, similar, total};
use crate::text::{
    boundary, byte_len, byte_length, char_boundary, chars_of, clean, cleaned, is_cyrillic,
    is_space, lower, punct_to_space, same_chars, scan_ws, slice_chars, split_char, split_on,
    split_whitespace, split_ws, string_of, strip_all, strip_prefix_repeatedly, trim,
    trim_end_char, trim_end_matching, trim_ws, upper, yery,
};

verus! {

/// Something that can tell whether a word is one of its forms.
pub trait Check {
    /// `word` is one of the forms of `self` under the closeness judgment `sim`.
    spec fn recognizes(&self, word: Seq<char>, sim: spec_fn(Seq<char>, Seq<char>) -> bool) -> bool;

    /// Whether `word` is a form of `self`.
    fn is_non_native<F: Fn(&str, &str) -> bool>(&self, word: String, judge: &F) -> (r: bool)
        requires
            total(*judge),
        ensures
            forall|sim: spec_fn(Seq<char>, Seq<char>) -> bool|
                agrees(*judge, sim) ==> r == self.recognizes(word@, sim),
    ;
}

/// One of the comma-separated `pieces`, non-empty and trimmed of white
/// space, is similar to `word`.
pub open spec fn some_form_similar(
    pieces: Seq<Seq<char>>,
    word: Seq<char>,
    sim: spec_fn(Seq<char>, Seq<char>) -> bool,
) -> bool {
    exists|k: int|
        #![trigger pieces[k]]
        0 <= k < pieces.len() && pieces[k].len() > 0 && similar(trim_ws(pieces[k]), word, sim)
}

/// `word` is similar to the loanword itself, to its second spelling (when
/// there is one) or to one of its further forms.
pub open spec fn forms_recognize(
    non_native: Seq<char>,
    extra_normal_form: Seq<char>,
    unrecognized_forms: Seq<char>,
    word: Seq<char>,
    sim: spec_fn(Seq<char>, Seq<char>) -> bool,
) -> bool {
    ||| similar(non_native, word, sim)
    ||| extra_normal_form.len() > 0 && similar(extra_normal_form, word, sim)
    ||| some_form_similar(split_on(unrecognized_forms, ','), word, sim)
}

/// Whether `word` is similar to one of the given forms.
pub fn forms_match<F: Fn(&str, &str) -> bool>(
    non_native: &str,
    extra_normal_form: &str,
    unrecognized_forms: &str,
    word: &str,
    judge: &F,
) -> (r: bool)
    requires
        total(*judge),
    ensures
        forall|sim: spec_fn(Seq<char>, Seq<char>) -> bool|
            agrees(*judge, sim) ==> r == forms_recognize(
                non_native@,
                extra_normal_form@,
                unrecognized_forms@,
                word@,
                sim,
            ),
{
    if is_similar(non_native, word, judge) {
        return true;
    }
    if !extra_normal_form.is_empty() && is_similar(extra_normal_form, word, judge) {
        return true;
    }
    let pieces = split_char(&chars_of(unrecognized_forms), ',');
    let ghost spieces = split_on(unrecognized_forms@, ',');
    for i in 0..pieces.len()
        invariant
            total(*judge),
            spieces == split_on(unrecognized_forms@, ','),
            pieces@.len() == spieces.len(),
            forall|k: int| 0 <= k < pieces@.len() ==> #[trigger] pieces@[k]@ == spieces[k],
            forall|sim: spec_fn(Seq<char>, Seq<char>) -> bool|
                agrees(*judge, sim) ==> !similar(non_native@, word@, sim) && !(
                extra_normal_form@.len() > 0 && similar(extra_normal_form@, word@, sim)),
            forall|sim: spec_fn(Seq<char>, Seq<char>) -> bool|
                agrees(*judge, sim) ==> forall|k: int|
                    0 <= k < i ==> !(#[trigger] spieces[k].len() > 0 && similar(
                        trim_ws(spieces[k]),
                        word@,
                        sim,
                    )),
    {
        assert(pieces@[i as int]@ == spieces[i as int]);
        if pieces[i].len() > 0 {
            let form = string_of(&trim(&pieces[i]));
            if is_similar(form.as_str(), word, judge) {
                assert forall|sim: spec_fn(Seq<char>, Seq<char>) -> bool|
                    agrees(*judge, sim) implies forms_recognize(
                    non_native@,
                    extra_normal_form@,
                    unrecognized_forms@,
                    word@,
                    sim,
                ) by {
                    assert(spieces[i as int].len() > 0);
                    assert(form@ == trim_ws(spieces[i as int]));
                    assert(similar(trim_ws(spieces[i as int]), word@, sim));
                    assert(some_form_similar(spieces, word@, sim));
                }
                return true;
            }
        }
    }
    false
}

impl Check for Loan {
    open spec fn recognizes(&self, word: Seq<char>, sim: spec_fn(Seq<char>, Seq<char>) -> bool) -> bool {
        forms_recognize(
            self.non_native@,
            self.extra_normal_form@,
            self.unrecognized_forms@,
            word,
            sim,
        )
    }

    fn is_non_native<F: Fn(&str, &str) -> bool>(&self, word: String, judge: &F) -> (r: bool) {
        forms_match(
            self.non_native.as_str(),
            self.extra_normal_form.as_str(),
            self.unrecognized_forms.as_str(),
            word.as_str(),
            judge,
        )
    }
}

/// The outcome of analysing one word of a message.
pub enum Finding {
    /// The prefix at index `prefix` followed by the loanword root at index `loan`.
    Loanword { prefix: int, loan: int },
    /// The prefix at index `prefix` followed by a native root.
    Native { prefix: int, root: Seq<char> },
    /// Neither.
    Nothing,
    /// Slicing the word at the byte length of a prefix would cut a character.
    Panic,
}

/// The index of the first loanword, from index `j` on, that recognises `word`.
pub open spec fn first_loan(
    word: Seq<char>,
    loans: Seq<Loan>,
    sim: spec_fn(Seq<char>, Seq<char>) -> bool,
    j: int,
) -> Option<int>
    decreases loans.len() - j,
{
    if j < 0 || j >= loans.len() {
        None
    } else if loans[j].recognizes(word, sim) {
        Some(j)
    } else {
        first_loan(word, loans, sim, j + 1)
    }
}

/// The first prefix, from index `i` on, such that some loanword recognises
/// `word` with every leading copy of that prefix removed, together with the
/// first such loanword.
pub open spec fn loan_scan(
    word: Seq<char>,
    loans: Seq<Loan>,
    prefixes: Seq<PrefixData>,
    sim: spec_fn(Seq<char>, Seq<char>) -> bool,
    i: int,
) -> Option<(int, int)>
    decreases prefixes.len() - i,
{
    if i < 0 || i >= prefixes.len() {
        None
    } else {
        match first_loan(strip_all(word, prefixes[i].base@), loans, sim, 0) {
            Some(j) => Some((i, j)),
            None => loan_scan(word, loans, prefixes, sim, i + 1),
        }
    }
}

/// The first prefix, from index `i` on, that `word` starts with, among the
/// prefixes that have a target and are more than six bytes shorter than
/// `word`; slicing `word` at the byte length of such a prefix panics when
/// that length falls inside a character.
pub open spec fn native_scan(word: Seq<char>, prefixes: Seq<PrefixData>, i: int) -> Finding
    decreases prefixes.len() - i,
{
    if i < 0 || i >= prefixes.len() {
        Finding::Nothing
    } else {
        let base = prefixes[i].base@;
        if byte_len(word) > byte_len(base) + 6 && prefixes[i].target@.len() > 0 {
            match boundary(word, byte_len(base)) {
                None => Finding::Panic,
                Some(k) => if word.take(k as int) == base {
                    Finding::Native { prefix: i, root: word.skip(k as int) }
                } else {
                    native_scan(word, prefixes, i + 1)
                },
            }
        } else {
            native_scan(word, prefixes, i + 1)
        }
    }
}

/// The analysis of one word: trailing `ы` is dropped; then a loanword root
/// behind some prefix is looked for; failing that, a prefix with a target
/// in front of a native root.
pub open spec fn finding(
    word: Seq<char>,
    loans: Seq<Loan>,
    prefixes: Seq<PrefixData>,
    sim: spec_fn(Seq<char>, Seq<char>) -> bool,
) -> Finding {
    let w = trim_end_char(word, yery());
    match loan_scan(w, loans, prefixes, sim, 0) {
        Some((i, j)) => Finding::Loanword { prefix: i, loan: j },
        None => native_scan(w, prefixes, 0),
    }
}

/// The findings for a list of words, in order, words with no finding left out.
pub open spec fn findings(
    words: Seq<Seq<char>>,
    loans: Seq<Loan>,
    prefixes: Seq<PrefixData>,
    sim: spec_fn(Seq<char>, Seq<char>) -> bool,
) -> Seq<Finding>
    decreases words.len(),
{
    if words.len() == 0 {
        seq![]
    } else {
        let rest = findings(words.drop_last(), loans, prefixes, sim);
        let f = finding(words.last(), loans, prefixes, sim);
        if f is Nothing {
            rest
        } else {
            rest.push(f)
        }
    }
}

/// The words of a message: the runs of Russian letters, lowered, between
/// white space and ASCII punctuation.
pub open spec fn message_words(text: Seq<char>) -> Seq<Seq<char>> {
    split_ws(cleaned(text))
}

/// The findings for a message.
pub open spec fn message_findings(
    text: Seq<char>,
    loans: Seq<Loan>,
    prefixes: Seq<PrefixData>,
    sim: spec_fn(Seq<char>, Seq<char>) -> bool,
) -> Seq<Finding> {
    findings(message_words(text), loans, prefixes, sim)
}

/// Analysing some word of the message would slice it inside a character.
pub open spec fn message_panics(
    text: Seq<char>,
    loans: Seq<Loan>,
    prefixes: Seq<PrefixData>,
    sim: spec_fn(Seq<char>, Seq<char>) -> bool,
) -> bool {
    exists|k: int|
        #![trigger message_words(text)[k]]
        0 <= k < message_words(text).len() && finding(message_words(text)[k], loans, prefixes, sim) is Panic
}

/// `w` is the analysed word that finding `f` stands for.
pub open spec fn describes(w: WordData, f: Finding, loans: Seq<Loan>, prefixes: Seq<PrefixData>) -> bool {
    match f {
        Finding::Loanword { prefix, loan } => {
            &&& *w.0 == prefixes[prefix]
            &&& w.1 matches Root::Loanword(l) && *l == loans[loan]
        },
        Finding::Native { prefix, root } => {
            &&& *w.0 == prefixes[prefix]
            &&& w.1 matches Root::Native(r) && r@ == root
        },
        _ => false,
    }
}

/// The analysed words `ws` are, one for one, the findings `fs`.
pub open spec fn all_describe(
    ws: Seq<WordData>,
    fs: Seq<Finding>,
    loans: Seq<Loan>,
    prefixes: Seq<PrefixData>,
) -> bool {
    &&& ws.len() == fs.len()
    &&& forall|k: int| 0 <= k < ws.len() ==> describes(#[trigger] ws[k], fs[k], loans, prefixes)
}

/// The outcome of analysing one word.
pub enum Analysis<'data> {
    /// The word is an analysed word.
    Found(WordData<'data>),
    /// The word has neither a loanword root nor a native root behind a prefix.
    Nothing,
    /// Slicing the word at the byte length of a prefix would cut a character.
    Cut,
}

/// `a` is the outcome that finding `f` stands for.
pub open spec fn analysis_is(a: Analysis, f: Finding, loans: Seq<Loan>, prefixes: Seq<PrefixData>) -> bool {
    match a {
        Analysis::Found(w) => describes(w, f, loans, prefixes),
        Analysis::Nothing => f is Nothing,
        Analysis::Cut => f is Panic,
    }
}

/// The analysis of one word of a message.
pub fn analyse_word<'data, F: Fn(&str, &str) -> bool>(
    word: &Vec<char>,
    words: &'data Vec<Loan>,
    prefixes: &'data Vec<PrefixData>,
    judge: &F,
) -> (r: Analysis<'data>)
    requires
        total(*judge),
    ensures
        forall|sim: spec_fn(Seq<char>, Seq<char>) -> bool|
            agrees(*judge, sim) ==> analysis_is(r, finding(word@, words@, prefixes@, sim), words@, prefixes@),
{
    let w = trim_end_matching(word, 'ы');
    let ghost ws = w@;
    let mut i: usize = 0;
    while i < prefixes.len()
        invariant
            total(*judge),
            w@ == ws,
            ws == trim_end_char(word@, yery()),
            i <= prefixes@.len(),
            forall|sim: spec_fn(Seq<char>, Seq<char>) -> bool|
                agrees(*judge, sim) ==> loan_scan(ws, words@, prefixes@, sim, 0) == loan_scan(
                    ws,
                    words@,
                    prefixes@,
                    sim,
                    i as int,
                ),
        decreases prefixes@.len() - i,
    {
        let base = chars_of(prefixes[i].base.as_str());
        let stripped = string_of(&strip_prefix_repeatedly(&w, &base));
        let mut j: usize = 0;
        while j < words.len()
            invariant
                total(*judge),
                i < prefixes@.len(),
                j <= words@.len(),
                stripped@ == strip_all(ws, prefixes@[i as int].base@),
                ws == trim_end_char(word@, yery()),
                forall|sim: spec_fn(Seq<char>, Seq<char>) -> bool|
                    agrees(*judge, sim) ==> loan_scan(ws, words@, prefixes@, sim, 0) == loan_scan(
                        ws,
                        words@,
                        prefixes@,
                        sim,
                        i as int,
                    ),
                forall|sim: spec_fn(Seq<char>, Seq<char>) -> bool|
                    agrees(*judge, sim) ==> first_loan(stripped@, words@, sim, 0) == first_loan(
                        stripped@,
                        words@,
                        sim,
                        j as int,
                    ),
            decreases words@.len() - j,
        {
            if words[j].is_non_native(stripped.clone(), judge) {
                let r = WordData(&prefixes[i], Root::Loanword(&words[j]));
                assert forall|sim: spec_fn(Seq<char>, Seq<char>) -> bool|
                    agrees(*judge, sim) implies describes(
                    r,
                    finding(word@, words@, prefixes@, sim),
                    words@,
                    prefixes@,
                ) by {
                    assert(words@[j as int].recognizes(stripped@, sim));
                    assert(first_loan(stripped@, words@, sim, j as int) == Some(j as int));
                    assert(loan_scan(ws, words@, prefixes@, sim, i as int) == Some(
                        (i as int, j as int),
                    ));
                    assert(finding(word@, words@, prefixes@, sim) == Finding::Loanword { prefix: i as int, loan: j as int });
                    assert(*r.0 == prefixes@[i as int]);
                }
                return Analysis::Found(r);
            }
            j = j + 1;
        }
        i = i + 1;
    }
    let wb: u128 = byte_length(&w);
    let mut i: usize = 0;
    while i < prefixes.len()
        invariant
            w@ == ws,
            ws == trim_end_char(word@, yery()),
            wb == byte_len(ws),
            i <= prefixes@.len(),
            forall|sim: spec_fn(Seq<char>, Seq<char>) -> bool|
                agrees(*judge, sim) ==> loan_scan(ws, words@, prefixes@, sim, 0) is None,
            native_scan(ws, prefixes@, 0) == native_scan(ws, prefixes@, i as int),
        decreases prefixes@.len() - i,
    {
        let base = chars_of(prefixes[i].base.as_str());
        let bb: u128 = byte_length(&base);
        if wb > bb + 6 && !prefixes[i].target.as_str().is_empty() {
            match char_boundary(&w, bb) {
                None => {
                    return Analysis::Cut;
                },
                Some(k) => {
                    proof {
                        lemma_boundary_le(ws, bb as nat);
                    }
                    let head = slice_chars(&w, 0, k);
                    assert(head@ == ws.take(k as int));
                    if same_chars(&head, &base) {
                        let root = string_of(&slice_chars(&w, k, w.len()));
                        assert(root@ == ws.skip(k as int));
                        let r = WordData(&prefixes[i], Root::Native(root));
                        return Analysis::Found(r);
                    }
                },
            }
        }
        i = i + 1;
    }
    Analysis::Nothing
}

/// Whether analysing some word of the message would slice it inside a
/// character, which `filter_native_words` does not allow.
pub fn message_would_panic<F: Fn(&str, &str) -> bool>(
    words: &Vec<Loan>,
    prefixes: &Vec<PrefixData>,
    to_check: &str,
    judge: &F,
) -> (r: bool)
    requires
        total(*judge),
    ensures
        forall|sim: spec_fn(Seq<char>, Seq<char>) -> bool|
            agrees(*judge, sim) ==> r == message_panics(to_check@, words@, prefixes@, sim),
{
    let cleaned_text = clean(to_check);
    let ws = split_whitespace(&cleaned_text);
    let ghost mw = message_words(to_check@);
    for k in 0..ws.len()
        invariant
            total(*judge),
            ws@.len() == mw.len(),
            mw == message_words(to_check@),
            forall|i: int| 0 <= i < ws@.len() ==> #[trigger] ws@[i]@ == mw[i],
            forall|sim: spec_fn(Seq<char>, Seq<char>) -> bool|
                agrees(*judge, sim) ==> forall|j: int|
                    0 <= j < k ==> !(finding(#[trigger] mw[j], words@, prefixes@, sim) is Panic),
    {
        let a = analyse_word(&ws[k], words, prefixes, judge);
        assert(ws@[k as int]@ == mw[k as int]);
        if let Analysis::Cut = a {
            return true;
        }
    }
    false
}

/// A character boundary lies within the sequence.
proof fn lemma_boundary_le(s: Seq<char>, n: nat)
    ensures
        boundary(s, n) matches Some(k) ==> k <= s.len(),
    decreases s.len(),
{
    if n == 0 {
    } else if s.len() == 0 || crate::text::utf8_width(s[0]) > n {
    } else {
        lemma_boundary_le(s.drop_first(), (n - crate::text::utf8_width(s[0])) as nat);
    }
}

/// The analysed words of a message, in the order the words stand in it.
///
/// The message is reduced to lower-case Russian letters and white space
/// (ASCII punctuation separates words, other characters are dropped) and
/// split into words. Each word, without trailing `ы`, is first matched
/// against the loanwords behind each prefix (with every leading copy of the
/// prefix removed); failing that, a prefix with a target that the word
/// starts with gives a native root.
pub fn filter_native_words<'data, F: Fn(&str, &str) -> bool>(
    words: &'data Vec<Loan>,
    prefixes: &'data Vec<PrefixData>,
    to_check: String,
    judge: &F,
) -> (r: Vec<WordData<'data>>)
    requires
        total(*judge),
        forall|sim: spec_fn(Seq<char>, Seq<char>) -> bool|
            agrees(*judge, sim) ==> !message_panics(to_check@, words@, prefixes@, sim),
    ensures
        forall|sim: spec_fn(Seq<char>, Seq<char>) -> bool|
            agrees(*judge, sim) ==> all_describe(
                r@,
                message_findings(to_check@, words@, prefixes@, sim),
                words@,
                prefixes@,
            ),
{
    let cleaned_text = clean(to_check.as_str());
    let ws = split_whitespace(&cleaned_text);
    let ghost mw = message_words(to_check@);
    let mut out: Vec<WordData<'data>> = Vec::new();
    for k in 0..ws.len()
        invariant
            total(*judge),
            ws@.len() == mw.len(),
            mw == message_words(to_check@),
            forall|i: int| 0 <= i < ws@.len() ==> #[trigger] ws@[i]@ == mw[i],
            forall|sim: spec_fn(Seq<char>, Seq<char>) -> bool|
                agrees(*judge, sim) ==> !message_panics(to_check@, words@, prefixes@, sim),
            forall|sim: spec_fn(Seq<char>, Seq<char>) -> bool|
                agrees(*judge, sim) ==> all_describe(
                    out@,
                    findings(mw.take(k as int), words@, prefixes@, sim),
                    words@,
                    prefixes@,
                ),
    {
        let found = analyse_word(&ws[k], words, prefixes, judge);
        match found {
            Analysis::Found(wd) => {
                out.push(wd);
            },
            _ => {},
        }
        assert forall|sim: spec_fn(Seq<char>, Seq<char>) -> bool| agrees(*judge, sim) implies all_describe(
            out@,
            findings(mw.take(k + 1), words@, prefixes@, sim),
            words@,
            prefixes@,
        ) by {
            assert(mw.take(k + 1).drop_last() == mw.take(k as int));
            assert(mw.take(k + 1).last() == mw[k as int]);
            assert(ws@[k as int]@ == mw[k as int]);
            assert(!(finding(mw[k as int], words@, prefixes@, sim) is Panic));
        }
    }
    assert(mw.take(ws@.len() as int) == mw);
    out
}

// ---------------------------------------------------------------------------
// Laws
// ---------------------------------------------------------------------------

/// Upper-casing a Russian letter does not change how it is cleaned.
proof fn lemma_upper_cleans_alike(c: char)
    ensures
        (is_cyrillic(punct_to_space(upper(c))) || is_space(punct_to_space(upper(c)))) == (
        is_cyrillic(punct_to_space(c)) || is_space(punct_to_space(c))),
        lower(punct_to_space(upper(c))) == lower(punct_to_space(c)),
{
    let u: u32 = c as u32;
    if 0x430 <= u <= 0x44F {
        assert(((u - 0x20) as char) as u32 == u - 0x20);
        assert(((u - 0x20 + 0x20) as char) == c);
    } else if u == 0x451 {
        assert((0x401u32 as char) as u32 == 0x401);
        assert((0x451u32 as char) == c);
    }
}

proof fn lemma_cleaned_upper(t: Seq<char>)
    ensures
        cleaned(t.map_values(|c: char| upper(c))) == cleaned(t),
    decreases t.len(),
{
    if t.len() > 0 {
        let u = t.map_values(|c: char| upper(c));
        assert(u.drop_last() =~= t.drop_last().map_values(|c: char| upper(c)));
        assert(u.last() == upper(t.last()));
        lemma_cleaned_upper(t.drop_last());
        lemma_upper_cleans_alike(t.last());
    }
}

/// Letter case does not matter: a message with its Russian letters
/// upper-cased gives the same findings, and panics exactly when the
/// message as written does.
pub proof fn lemma_letter_case_is_ignored(
    text: Seq<char>,
    loans: Seq<Loan>,
    prefixes: Seq<PrefixData>,
    sim: spec_fn(Seq<char>, Seq<char>) -> bool,
)
    ensures
        message_findings(text.map_values(|c: char| upper(c)), loans, prefixes, sim)
            == message_findings(text, loans, prefixes, sim),
        message_panics(text.map_values(|c: char| upper(c)), loans, prefixes, sim)
            == message_panics(text, loans, prefixes, sim),
{
    lemma_cleaned_upper(text);
    assert(message_words(text.map_values(|c: char| upper(c))) == message_words(text));
}

proof fn lemma_cleaned_punct(t: Seq<char>)
    ensures
        cleaned(t.map_values(|c: char| punct_to_space(c))) == cleaned(t),
    decreases t.len(),
{
    if t.len() > 0 {
        let u = t.map_values(|c: char| punct_to_space(c));
        assert(u.drop_last() =~= t.drop_last().map_values(|c: char| punct_to_space(c)));
        assert(u.last() == punct_to_space(t.last()));
        lemma_cleaned_punct(t.drop_last());
    }
}

/// ASCII punctuation separates words just as a space does: replacing every
/// ASCII punctuation mark of a message with a space changes neither its
/// findings nor whether it panics.
pub proof fn lemma_punctuation_separates_words(
    text: Seq<char>,
    loans: Seq<Loan>,
    prefixes: Seq<PrefixData>,
    sim: spec_fn(Seq<char>, Seq<char>) -> bool,
)
    ensures
        message_findings(text.map_values(|c: char| punct_to_space(c)), loans, prefixes, sim)
            == message_findings(text, loans, prefixes, sim),
        message_panics(text.map_values(|c: char| punct_to_space(c)), loans, prefixes, sim)
            == message_panics(text, loans, prefixes, sim),
{
    lemma_cleaned_punct(text);
    assert(message_words(text.map_values(|c: char| punct_to_space(c))) == message_words(text));
}

/// A trailing `ы` does not change the analysis of a word.
pub proof fn lemma_trailing_yery_is_ignored(
    word: Seq<char>,
    loans: Seq<Loan>,
    prefixes: Seq<PrefixData>,
    sim: spec_fn(Seq<char>, Seq<char>) -> bool,
)
    ensures
        finding(word.push(yery()), loans, prefixes, sim) == finding(word, loans, prefixes, sim),
{
    assert(word.push(yery()).drop_last() =~= word);
}

/// A loanword is recognised in its own spelling, and in its second
/// spelling when it has one, whenever the closeness judgment accepts a word
/// as close to itself.
pub proof fn lemma_loan_recognizes_own_spellings(loan: Loan, sim: spec_fn(Seq<char>, Seq<char>) -> bool)
    requires
        forall|w: Seq<char>| #[trigger] sim(w, w),
    ensures
        loan.non_native@.len() > 0 ==> loan.recognizes(loan.non_native@, sim),
        loan.extra_normal_form@.len() > 0 ==> loan.recognizes(loan.extra_normal_form@, sim),
{
    assert(sim(loan.non_native@, loan.non_native@));
    assert(sim(loan.extra_normal_form@, loan.extra_normal_form@));
}

proof fn lemma_cleaned_concat(x: Seq<char>, y: Seq<char>)
    ensures
        cleaned(x + y) == cleaned(x) + cleaned(y),
    decreases y.len(),
{
    if y.len() == 0 {
        assert(x + y =~= x);
        assert(cleaned(x) + cleaned(y) =~= cleaned(x));
    } else {
        assert((x + y).drop_last() =~= x + y.drop_last());
        assert((x + y).last() == y.last());
        lemma_cleaned_concat(x, y.drop_last());
        assert(cleaned(x) + cleaned(y.drop_last()).push(lower(punct_to_space(y.last())))
            =~= (cleaned(x) + cleaned(y.drop_last())).push(lower(punct_to_space(y.last()))));
    }
}

proof fn lemma_scan_after_break(p: Seq<char>, y: Seq<char>)
    requires
        scan_ws(p).1.len() == 0,
    ensures
        scan_ws(p + y).0 == scan_ws(p).0 + scan_ws(y).0,
        scan_ws(p + y).1 == scan_ws(y).1,
    decreases y.len(),
{
    if y.len() == 0 {
        assert(p + y =~= p);
        assert(scan_ws(p).0 + scan_ws(y).0 =~= scan_ws(p).0);
    } else {
        assert((p + y).drop_last() =~= p + y.drop_last());
        assert((p + y).last() == y.last());
        lemma_scan_after_break(p, y.drop_last());
        let w = scan_ws(y.drop_last()).0;
        let cur = scan_ws(y.drop_last()).1;
        assert(scan_ws(p).0 + w.push(cur) =~= (scan_ws(p).0 + w).push(cur));
    }
}

proof fn lemma_split_ws_around_space(x: Seq<char>, y: Seq<char>)
    ensures
        split_ws(x + seq![' '] + y) == split_ws(x) + split_ws(y),
{
    let p = x + seq![' '];
    assert(p.drop_last() =~= x);
    assert(p.last() == ' ');
    assert(is_space(' '));
    assert(scan_ws(p).0 == split_ws(x));
    lemma_scan_after_break(p, y);
    let w = scan_ws(y).0;
    let cur = scan_ws(y).1;
    assert(split_ws(x) + w.push(cur) =~= (split_ws(x) + w).push(cur));
}

proof fn lemma_findings_concat(
    w1: Seq<Seq<char>>,
    w2: Seq<Seq<char>>,
    loans: Seq<Loan>,
    prefixes: Seq<PrefixData>,
    sim: spec_fn(Seq<char>, Seq<char>) -> bool,
)
    ensures
        findings(w1 + w2, loans, prefixes, sim) == findings(w1, loans, prefixes, sim) + findings(
            w2,
            loans,
            prefixes,
            sim,
        ),
    decreases w2.len(),
{
    if w2.len() == 0 {
        assert(w1 + w2 =~= w1);
        assert(findings(w1, loans, prefixes, sim) + findings(w2, loans, prefixes, sim)
            =~= findings(w1, loans, prefixes, sim));
    } else {
        assert((w1 + w2).drop_last() =~= w1 + w2.drop_last());
        assert((w1 + w2).last() == w2.last());
        lemma_findings_concat(w1, w2.drop_last(), loans, prefixes, sim);
        let a = findings(w1, loans, prefixes, sim);
        let b = findings(w2.drop_last(), loans, prefixes, sim);
        let f = finding(w2.last(), loans, prefixes, sim);
        assert(a + b.push(f) =~= (a + b).push(f));
    }
}

/// Each word is analysed on its own: the findings for two messages joined by
/// a space are the findings for the first followed by those for the second,
/// and the joined message panics exactly when one of the two does.
pub proof fn lemma_words_are_analysed_independently(
    first: Seq<char>,
    second: Seq<char>,
    loans: Seq<Loan>,
    prefixes: Seq<PrefixData>,
    sim: spec_fn(Seq<char>, Seq<char>) -> bool,
)
    ensures
        message_findings(first + seq![' '] + second, loans, prefixes, sim) == message_findings(
            first,
            loans,
            prefixes,
            sim,
        ) + message_findings(second, loans, prefixes, sim),
        message_panics(first + seq![' '] + second, loans, prefixes, sim) == (message_panics(
            first,
            loans,
            prefixes,
            sim,
        ) || message_panics(second, loans, prefixes, sim)),
{
    lemma_cleaned_concat(first + seq![' '], second);
    lemma_cleaned_concat(first, seq![' ']);
    assert(cleaned(seq![' ']) == seq![' ']) by {
        let s = seq![' '];
        assert(s.drop_last() =~= Seq::<char>::empty());
        assert(cleaned(s.drop_last()) =~= Seq::<char>::empty());
        assert(s.last() == ' ');
        assert((' ' as u32) == 0x20);
        assert(is_space(' '));
        assert(punct_to_space(' ') == ' ');
        assert(lower(' ') == ' ');
        assert(cleaned(s) == cleaned(s.drop_last()).push(' '));
        assert(cleaned(s) =~= s);
    }
    assert(cleaned(first + seq![' '] + second) == cleaned(first) + seq![' '] + cleaned(second));
    lemma_split_ws_around_space(cleaned(first), cleaned(second));
    let w1 = message_words(first);
    let w2 = message_words(second);
    assert(message_words(first + seq![' '] + second) == w1 + w2);
    lemma_findings_concat(w1, w2, loans, prefixes, sim);
    let w = w1 + w2;
    if message_panics(first + seq![' '] + second, loans, prefixes, sim) {
        let k = choose|k: int|
            0 <= k < w.len() && #[trigger] finding(w[k], loans, prefixes, sim) is Panic;
        if k < w1.len() {
            assert(w[k] == w1[k]);
        } else {
            assert(w[k] == w2[k - w1.len()]);
        }
    }
    if message_panics(first, loans, prefixes, sim) {
        let k = choose|k: int| 0 <= k < w1.len() && #[trigger] finding(w1[k], loans, prefixes, sim) is Panic;
        assert(w[k] == w1[k]);
    }
    if message_panics(second, loans, prefixes, sim) {
        let k = choose|k: int| 0 <= k < w2.len() && #[trigger] finding(w2[k], loans, prefixes, sim) is Panic;
        assert(w[k + w1.len()] == w2[k]);
    }
}

proof fn lemma_native_scan_splits(w: Seq<char>, prefixes: Seq<PrefixData>, i: int)
    ensures
        native_scan(w, prefixes, i) matches Finding::Native { prefix, root } ==> {
            &&& i <= prefix < prefixes.len()
            &&& prefixes[prefix].target@.len() > 0
            &&& w == prefixes[prefix].base@ + root
        },
    decreases prefixes.len() - i,
{
    if 0 <= i < prefixes.len() {
        lemma_native_scan_splits(w, prefixes, i + 1);
        let base = prefixes[i].base@;
        if byte_len(w) > byte_len(base) + 6 && prefixes[i].target@.len() > 0 {
            if let Some(k) = boundary(w, byte_len(base)) {
                lemma_boundary_le(w, byte_len(base));
                if w.take(k as int) == base {
                    assert(w =~= w.take(k as int) + w.skip(k as int));
                }
            }
        }
    }
}

/// A native root is reported only behind a prefix that has a target, and the
/// word it was found in (without trailing `ы`) is exactly that prefix
/// followed by the root, so the sentence `Не {base}{root}, а {target}{root}.`
/// names the word as it stood in the message.
pub proof fn lemma_native_root_completes_the_word(
    word: Seq<char>,
    loans: Seq<Loan>,
    prefixes: Seq<PrefixData>,
    sim: spec_fn(Seq<char>, Seq<char>) -> bool,
)
    ensures
        finding(word, loans, prefixes, sim) matches Finding::Native { prefix, root } ==> {
            &&& 0 <= prefix < prefixes.len()
            &&& prefixes[prefix].target@.len() > 0
            &&& trim_end_char(word, yery()) == prefixes[prefix].base@ + root
        },
{
    lemma_native_scan_splits(trim_end_char(word, yery()), prefixes, 0);
}

/// `a` and `b` differ at most in which white-space character stands where.
pub open spec fn same_but_spacing(a: Seq<char>, b: Seq<char>) -> bool {
    &&& a.len() == b.len()
    &&& forall|k: int| 0 <= k < a.len() ==> a[k] == b[k] || (is_space(a[k]) && is_space(b[k]))
}

proof fn lemma_cleaned_same_but_spacing(a: Seq<char>, b: Seq<char>)
    requires
        same_but_spacing(a, b),
    ensures
        same_but_spacing(cleaned(a), cleaned(b)),
    decreases a.len(),
{
    if a.len() > 0 {
        assert(same_but_spacing(a.drop_last(), b.drop_last())) by {
            assert forall|k: int| 0 <= k < a.drop_last().len() implies a.drop_last()[k]
                == b.drop_last()[k] || (is_space(a.drop_last()[k]) && is_space(b.drop_last()[k])) by {
                assert(a.drop_last()[k] == a[k]);
                assert(b.drop_last()[k] == b[k]);
            }
        }
        lemma_cleaned_same_but_spacing(a.drop_last(), b.drop_last());
        let ca = a.last();
        let cb = b.last();
        assert(ca == a[a.len() - 1]);
        assert(cb == b[b.len() - 1]);
        if ca != cb {
            let ua: u32 = ca as u32;
            let ub: u32 = cb as u32;
            assert(!crate::text::is_ascii_punct(ca));
            assert(!crate::text::is_ascii_punct(cb));
            assert(punct_to_space(ca) == ca);
            assert(punct_to_space(cb) == cb);
            assert(lower(ca) == ca);
            assert(lower(cb) == cb);
            let x = cleaned(a.drop_last());
            let y = cleaned(b.drop_last());
            assert(cleaned(a) == x.push(ca));
            assert(cleaned(b) == y.push(cb));
            assert forall|k: int| 0 <= k < x.push(ca).len() implies x.push(ca)[k] == y.push(cb)[k]
                || (is_space(x.push(ca)[k]) && is_space(y.push(cb)[k])) by {
                if k < x.len() {
                    assert(x.push(ca)[k] == x[k]);
                    assert(y.push(cb)[k] == y[k]);
                }
            }
        } else {
            let x = cleaned(a.drop_last());
            let y = cleaned(b.drop_last());
            let c = lower(punct_to_space(ca));
            if is_cyrillic(punct_to_space(ca)) || is_space(punct_to_space(ca)) {
                assert forall|k: int| 0 <= k < x.push(c).len() implies x.push(c)[k] == y.push(c)[k]
                    || (is_space(x.push(c)[k]) && is_space(y.push(c)[k])) by {
                    if k < x.len() {
                        assert(x.push(c)[k] == x[k]);
                        assert(y.push(c)[k] == y[k]);
                    }
                }
            }
        }
    }
}

proof fn lemma_scan_same_but_spacing(a: Seq<char>, b: Seq<char>)
    requires
        same_but_spacing(a, b),
    ensures
        scan_ws(a) == scan_ws(b),
    decreases a.len(),
{
    if a.len() > 0 {
        assert(same_but_spacing(a.drop_last(), b.drop_last())) by {
            assert forall|k: int| 0 <= k < a.drop_last().len() implies a.drop_last()[k]
                == b.drop_last()[k] || (is_space(a.drop_last()[k]) && is_space(b.drop_last()[k])) by {
                assert(a.drop_last()[k] == a[k]);
                assert(b.drop_last()[k] == b[k]);
            }
        }
        lemma_scan_same_but_spacing(a.drop_last(), b.drop_last());
        assert(a.last() == a[a.len() - 1]);
        assert(b.last() == b[b.len() - 1]);
    }
}

/// Any two messages that differ only in which white-space characters stand
/// between the words (a line break or a tab where the other has a space)
/// have the same findings, and one panics exactly when the other does.
pub proof fn lemma_any_white_space_separates_words(
    first: Seq<char>,
    second: Seq<char>,
    loans: Seq<Loan>,
    prefixes: Seq<PrefixData>,
    sim: spec_fn(Seq<char>, Seq<char>) -> bool,
)
    requires
        same_but_spacing(first, second),
    ensures
        message_words(first) == message_words(second),
        message_findings(first, loans, prefixes, sim) == message_findings(second, loans, prefixes, sim),
        message_panics(first, loans, prefixes, sim) == message_panics(second, loans, prefixes, sim),
{
    lemma_cleaned_same_but_spacing(first, second);
    lemma_scan_same_but_spacing(cleaned(first), cleaned(second));
}

/// Replacing any white-space character of a message (a line break, a tab,
/// a no-break space, ...) by a plain space changes neither its words nor
/// its findings nor whether it panics.
pub proof fn lemma_white_space_becomes_space(
    text: Seq<char>,
    i: int,
    loans: Seq<Loan>,
    prefixes: Seq<PrefixData>,
    sim: spec_fn(Seq<char>, Seq<char>) -> bool,
)
    requires
        0 <= i < text.len(),
        is_space(text[i]),
    ensures
        message_words(text.update(i, ' ')) == message_words(text),
        message_findings(text.update(i, ' '), loans, prefixes, sim) == message_findings(
            text,
            loans,
            prefixes,
            sim,
        ),
        message_panics(text.update(i, ' '), loans, prefixes, sim) == message_panics(
            text,
            loans,
            prefixes,
            sim,
        ),
{
    assert((' ' as u32) == 0x20);
    assert(is_space(' '));
    assert(same_but_spacing(text.update(i, ' '), text));
    lemma_any_white_space_separates_words(text.update(i, ' '), text, loans, prefixes, sim);
}

/// Cleaning keeps every white-space character of the message as it is.
pub proof fn lemma_cleaning_keeps_white_space(t: Seq<char>, c: char)
    requires
        is_space(c),
    ensures
        cleaned(t.push(c)) == cleaned(t).push(c),
{
    assert(t.push(c).drop_last() =~= t);
    assert(t.push(c).last() == c);
    assert(!crate::text::is_ascii_punct(c));
    assert(lower(c) == c);
}

/// A word is recognised as a form of a loanword whenever it is similar to the
/// loanword's spelling, to its second spelling (when there is one), or to any
/// non-empty trimmed comma-separated further form, whatever the other fields
/// hold; and only then.
pub proof fn lemma_loan_forms_recognised(loan: Loan, w: Seq<char>, sim: spec_fn(Seq<char>, Seq<char>) -> bool)
    ensures
        similar(loan.non_native@, w, sim) ==> loan.recognizes(w, sim),
        loan.extra_normal_form@.len() > 0 && similar(loan.extra_normal_form@, w, sim)
            ==> loan.recognizes(w, sim),
        forall|k: int|
            0 <= k < split_on(loan.unrecognized_forms@, ',').len() && (#[trigger] split_on(
                loan.unrecognized_forms@,
                ',',
            )[k]).len() > 0 && similar(trim_ws(split_on(loan.unrecognized_forms@, ',')[k]), w, sim)
                ==> loan.recognizes(w, sim),
        loan.recognizes(w, sim) ==> (similar(loan.non_native@, w, sim) || (
        loan.extra_normal_form@.len() > 0 && similar(loan.extra_normal_form@, w, sim)) || exists|
            k: int,
        |
            0 <= k < split_on(loan.unrecognized_forms@, ',').len() && (#[trigger] split_on(
                loan.unrecognized_forms@,
                ',',
            )[k]).len() > 0 && similar(trim_ws(split_on(loan.unrecognized_forms@, ',')[k]), w, sim)),
{
}

} // verus!
