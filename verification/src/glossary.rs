//! A flat glossary: each entry is a loanword with its native replacement,
//! and a message is checked entry by entry.
use vstd::prelude::*;

use crate::answer::{ALL_NATIVE_ANSWER, CALL_FOR_HELP};
use crate::similarity::{agrees, total};
use crate::text::{append, chars_of, lowercase, split_whitespace, split_ws, string_of, to_lowercase};
use crate::similarity::similar;
use crate::text::{split_on, trim_ws};
use crate::word::{forms_match, forms_recognize, Check};

verus! {

/// A glossary entry: the loanword, its native replacement, the meaning the
/// replacement is meant for when the loanword is ambiguous, a second
/// spelling and further comma-separated forms.
#[derive(Debug, Clone, PartialEq, Eq)]
pub struct Word {
    pub non_native: String,
    pub native: String,
    pub inexact: String,
    pub extra_normal_form: String,
    pub unrecognized_forms: String,
}

impl Word {
    /// A copy of this entry.
    pub fn duplicate(&self) -> (r: Word)
        ensures
            r == *self,
    {
        Word {
            non_native: self.non_native.clone(),
            native: self.native.clone(),
            inexact: self.inexact.clone(),
            extra_normal_form: self.extra_normal_form.clone(),
            unrecognized_forms: self.unrecognized_forms.clone(),
        }
    }

    /// The sentence that explains this entry: for an ambiguous loanword
    /// `Если вы имели в виду не {inexact}, то будет правильно {native}`,
    /// otherwise `Не {non_native}, а {native}.`
    pub fn to_string(&self) -> (s: String)
        ensures
            s@ == entry_sentence(*self),
    {
        let mut out = String::new();
        if !self.inexact.as_str().is_empty() {
            append(&mut out, "Если вы имели в виду не ");
            append(&mut out, self.inexact.as_str());
            append(&mut out, ", то будет правильно ");
            append(&mut out, self.native.as_str());
        } else {
            append(&mut out, "Не ");
            append(&mut out, self.non_native.as_str());
            append(&mut out, ", а ");
            append(&mut out, self.native.as_str());
            append(&mut out, ".");
        }
        assert(out@ =~= entry_sentence(*self));
        out
    }
}

/// The sentence that explains a glossary entry.
pub open spec fn entry_sentence(w: Word) -> Seq<char> {
    if w.inexact@.len() > 0 {
        "Если вы имели в виду не "@ + w.inexact@ + ", то будет правильно "@ + w.native@
    } else {
        "Не "@ + w.non_native@ + ", а "@ + w.native@ + "."@
    }
}

impl Check for Word {
    open spec fn recognizes(&self, word: Seq<char>, sim: spec_fn(Seq<char>, Seq<char>) -> bool) -> bool {
        forms_recognize(
            self.non_native@,
            self.extra_normal_form@,
            self.unrecognized_forms@,
            word,
            sim,
        )
    }

    fn is_non_native<F: Fn(&str, &str) -> bool>(&self, word: String, judge: &F) -> (r: bool) {
        forms_match(
            self.non_native.as_str(),
            self.extra_normal_form.as_str(),
            self.unrecognized_forms.as_str(),
            word.as_str(),
            judge,
        )
    }
}

/// The symbols removed from a message before it is split into words.
pub const SYMBOLS: &'static str = "!@#№$%:%^,.&*;()_-–—+=[]{}:\"'|\\?/<>~";

/// The symbols removed from a message before it is split into words:
/// ``!@#№$%:^,.&*;()_-–—+=[]{}"'|\?/<>~``.
pub open spec fn is_symbol(c: char) -> bool {
    let u: u32 = c as u32;
    ||| u == 0x21
    ||| u == 0x40
    ||| u == 0x23
    ||| u == 0x2116
    ||| u == 0x24
    ||| u == 0x25
    ||| u == 0x3A
    ||| u == 0x5E
    ||| u == 0x2C
    ||| u == 0x2E
    ||| u == 0x26
    ||| u == 0x2A
    ||| u == 0x3B
    ||| u == 0x28
    ||| u == 0x29
    ||| u == 0x5F
    ||| u == 0x2D
    ||| u == 0x2013
    ||| u == 0x2014
    ||| u == 0x2B
    ||| u == 0x3D
    ||| u == 0x5B
    ||| u == 0x5D
    ||| u == 0x7B
    ||| u == 0x7D
    ||| u == 0x22
    ||| u == 0x27
    ||| u == 0x7C
    ||| u == 0x5C
    ||| u == 0x3F
    ||| u == 0x2F
    ||| u == 0x3C
    ||| u == 0x3E
    ||| u == 0x7E
}

pub fn is_symbol_char(c: char) -> (r: bool)
    ensures
        r == is_symbol(c),
{
    let u: u32 = c as u32;
    u == 0x21 || u == 0x40 || u == 0x23 || u == 0x2116 || u == 0x24 || u == 0x25 || u == 0x3A || u
        == 0x5E || u == 0x2C || u == 0x2E || u == 0x26 || u == 0x2A || u == 0x3B || u == 0x28 || u
        == 0x29 || u == 0x5F || u == 0x2D || u == 0x2013 || u == 0x2014 || u == 0x2B || u == 0x3D
        || u == 0x5B || u == 0x5D || u == 0x7B || u == 0x7D || u == 0x22 || u == 0x27 || u == 0x7C
        || u == 0x5C || u == 0x3F || u == 0x2F || u == 0x3C || u == 0x3E || u == 0x7E
}

/// The message with every symbol removed.
pub open spec fn without_symbols(t: Seq<char>) -> Seq<char>
    decreases t.len(),
{
    if t.len() == 0 {
        seq![]
    } else if is_symbol(t.last()) {
        without_symbols(t.drop_last())
    } else {
        without_symbols(t.drop_last()).push(t.last())
    }
}

/// The words of a message for the glossary check.
pub open spec fn message_tokens(t: Seq<char>) -> Seq<Seq<char>> {
    split_ws(without_symbols(t))
}

/// Some word of the message, in lower case, is a form of the entry.
pub open spec fn flagged(w: Word, tokens: Seq<Seq<char>>, sim: spec_fn(Seq<char>, Seq<char>) -> bool) -> bool {
    exists|j: int|
        #![trigger tokens[j]]
        0 <= j < tokens.len() && w.recognizes(lowercase(tokens[j]), sim)
}

/// The entries, in glossary order, that some word of the message is a form of.
pub open spec fn kept(
    ws: Seq<Word>,
    tokens: Seq<Seq<char>>,
    sim: spec_fn(Seq<char>, Seq<char>) -> bool,
) -> Seq<Word>
    decreases ws.len(),
{
    if ws.len() == 0 {
        seq![]
    } else {
        let rest = kept(ws.drop_last(), tokens, sim);
        if flagged(ws.last(), tokens, sim) {
            rest.push(ws.last())
        } else {
            rest
        }
    }
}

pub fn remove_symbols(t: &str) -> (r: Vec<char>)
    ensures
        r@ == without_symbols(t@),
{
    let v = chars_of(t);
    let mut out: Vec<char> = Vec::new();
    for i in 0..v.len()
        invariant
            v@ == t@,
            out@ == without_symbols(v@.take(i as int)),
    {
        assert(v@.take(i + 1).drop_last() == v@.take(i as int));
        if !is_symbol_char(v[i]) {
            out.push(v[i]);
        }
    }
    assert(v@.take(v.len() as int) == v@);
    out
}

/// The glossary entries that some word of the message is a form of, in
/// glossary order.
pub fn filter_native_words<F: Fn(&str, &str) -> bool>(
    words: Vec<Word>,
    to_check: String,
    judge: &F,
) -> (r: Vec<Word>)
    requires
        total(*judge),
    ensures
        forall|sim: spec_fn(Seq<char>, Seq<char>) -> bool|
            agrees(*judge, sim) ==> r@ == kept(words@, message_tokens(to_check@), sim),
{
    let stripped = remove_symbols(to_check.as_str());
    let tokens = split_whitespace(&stripped);
    let ghost toks = message_tokens(to_check@);
    let mut lowered: Vec<String> = Vec::new();
    for j in 0..tokens.len()
        invariant
            toks == message_tokens(to_check@),
            tokens@.len() == toks.len(),
            forall|k: int| 0 <= k < tokens@.len() ==> #[trigger] tokens@[k]@ == toks[k],
            lowered@.len() == j,
            forall|k: int| 0 <= k < j ==> #[trigger] lowered@[k]@ == lowercase(toks[k]),
    {
        let token = string_of(&tokens[j]);
        lowered.push(to_lowercase(token.as_str()));
    }
    let mut out: Vec<Word> = Vec::new();
    for i in 0..words.len()
        invariant
            total(*judge),
            toks == message_tokens(to_check@),
            lowered@.len() == toks.len(),
            forall|k: int| 0 <= k < lowered@.len() ==> #[trigger] lowered@[k]@ == lowercase(toks[k]),
            forall|sim: spec_fn(Seq<char>, Seq<char>) -> bool|
                agrees(*judge, sim) ==> out@ == kept(words@.take(i as int), toks, sim),
    {
        let mut keep = false;
        let mut j: usize = 0;
        while j < lowered.len() && !keep
            invariant
                total(*judge),
                i < words@.len(),
                j <= lowered@.len(),
                lowered@.len() == toks.len(),
                forall|k: int| 0 <= k < lowered@.len() ==> #[trigger] lowered@[k]@ == lowercase(toks[k]),
                forall|sim: spec_fn(Seq<char>, Seq<char>) -> bool|
                    agrees(*judge, sim) ==> (keep == flagged(words@[i as int], toks, sim) || (!keep
                        && forall|k: int|
                        0 <= k < j ==> !words@[i as int].recognizes(lowercase(#[trigger] toks[k]), sim))),
            decreases lowered@.len() - j,
        {
            if words[i].is_non_native(lowered[j].clone(), judge) {
                keep = true;
                assert forall|sim: spec_fn(Seq<char>, Seq<char>) -> bool|
                    agrees(*judge, sim) implies flagged(words@[i as int], toks, sim) by {
                    assert(lowered@[j as int]@ == lowercase(toks[j as int]));
                    assert(words@[i as int].recognizes(lowercase(toks[j as int]), sim));
                }
            }
            j = j + 1;
        }
        if keep {
            out.push(words[i].duplicate());
        }
        assert(words@.take(i + 1).drop_last() == words@.take(i as int));
        assert(words@.take(i + 1).last() == words@[i as int]);
    }
    assert(words@.take(words.len() as int) == words@);
    out
}

/// The reply for the glossary entries found in a message: one sentence per
/// entry, each on its own line, then a blank line and the call to care for
/// the language; or the all-clear when nothing was found.
pub fn build_answer_text(non_native_words: Vec<Word>) -> (s: String)
    ensures
        s@ == answer_text(non_native_words@),
{
    if non_native_words.len() == 0 {
        let mut out = String::new();
        append(&mut out, ALL_NATIVE_ANSWER);
        return out;
    }
    let mut body = String::new();
    for i in 0..non_native_words.len()
        invariant
            body@ == entry_lines(non_native_words@.take(i as int)),
    {
        let line = non_native_words[i].to_string();
        append(&mut body, line.as_str());
        append(&mut body, "\n");
        assert(non_native_words@.take(i + 1).drop_last() == non_native_words@.take(i as int));
    }
    assert(non_native_words@.take(non_native_words.len() as int) == non_native_words@);
    append(&mut body, "\n");
    append(&mut body, CALL_FOR_HELP);
    body
}

/// Each entry's sentence followed by a line break.
pub open spec fn entry_lines(ws: Seq<Word>) -> Seq<char>
    decreases ws.len(),
{
    if ws.len() == 0 {
        seq![]
    } else {
        entry_lines(ws.drop_last()) + entry_sentence(ws.last()) + "\n"@
    }
}

/// The reply text for the glossary entries found in a message.
pub open spec fn answer_text(ws: Seq<Word>) -> Seq<char> {
    if ws.len() == 0 {
        ALL_NATIVE_ANSWER@
    } else {
        entry_lines(ws) + "\n"@ + CALL_FOR_HELP@
    }
}

/// The glossary check only ever returns glossary entries, in glossary order:
/// the result is no longer than the glossary and each returned entry is one
/// of its entries.
pub proof fn lemma_kept_entries_come_from_glossary(
    ws: Seq<Word>,
    tokens: Seq<Seq<char>>,
    sim: spec_fn(Seq<char>, Seq<char>) -> bool,
)
    ensures
        kept(ws, tokens, sim).len() <= ws.len(),
        forall|i: int|
            0 <= i < kept(ws, tokens, sim).len() ==> ws.contains(#[trigger] kept(ws, tokens, sim)[i]),
    decreases ws.len(),
{
    if ws.len() > 0 {
        lemma_kept_entries_come_from_glossary(ws.drop_last(), tokens, sim);
        let rest = kept(ws.drop_last(), tokens, sim);
        assert forall|i: int| 0 <= i < kept(ws, tokens, sim).len() implies ws.contains(
            #[trigger] kept(ws, tokens, sim)[i],
        ) by {
            if i < rest.len() {
                assert(ws.drop_last().contains(rest[i]));
                let j = choose|j: int| 0 <= j < ws.drop_last().len() && ws.drop_last()[j] == rest[i];
                assert(ws[j] == rest[i]);
            } else {
                assert(kept(ws, tokens, sim)[i] == ws[ws.len() - 1]);
            }
        }
    }
}

/// Exactly the characters listed in `SYMBOLS` are removed: appending one of
/// them to a message leaves the message without symbols unchanged, and
/// appending any other character keeps it.
pub proof fn lemma_listed_symbols_are_removed(t: Seq<char>, c: char)
    ensures
        SYMBOLS@.contains(c) ==> without_symbols(t.push(c)) == without_symbols(t),
        !SYMBOLS@.contains(c) ==> without_symbols(t.push(c)) == without_symbols(t).push(c),
{
    reveal_strlit("!@#№$%:%^,.&*;()_-–—+=[]{}:\"'|\\?/<>~");
    assert(t.push(c).drop_last() =~= t);
    assert(t.push(c).last() == c);
    let u: u32 = c as u32;
    if SYMBOLS@.contains(c) {
        let k = choose|k: int| 0 <= k < SYMBOLS@.len() && SYMBOLS@[k] == c;
        assert(is_symbol(SYMBOLS@[k]));
    } else {
        if is_symbol(c) {
            assert(false) by {
                if u == 0x21 { assert(SYMBOLS@[0] == c); }
                else if u == 0x40 { assert(SYMBOLS@[1] == c); }
                else if u == 0x23 { assert(SYMBOLS@[2] == c); }
                else if u == 0x2116 { assert(SYMBOLS@[3] == c); }
                else if u == 0x24 { assert(SYMBOLS@[4] == c); }
                else if u == 0x25 { assert(SYMBOLS@[5] == c); }
                else if u == 0x3A { assert(SYMBOLS@[6] == c); }
                else if u == 0x5E { assert(SYMBOLS@[8] == c); }
                else if u == 0x2C { assert(SYMBOLS@[9] == c); }
                else if u == 0x2E { assert(SYMBOLS@[10] == c); }
                else if u == 0x26 { assert(SYMBOLS@[11] == c); }
                else if u == 0x2A { assert(SYMBOLS@[12] == c); }
                else if u == 0x3B { assert(SYMBOLS@[13] == c); }
                else if u == 0x28 { assert(SYMBOLS@[14] == c); }
                else if u == 0x29 { assert(SYMBOLS@[15] == c); }
                else if u == 0x5F { assert(SYMBOLS@[16] == c); }
                else if u == 0x2D { assert(SYMBOLS@[17] == c); }
                else if u == 0x2013 { assert(SYMBOLS@[18] == c); }
                else if u == 0x2014 { assert(SYMBOLS@[19] == c); }
                else if u == 0x2B { assert(SYMBOLS@[20] == c); }
                else if u == 0x3D { assert(SYMBOLS@[21] == c); }
                else if u == 0x5B { assert(SYMBOLS@[22] == c); }
                else if u == 0x5D { assert(SYMBOLS@[23] == c); }
                else if u == 0x7B { assert(SYMBOLS@[24] == c); }
                else if u == 0x7D { assert(SYMBOLS@[25] == c); }
                else if u == 0x22 { assert(SYMBOLS@[27] == c); }
                else if u == 0x27 { assert(SYMBOLS@[28] == c); }
                else if u == 0x7C { assert(SYMBOLS@[29] == c); }
                else if u == 0x5C { assert(SYMBOLS@[30] == c); }
                else if u == 0x3F { assert(SYMBOLS@[31] == c); }
                else if u == 0x2F { assert(SYMBOLS@[32] == c); }
                else if u == 0x3C { assert(SYMBOLS@[33] == c); }
                else if u == 0x3E { assert(SYMBOLS@[34] == c); }
                else { assert(SYMBOLS@[35] == c); }
            }
        }
    }
}

/// A word is recognised as a form of a glossary entry whenever it is similar
/// to the entry's spelling, to its second spelling (when there is one), or to
/// any non-empty trimmed comma-separated further form, whatever the other
/// fields hold.
pub proof fn lemma_entry_forms_recognised(entry: Word, w: Seq<char>, sim: spec_fn(Seq<char>, Seq<char>) -> bool)
    ensures
        similar(entry.non_native@, w, sim) ==> entry.recognizes(w, sim),
        entry.extra_normal_form@.len() > 0 && similar(entry.extra_normal_form@, w, sim)
            ==> entry.recognizes(w, sim),
        forall|k: int|
            0 <= k < split_on(entry.unrecognized_forms@, ',').len() && (#[trigger] split_on(
                entry.unrecognized_forms@,
                ',',
            )[k]).len() > 0 && similar(trim_ws(split_on(entry.unrecognized_forms@, ',')[k]), w, sim)
                ==> entry.recognizes(w, sim),
{
}

} // verus!
