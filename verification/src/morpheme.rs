//! Prefixes, loanword roots and the analysed words built from them, with the
//! sentence that explains each analysed word.
use vstd::prelude::*;

use crate::text::{append, char_from_digit, chars_of, push_char};

verus! {

/// A prefix and the native prefix that should replace it
/// (for example `прото` and `перво`). The empty base stands for "no prefix".
#[derive(Debug, Clone, PartialEq, Eq, Default)]
pub struct PrefixData {
    pub base: String,
    pub target: String,
}

/// A loanword root with its native replacements.
///
/// `native` holds one group of synonyms per meaning; `inexact` names the
/// meaning the replacement is meant for when the loanword is ambiguous;
/// `extra_normal_form` is a second spelling; `unrecognized_forms` lists
/// further forms, separated by commas.
#[derive(Debug, Clone, PartialEq, Eq)]
pub struct Loan {
    pub non_native: String,
    pub native: Vec<Vec<String>>,
    pub inexact: String,
    pub extra_normal_form: String,
    pub unrecognized_forms: String,
}

/// What follows the prefix of an analysed word.
#[derive(Debug, PartialEq, Eq)]
pub enum Root<'data> {
    /// A native root, as it stood in the message.
    Native(String),
    /// A recognised loanword root.
    Loanword(&'data Loan),
}

/// An analysed word: the prefix it was found with and its root.
#[derive(Debug, PartialEq, Eq)]
pub struct WordData<'data>(pub &'data PrefixData, pub Root<'data>);

/// The decimal digits of `n`.
pub open spec fn decimal(n: nat) -> Seq<char>
    decreases n,
{
    if n < 10 {
        seq![(0x30 + n) as char]
    } else {
        decimal(n / 10).push((0x30 + n % 10) as char)
    }
}

/// The synonyms of one meaning, each preceded by `prefix`, joined by `", "`.
pub open spec fn joined(words: Seq<Seq<char>>, prefix: Seq<char>) -> Seq<char>
    decreases words.len(),
{
    if words.len() == 0 {
        seq![]
    } else {
        let init = joined(words.drop_last(), prefix);
        let sep = if words.len() > 1 {
            ", "@
        } else {
            seq![]
        };
        init + sep + prefix + words.last()
    }
}

/// The text for the first `meanings.len()` meanings out of `count`: when
/// there is more than one meaning, each is numbered `1) `, `2) `, ... and
/// the meanings are separated by a space.
pub open spec fn meanings_text(
    meanings: Seq<Seq<Seq<char>>>,
    prefix: Seq<char>,
    count: nat,
) -> Seq<char>
    decreases meanings.len(),
{
    if meanings.len() == 0 {
        seq![]
    } else {
        let i = (meanings.len() - 1) as nat;
        let number = if count > 1 {
            decimal(i + 1) + ") "@
        } else {
            seq![]
        };
        let gap = if count > 1 && i + 1 < count {
            " "@
        } else {
            seq![]
        };
        meanings_text(meanings.drop_last(), prefix, count) + number + joined(
            meanings.last(),
            prefix,
        ) + gap
    }
}

/// The prefix put before native replacements: the target prefix, or the
/// base when there is no target.
pub open spec fn shown_prefix(p: PrefixData) -> Seq<char> {
    if p.target@.len() == 0 {
        p.base@
    } else {
        p.target@
    }
}

/// The replacements of a loanword root.
pub open spec fn natives_text(p: PrefixData, loan: Loan) -> Seq<char> {
    meanings_text(loan.native.deep_view(), shown_prefix(p), loan.native@.len())
}

/// The sentence for a native root: `Не {base}{root}, а {target}{root}.`
pub open spec fn native_sentence(p: PrefixData, root: Seq<char>) -> Seq<char> {
    "Не "@ + p.base@ + root + ", а "@ + p.target@ + root + "."@
}

/// The sentence for a loanword root: for an ambiguous loanword
/// `Если вы имели в виду не {inexact}, то будет правильно {natives}`,
/// otherwise `Не {base}{loanword}, а {natives}.`
pub open spec fn loan_sentence(p: PrefixData, loan: Loan) -> Seq<char> {
    if loan.inexact@.len() > 0 {
        "Если вы имели в виду не "@ + loan.inexact@ + ", то будет правильно "@ + natives_text(p, loan)
    } else {
        "Не "@ + p.base@ + loan.non_native@ + ", а "@ + natives_text(p, loan) + "."@
    }
}

/// The sentence that explains an analysed word.
pub open spec fn sentence(w: WordData) -> Seq<char> {
    match w.1 {
        Root::Native(root) => native_sentence(*w.0, root@),
        Root::Loanword(loan) => loan_sentence(*w.0, *loan),
    }
}

/// Appends the decimal digits of `n`.
fn push_decimal(out: &mut String, n: usize)
    ensures
        final(out)@ == old(out)@ + decimal(n as nat),
    decreases n,
{
    if n >= 10 {
        push_decimal(out, n / 10);
    }
    let d = char_from_digit((n % 10) as u32);
    push_char(out, d);
    assert(old(out)@ + decimal(n as nat) =~= if n >= 10 {
        old(out)@ + decimal((n / 10) as nat) + seq![d]
    } else {
        old(out)@ + seq![d]
    });
}

/// Appends the synonyms of one meaning.
fn push_joined(out: &mut String, words: &Vec<String>, prefix: &str)
    ensures
        final(out)@ == old(out)@ + joined(words.deep_view(), prefix@),
{
    let ghost start = out@;
    for j in 0..words.len()
        invariant
            out@ == start + joined(words.deep_view().take(j as int), prefix@),
    {
        if j > 0 {
            append(out, ", ");
        }
        append(out, prefix);
        append(out, words[j].as_str());
        proof {
            let ws = words.deep_view().take(j + 1);
            assert(ws.drop_last() == words.deep_view().take(j as int));
            assert(ws.last() == words[j as int]@);
            if j > 0 {
                assert(out@ == start + joined(ws, prefix@));
            } else {
                assert(words.deep_view().take(0) =~= seq![]);
                assert(out@ =~= start + joined(ws, prefix@));
            }
        }
    }
    assert(words.deep_view().take(words.len() as int) == words.deep_view());
}

/// Appends the replacements of a loanword root.
fn push_natives(out: &mut String, loan: &Loan, prefix: &str)
    ensures
        final(out)@ == old(out)@ + meanings_text(loan.native.deep_view(), prefix@, loan.native@.len()),
{
    let ghost start = out@;
    let count: usize = loan.native.len();
    let blocks = count > 1;
    let ghost ms = loan.native.deep_view();
    for i in 0..count
        invariant
            count == loan.native@.len(),
            blocks == (count > 1),
            ms == loan.native.deep_view(),
            out@ == start + meanings_text(ms.take(i as int), prefix@, count as nat),
    {
        if blocks {
            push_decimal(out, i + 1);
            append(out, ") ");
        }
        push_joined(out, &loan.native[i], prefix);
        if blocks && i + 1 < count {
            append(out, " ");
        }
        proof {
            let t = ms.take(i + 1);
            assert(t.drop_last() == ms.take(i as int));
            assert(t.last() == loan.native@[i as int].deep_view());
            assert(out@ =~= start + meanings_text(t, prefix@, count as nat));
        }
    }
    assert(ms.take(count as int) == ms);
}

impl<'data> WordData<'data> {
    /// The sentence that explains this word.
    pub fn to_string(&self) -> (s: String)
        ensures
            s@ == sentence(*self),
    {
        let p = self.0;
        match &self.1 {
            Root::Native(root) => {
                let mut out = String::new();
                append(&mut out, "Не ");
                append(&mut out, p.base.as_str());
                append(&mut out, root.as_str());
                append(&mut out, ", а ");
                append(&mut out, p.target.as_str());
                append(&mut out, root.as_str());
                append(&mut out, ".");
                assert(out@ =~= sentence(*self));
                out
            },
            Root::Loanword(loan) => {
                let prefix = if p.target.as_str().is_empty() {
                    p.base.as_str()
                } else {
                    p.target.as_str()
                };
                let mut natives = String::new();
                push_natives(&mut natives, loan, prefix);
                assert(natives@ =~= natives_text(*p, **loan));
                let mut out = String::new();
                if !loan.inexact.as_str().is_empty() {
                    append(&mut out, "Если вы имели в виду не ");
                    append(&mut out, loan.inexact.as_str());
                    append(&mut out, ", то будет правильно ");
                    append(&mut out, natives.as_str());
                } else {
                    append(&mut out, "Не ");
                    append(&mut out, p.base.as_str());
                    append(&mut out, loan.non_native.as_str());
                    append(&mut out, ", а ");
                    append(&mut out, natives.as_str());
                    append(&mut out, ".");
                }
                assert(out@ =~= sentence(*self));
                out
            },
        }
    }
}

} // verus!
