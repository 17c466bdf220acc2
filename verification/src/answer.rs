//! Replies to messages: the text listing the loanwords found, when to send
//! it, and when to apologise.
use vstd::prelude::*;

use crate::morpheme::{loan_sentence, native_sentence, sentence, Loan, PrefixData, WordData};
use crate::similarity::{agrees, total};
use crate::text::{append, chars_of, contains, contains_text, lowercase, to_lowercase};
use crate::word::{all_describe, describes, filter_native_words, message_findings, message_panics, Finding};

verus! {

/// The reply when a message holds no loanwords.
pub const ALL_NATIVE_ANSWER: &'static str = "Английщины не обнаружено!";

/// The line that closes every reply that lists loanwords.
pub const CALL_FOR_HELP: &'static str = "Берегите корни русского языка!";

/// The reply to a request for an apology.
pub const APOLOGY: &'static str = "Извиняюсь";

/// The word that asks the bot for an apology.
pub const APOLOGY_REQUEST: &'static str = "извинись";

/// Each word's sentence followed by a line break.
pub open spec fn sentence_lines(ws: Seq<WordData>) -> Seq<char>
    decreases ws.len(),
{
    if ws.len() == 0 {
        seq![]
    } else {
        sentence_lines(ws.drop_last()) + sentence(ws.last()) + "\n"@
    }
}

/// The reply text for the analysed words of a message: one sentence per
/// word, each on its own line, then a blank line and the call to care for
/// the language; or the all-clear when nothing was found.
pub open spec fn answer_text(ws: Seq<WordData>) -> Seq<char> {
    if ws.len() == 0 {
        ALL_NATIVE_ANSWER@
    } else {
        sentence_lines(ws) + "\n"@ + CALL_FOR_HELP@
    }
}

/// The reply text for the analysed words of a message.
pub fn build_answer_text(non_native_words: Vec<WordData>) -> (s: String)
    ensures
        s@ == answer_text(non_native_words@),
{
    if non_native_words.len() == 0 {
        let mut out = String::new();
        append(&mut out, ALL_NATIVE_ANSWER);
        return out;
    }
    let mut body = String::new();
    for i in 0..non_native_words.len()
        invariant
            body@ == sentence_lines(non_native_words@.take(i as int)),
    {
        let line = non_native_words[i].to_string();
        append(&mut body, line.as_str());
        append(&mut body, "\n");
        assert(non_native_words@.take(i + 1).drop_last() == non_native_words@.take(i as int));
    }
    assert(non_native_words@.take(non_native_words.len() as int) == non_native_words@);
    append(&mut body, "\n");
    append(&mut body, CALL_FOR_HELP);
    body
}

/// The sentence for a finding.
pub open spec fn finding_sentence(f: Finding, loans: Seq<Loan>, prefixes: Seq<PrefixData>) -> Seq<char> {
    match f {
        Finding::Loanword { prefix, loan } => loan_sentence(prefixes[prefix], loans[loan]),
        Finding::Native { prefix, root } => native_sentence(prefixes[prefix], root),
        _ => seq![],
    }
}

/// Each finding's sentence followed by a line break.
pub open spec fn finding_lines(fs: Seq<Finding>, loans: Seq<Loan>, prefixes: Seq<PrefixData>) -> Seq<char>
    decreases fs.len(),
{
    if fs.len() == 0 {
        seq![]
    } else {
        finding_lines(fs.drop_last(), loans, prefixes) + finding_sentence(fs.last(), loans, prefixes)
            + "\n"@
    }
}

/// The reply text for the findings of a message.
pub open spec fn findings_answer(fs: Seq<Finding>, loans: Seq<Loan>, prefixes: Seq<PrefixData>) -> Seq<char> {
    if fs.len() == 0 {
        ALL_NATIVE_ANSWER@
    } else {
        finding_lines(fs, loans, prefixes) + "\n"@ + CALL_FOR_HELP@
    }
}

/// The sentence of an analysed word depends only on the finding it stands for.
pub proof fn lemma_sentence_of_finding(
    ws: Seq<WordData>,
    fs: Seq<Finding>,
    loans: Seq<Loan>,
    prefixes: Seq<PrefixData>,
)
    requires
        all_describe(ws, fs, loans, prefixes),
    ensures
        answer_text(ws) == findings_answer(fs, loans, prefixes),
    decreases ws.len(),
{
    if ws.len() > 0 {
        let k = ws.len() - 1;
        assert(describes(ws[k], fs[k], loans, prefixes));
        lemma_sentence_of_finding(ws.drop_last(), fs.drop_last(), loans, prefixes);
        lemma_lines_of_findings(ws, fs, loans, prefixes);
    }
}

proof fn lemma_lines_of_findings(
    ws: Seq<WordData>,
    fs: Seq<Finding>,
    loans: Seq<Loan>,
    prefixes: Seq<PrefixData>,
)
    requires
        all_describe(ws, fs, loans, prefixes),
    ensures
        sentence_lines(ws) == finding_lines(fs, loans, prefixes),
    decreases ws.len(),
{
    if ws.len() > 0 {
        let k = ws.len() - 1;
        assert(describes(ws[k], fs[k], loans, prefixes));
        assert(all_describe(ws.drop_last(), fs.drop_last(), loans, prefixes)) by {
            assert forall|i: int| 0 <= i < ws.drop_last().len() implies describes(
                #[trigger] ws.drop_last()[i],
                fs.drop_last()[i],
                loans,
                prefixes,
            ) by {
                assert(describes(ws[i], fs[i], loans, prefixes));
            }
        }
        lemma_lines_of_findings(ws.drop_last(), fs.drop_last(), loans, prefixes);
        assert(sentence(ws.last()) == finding_sentence(fs.last(), loans, prefixes));
    }
}

/// Whether to answer a message: always in a private chat; in a group only
/// when something was found and the draw does not say to stay silent.
pub open spec fn replies(nothing_found: bool, is_private_chat: bool, stay_silent: bool) -> bool {
    is_private_chat || (!nothing_found && !stay_silent)
}

/// Whether to answer a message, given whether nothing was found, whether
/// the chat is private, and the draw that keeps the bot quiet in groups
/// most of the time.
pub fn should_reply(nothing_found: bool, is_private_chat: bool, stay_silent: bool) -> (r: bool)
    ensures
        r == replies(nothing_found, is_private_chat, stay_silent),
{
    match (nothing_found, is_private_chat) {
        (_, true) => true,
        (true, false) => false,
        (false, false) => !stay_silent,
    }
}

/// The reply to a message under the closeness judgment `sim`: nothing for
/// a message without text, otherwise the reply text when the bot answers.
pub open spec fn reply_for(
    text: Option<Seq<char>>,
    loans: Seq<Loan>,
    prefixes: Seq<PrefixData>,
    is_private_chat: bool,
    stay_silent: bool,
    sim: spec_fn(Seq<char>, Seq<char>) -> bool,
) -> Option<Seq<char>> {
    match text {
        None => None,
        Some(t) => {
            let fs = message_findings(t, loans, prefixes, sim);
            if replies(fs.len() == 0, is_private_chat, stay_silent) {
                Some(findings_answer(fs, loans, prefixes))
            } else {
                None
            }
        },
    }
}

/// The view of an optional string.
pub open spec fn opt_view(s: Option<String>) -> Option<Seq<char>> {
    match s {
        Some(t) => Some(t@),
        None => None,
    }
}

/// The reply to a message, if the bot answers it.
pub fn words_reply<'data, F: Fn(&str, &str) -> bool>(
    words: &'data Vec<Loan>,
    prefixes: &'data Vec<PrefixData>,
    text: Option<String>,
    is_private_chat: bool,
    stay_silent: bool,
    judge: &F,
) -> (r: Option<String>)
    requires
        total(*judge),
        text matches Some(t) ==> forall|sim: spec_fn(Seq<char>, Seq<char>) -> bool|
            agrees(*judge, sim) ==> !message_panics(t@, words@, prefixes@, sim),
    ensures
        forall|sim: spec_fn(Seq<char>, Seq<char>) -> bool|
            agrees(*judge, sim) ==> opt_view(r) == reply_for(
                opt_view(text),
                words@,
                prefixes@,
                is_private_chat,
                stay_silent,
                sim,
            ),
{
    match text {
        None => None,
        Some(t) => {
            let ghost tv = t@;
            let found = filter_native_words(words, prefixes, t, judge);
            let ghost fw = found@;
            if should_reply(found.len() == 0, is_private_chat, stay_silent) {
                let s = build_answer_text(found);
                assert forall|sim: spec_fn(Seq<char>, Seq<char>) -> bool|
                    agrees(*judge, sim) implies s@ == findings_answer(
                    message_findings(tv, words@, prefixes@, sim),
                    words@,
                    prefixes@,
                ) by {
                    lemma_sentence_of_finding(
                        fw,
                        message_findings(tv, words@, prefixes@, sim),
                        words@,
                        prefixes@,
                    );
                }
                Some(s)
            } else {
                None
            }
        },
    }
}

/// What the apology check needs of an incoming message.
pub struct ChatMessage {
    /// The chat is a group.
    pub is_group: bool,
    /// The chat is a supergroup.
    pub is_supergroup: bool,
    /// The sender of the message this one replies to, when it replies to a
    /// message that has a sender.
    pub reply_to_author: Option<u64>,
    /// The text of the message, if it has one.
    pub text: Option<String>,
}

/// A group message that replies to the bot and asks it, in any letter
/// case, to apologise.
pub open spec fn asks_for_apology(msg: ChatMessage, bot_id: u64) -> bool {
    &&& msg.is_group || msg.is_supergroup
    &&& msg.reply_to_author == Some(bot_id)
    &&& msg.text matches Some(t) && contains(lowercase(t@), APOLOGY_REQUEST@)
}

/// Whether a message asks the bot to apologise.
pub fn sorry_filter(msg: ChatMessage, bot_id: u64) -> (r: bool)
    ensures
        r == asks_for_apology(msg, bot_id),
{
    if !msg.is_group && !msg.is_supergroup {
        return false;
    }
    let author = match msg.reply_to_author {
        Some(id) => id,
        None => return false,
    };
    if author != bot_id {
        return false;
    }
    let text = match &msg.text {
        Some(t) => t,
        None => return false,
    };
    let lowered = to_lowercase(text.as_str());
    let hay = chars_of(lowered.as_str());
    let needle = chars_of(APOLOGY_REQUEST);
    contains_text(&hay, &needle)
}

/// A message with text sent in a private chat always gets a reply.
pub proof fn lemma_private_chats_always_answered(
    text: Seq<char>,
    loans: Seq<Loan>,
    prefixes: Seq<PrefixData>,
    stay_silent: bool,
    sim: spec_fn(Seq<char>, Seq<char>) -> bool,
)
    ensures
        reply_for(Some(text), loans, prefixes, true, stay_silent, sim) is Some,
{
}

/// In a group, a message without loanwords never gets a reply, and neither
/// does a message without text anywhere.
pub proof fn lemma_no_reply_without_findings(
    text: Option<Seq<char>>,
    loans: Seq<Loan>,
    prefixes: Seq<PrefixData>,
    stay_silent: bool,
    sim: spec_fn(Seq<char>, Seq<char>) -> bool,
)
    ensures
        text is None ==> reply_for(text, loans, prefixes, true, stay_silent, sim) is None,
        (text matches Some(t) && message_findings(t, loans, prefixes, sim).len() == 0)
            ==> reply_for(text, loans, prefixes, false, stay_silent, sim) is None,
{
}

/// A reply that lists findings ends with the call to care for the
/// language; a reply with no findings is the all-clear.
pub proof fn lemma_reply_shape(fs: Seq<Finding>, loans: Seq<Loan>, prefixes: Seq<PrefixData>)
    ensures
        fs.len() == 0 ==> findings_answer(fs, loans, prefixes) == ALL_NATIVE_ANSWER@,
        fs.len() > 0 ==> findings_answer(fs, loans, prefixes).subrange(
            findings_answer(fs, loans, prefixes).len() - CALL_FOR_HELP@.len(),
            findings_answer(fs, loans, prefixes).len() as int,
        ) == CALL_FOR_HELP@,
{
    if fs.len() > 0 {
        let head = finding_lines(fs, loans, prefixes) + "\n"@;
        assert(findings_answer(fs, loans, prefixes) == head + CALL_FOR_HELP@);
        assert((head + CALL_FOR_HELP@).subrange(head.len() as int, (head + CALL_FOR_HELP@).len() as int)
            =~= CALL_FOR_HELP@);
    }
}

/// A request for an apology is never taken up in a private chat.
pub proof fn lemma_no_apology_in_private_chats(msg: ChatMessage, bot_id: u64)
    requires
        !msg.is_group && !msg.is_supergroup,
    ensures
        !asks_for_apology(msg, bot_id),
{
}

/// When the bot replies to a message with text, the reply is the answer text
/// for that message's findings, whatever the draw said; in a private chat that
/// reply is always sent; and a reply that follows findings ends with the call
/// to care for the language.
pub proof fn lemma_reply_is_the_answer_for_the_findings(
    text: Seq<char>,
    loans: Seq<Loan>,
    prefixes: Seq<PrefixData>,
    is_private_chat: bool,
    stay_silent: bool,
    sim: spec_fn(Seq<char>, Seq<char>) -> bool,
)
    ensures
        reply_for(Some(text), loans, prefixes, is_private_chat, stay_silent, sim) matches Some(r)
            ==> r == findings_answer(message_findings(text, loans, prefixes, sim), loans, prefixes),
        reply_for(Some(text), loans, prefixes, true, stay_silent, sim) == Some(
            findings_answer(message_findings(text, loans, prefixes, sim), loans, prefixes),
        ),
        reply_for(Some(text), loans, prefixes, true, true, sim) == reply_for(
            Some(text),
            loans,
            prefixes,
            true,
            false,
            sim,
        ),
        message_findings(text, loans, prefixes, sim).len() > 0 ==> (reply_for(
            Some(text),
            loans,
            prefixes,
            is_private_chat,
            stay_silent,
            sim,
        ) matches Some(r) ==> r.subrange(r.len() - CALL_FOR_HELP@.len(), r.len() as int)
            == CALL_FOR_HELP@),
{
    lemma_reply_shape(message_findings(text, loans, prefixes, sim), loans, prefixes);
}

/// Letter case does not matter to the apology check: two messages whose
/// texts have the same lower-case form are both requests for an apology or
/// neither is; and a request is a group message replying to the bot.
pub proof fn lemma_apology_ignores_letter_case(msg: ChatMessage, other_text: String, bot_id: u64)
    requires
        msg.text matches Some(t) && lowercase(t@) == lowercase(other_text@),
    ensures
        asks_for_apology(msg, bot_id) == asks_for_apology(
            ChatMessage {
                is_group: msg.is_group,
                is_supergroup: msg.is_supergroup,
                reply_to_author: msg.reply_to_author,
                text: Some(other_text),
            },
            bot_id,
        ),
        asks_for_apology(msg, bot_id) ==> (msg.is_group || msg.is_supergroup) && msg.reply_to_author
            == Some(bot_id),
{
}

/// A group message replying to the bot is a request for an apology exactly
/// when its lower-case text contains the request word somewhere.
pub proof fn lemma_apology_found_anywhere_in_lowered_text(msg: ChatMessage, bot_id: u64, i: int)
    requires
        msg.is_group || msg.is_supergroup,
        msg.reply_to_author == Some(bot_id),
        msg.text matches Some(t) && 0 <= i && i + APOLOGY_REQUEST@.len() <= lowercase(t@).len()
            && lowercase(t@).subrange(i, i + APOLOGY_REQUEST@.len()) == APOLOGY_REQUEST@,
    ensures
        asks_for_apology(msg, bot_id),
{
}

} // verus!
