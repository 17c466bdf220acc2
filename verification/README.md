# loanwords

A library for a Telegram bot that spots loanwords in Russian messages and
suggests native replacements ("Не абрикос, а желтослив."). The library is
written in Verus: every function in `src/` carries a contract that Verus
proves.

- `src/text.rs` — character classes, cleaning a message, splitting,
  trimming, prefix stripping and UTF-8 lengths.
- `src/similarity.rs` — when two words count as similar. The closeness
  score (trigram similarity against a threshold) is a floating-point
  computation and is passed in as a closure; the contracts hold for any
  closure, stated over every predicate the closure agrees with.
- `src/morpheme.rs` — prefixes, loanword roots, analysed words and the
  sentence that explains each of them.
- `src/word.rs` — the analysis of a message (`filter_native_words`) with
  its laws: letter case and ASCII punctuation do not matter, trailing `ы` is
  ignored, words are analysed independently.
- `src/glossary.rs` — the flat glossary check.
- `src/answer.rs` — the reply text, when to reply, and when to apologise.
- `src/mode.rs` — polling or webhook.

`app/` is the bot itself: configuration, JSON loading, the Telegram
dispatcher and webhook listener, the trigram judgment and the random draw.
