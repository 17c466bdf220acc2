//! When two words count as similar.
//!
//! Two words are similar when they start with the same character, end with
//! the same character, differ in length by at most two characters, and a
//! closeness judgment says so. The judgment (a trigram score against a
//! threshold) is computed outside this library and handed in as a closure;
//! every contract here holds for whatever the closure decides, phrased over
//! any spec predicate `sim` that the closure agrees with.
use vstd::prelude::*;

use crate::text::chars_of;

verus! {

/// The closure may be called on any two string slices.
pub open spec fn total<F: Fn(&str, &str) -> bool>(judge: F) -> bool {
    forall|a: &str, b: &str| call_requires(judge, (a, b))
}

/// Every answer the closure gives is the value of `sim` on the two texts.
pub open spec fn agrees<F: Fn(&str, &str) -> bool>(
    judge: F,
    sim: spec_fn(Seq<char>, Seq<char>) -> bool,
) -> bool {
    forall|a: &str, b: &str, r: bool| call_ensures(judge, (a, b), r) ==> r == sim(a@, b@)
}

/// `first` is not empty and starts with the first character of `second`
/// (which is not empty either).
pub open spec fn same_first_char(first: Seq<char>, second: Seq<char>) -> bool {
    second.len() > 0 && first.len() > 0 && first[0] == second[0]
}

/// `first` is not empty and ends with the last character of `second`
/// (which is not empty either).
pub open spec fn same_last_char(first: Seq<char>, second: Seq<char>) -> bool {
    second.len() > 0 && first.len() > 0 && first.last() == second.last()
}

/// The character counts differ by at most two.
pub open spec fn similar_length(a: Seq<char>, b: Seq<char>) -> bool {
    -2 <= a.len() - b.len() <= 2
}

/// Both ends agree.
pub open spec fn same_ends(a: Seq<char>, b: Seq<char>) -> bool {
    same_first_char(a, b) && same_last_char(a, b)
}

/// `a` and `b` are similar under the closeness judgment `sim`.
pub open spec fn similar(a: Seq<char>, b: Seq<char>, sim: spec_fn(Seq<char>, Seq<char>) -> bool) -> bool {
    same_ends(a, b) && similar_length(a, b) && sim(a, b)
}

pub fn is_same_first_char(first_str: &str, second_str: &str) -> (r: bool)
    ensures
        r == same_first_char(first_str@, second_str@),
{
    let first = chars_of(first_str);
    let second = chars_of(second_str);
    if second.len() == 0 {
        return false;
    }
    first.len() > 0 && first[0] == second[0]
}

pub fn is_same_last_char(first_str: &str, second_str: &str) -> (r: bool)
    ensures
        r == same_last_char(first_str@, second_str@),
{
    let first = chars_of(first_str);
    let second = chars_of(second_str);
    if second.len() == 0 {
        return false;
    }
    first.len() > 0 && first[first.len() - 1] == second[second.len() - 1]
}

pub fn starts_ends_same(first_str: &str, second_str: &str) -> (r: bool)
    ensures
        r == same_ends(first_str@, second_str@),
{
    is_same_first_char(first_str, second_str) && is_same_last_char(first_str, second_str)
}

pub fn is_similar_length(a: &str, b: &str) -> (r: bool)
    ensures
        r == similar_length(a@, b@),
{
    let n: usize = chars_of(a).len();
    let m: usize = chars_of(b).len();
    if n >= m {
        n - m <= 2
    } else {
        m - n <= 2
    }
}

/// Whether `candidate` is similar to `word`; the closure is consulted only
/// when both ends and the lengths already agree.
pub fn is_similar<F: Fn(&str, &str) -> bool>(word: &str, candidate: &str, judge: &F) -> (r: bool)
    requires
        total(*judge),
    ensures
        forall|sim: spec_fn(Seq<char>, Seq<char>) -> bool|
            agrees(*judge, sim) ==> r == similar(word@, candidate@, sim),
{
    if !starts_ends_same(word, candidate) || !is_similar_length(word, candidate) {
        return false;
    }
    judge(word, candidate)
}

/// Similarity is symmetric whenever the closeness judgment is: the ends and
/// the lengths are compared the same way in both directions.
pub proof fn lemma_similar_symmetric(a: Seq<char>, b: Seq<char>, sim: spec_fn(Seq<char>, Seq<char>) -> bool)
    requires
        sim(a, b) == sim(b, a),
    ensures
        similar(a, b, sim) == similar(b, a, sim),
{
}

/// A word is similar to itself exactly when it is not empty and the
/// closeness judgment accepts it as close to itself.
pub proof fn lemma_similar_to_itself(a: Seq<char>, sim: spec_fn(Seq<char>, Seq<char>) -> bool)
    ensures
        similar(a, a, sim) == (a.len() > 0 && sim(a, a)),
{
}

} // verus!
