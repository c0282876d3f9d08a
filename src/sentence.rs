//! Sentences: the words of a text.

use vstd::prelude::*;
use crate::model::words_view;

verus! {

/// A character of the Unicode property White_Space.
pub open spec fn is_space(c: char) -> bool {
    let u = c as u32;
    ||| 0x9 <= u <= 0xd
    ||| u == 0x20
    ||| u == 0x85
    ||| u == 0xa0
    ||| u == 0x1680
    ||| 0x2000 <= u <= 0x200a
    ||| u == 0x2028
    ||| u == 0x2029
    ||| u == 0x202f
    ||| u == 0x205f
    ||| u == 0x3000
}

/// The words ended before position `n` of `s`, and the run of non-space
/// characters still open there.
pub open spec fn scan_words(s: Seq<char>, n: int) -> (Seq<Seq<char>>, Seq<char>)
    decreases n,
{
    if n <= 0 {
        (Seq::empty(), Seq::empty())
    } else {
        let (done, run) = scan_words(s, n - 1);
        if is_space(s[n - 1]) {
            (if run.len() > 0 {
                done.push(run)
            } else {
                done
            }, Seq::empty())
        } else {
            (done, run.push(s[n - 1]))
        }
    }
}

/// The maximal runs of non-space characters of `s`, in order.
pub open spec fn split_words(s: Seq<char>) -> Seq<Seq<char>> {
    let (done, run) = scan_words(s, s.len() as int);
    if run.len() > 0 {
        done.push(run)
    } else {
        done
    }
}

/// Relies on `str::split_whitespace`: the sub-slices of `text` separated by
/// White_Space characters, without empty ones, in order; each is copied into a
/// `String`.
#[verifier::external_body]
fn whitespace_words(text: &str) -> (r: Vec<String>)
    ensures
        words_view(r@) == split_words(text@),
{
    text.split_whitespace().map(String::from).collect()
}

/// The words of a text, in order.
#[derive(Debug)]
pub struct Sentence(Vec<String>);

impl View for Sentence {
    type V = Seq<Seq<char>>;

    closed spec fn view(&self) -> Seq<Seq<char>> {
        words_view(self.0@)
    }
}

impl Sentence {
    /// The sentence of the words of `text`: its runs of non-whitespace
    /// characters, in order, with no other change.
    pub fn from_text(text: &str) -> (r: Sentence)
        ensures
            r@ == split_words(text@),
    {
        Sentence(whitespace_words(text))
    }

    /// The words, in order.
    pub fn words(&self) -> (r: &Vec<String>)
        ensures
            words_view(r@) == self@,
    {
        &self.0
    }

    /// The number of words.
    pub fn len(&self) -> (r: usize)
        ensures
            r == self@.len(),
    {
        self.0.len()
    }
}

impl From<String> for Sentence {
    /// The sentence of the words of `sentence`, as `from_text` gives it.
    fn from(sentence: String) -> (r: Sentence)
        ensures
            r@ == split_words(sentence@),
    {
        Sentence::from_text(sentence.as_str())
    }
}

impl vstd::std_specs::convert::FromSpecImpl<String> for Sentence {
    open spec fn obeys_from_spec() -> bool {
        false
    }

    open spec fn from_spec(v: String) -> Sentence {
        vstd::pervasive::arbitrary()
    }
}

impl<'a> From<&'a str> for Sentence {
    /// The sentence of the words of `sentence`, as `from_text` gives it.
    fn from(sentence: &'a str) -> (r: Sentence)
        ensures
            r@ == split_words(sentence@),
    {
        Sentence::from_text(sentence)
    }
}

impl<'a> vstd::std_specs::convert::FromSpecImpl<&'a str> for Sentence {
    open spec fn obeys_from_spec() -> bool {
        false
    }

    open spec fn from_spec(v: &'a str) -> Sentence {
        vstd::pervasive::arbitrary()
    }
}

impl Clone for Sentence {
    fn clone(&self) -> (r: Sentence)
        ensures
            r@ == self@,
    {
        Sentence(self.0.clone())
    }
}

} // verus!
