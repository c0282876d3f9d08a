//! The continuation table and its operations.

use vstd::prelude::*;
use crate::model::{
    Key, Table, followers, generated_text, is_walk, join, list_or_empty, lists_nonempty, lookup,
    picked_walk, trained, trained_upto, window_after, words_view,
};
use crate::sentence::Sentence;

verus! {

/// A two-word window: the word before and the current word.
pub type Prefix = (String, String);

/// The key of a prefix.
pub open spec fn key_of(p: Prefix) -> Key {
    (p.0@, p.1@)
}

/// Why training or generation failed.
#[derive(Debug)]
pub enum MarkovError {
    /// The sentence had fewer than three words.
    InsufficientLength,
    /// No text could be produced from this prefix.
    NoCompletion(Prefix),
}

impl MarkovError {
    /// A description of the error, for people.
    pub fn message(&self) -> (r: String)
        ensures
            r@ == match self {
                MarkovError::InsufficientLength => "Insufficient sentence length!"@,
                MarkovError::NoCompletion(p) => "No completion available for (\""@ + p.0@ + "\", \""@
                    + p.1@ + "\")!"@,
            },
    {
        match self {
            MarkovError::InsufficientLength => String::from_str("Insufficient sentence length!"),
            MarkovError::NoCompletion(p) => {
                let mut r = String::from_str("No completion available for (\"");
                r.append(p.0.as_str());
                r.append("\", \"");
                r.append(p.1.as_str());
                r.append("\")!");
                r
            },
        }
    }
}

/// The table from two-word prefixes to the words seen after them.
///
/// Entries are kept in the order their keys were first seen; no key occurs
/// twice and no list is empty. The entries sit in a `Vec` searched by key
/// rather than a `HashMap`: vstd's `HashMap` specifications hold only for key
/// types that obey its key model, which it establishes for integers and
/// `bool` but not for `String` or pairs of them, so a map keyed by `Prefix`
/// would come with no provable contract.
pub struct Database {
    table: Vec<(Prefix, Vec<String>)>,
    model: Ghost<Table>,
}

/// Relies on rand's `SliceRandom::choose`, drawn with `thread_rng()`: it
/// gives `None` exactly for an empty slice, and otherwise a reference to one of
/// the slice's elements.
#[verifier::external_body]
fn choose_word(words: &Vec<String>) -> (r: Option<&String>)
    ensures
        r is None <==> words@.len() == 0,
        r matches Some(w) ==> words@.contains(*w),
{
    rand::seq::SliceRandom::choose(words.as_slice(), &mut rand::thread_rng())
}

impl View for Database {
    type V = Table;

    closed spec fn view(&self) -> Table {
        self.model@
    }
}

impl Database {
    /// The entries agree with the model, keys are unique and lists non-empty.
    pub closed spec fn wf(&self) -> bool {
        &&& forall|i: int, j: int|
            0 <= i < j < self.table@.len() ==> key_of(#[trigger] self.table@[i].0) != key_of(
                #[trigger] self.table@[j].0,
            )
        &&& forall|i: int|
            0 <= i < self.table@.len() ==> {
                &&& self.model@.contains_key(key_of(#[trigger] self.table@[i].0))
                &&& self.model@[key_of(self.table@[i].0)] == words_view(self.table@[i].1@)
            }
        &&& forall|k: Key|
            #[trigger] self.model@.contains_key(k) ==> exists|i: int|
                0 <= i < self.table@.len() && key_of(#[trigger] self.table@[i].0) == k
        &&& lists_nonempty(self.model@)
    }

    /// An empty table.
    pub fn new() -> (r: Database)
        ensures
            r.wf(),
            r@ == Table::empty(),
            lists_nonempty(r@),
    {
        Database { table: Vec::new(), model: Ghost(Map::empty()) }
    }

    /// The position of the entry for `p`, if there is one.
    fn find(&self, p: &Prefix) -> (r: Option<usize>)
        requires
            self.wf(),
        ensures
            match r {
                Some(i) => i < self.table@.len() && key_of(self.table@[i as int].0) == key_of(*p),
                None => !self@.contains_key(key_of(*p)),
            },
    {
        let mut i: usize = 0;
        while i < self.table.len()
            invariant
                i <= self.table@.len(),
                self.wf(),
                forall|j: int| 0 <= j < i ==> key_of(#[trigger] self.table@[j].0) != key_of(*p),
            decreases self.table@.len() - i,
        {
            let e = &self.table[i];
            if e.0.0 == p.0 && e.0.1 == p.1 {
                return Some(i);
            }
            i = i + 1;
        }
        None
    }

    /// Append `next` to the list of `prefix`, making the entry where there is
    /// none yet.
    fn record(&mut self, prefix: Prefix, next: String)
        requires
            old(self).wf(),
        ensures
            final(self).wf(),
            final(self)@ == old(self)@.insert(
                key_of(prefix),
                list_or_empty(old(self)@, key_of(prefix)).push(next@),
            ),
    {
        let ghost k0 = key_of(prefix);
        let ghost before = self@;
        let ghost t0 = self.table@;
        match self.find(&prefix) {
            None => {
                self.table.push((prefix, vec![next]));
                self.model = Ghost(before.insert(k0, seq![next@]));
                proof {
                    assert(words_view(seq![next]) =~= seq![next@]);
                    assert(self.table@.len() == t0.len() + 1);
                    assert forall|i: int| 0 <= i < t0.len() implies self.table@[i] == t0[i]
                        && key_of(t0[i].0) != k0 by {
                        assert(before.contains_key(key_of(t0[i].0)));
                    }
                    assert forall|k: Key| #[trigger] self.model@.contains_key(k) implies exists|i: int|
                        0 <= i < self.table@.len() && key_of(#[trigger] self.table@[i].0) == k by {
                        if k != k0 {
                            assert(before.contains_key(k));
                            let i = choose|i: int| 0 <= i < t0.len() && key_of(#[trigger] t0[i].0) == k;
                            assert(self.table@[i] == t0[i]);
                        } else {
                            assert(key_of(self.table@[self.table@.len() - 1].0) == k);
                        }
                    }
                    assert(lists_nonempty(self@));
                    assert(forall|i: int|
                        0 <= i < self.table@.len() ==> {
                            &&& self.model@.contains_key(key_of(#[trigger] self.table@[i].0))
                            &&& self.model@[key_of(self.table@[i].0)] == words_view(self.table@[i].1@)
                        });
                    assert(self.wf());
                }
            },
            Some(i) => {
                let ghost old_list = self.table@[i as int].1@;
                self.table[i].1.push(next);
                self.model = Ghost(before.insert(k0, before[k0].push(next@)));
                proof {
                    assert(before[k0] == words_view(old_list));
                    assert forall|j: int| 0 <= j < t0.len() && j != i implies self.table@[j] == t0[j]
                        && key_of(t0[j].0) != k0 by {
                        assert(key_of(t0[j].0) != key_of(t0[i as int].0));
                    }
                    assert(words_view(old_list.push(next)) =~= words_view(old_list).push(next@));
                    assert forall|k: Key| #[trigger] self.model@.contains_key(k) implies exists|j: int|
                        0 <= j < self.table@.len() && key_of(#[trigger] self.table@[j].0) == k by {
                        assert(before.contains_key(k));
                        let j = choose|j: int| 0 <= j < t0.len() && key_of(#[trigger] t0[j].0) == k;
                        assert(self.table@[j].0 == t0[j].0);
                    }
                    assert(lists_nonempty(self@));
                    assert(forall|i: int|
                        0 <= i < self.table@.len() ==> {
                            &&& self.model@.contains_key(key_of(#[trigger] self.table@[i].0))
                            &&& self.model@[key_of(self.table@[i].0)] == words_view(self.table@[i].1@)
                        });
                    assert(self.wf());
                }
            },
        }
        proof {
            assert(self@ =~= before.insert(k0, list_or_empty(before, k0).push(next@)));
        }
    }

    /// Train on a sentence: for each word with a word before and a word
    /// after it, the word after is appended to the list of the window made of
    /// the word before and the word itself. Sentences of fewer than three
    /// words are refused and leave the table as it was.
    pub fn parse(&mut self, sen: Sentence) -> (r: Result<(), MarkovError>)
        requires
            old(self).wf(),
        ensures
            final(self).wf(),
            lists_nonempty(final(self)@),
            sen@.len() < 3 ==> (r matches Err(MarkovError::InsufficientLength)) && final(self)@ == old(
                self,
            )@,
            sen@.len() >= 3 ==> r is Ok && final(self)@ == trained(old(self)@, sen@),
    {
        let raw = sen.words();
        if raw.len() < 3 {
            return Err(MarkovError::InsufficientLength);
        }
        let ghost w = sen@;
        let ghost m0 = self@;
        proof {
            assert(self@ =~= trained_upto(m0, w, 0));
        }
        let mut ind: usize = 1;
        while ind < raw.len() - 1
            invariant
                self.wf(),
                3 <= raw@.len(),
                1 <= ind <= raw@.len() - 1,
                words_view(raw@) == w,
                self@ == trained_upto(m0, w, ind - 1),
            decreases raw@.len() - ind,
        {
            let prefix = (raw[ind - 1].clone(), raw[ind].clone());
            let next = raw[ind + 1].clone();
            let ghost k0 = key_of(prefix);
            let ghost before = self@;
            proof {
                assert(k0 == (w[ind - 1], w[ind as int]));
                assert(next@ == w[ind + 1]);
            }
            self.record(prefix, next);
            proof {
                let after = trained_upto(m0, w, ind as int);
                assert forall|k: Key|
                    #![trigger self@.contains_key(k)]
                    #![trigger after.contains_key(k)]
                    #![trigger self@[k]]
                    after.contains_key(k) == self@.contains_key(k) && (after.contains_key(k) ==> after[k]
                        == self@[k]) by {
                    assert(before.contains_key(k) == (m0.contains_key(k) || followers(w, ind - 1, k).len() > 0));
                    assert(followers(w, ind as int, k) == followers(w, ind - 1, k) + if (w[ind - 1], w[ind as int]) == k {
                        seq![w[ind + 1]]
                    } else {
                        Seq::empty()
                    });
                    if k == k0 {
                        assert(list_or_empty(before, k) =~= list_or_empty(m0, k) + followers(w, ind - 1, k));
                        assert(after[k] =~= list_or_empty(before, k).push(w[ind + 1]));
                    } else {
                        assert(followers(w, ind as int, k) =~= followers(w, ind - 1, k));
                    }
                }
                assert(self@ =~= after);
            }
            ind = ind + 1;
        }
        Ok(())
    }

    /// The recorded continuations of `prefix`, or `None` where it was never
    /// seen.
    pub fn complete(&self, prefix: &Prefix) -> (r: Option<&Vec<String>>)
        requires
            self.wf(),
        ensures
            (match r {
                Some(v) => Some(words_view(v@)),
                None => None,
            }) == lookup(self@, key_of(*prefix)),
            r matches Some(v) ==> v@.len() > 0,
    {
        match self.find(prefix) {
            Some(i) => {
                proof {
                    assert(self@[key_of(*prefix)] == words_view(self.table@[i as int].1@));
                    assert(self@[key_of(*prefix)].len() > 0);
                }
                Some(&self.table[i].1)
            },
            None => None,
        }
    }

    /// One of the recorded continuations of `prefix`, drawn uniformly from
    /// its list (so a word recorded twice is twice as likely), or `None`
    /// where the prefix was never seen.
    pub fn rand_complete(&self, prefix: &Prefix) -> (r: Option<&String>)
        requires
            self.wf(),
        ensures
            r is Some <==> self@.contains_key(key_of(*prefix)),
            r matches Some(w) ==> self@[key_of(*prefix)].contains(w@),
    {
        match self.find(prefix) {
            Some(i) => {
                let words = &self.table[i].1;
                let r = choose_word(words);
                proof {
                    assert(self@[key_of(*prefix)] == words_view(words@));
                    assert(self@[key_of(*prefix)].len() > 0);
                    if let Some(w) = r {
                        let j = choose|j: int| 0 <= j < words@.len() && words@[j] == *w;
                        assert(words_view(words@)[j] == w@);
                    }
                }
                r
            },
            None => None,
        }
    }

    /// Text generated from `prefix`: its two words, then up to `n` more, each
    /// drawn by `rand_complete` from the window of the two words before it,
    /// all separated by single spaces. Where a window has no continuations
    /// the text ends there.
    ///
    /// The text always holds the prefix, so `NoCompletion`, which is kept
    /// for a text that came out empty, is never returned.
    pub fn generate(&self, prefix: &Prefix, n: usize) -> (r: Result<String, MarkovError>)
        requires
            self.wf(),
        ensures
            r matches Ok(s) && generated_text(self@, key_of(*prefix), n as nat, s@),
    {
        let ghost p = key_of(*prefix);
        let mut output = String::new();
        let mut generator: Prefix = (prefix.0.clone(), prefix.1.clone());
        output.append(prefix.0.as_str());
        output.append(" ");
        output.append(prefix.1.as_str());
        let ghost mut ws: Seq<Seq<char>> = Seq::empty();
        proof {
            reveal_strlit(" ");
            assert(seq![p.0, p.1] + ws =~= seq![p.0, p.1]);
            assert(seq![p.0, p.1].drop_last() =~= seq![p.0]);
            assert(join(seq![p.0]) == p.0);
            assert(output@ =~= join(seq![p.0, p.1]));
        }
        let mut i: usize = 0;
        while i < n
            invariant
                self.wf(),
                i <= n,
                ws.len() <= i,
                is_walk(self@, p, ws),
                key_of(generator) == window_after(p, ws),
                ws.len() < i ==> !self@.contains_key(window_after(p, ws)),
                output@ == join(seq![p.0, p.1] + ws),
            decreases n - i,
        {
            match self.rand_complete(&generator) {
                Some(word) => {
                    let ghost before = seq![p.0, p.1] + ws;
                    output.append(" ");
                    output.append(word.as_str());
                    generator = (generator.1, word.clone());
                    proof {
                        reveal_strlit(" ");
                        assert(ws.push(word@).drop_last() =~= ws);
                        assert((seq![p.0, p.1] + ws.push(word@)).drop_last() =~= before);
                        ws = ws.push(word@);
                    }
                },
                None => {
                    proof {
                        reveal_strlit(" ");
                        assert(output@.len() > 0);
                    }
                    if output.as_str().is_empty() {
                        return Err(MarkovError::NoCompletion(generator));
                    }
                },
            }
            i = i + 1;
        }
        proof {
            assert(crate::model::generated_words(self@, p, n as nat, ws));
        }
        Ok(output)
    }

    /// Text generated from `prefix` with the choices made in advance: step
    /// `j` appends the word at position `picks[j]`, modulo the list's length,
    /// of the current window's continuations. Where a window has no
    /// continuations the text ends there.
    pub fn generate_with_picks(&self, prefix: &Prefix, picks: &Vec<usize>) -> (r: String)
        requires
            self.wf(),
        ensures
            r@ == join(seq![prefix.0@, prefix.1@] + picked_walk(self@, key_of(*prefix), picks@)),
    {
        let ghost p = key_of(*prefix);
        let mut output = String::new();
        let mut generator: Prefix = (prefix.0.clone(), prefix.1.clone());
        output.append(prefix.0.as_str());
        output.append(" ");
        output.append(prefix.1.as_str());
        proof {
            reveal_strlit(" ");
            assert(seq![p.0, p.1] + picked_walk(self@, p, picks@.take(0)) =~= seq![p.0, p.1]);
            assert(seq![p.0, p.1].drop_last() =~= seq![p.0]);
            assert(join(seq![p.0]) == p.0);
            assert(output@ =~= join(seq![p.0, p.1]));
        }
        let mut i: usize = 0;
        while i < picks.len()
            invariant
                self.wf(),
                i <= picks@.len(),
                key_of(generator) == window_after(p, picked_walk(self@, p, picks@.take(i as int))),
                output@ == join(seq![p.0, p.1] + picked_walk(self@, p, picks@.take(i as int))),
            decreases picks@.len() - i,
        {
            let ghost ws = picked_walk(self@, p, picks@.take(i as int));
            proof {
                assert(picks@.take(i + 1).drop_last() =~= picks@.take(i as int));
            }
            match self.complete(&generator) {
                Some(words) => {
                    proof {
                        assert(self@[key_of(generator)].len() > 0);
                    }
                    let word = &words[picks[i] % words.len()];
                    let ghost before = seq![p.0, p.1] + ws;
                    output.append(" ");
                    output.append(word.as_str());
                    generator = (generator.1, word.clone());
                    proof {
                        reveal_strlit(" ");
                        let nws = picked_walk(self@, p, picks@.take(i + 1));
                        assert(nws == ws.push(word@));
                        assert(nws.drop_last() =~= ws);
                        assert((seq![p.0, p.1] + nws).drop_last() =~= before);
                    }
                },
                None => {},
            }
            i = i + 1;
        }
        proof {
            assert(picks@.take(picks@.len() as int) =~= picks@);
        }
        output
    }
}

} // verus!
