//! The mathematical model of the chain: keys, tables, training and walks.

use vstd::prelude::*;

verus! {

/// A two-word window, as character sequences.
pub type Key = (Seq<char>, Seq<char>);

/// The continuation table: each key maps to the words seen after it, in
/// order of training and with repetitions.
pub type Table = Map<Key, Seq<Seq<char>>>;

/// The words of a vector of strings, as character sequences.
pub open spec fn words_view(v: Seq<String>) -> Seq<Seq<char>> {
    v.map_values(|w: String| w@)
}

/// What a table holds for a key, if anything.
pub open spec fn lookup(m: Table, k: Key) -> Option<Seq<Seq<char>>> {
    if m.contains_key(k) {
        Some(m[k])
    } else {
        None
    }
}

/// The list of a key, or the empty list where the key is absent.
pub open spec fn list_or_empty(m: Table, k: Key) -> Seq<Seq<char>> {
    if m.contains_key(k) {
        m[k]
    } else {
        Seq::empty()
    }
}

/// Every key of the table has at least one continuation.
pub open spec fn lists_nonempty(m: Table) -> bool {
    forall|k: Key| m.contains_key(k) ==> #[trigger] m[k].len() > 0
}

/// The words that follow `k` in the first `n` observations of the sentence
/// `w`, in order. Observation `i` (from 1) pairs the window `(w[i-1], w[i])`
/// with the word `w[i+1]`.
pub open spec fn followers(w: Seq<Seq<char>>, n: int, k: Key) -> Seq<Seq<char>>
    decreases n,
{
    if n <= 0 {
        Seq::empty()
    } else {
        followers(w, n - 1, k) + if (w[n - 1], w[n]) == k {
            seq![w[n + 1]]
        } else {
            Seq::empty()
        }
    }
}

/// The table `m` after the first `n` observations of `w` were appended.
pub open spec fn trained_upto(m: Table, w: Seq<Seq<char>>, n: int) -> Table {
    Map::new(
        |k: Key| m.contains_key(k) || followers(w, n, k).len() > 0,
        |k: Key| list_or_empty(m, k) + followers(w, n, k),
    )
}

/// Number of observations a sentence of `len` words yields.
pub open spec fn observation_count(len: int) -> int {
    if len < 3 {
        0
    } else {
        len - 2
    }
}

/// The table `m` after training on the whole sentence `w`: each key gains,
/// at its end, the words that follow it in `w`.
pub open spec fn trained(m: Table, w: Seq<Seq<char>>) -> Table {
    trained_upto(m, w, observation_count(w.len() as int))
}

/// The window reached from `p` after the words `ws` were appended.
pub open spec fn window_after(p: Key, ws: Seq<Seq<char>>) -> Key
    decreases ws.len(),
{
    if ws.len() == 0 {
        p
    } else {
        (window_after(p, ws.drop_last()).1, ws.last())
    }
}

/// Each word of `ws` is a recorded continuation of the window before it.
pub open spec fn is_walk(m: Table, p: Key, ws: Seq<Seq<char>>) -> bool
    decreases ws.len(),
{
    if ws.len() == 0 {
        true
    } else {
        &&& is_walk(m, p, ws.drop_last())
        &&& m.contains_key(window_after(p, ws.drop_last()))
        &&& m[window_after(p, ws.drop_last())].contains(ws.last())
    }
}

/// The words appended from `p` when step `j` takes the continuation at
/// position `picks[j]` (modulo the list's length) of the current window; a
/// window without continuations appends nothing.
pub open spec fn picked_walk(m: Table, p: Key, picks: Seq<usize>) -> Seq<Seq<char>>
    decreases picks.len(),
{
    if picks.len() == 0 {
        Seq::empty()
    } else {
        let ws = picked_walk(m, p, picks.drop_last());
        let k = window_after(p, ws);
        if m.contains_key(k) {
            ws.push(m[k][picks.last() as int % m[k].len() as int])
        } else {
            ws
        }
    }
}

/// Words joined by single spaces.
pub open spec fn join(ws: Seq<Seq<char>>) -> Seq<char>
    decreases ws.len(),
{
    if ws.len() == 0 {
        Seq::empty()
    } else if ws.len() == 1 {
        ws[0]
    } else {
        join(ws.drop_last()) + seq![' '] + ws.last()
    }
}

/// `ws` is what a walk of at most `n` steps from `p` may append: a walk
/// that stops early only at a window without continuations.
pub open spec fn generated_words(m: Table, p: Key, n: nat, ws: Seq<Seq<char>>) -> bool {
    &&& is_walk(m, p, ws)
    &&& ws.len() <= n
    &&& ws.len() < n ==> !m.contains_key(window_after(p, ws))
}

/// `s` is a text that generation of at most `n` further words from `p` may
/// return: the two words of `p`, then a walk, all separated by single spaces.
pub open spec fn generated_text(m: Table, p: Key, n: nat, s: Seq<char>) -> bool {
    exists|ws: Seq<Seq<char>>|
        generated_words(m, p, n, ws) && s == join(seq![p.0, p.1] + ws)
}

} // verus!
