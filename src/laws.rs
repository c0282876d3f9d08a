//! What holds of training and generation across calls and inputs.

use vstd::prelude::*;
use crate::model::{
    Key, Table, followers, generated_text, generated_words, is_walk, join, list_or_empty,
    lists_nonempty, observation_count, picked_walk, trained, window_after,
};

verus! {

/// Every continuation of every key leads to a window that has continuations
/// too, so that a walk from a key of the table never runs out.
pub open spec fn closed_under_steps(m: Table) -> bool {
    forall|k: Key, w: Seq<char>|
        m.contains_key(k) && #[trigger] m[k].contains(w) ==> m.contains_key((k.1, w))
}

/// A sentence of three words `a b c`, trained into an empty table, gives
/// the one key `(a, b)` with the list `[c]`.
pub proof fn lemma_three_words(a: Seq<char>, b: Seq<char>, c: Seq<char>)
    ensures
        trained(Map::empty(), seq![a, b, c]) == Map::<Key, Seq<Seq<char>>>::empty().insert(
            (a, b),
            seq![c],
        ),
{
    let w = seq![a, b, c];
    let t = trained(Map::empty(), w);
    assert forall|k: Key| #[trigger] followers(w, 1, k) == if k == (a, b) {
        seq![c]
    } else {
        Seq::<Seq<char>>::empty()
    } by {
        assert(followers(w, 0, k) == Seq::<Seq<char>>::empty());
        assert(followers(w, 1, k) =~= followers(w, 0, k) + if (w[0], w[1]) == k {
            seq![w[2]]
        } else {
            Seq::empty()
        });
    }
    assert(t =~= Map::<Key, Seq<Seq<char>>>::empty().insert((a, b), seq![c]));
}

/// A sentence of four words `a b c d`, trained into an empty table, gives
/// exactly `(a, b) -> [c]` and `(b, c) -> [d]`, where those two windows
/// differ.
pub proof fn lemma_four_words(a: Seq<char>, b: Seq<char>, c: Seq<char>, d: Seq<char>)
    requires
        (a, b) != (b, c),
    ensures
        trained(Map::empty(), seq![a, b, c, d]) == Map::<Key, Seq<Seq<char>>>::empty().insert(
            (a, b),
            seq![c],
        ).insert((b, c), seq![d]),
{
    let w = seq![a, b, c, d];
    let t = trained(Map::empty(), w);
    assert forall|k: Key| #[trigger] followers(w, 2, k) == if k == (a, b) {
        seq![c]
    } else if k == (b, c) {
        seq![d]
    } else {
        Seq::<Seq<char>>::empty()
    } by {
        assert(followers(w, 0, k) == Seq::<Seq<char>>::empty());
        assert(followers(w, 1, k) =~= followers(w, 0, k) + if (w[0], w[1]) == k {
            seq![w[2]]
        } else {
            Seq::empty()
        });
        assert(followers(w, 2, k) =~= followers(w, 1, k) + if (w[1], w[2]) == k {
            seq![w[3]]
        } else {
            Seq::empty()
        });
    }
    assert(t =~= Map::<Key, Seq<Seq<char>>>::empty().insert((a, b), seq![c]).insert((b, c), seq![d]));
}

/// Training a sentence twice appends its observations twice: what the second
/// training adds to a key's list equals what the first one added, so the
/// lists it touched grow by double the first amount.
pub proof fn lemma_training_twice_doubles(m: Table, w: Seq<Seq<char>>)
    ensures
        forall|k: Key|
            #![trigger list_or_empty(trained(trained(m, w), w), k)]
            list_or_empty(trained(trained(m, w), w), k).len() - list_or_empty(m, k).len() == 2 * (
            list_or_empty(trained(m, w), k).len() - list_or_empty(m, k).len()),
        forall|k: Key|
            #![trigger trained(trained(m, w), w).contains_key(k)]
            trained(trained(m, w), w).contains_key(k) == trained(m, w).contains_key(k),
{
    let n = observation_count(w.len() as int);
    assert forall|k: Key|
        #![trigger list_or_empty(trained(trained(m, w), w), k)]
        list_or_empty(trained(trained(m, w), w), k) == list_or_empty(m, k) + followers(w, n, k)
            + followers(w, n, k) by {
        if m.contains_key(k) || followers(w, n, k).len() > 0 {
            assert(list_or_empty(trained(m, w), k) == list_or_empty(m, k) + followers(w, n, k));
        } else {
            assert(followers(w, n, k) =~= Seq::<Seq<char>>::empty());
            assert(list_or_empty(m, k) + followers(w, n, k) + followers(w, n, k) =~= Seq::<
                Seq<char>,
            >::empty());
        }
    }
    assert forall|k: Key|
        #![trigger list_or_empty(trained(trained(m, w), w), k)]
        list_or_empty(trained(trained(m, w), w), k).len() - list_or_empty(m, k).len() == 2 * (
        list_or_empty(trained(m, w), k).len() - list_or_empty(m, k).len()) by {
        if !(m.contains_key(k) || followers(w, n, k).len() > 0) {
            assert(followers(w, n, k).len() == 0);
        }
    }
}

/// The word `w[i + 1]` is among the followers of the window
/// `(w[i - 1], w[i])` once observation `i` is counted.
proof fn lemma_followers_record(w: Seq<Seq<char>>, n: int, i: int)
    requires
        1 <= i <= n,
        n + 1 < w.len(),
    ensures
        followers(w, n, (w[i - 1], w[i])).contains(w[i + 1]),
    decreases n,
{
    let k = (w[i - 1], w[i]);
    let prev = followers(w, n - 1, k);
    if i == n {
        assert(followers(w, n, k) == prev + seq![w[n + 1]]);
        assert(followers(w, n, k)[prev.len() as int] == w[i + 1]);
    } else {
        lemma_followers_record(w, n - 1, i);
        let j = choose|j: int| 0 <= j < prev.len() && prev[j] == w[i + 1];
        assert(followers(w, n, k)[j] == w[i + 1]);
    }
}

/// After training on a sentence of at least three words, the list of each
/// window `(w[i - 1], w[i])` of it holds the word `w[i + 1]` that followed it.
pub proof fn lemma_training_records_adjacency(m: Table, w: Seq<Seq<char>>)
    requires
        w.len() >= 3,
    ensures
        forall|i: int|
            1 <= i <= w.len() - 2 ==> {
                &&& #[trigger] trained(m, w).contains_key((w[i - 1], w[i]))
                &&& trained(m, w)[(w[i - 1], w[i])].contains(w[i + 1])
            },
{
    let n = w.len() - 2;
    assert forall|i: int|
        1 <= i <= w.len() - 2 implies {
        &&& #[trigger] trained(m, w).contains_key((w[i - 1], w[i]))
        &&& trained(m, w)[(w[i - 1], w[i])].contains(w[i + 1])
    } by {
        let k = (w[i - 1], w[i]);
        lemma_followers_record(w, n, i);
        let f = followers(w, n, k);
        let j = choose|j: int| 0 <= j < f.len() && f[j] == w[i + 1];
        let l = list_or_empty(m, k);
        assert((l + f)[l.len() + j] == w[i + 1]);
    }
}

/// Generating no further words gives the two words of the prefix with one
/// space between them.
pub proof fn lemma_generate_nothing(m: Table, p: Key, s: Seq<char>)
    requires
        generated_text(m, p, 0, s),
    ensures
        s == p.0 + seq![' '] + p.1,
{
    let ws = choose|ws: Seq<Seq<char>>|
        generated_words(m, p, 0, ws) && s == join(seq![p.0, p.1] + ws);
    assert(seq![p.0, p.1] + ws =~= seq![p.0, p.1]);
    assert(seq![p.0, p.1].drop_last() =~= seq![p.0]);
    assert(join(seq![p.0]) == p.0);
    assert(join(seq![p.0, p.1]) == join(seq![p.0]) + seq![' '] + p.1);
}

/// A walk from a key of a table closed under steps stays on keys of the
/// table.
proof fn lemma_walk_stays_in_table(m: Table, p: Key, ws: Seq<Seq<char>>)
    requires
        closed_under_steps(m),
        m.contains_key(p),
        is_walk(m, p, ws),
    ensures
        m.contains_key(window_after(p, ws)),
    decreases ws.len(),
{
    if ws.len() > 0 {
        lemma_walk_stays_in_table(m, p, ws.drop_last());
        let k = window_after(p, ws.drop_last());
        assert(m[k].contains(ws.last()));
    }
}

/// Where every lookup of a walk succeeds, which holds on a table closed under
/// steps from one of its keys, generation appends exactly `n` words after the
/// two of the prefix.
pub proof fn lemma_generate_full_length(m: Table, p: Key, n: nat, s: Seq<char>)
    requires
        closed_under_steps(m),
        m.contains_key(p),
        generated_text(m, p, n, s),
    ensures
        exists|ws: Seq<Seq<char>>|
            #![trigger is_walk(m, p, ws)]
            ws.len() == n && is_walk(m, p, ws) && s == join(seq![p.0, p.1] + ws),
{
    let ws = choose|ws: Seq<Seq<char>>|
        generated_words(m, p, n, ws) && s == join(seq![p.0, p.1] + ws);
    lemma_walk_stays_in_table(m, p, ws);
}

/// Whatever the choices, generation with picks made in advance gives one of
/// the texts that random generation of as many words may return.
pub proof fn lemma_picks_give_a_generated_text(m: Table, p: Key, picks: Seq<usize>)
    requires
        lists_nonempty(m),
    ensures
        generated_words(m, p, picks.len(), picked_walk(m, p, picks)),
        generated_text(m, p, picks.len(), join(seq![p.0, p.1] + picked_walk(m, p, picks))),
    decreases picks.len(),
{
    let ws = picked_walk(m, p, picks);
    if picks.len() > 0 {
        let prev = picked_walk(m, p, picks.drop_last());
        lemma_picks_give_a_generated_text(m, p, picks.drop_last());
        let k = window_after(p, prev);
        if m.contains_key(k) {
            let x = m[k][picks.last() as int % m[k].len() as int];
            assert(ws == prev.push(x));
            assert(ws.drop_last() =~= prev);
            assert(m[k].contains(x));
        }
    }
    assert(generated_words(m, p, picks.len(), ws));
}

} // verus!
