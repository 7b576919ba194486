//! The most recent items of a sequence: the window that a bounded buffer with
//! oldest-first eviction keeps.
use vstd::prelude::*;

verus! {

/// The last `c` items of `s`, or all of `s` when it holds no more than `c`.
pub open spec fn keep_last<T>(s: Seq<T>, c: nat) -> Seq<T> {
    if s.len() <= c {
        s
    } else {
        s.subrange(s.len() - c, s.len() as int)
    }
}

/// Keeping the last `c` items after each of two appends keeps the same items as
/// one trim after both.
pub proof fn lemma_keep_last_append<T>(s: Seq<T>, a: Seq<T>, c: nat)
    ensures
        keep_last(keep_last(s, c) + a, c) == keep_last(s + a, c),
        keep_last(s, c).len() <= c,
{
    if s.len() > c {
        assert(keep_last(keep_last(s, c) + a, c) =~= keep_last(s + a, c));
    }
}

/// All chunks of `chunks`, joined in order.
pub open spec fn concat<T>(chunks: Seq<Seq<T>>) -> Seq<T>
    decreases chunks.len(),
{
    if chunks.len() == 0 {
        Seq::empty()
    } else {
        concat(chunks.drop_last()) + chunks.last()
    }
}

/// The content of a window of `c` items that starts as `start` and receives
/// each chunk of `chunks` in turn, trimmed to its last `c` items after each.
pub open spec fn after_chunks<T>(start: Seq<T>, chunks: Seq<Seq<T>>, c: nat) -> Seq<T>
    decreases chunks.len(),
{
    if chunks.len() == 0 {
        start
    } else {
        keep_last(after_chunks(start, chunks.drop_last(), c) + chunks.last(), c)
    }
}

/// The content of a window of `c` items that starts as `start` and receives
/// each item of `items` in turn, trimmed to its last `c` items after each.
pub open spec fn after_items<T>(start: Seq<T>, items: Seq<T>, c: nat) -> Seq<T>
    decreases items.len(),
{
    if items.len() == 0 {
        start
    } else {
        keep_last(after_items(start, items.drop_last(), c).push(items.last()), c)
    }
}

/// Whatever chunks are pushed, one after another, into a window of `c` items
/// that holds no more than `c`, it never holds more than `c`, and it then
/// holds exactly the last `c` items of everything it was given.
pub proof fn lemma_chunks_keep_last<T>(start: Seq<T>, chunks: Seq<Seq<T>>, c: nat)
    requires
        start.len() <= c,
    ensures
        after_chunks(start, chunks, c) == keep_last(start + concat(chunks), c),
        after_chunks(start, chunks, c).len() <= c,
    decreases chunks.len(),
{
    if chunks.len() == 0 {
        assert(start + concat(chunks) =~= start);
    } else {
        let init = chunks.drop_last();
        lemma_chunks_keep_last(start, init, c);
        lemma_keep_last_append(start + concat(init), chunks.last(), c);
        assert(start + concat(init) + chunks.last() =~= start + concat(chunks));
        lemma_keep_last_append(start + concat(chunks), Seq::empty(), c);
        assert(start + concat(chunks) + Seq::<T>::empty() =~= start + concat(chunks));
    }
}

/// Whatever items are pushed, one after another, into a window of `c` items
/// that holds no more than `c`, it then holds the last `c` items of all it was
/// given, in the order they came; when `c > 0` its newest item is the last one
/// pushed.
pub proof fn lemma_items_keep_last<T>(start: Seq<T>, items: Seq<T>, c: nat)
    requires
        start.len() <= c,
    ensures
        after_items(start, items, c) == keep_last(start + items, c),
        after_items(start, items, c).len() <= c,
        c > 0 && items.len() > 0 ==> after_items(start, items, c).last() == items.last(),
    decreases items.len(),
{
    if items.len() == 0 {
        assert(start + items =~= start);
    } else {
        let init = items.drop_last();
        lemma_items_keep_last(start, init, c);
        let x = items.last();
        lemma_keep_last_append(start + init, seq![x], c);
        assert(after_items(start, init, c).push(x) =~= after_items(start, init, c) + seq![x]);
        assert(start + init + seq![x] =~= start + items);
        lemma_keep_last_append(start + items, Seq::empty(), c);
        assert(start + items + Seq::<T>::empty() =~= start + items);
    }
}

} // verus!
