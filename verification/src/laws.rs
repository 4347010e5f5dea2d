//! The library's laws: what prefix search returns, how cycling walks the
//! match set, what an auto-commit leaves in the buffer, and when the scroll
//! policy resets the screen.

use vstd::prelude::*;

use crate::cache::{lemma_matches_of_concat, lemma_matches_of_sound, matches_of};
use crate::render::{hits_threshold, print_shapes, row_after_print, OpShape, Style, PROMPT_COL};
use crate::session::{commit_room, cycle_quiet, cycle_wraps, selection_for, Session};
use crate::text::{is_prefix, last_token, tail_run, trim_trailing};

verus! {

/// Search is sound: every returned candidate starts with the prefix and is
/// one of the cached candidates.
pub proof fn lemma_search_sound(cache: Seq<Seq<char>>, p: Seq<char>)
    ensures
        forall|i: int|
            0 <= i < matches_of(cache, p).len() ==> is_prefix(
                p,
                #[trigger] matches_of(cache, p)[i],
            ) && cache.contains(matches_of(cache, p)[i]),
{
    lemma_matches_of_sound(cache, p);
}

/// Search is complete: every cached candidate that starts with the prefix
/// appears in the result.
pub proof fn lemma_search_complete(cache: Seq<Seq<char>>, p: Seq<char>)
    ensures
        forall|i: int|
            0 <= i < cache.len() && is_prefix(p, #[trigger] cache[i]) ==> matches_of(
                cache,
                p,
            ).contains(cache[i]),
    decreases cache.len(),
{
    if cache.len() > 0 {
        lemma_search_complete(cache.drop_last(), p);
        let rest = matches_of(cache.drop_last(), p);
        assert forall|i: int| 0 <= i < cache.len() && is_prefix(p, #[trigger] cache[i]) implies
            matches_of(cache, p).contains(cache[i]) by {
            if i < cache.len() - 1 {
                assert(cache.drop_last()[i] == cache[i]);
                assert(rest.contains(cache[i]));
                let j = choose|j: int| 0 <= j < rest.len() && rest[j] == cache[i];
                assert(matches_of(cache, p)[j] == cache[i]);
            } else {
                assert(cache[i] == cache.last());
                assert(matches_of(cache, p).last() == cache.last());
            }
        }
    }
}

/// Search is exactly a filter of the cache: the subset of candidates whose
/// text starts with the prefix, kept in insertion order.
pub proof fn lemma_search_is_filter(cache: Seq<Seq<char>>, p: Seq<char>)
    ensures
        matches_of(cache, p) == cache.filter(|s: Seq<char>| is_prefix(p, s)),
    decreases cache.len(),
{
    reveal(Seq::filter);
    if cache.len() > 0 {
        lemma_search_is_filter(cache.drop_last(), p);
    }
    assert(matches_of(cache, p) =~~= cache.filter(|s: Seq<char>| is_prefix(p, s)));
}

/// Search preserves insertion order: the matches of any front part of the
/// cache stand, in order, at the front of the matches of the whole cache.
pub proof fn lemma_search_order(cache: Seq<Seq<char>>, p: Seq<char>, j: int)
    requires
        0 <= j <= cache.len(),
    ensures
        matches_of(cache.subrange(0, j), p).is_prefix_of(matches_of(cache, p)),
{
    let front = cache.subrange(0, j);
    let back = cache.subrange(j, cache.len() as int);
    assert(cache =~~= front + back);
    lemma_matches_of_concat(front, back, p);
    assert(matches_of(front, p) =~~= (matches_of(front, p) + matches_of(back, p)).subrange(
        0,
        matches_of(front, p).len() as int,
    ));
}

/// The index visited after `k` cycles over a fixed match set of size `n`,
/// starting from index 0.
pub open spec fn index_after(k: nat, n: int) -> int
    decreases k,
{
    if k == 0 {
        0
    } else {
        cycle_wraps(index_after((k - 1) as nat, n), n)
    }
}

pub proof fn lemma_index_after_step(k: nat, n: int)
    requires
        0 <= k < n,
    ensures
        index_after(k, n) == k,
    decreases k,
{
    if k > 0 {
        lemma_index_after_step((k - 1) as nat, n);
    }
}

/// Cycling over a fixed match set is a faithful walk: `k` cycles from the
/// start select index `k` for every `k` below the set size, so one full
/// round visits each match exactly once and then wraps back to index 0.
pub proof fn lemma_cycle_visits_all(n: int)
    requires
        n >= 1,
    ensures
        forall|k: nat| k < n ==> index_after(k, n) == k,
        index_after(n as nat, n) == 0,
{
    assert forall|k: nat| k < n implies index_after(k, n) == k by {
        lemma_index_after_step(k, n);
    }
    lemma_index_after_step((n - 1) as nat, n);
}

pub proof fn lemma_tail_run_is_suffix(s: Seq<char>)
    ensures
        tail_run(s).len() <= s.len(),
        tail_run(s) == s.subrange(s.len() - tail_run(s).len(), s.len() as int),
    decreases s.len(),
{
    if s.len() > 0 && !crate::text::is_space(s.last()) {
        lemma_tail_run_is_suffix(s.drop_last());
        let t = tail_run(s.drop_last());
        assert(tail_run(s) =~= s.subrange(s.len() - tail_run(s).len(), s.len() as int));
    } else {
        assert(tail_run(s) =~= s.subrange(s.len() - tail_run(s).len(), s.len() as int));
    }
}

/// Auto-commit: when exactly one match remains and the channel was quiet,
/// the cycle leaves the buffer equal to the text before the token, the full
/// match, and one trailing space; the cursor column tracks the new buffer
/// length behind the prompt.
pub proof fn lemma_auto_commit(pre: Session, post: Session)
    requires
        pre.wf(),
        post.wf(),
        last_token(pre.buffer@).len() > 0,
        trim_trailing(pre.buffer@) == pre.buffer@,
        selection_for(pre.cache.contents(), pre.buffer@).len() == 1,
        commit_room(
            pre,
            selection_for(pre.cache.contents(), pre.buffer@)[0],
            last_token(pre.buffer@),
        ),
        post.cache == pre.cache,
        cycle_quiet(pre, post),
    ensures
        post.buffer@ == pre.buffer@.subrange(
            0,
            pre.buffer@.len() - last_token(pre.buffer@).len(),
        ) + selection_for(pre.cache.contents(), pre.buffer@)[0] + seq![' '],
        post.col == post.buffer@.len() + PROMPT_COL,
        post.sug_idx == 0,
{
    let t = last_token(pre.buffer@);
    let m = selection_for(pre.cache.contents(), pre.buffer@)[0];
    lemma_matches_of_sound(pre.cache.contents(), t);
    assert(is_prefix(t, m));
    lemma_tail_run_is_suffix(pre.buffer@);
    assert(t == pre.buffer@.subrange(pre.buffer@.len() - t.len(), pre.buffer@.len() as int));
    assert(t =~= m.subrange(0, t.len() as int));
    assert(pre.buffer@ =~= pre.buffer@.subrange(0, pre.buffer@.len() - t.len()) + t);
    assert(t + m.subrange(t.len() as int, m.len() as int) =~= m);
    assert(pre.buffer@ + m.subrange(t.len() as int, m.len() as int) + seq![' '] =~= pre.buffer@
        .subrange(0, pre.buffer@.len() - t.len()) + m + seq![' ']);
}

/// The scroll policy: a guarded print whose active row stands at or past
/// the threshold begins with a full clear and resets the active row to 0;
/// below the threshold it draws in place and the active row keeps its value.
pub proof fn lemma_scroll_reset(
    active: int,
    row: int,
    col: int,
    text: Seq<char>,
    style: Style,
    h: int,
)
    ensures
        hits_threshold(active, h) ==> print_shapes(active, row, col, text, style, h)[0]
            == OpShape::Clear && row_after_print(active, h) == 0,
        !hits_threshold(active, h) ==> print_shapes(active, row, col, text, style, h)[0]
            == (OpShape::Text { row, col, text, style }) && row_after_print(active, h) == active,
{
}

} // verus!
