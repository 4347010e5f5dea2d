//! The suggestion cache: an append-only, insertion-ordered collection of
//! candidate names fed by a background producer through a channel, serving
//! prefix queries and growing on demand.

use vstd::prelude::*;

use crate::text::{is_prefix, starts_with};

verus! {

broadcast use vstd::std_specs::vec::vec_clone_deep_view_proof;

#[verifier::external_type_specification]
#[verifier::external_body]
#[verifier::reject_recursive_types(T)]
pub struct ExReceiver<T>(std::sync::mpsc::Receiver<T>);

/// Relies on std::sync::mpsc::Receiver::recv: it blocks until the producer
/// sends a value (Some) or fails once the channel is closed and drained
/// (None). Which value arrives depends on the producer thread, so nothing
/// is assumed about the result.
#[verifier::external_body]
fn recv_candidate(rec: &std::sync::mpsc::Receiver<Vec<char>>) -> (r: Option<Vec<char>>) {
    rec.recv().ok()
}

/// The candidates in `cache` whose text starts with `p`, in cache order.
pub open spec fn matches_of(cache: Seq<Seq<char>>, p: Seq<char>) -> Seq<Seq<char>>
    decreases cache.len(),
{
    if cache.len() == 0 {
        Seq::empty()
    } else {
        let rest = matches_of(cache.drop_last(), p);
        if is_prefix(p, cache.last()) {
            rest.push(cache.last())
        } else {
            rest
        }
    }
}

pub proof fn lemma_matches_of_push(cache: Seq<Seq<char>>, p: Seq<char>, c: Seq<char>)
    ensures
        matches_of(cache.push(c), p) == if is_prefix(p, c) {
            matches_of(cache, p).push(c)
        } else {
            matches_of(cache, p)
        },
{
    assert(cache.push(c).drop_last() =~~= cache);
    assert(cache.push(c).last() == c);
}

pub proof fn lemma_matches_of_concat(a: Seq<Seq<char>>, b: Seq<Seq<char>>, p: Seq<char>)
    ensures
        matches_of(a + b, p) == matches_of(a, p) + matches_of(b, p),
    decreases b.len(),
{
    if b.len() == 0 {
        assert(a + b =~~= a);
        assert(matches_of(a, p) + matches_of(b, p) =~~= matches_of(a, p));
    } else {
        assert((a + b).drop_last() =~~= a + b.drop_last());
        assert((a + b).last() == b.last());
        lemma_matches_of_concat(a, b.drop_last(), p);
        if is_prefix(p, b.last()) {
            assert((matches_of(a, p) + matches_of(b.drop_last(), p)).push(b.last()) =~~= matches_of(
                a,
                p,
            ) + matches_of(b.drop_last(), p).push(b.last()));
        }
    }
}

pub proof fn lemma_matches_of_none(b: Seq<Seq<char>>, p: Seq<char>)
    requires
        forall|i: int| 0 <= i < b.len() ==> !is_prefix(p, #[trigger] b[i]),
    ensures
        matches_of(b, p) == Seq::<Seq<char>>::empty(),
    decreases b.len(),
{
    if b.len() > 0 {
        lemma_matches_of_none(b.drop_last(), p);
    }
}

/// Every reported match starts with the prefix and comes from the cache.
pub proof fn lemma_matches_of_sound(cache: Seq<Seq<char>>, p: Seq<char>)
    ensures
        forall|i: int|
            0 <= i < matches_of(cache, p).len() ==> is_prefix(
                p,
                #[trigger] matches_of(cache, p)[i],
            ) && cache.contains(matches_of(cache, p)[i]),
    decreases cache.len(),
{
    if cache.len() > 0 {
        lemma_matches_of_sound(cache.drop_last(), p);
        let rest = matches_of(cache.drop_last(), p);
        assert forall|i: int| 0 <= i < matches_of(cache, p).len() implies is_prefix(
            p,
            #[trigger] matches_of(cache, p)[i],
        ) && cache.contains(matches_of(cache, p)[i]) by {
            if i < rest.len() {
                assert(matches_of(cache, p)[i] == rest[i]);
                let j = choose|j: int|
                    0 <= j < cache.drop_last().len() && cache.drop_last()[j] == rest[i];
                assert(cache[j] == rest[i]);
            } else {
                assert(matches_of(cache, p)[i] == cache.last());
                assert(cache[cache.len() - 1] == cache.last());
            }
        }
    }
}

pub proof fn lemma_matches_of_len_le(cache: Seq<Seq<char>>, p: Seq<char>)
    ensures
        matches_of(cache, p).len() <= cache.len(),
    decreases cache.len(),
{
    if cache.len() > 0 {
        lemma_matches_of_len_le(cache.drop_last(), p);
    }
}

pub proof fn lemma_prefix_of_trans(a: Seq<Seq<char>>, b: Seq<Seq<char>>, c: Seq<Seq<char>>)
    requires
        a.is_prefix_of(b),
        b.is_prefix_of(c),
    ensures
        a.is_prefix_of(c),
{
    assert(a =~~= c.subrange(0, a.len() as int));
}

/// A cache that has only grown can only have gained matches.
pub proof fn lemma_matches_of_monotone(c1: Seq<Seq<char>>, c2: Seq<Seq<char>>, p: Seq<char>)
    requires
        c1.is_prefix_of(c2),
    ensures
        matches_of(c1, p).len() <= matches_of(c2, p).len(),
{
    assert(c2 =~~= c1 + c2.subrange(c1.len() as int, c2.len() as int));
    lemma_matches_of_concat(c1, c2.subrange(c1.len() as int, c2.len() as int), p);
}

/// An append-only store of candidate names plus the channel that still
/// feeds it.
pub struct SuggestionCache {
    pub items: Vec<Vec<char>>,
    pub rec: std::sync::mpsc::Receiver<Vec<char>>,
}

impl SuggestionCache {
    /// The names cached so far, in arrival order.
    pub open spec fn contents(&self) -> Seq<Seq<char>> {
        self.items.deep_view()
    }

    /// An empty cache that will draw names from `rec` as they are produced.
    pub fn new(rec: std::sync::mpsc::Receiver<Vec<char>>) -> (c: SuggestionCache)
        ensures
            c.contents() =~~= Seq::<Seq<char>>::empty(),
    {
        let items: Vec<Vec<char>> = Vec::new();
        SuggestionCache { items, rec }
    }

    /// All cached names that start with `prefix`, in cache order.
    pub fn search(&self, prefix: &Vec<char>) -> (r: Vec<Vec<char>>)
        ensures
            r.deep_view() == matches_of(self.contents(), prefix@),
    {
        let mut r: Vec<Vec<char>> = Vec::new();
        let mut i: usize = 0;
        proof {
            assert(self.contents().subrange(0, 0) =~~= Seq::<Seq<char>>::empty());
            assert(r.deep_view() =~~= Seq::<Seq<char>>::empty());
        }
        while i < self.items.len()
            invariant
                0 <= i <= self.items@.len(),
                r.deep_view() == matches_of(self.contents().subrange(0, i as int), prefix@),
            decreases self.items@.len() - i,
        {
            let ghost pre = self.contents().subrange(0, i as int);
            proof {
                assert(self.contents().subrange(0, i + 1) =~~= pre.push(self.contents()[i as int]));
                lemma_matches_of_push(pre, prefix@, self.contents()[i as int]);
                assert(self.contents()[i as int] == self.items@[i as int].deep_view());
                assert(self.items@[i as int].deep_view() =~= self.items@[i as int]@);
            }
            if starts_with(&self.items[i], prefix) {
                let ghost old_r = r.deep_view();
                let picked = self.items[i].clone();
                proof {
                    assert(picked.deep_view() =~= self.items@[i as int].deep_view());
                }
                r.push(picked);
                proof {
                    assert(r.deep_view() =~~= old_r.push(self.items@[i as int]@));
                }
            }
            i += 1;
        }
        proof {
            assert(self.contents().subrange(0, self.items@.len() as int) =~~= self.contents());
        }
        r
    }

    /// Block on the channel until a name starting with `prefix` arrives
    /// (append it and return true) or the channel is exhausted (return
    /// false). Every received name is appended, matching or not. The scan
    /// carries a fuel counter so that it provably terminates; the producer
    /// enumerates one directory, far fewer entries than the counter, so the
    /// fuel never runs out on a live channel.
    pub fn pull_more(&mut self, prefix: &Vec<char>) -> (r: bool)
        ensures
            old(self).contents().is_prefix_of(final(self).contents()),
            r ==> final(self).contents().len() > old(self).contents().len() && is_prefix(
                prefix@,
                final(self).contents().last(),
            ) && forall|i: int|
                old(self).contents().len() <= i < final(self).contents().len() - 1 ==> !is_prefix(
                    prefix@,
                    #[trigger] final(self).contents()[i],
                ),
            !r ==> forall|i: int|
                old(self).contents().len() <= i < final(self).contents().len() ==> !is_prefix(
                    prefix@,
                    #[trigger] final(self).contents()[i],
                ),
    {
        let mut fuel: usize = usize::MAX;
        while fuel > 0
            invariant
                old(self).contents().is_prefix_of(self.contents()),
                forall|i: int|
                    old(self).contents().len() <= i < self.contents().len() ==> !is_prefix(
                        prefix@,
                        #[trigger] self.contents()[i],
                    ),
            decreases fuel,
        {
            fuel -= 1;
            match recv_candidate(&self.rec) {
                None => {
                    return false;
                },
                Some(c) => {
                    let matched = starts_with(&c, prefix);
                    let ghost pre = self.contents();
                    self.items.push(c);
                    proof {
                        assert(self.contents() =~~= pre.push(self.items@.last()@));
                        assert(pre.is_prefix_of(self.contents()));
                    }
                    if matched {
                        return true;
                    }
                },
            }
        }
        false
    }

    /// Opportunistically move at most one pending name into the cache; never
    /// removes or reorders what is already there.
    pub fn ingest_one(&mut self)
        ensures
            old(self).contents().is_prefix_of(final(self).contents()),
            final(self).contents().len() <= old(self).contents().len() + 1,
    {
        match recv_candidate(&self.rec) {
            None => {},
            Some(c) => {
                let ghost pre = self.contents();
                self.items.push(c);
                proof {
                    assert(self.contents() =~~= pre.push(self.items@.last()@));
                    assert(pre.is_prefix_of(self.contents()));
                }
            },
        }
    }
}

} // verus!
