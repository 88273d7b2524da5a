//! The completion barrier: the set of correlation tokens whose completion
//! events are still outstanding.

use vstd::prelude::*;

verus! {

/// What tracking a token does to the pending tokens: a token already pending
/// is not tracked twice.
pub open spec fn insert_token(p: Seq<u64>, t: u64) -> Seq<u64> {
    if p.contains(t) {
        p
    } else {
        p.push(t)
    }
}

/// What a matched completion does to the pending tokens: the token's one
/// occurrence goes away; an unknown token changes nothing.
pub open spec fn remove_token(p: Seq<u64>, t: u64) -> Seq<u64> {
    p.remove_value(t)
}

/// Removing a token that is present from a duplicate-free sequence drops its
/// length by one, keeps every other token, and keeps freedom from duplicates.
pub proof fn lemma_remove_token(p: Seq<u64>, t: u64)
    requires
        p.no_duplicates(),
        p.contains(t),
    ensures
        remove_token(p, t).len() == p.len() - 1,
        remove_token(p, t).no_duplicates(),
        !remove_token(p, t).contains(t),
        forall|x: u64| x != t ==> (remove_token(p, t).contains(x) <==> p.contains(x)),
        forall|k: int| 0 <= k < remove_token(p, t).len() ==> p.contains(#[trigger] remove_token(p, t)[k]),
{
    p.index_of_first_ensures(t);
    let i = p.index_of_first(t).unwrap();
    p.remove_ensures(i);
    let r = remove_token(p, t);
    assert forall|a: int, b: int|
        0 <= a < r.len() && 0 <= b < r.len() && a != b implies r[a] != r[b] by {
        let pa: int = if a < i { a } else { a + 1 };
        let pb: int = if b < i { b } else { b + 1 };
        assert(r[a] == p[pa]);
        assert(r[b] == p[pb]);
    }
    assert forall|k: int| 0 <= k < r.len() implies p.contains(#[trigger] r[k]) by {
        let pk: int = if k < i { k } else { k + 1 };
        assert(r[k] == p[pk]);
    }
    assert forall|k: int| 0 <= k < r.len() implies r[k] != t by {
        let pk: int = if k < i { k } else { k + 1 };
        assert(r[k] == p[pk]);
        assert(pk != i);
    }
    assert forall|x: u64| x != t && p.contains(x) implies r.contains(x) by {
        let j = choose|j: int| 0 <= j < p.len() && p[j] == x;
        if j < i {
            assert(r[j] == p[j]);
        } else {
            assert(j != i);
            assert(r[j - 1] == p[j]);
        }
    }
}

/// The mutable collection of outstanding correlation tokens.  Emptiness, and
/// nothing else, is the termination condition of the dispatch loop.
pub struct PendingSet {
    tokens: Vec<u64>,
}

impl View for PendingSet {
    type V = Seq<u64>;

    closed spec fn view(&self) -> Seq<u64> {
        self.tokens@
    }
}

impl PendingSet {
    /// A token is pending at most once.
    pub open spec fn inv(&self) -> bool {
        self@.no_duplicates()
    }

    /// An empty barrier: nothing outstanding.
    pub fn new() -> (r: PendingSet)
        ensures
            r@ == Seq::<u64>::empty(),
            r.inv(),
    {
        let r = PendingSet { tokens: Vec::new() };
        proof {
            assert(r@ =~= Seq::<u64>::empty());
        }
        r
    }

    /// How many tokens are outstanding.
    pub fn len(&self) -> (n: usize)
        ensures
            n == self@.len(),
    {
        self.tokens.len()
    }

    /// Whether `t` is outstanding.
    pub fn contains(&self, t: u64) -> (r: bool)
        ensures
            r == self@.contains(t),
    {
        let n = self.tokens.len();
        let mut i: usize = 0;
        while i < n
            invariant
                n == self@.len(),
                i <= n,
                forall|j: int| 0 <= j < i ==> self@[j] != t,
            decreases n - i,
        {
            if self.tokens[i] == t {
                return true;
            }
            i = i + 1;
        }
        false
    }

    /// Track a freshly issued token.  Must run before control returns to the
    /// dispatch loop for the event that triggered the request, which holds
    /// trivially under single-threaded, non-reentrant dispatch.
    pub fn track(&mut self, t: u64)
        requires
            old(self).inv(),
        ensures
            final(self).inv(),
            final(self)@ == insert_token(old(self)@, t),
    {
        if !self.contains(t) {
            self.tokens.push(t);
        }
    }

    /// Match a completion event against the barrier: an unknown token is
    /// ignored; a known one is removed; `stop` reports whether the barrier
    /// just became empty, which is the signal to quit the loop.
    pub fn complete(&mut self, t: u64) -> (stop: bool)
        requires
            old(self).inv(),
        ensures
            final(self).inv(),
            final(self)@ == remove_token(old(self)@, t),
            stop == (old(self)@.contains(t) && old(self)@.len() == 1),
            stop == (old(self)@.contains(t) && final(self)@.len() == 0),
    {
        let ghost p = self.tokens@;
        let n = self.tokens.len();
        let mut i: usize = 0;
        while i < n
            invariant
                self.tokens@ == p,
                p == old(self)@,
                p.no_duplicates(),
                n == p.len(),
                i <= n,
                forall|j: int| 0 <= j < i ==> p[j] != t,
            decreases n - i,
        {
            if self.tokens[i] == t {
                proof {
                    assert(p.contains(t)) by {
                        assert(p[i as int] == t);
                    }
                    p.index_of_first_ensures(t);
                    let fi = p.index_of_first(t).unwrap();
                    assert(fi == i as int) by {
                        assert(p[fi] == t);
                        assert(forall|j: int| 0 <= j < fi ==> p[j] != t);
                    }
                    lemma_remove_token(p, t);
                }
                self.tokens.remove(i);
                proof {
                    assert(self.tokens@ == p.remove(i as int));
                    assert(p.index_of_first(t) == Some(i as int));
                    assert(remove_token(p, t) == p.remove(i as int));
                    assert(self.tokens@.len() == p.len() - 1);
                }
                return self.tokens.len() == 0;
            }
            i = i + 1;
        }
        proof {
            assert(!p.contains(t));
            p.index_of_first_ensures(t);
        }
        false
    }
}

} // verus!
