//! Value identifiers and the allocator that issues them.

use std::collections::VecDeque;
use vstd::prelude::*;

verus! {

/// Opaque token naming one value produced in a graph.
#[derive(Debug, Clone, Copy, Hash, PartialEq, Eq, PartialOrd, Ord, Structural)]
pub struct Id(pub usize);

/// A source of identifiers.
pub trait IdGenerator {
    type Id: Copy;

    /// Whether another identifier can be issued without exhausting the
    /// identifier space.
    spec fn can_issue(&self) -> bool;

    fn fresh(&mut self) -> Self::Id
        requires
            old(self).can_issue(),
    ;

    fn release(&mut self, id: Self::Id);
}

/// Mathematical model of a [`FreeList`]: the highest identifier ever minted
/// and the queue of released identifiers awaiting reuse.
pub struct IdPool {
    pub counter: usize,
    pub free: Seq<usize>,
}

impl IdPool {
    /// The identifier that the next allocation returns.
    pub open spec fn next(self) -> Id {
        if self.free.len() > 0 {
            Id(self.free[0])
        } else {
            Id((self.counter + 1) as usize)
        }
    }

    /// The pool after one allocation.
    pub open spec fn advance(self) -> IdPool {
        if self.free.len() > 0 {
            IdPool { counter: self.counter, free: self.free.skip(1) }
        } else {
            IdPool { counter: (self.counter + 1) as usize, free: self.free }
        }
    }

    /// The pool after `id` has been handed back.
    pub open spec fn recycle(self, id: Id) -> IdPool {
        IdPool { counter: self.counter, free: self.free.push(id.0) }
    }

    /// How many more identifiers can be issued before the counter would
    /// leave the machine's range.
    pub open spec fn headroom(self) -> nat {
        (self.free.len() + (usize::MAX - self.counter)) as nat
    }

    /// The first `k` identifiers that successive allocations return.
    pub open spec fn take(self, k: nat) -> Seq<Id>
        decreases k,
    {
        if k == 0 {
            Seq::empty()
        } else {
            seq![self.next()] + self.advance().take((k - 1) as nat)
        }
    }

    /// The pool after `k` successive allocations.
    pub open spec fn skip(self, k: nat) -> IdPool
        decreases k,
    {
        if k == 0 {
            self
        } else {
            self.advance().skip((k - 1) as nat)
        }
    }

    /// Released identifiers are pairwise distinct and were all minted.
    pub open spec fn wf(self) -> bool {
        &&& self.free.no_duplicates()
        &&& forall|i: int| 0 <= i < self.free.len() ==> 1 <= #[trigger] self.free[i] <= self.counter
    }

    /// `id` has been issued and not handed back.
    pub open spec fn is_live(self, id: Id) -> bool {
        &&& 1 <= id.0 <= self.counter
        &&& !self.free.contains(id.0)
    }

    /// Successive allocations from a well-formed pool yield identifiers
    /// that were not live and differ from each other, make them live, keep
    /// every live identifier live and keep the pool well formed.
    pub proof fn lemma_take(self, k: nat)
        requires
            self.wf(),
            self.headroom() >= k,
        ensures
            self.take(k).len() == k,
            self.skip(k).wf(),
            forall|id: Id| self.is_live(id) ==> #[trigger] self.skip(k).is_live(id),
            forall|m: int| 0 <= m < k ==> !self.is_live(#[trigger] self.take(k)[m]),
            forall|m: int| 0 <= m < k ==> self.skip(k).is_live(#[trigger] self.take(k)[m]),
            forall|m: int, n: int| 0 <= m < n < k ==> self.take(k)[m] != self.take(k)[n],
        decreases k,
    {
        if k > 0 {
            let rest = (k - 1) as nat;
            let next = self.advance();
            self.lemma_advance();
            next.lemma_take(rest);
            let ids = self.take(k);
            assert(ids[0] == self.next());
            assert forall|m: int| 1 <= m < k implies #[trigger] ids[m] == next.take(rest)[m - 1] by {}
            assert forall|id: Id| self.is_live(id) implies #[trigger] self.skip(k).is_live(id) by {
                assert(next.is_live(id));
            }
            assert forall|m: int| 0 <= m < k implies !self.is_live(#[trigger] ids[m]) by {
                if m > 0 {
                    assert(!next.is_live(next.take(rest)[m - 1]));
                    if self.is_live(ids[m]) {
                        assert(next.is_live(ids[m]));
                    }
                }
            }
            assert forall|m: int| 0 <= m < k implies self.skip(k).is_live(#[trigger] ids[m]) by {
                if m > 0 {
                    assert(next.skip(rest).is_live(next.take(rest)[m - 1]));
                } else {
                    assert(next.is_live(ids[0]));
                }
            }
            assert forall|m: int, n: int| 0 <= m < n < k implies ids[m] != ids[n] by {
                assert(!next.is_live(next.take(rest)[n - 1]));
                if m > 0 {
                    assert(next.take(rest)[m - 1] != next.take(rest)[n - 1]);
                } else {
                    assert(next.is_live(ids[0]));
                }
            }
        }
    }

    /// Handing back a live identifier keeps the pool well formed, ends the
    /// life of that identifier and of no other.
    pub proof fn lemma_recycle(self, id: Id)
        requires
            self.wf(),
            self.is_live(id),
        ensures
            self.recycle(id).wf(),
            !self.recycle(id).is_live(id),
            forall|other: Id|
                other != id ==> (#[trigger] self.recycle(id).is_live(other) <==> self.is_live(other)),
    {
        let after = self.recycle(id);
        assert(after.free.no_duplicates()) by {
            assert forall|i: int, j: int|
                0 <= i < after.free.len() && 0 <= j < after.free.len() && i != j implies after.free[i]
                != after.free[j] by {
                if i < self.free.len() {
                    assert(self.free.contains(self.free[i]));
                }
                if j < self.free.len() {
                    assert(self.free.contains(self.free[j]));
                }
            }
        }
        assert(after.free[self.free.len() as int] == id.0);
        assert forall|other: Id| other != id implies (#[trigger] after.is_live(other)
            <==> self.is_live(other)) by {
            if after.free.contains(other.0) {
                let j = choose|j: int| 0 <= j < after.free.len() && after.free[j] == other.0;
                assert(self.free[j] == other.0);
            }
            if self.free.contains(other.0) {
                let j = choose|j: int| 0 <= j < self.free.len() && self.free[j] == other.0;
                assert(after.free[j] == other.0);
            }
        }
    }

    /// One more allocation yields what the pool, advanced that far, yields
    /// next.
    pub proof fn lemma_take_one_more(self, k: nat)
        ensures
            self.take(k + 1) == self.take(k).push(self.skip(k).next()),
            self.skip(k + 1) == self.skip(k).advance(),
        decreases k,
    {
        if k == 0 {
            reveal_with_fuel(IdPool::take, 2);
            reveal_with_fuel(IdPool::skip, 2);
            assert(self.take(1) =~= self.take(0).push(self.skip(0).next()));
        } else {
            self.advance().lemma_take_one_more((k - 1) as nat);
            assert(self.take(k + 1) =~= self.take(k).push(self.skip(k).next()));
        }
    }

    /// Each allocation uses up one unit of headroom.
    pub proof fn lemma_skip_headroom(self, k: nat)
        requires
            self.headroom() >= k,
        ensures
            self.skip(k).headroom() == self.headroom() - k,
        decreases k,
    {
        if k > 0 {
            self.advance().lemma_skip_headroom((k - 1) as nat);
        }
    }

    /// An allocation from a well-formed pool yields an identifier that was
    /// not live, makes it live, keeps every live identifier live and keeps
    /// the pool well formed.
    pub proof fn lemma_advance(self)
        requires
            self.wf(),
            self.headroom() > 0,
        ensures
            !self.is_live(self.next()),
            self.advance().wf(),
            self.advance().is_live(self.next()),
            self.advance().headroom() == self.headroom() - 1,
            forall|id: Id| self.is_live(id) ==> self.advance().is_live(id),
            forall|id: Id| #[trigger] self.advance().is_live(id) ==> self.is_live(id) || id == self.next(),
    {
        let after = self.advance();
        if self.free.len() > 0 {
            assert(self.free[0] == self.next().0);
            assert forall|i: int| 0 <= i < after.free.len() implies 1 <= #[trigger] after.free[i]
                <= after.counter by {
                assert(after.free[i] == self.free[i + 1]);
            }
            assert(after.free.no_duplicates()) by {
                assert forall|i: int, j: int|
                    0 <= i < after.free.len() && 0 <= j < after.free.len() && i != j implies after.free[i]
                    != after.free[j] by {
                    assert(after.free[i] == self.free[i + 1]);
                    assert(after.free[j] == self.free[j + 1]);
                }
            }
            assert(!after.free.contains(self.free[0])) by {
                if after.free.contains(self.free[0]) {
                    let j = choose|j: int| 0 <= j < after.free.len() && after.free[j] == self.free[0];
                    assert(self.free[j + 1] == self.free[0]);
                }
            }
            assert forall|id: Id| self.is_live(id) implies after.is_live(id) by {
                if after.free.contains(id.0) {
                    let j = choose|j: int| 0 <= j < after.free.len() && after.free[j] == id.0;
                    assert(self.free[j + 1] == id.0);
                }
            }
            assert forall|id: Id| #[trigger] after.is_live(id) implies self.is_live(id) || id
                == self.next() by {
                if self.free.contains(id.0) && id != self.next() {
                    let j = choose|j: int| 0 <= j < self.free.len() && self.free[j] == id.0;
                    assert(j != 0);
                    assert(after.free[j - 1] == id.0);
                }
            }
        } else {
            assert(self.counter < usize::MAX);
            assert(!after.free.contains(self.next().0)) by {
                if after.free.contains(self.next().0) {
                    let j = choose|j: int| 0 <= j < after.free.len() && after.free[j] == self.next().0;
                    assert(self.free[j] <= self.counter);
                }
            }
        }
    }
}

/// Allocator that recycles released identifiers in the order of their
/// release and otherwise mints the successor of the last minted one.
#[derive(Debug)]
pub struct FreeList {
    counter: usize,
    freelist: VecDeque<usize>,
}

impl View for FreeList {
    type V = IdPool;

    closed spec fn view(&self) -> IdPool {
        IdPool { counter: self.counter, free: self.freelist@ }
    }
}

impl FreeList {
    pub fn new() -> (list: FreeList)
        ensures
            list@ == (IdPool { counter: 0, free: Seq::empty() }),
            list@.wf(),
    {
        FreeList { counter: 0, freelist: VecDeque::new() }
    }

    /// Whether `n` more identifiers can be issued.
    pub fn has_room(&self, n: usize) -> (enough: bool)
        ensures
            enough == (self@.headroom() >= n),
    {
        let unminted: usize = usize::MAX - self.counter;
        unminted >= n || self.freelist.len() >= n - unminted
    }

    /// A copy of this allocator in the same state.
    pub fn duplicate(&self) -> (copy: FreeList)
        ensures
            copy@ == self@,
    {
        let mut freelist: VecDeque<usize> = VecDeque::new();
        let n: usize = self.freelist.len();
        let mut i: usize = 0;
        while i < n
            invariant
                n == self.freelist@.len(),
                0 <= i <= n,
                freelist@ == self.freelist@.take(i as int),
            decreases n - i,
        {
            freelist.push_back(self.freelist[i]);
            assert(self.freelist@.take(i as int).push(self.freelist@[i as int])
                =~= self.freelist@.take(i as int + 1));
            i += 1;
        }
        assert(self.freelist@.take(n as int) =~= self.freelist@);
        FreeList { counter: self.counter, freelist }
    }
}

impl Default for FreeList {
    fn default() -> (list: FreeList)
        ensures
            list@ == (IdPool { counter: 0, free: Seq::empty() }),
    {
        FreeList::new()
    }
}

impl IdGenerator for FreeList {
    type Id = Id;

    open spec fn can_issue(&self) -> bool {
        self@.headroom() > 0
    }

    /// Pops the oldest released identifier if there is one, else mints the
    /// next counter value.
    fn fresh(&mut self) -> (id: Id)
        ensures
            id == old(self)@.next(),
            final(self)@ == old(self)@.advance(),
    {
        match self.freelist.pop_front() {
            Some(raw) => {
                assert(self.freelist@ =~= old(self).freelist@.skip(1));
                Id(raw)
            },
            None => {
                self.counter += 1;
                Id(self.counter)
            },
        }
    }

    /// Queues `id` for reuse behind the identifiers released before it.
    fn release(&mut self, id: Id)
        ensures
            final(self)@ == old(self)@.recycle(id),
    {
        self.freelist.push_back(id.0);
    }
}

} // verus!
