//! The cache's control metadata: one record per slot, all records linked
//! into a single doubly-linked recency list.
//!
//! The intrusive list is realised as an arena: the records live in a
//! fixed vector, and the `prev`/`next` links are slot indices rather than
//! raw pointers.  A ghost sequence `order` records the list from
//! most-recently-used head to least-recently-used tail; well-formedness
//! ties every link, and the head and tail, to that sequence, so the list
//! always threads all records exactly once.
//!
//! All operations here are executed while holding the metadata spinlock;
//! the facade in `bio` enforces that.

use vstd::prelude::*;

use vstd::seq_lib::group_seq_properties;
use vstd::set_lib::lemma_int_range;
use vstd::set_lib::lemma_subset_equality;
use vstd::set_lib::set_int_range;

verus! {

/// The control record of one slot: the identity of the block the slot
/// holds, how many live handles reference it, its links in the recency
/// list, and its own (permanent) slot index.
#[derive(Clone, Copy)]
pub struct BufCtrl {
    pub dev: u32,
    pub blockno: u32,
    pub prev: Option<usize>,
    pub next: Option<usize>,
    pub refcnt: usize,
    pub index: usize,
}

impl BufCtrl {
    pub fn new() -> (c: BufCtrl)
        ensures
            c == (BufCtrl {
                dev: 0,
                blockno: 0,
                prev: None,
                next: None,
                refcnt: 0,
                index: 0,
            }),
    {
        BufCtrl { dev: 0, blockno: 0, prev: None, next: None, refcnt: 0, index: 0 }
    }
}

/// The recency list over all control records.
pub struct BufLru {
    inner: Vec<BufCtrl>,
    head: Option<usize>,
    tail: Option<usize>,
    order: Ghost<Seq<int>>,
}

impl BufLru {
    /// Number of slots in the pool.
    pub closed spec fn len(self) -> nat {
        self.inner@.len()
    }

    /// The control record of slot `i`.
    pub closed spec fn slot(self, i: int) -> BufCtrl {
        self.inner@[i]
    }

    /// The list from most-recently-used to least-recently-used, as slot
    /// indices.
    pub closed spec fn order(self) -> Seq<int> {
        self.order@
    }

    pub closed spec fn head_link(self) -> Option<usize> {
        self.head
    }

    pub closed spec fn tail_link(self) -> Option<usize> {
        self.tail
    }

    /// Well-formedness: the recency list is a permutation of all slot
    /// indices, every `prev`/`next` link agrees with it, the head and tail
    /// point at its ends, and each record knows its own index.
    pub open spec fn wf(self) -> bool {
        let n = self.len() as int;
        &&& self.order().len() == n
        &&& forall|j: int| 0 <= j < n ==> 0 <= #[trigger] self.order()[j] < n
        &&& forall|j1: int, j2: int|
            0 <= j1 < j2 < n ==> self.order()[j1] != self.order()[j2]
        &&& forall|j: int|
            0 <= j < n ==> (#[trigger] self.slot(self.order()[j])).prev == (if j == 0 {
                None::<usize>
            } else {
                Some(self.order()[j - 1] as usize)
            })
        &&& forall|j: int|
            0 <= j < n ==> (#[trigger] self.slot(self.order()[j])).next == (if j == n - 1 {
                None::<usize>
            } else {
                Some(self.order()[j + 1] as usize)
            })
        &&& forall|i: int| 0 <= i < n ==> (#[trigger] self.slot(i)).index == i
        &&& self.head_link() == (if n == 0 {
            None::<usize>
        } else {
            Some(self.order()[0] as usize)
        })
        &&& self.tail_link() == (if n == 0 {
            None::<usize>
        } else {
            Some(self.order()[n - 1] as usize)
        })
    }

    /// Whether slot `i` currently carries the identity `(dev, blockno)`.
    pub open spec fn slot_matches(self, i: int, dev: u32, blockno: u32) -> bool {
        self.slot(i).dev == dev && self.slot(i).blockno == blockno
    }

    /// The slot a head-to-tail scan for `(dev, blockno)` finds, starting at
    /// list position `j`.
    pub open spec fn first_match_from(self, j: int, dev: u32, blockno: u32) -> Option<int>
        decreases self.order().len() - j,
    {
        if j < 0 || j >= self.order().len() {
            None
        } else if self.slot_matches(self.order()[j], dev, blockno) {
            Some(self.order()[j])
        } else {
            self.first_match_from(j + 1, dev, blockno)
        }
    }

    /// The slot a cache lookup for `(dev, blockno)` finds: the match
    /// closest to the most-recently-used end, if any.
    pub open spec fn first_match(self, dev: u32, blockno: u32) -> Option<int> {
        self.first_match_from(0, dev, blockno)
    }

    /// The slot a tail-to-head scan for an unreferenced record finds,
    /// starting at list position `j`.
    pub open spec fn victim_from(self, j: int) -> Option<int>
        decreases j + 1,
    {
        if j < 0 || j >= self.order().len() {
            None
        } else if self.slot(self.order()[j]).refcnt == 0 {
            Some(self.order()[j])
        } else {
            self.victim_from(j - 1)
        }
    }

    /// The slot eviction selects: the unreferenced record closest to the
    /// least-recently-used end, if any.
    pub open spec fn victim(self) -> Option<int> {
        self.victim_from(self.order().len() - 1)
    }

    /// The list position of slot `i`.
    pub open spec fn pos_of(self, i: int) -> int {
        choose|j: int| 0 <= j < self.order().len() && self.order()[j] == i
    }
}

/// Every slot index appears somewhere in the recency list: the list has as
/// many entries as there are slots, all in range and pairwise distinct, so
/// by counting it covers them all.
pub proof fn lemma_order_covers(lru: BufLru)
    requires
        lru.wf(),
    ensures
        forall|i: int| 0 <= i < lru.len() ==> #[trigger] lru.order().contains(i),
{
    broadcast use group_seq_properties;

    let n = lru.len() as int;
    let s = lru.order();
    assert(s.no_duplicates());
    s.unique_seq_to_set();
    lemma_int_range(0, n);
    assert(s.to_set().subset_of(set_int_range(0, n))) by {
        assert forall|x: int| s.to_set().contains(x) implies set_int_range(0, n).contains(x) by {
            let j = choose|j: int| 0 <= j < s.len() && s[j] == x;
            assert(0 <= s[j] < n);
        }
    }
    lemma_subset_equality(s.to_set(), set_int_range(0, n));
    assert forall|i: int| 0 <= i < n implies #[trigger] s.contains(i) by {
        assert(set_int_range(0, n).contains(i));
        assert(s.to_set().contains(i));
    }
}

/// `pos_of` really is the (unique) list position of a slot.
pub proof fn lemma_pos_of(lru: BufLru, i: int)
    requires
        lru.wf(),
        0 <= i < lru.len(),
    ensures
        0 <= lru.pos_of(i) < lru.len(),
        lru.order()[lru.pos_of(i)] == i,
        forall|j: int| 0 <= j < lru.len() && lru.order()[j] == i ==> j == lru.pos_of(i),
{
    lemma_order_covers(lru);
    assert(lru.order().contains(i));
    assert(exists|j: int| 0 <= j < lru.order().len() && lru.order()[j] == i);
    let p = lru.pos_of(i);
    assert(0 <= p < lru.order().len() && lru.order()[p] == i);
    assert forall|j: int| 0 <= j < lru.len() && lru.order()[j] == i implies j == p by {
        if j != p {
            if j < p {
                assert(lru.order()[j] != lru.order()[p]);
            } else {
                assert(lru.order()[p] != lru.order()[j]);
            }
        }
    }
}

/// A successful head-to-tail scan returns a slot that is in range and
/// carries the identity scanned for.
pub proof fn lemma_first_match_some(lru: BufLru, j: int, dev: u32, blockno: u32, i: int)
    requires
        lru.wf(),
        lru.first_match_from(j, dev, blockno) == Some(i),
    ensures
        0 <= i < lru.len(),
        lru.slot_matches(i, dev, blockno),
    decreases lru.order().len() - j,
{
    if j < 0 || j >= lru.order().len() {
    } else if lru.slot_matches(lru.order()[j], dev, blockno) {
    } else {
        lemma_first_match_some(lru, j + 1, dev, blockno, i);
    }
}

/// A failed lookup means no slot at all carries the identity.
pub proof fn lemma_first_match_none(lru: BufLru, dev: u32, blockno: u32)
    requires
        lru.wf(),
        lru.first_match(dev, blockno) is None,
    ensures
        forall|i: int| 0 <= i < lru.len() ==> !lru.slot_matches(i, dev, blockno),
{
    lemma_order_covers(lru);
    lemma_first_match_from_none(lru, 0, dev, blockno);
    assert forall|i: int| 0 <= i < lru.len() implies !lru.slot_matches(i, dev, blockno) by {
        lemma_pos_of(lru, i);
        let j = lru.pos_of(i);
        assert(!lru.slot_matches(lru.order()[j], dev, blockno));
    }
}

proof fn lemma_first_match_from_none(lru: BufLru, j: int, dev: u32, blockno: u32)
    requires
        0 <= j,
        lru.first_match_from(j, dev, blockno) is None,
    ensures
        forall|k: int|
            j <= k < lru.order().len() ==> !lru.slot_matches(
                #[trigger] lru.order()[k],
                dev,
                blockno,
            ),
    decreases lru.order().len() - j,
{
    if j >= lru.order().len() {
    } else {
        lemma_first_match_from_none(lru, j + 1, dev, blockno);
    }
}

/// Eviction never selects a referenced slot: a selected victim has
/// reference count zero.
pub proof fn lemma_victim_some(lru: BufLru, j: int, i: int)
    requires
        lru.wf(),
        lru.victim_from(j) == Some(i),
    ensures
        0 <= i < lru.len(),
        lru.slot(i).refcnt == 0,
    decreases j + 1,
{
    if j < 0 || j >= lru.order().len() {
    } else if lru.slot(lru.order()[j]).refcnt == 0 {
    } else {
        lemma_victim_some(lru, j - 1, i);
    }
}

/// When eviction finds no victim, every slot in the pool is referenced:
/// the pool really is exhausted.
pub proof fn lemma_victim_none(lru: BufLru)
    requires
        lru.wf(),
        lru.victim() is None,
    ensures
        forall|i: int| 0 <= i < lru.len() ==> (#[trigger] lru.slot(i)).refcnt > 0,
{
    lemma_order_covers(lru);
    lemma_victim_from_none(lru, lru.order().len() - 1);
    assert forall|i: int| 0 <= i < lru.len() implies (#[trigger] lru.slot(i)).refcnt > 0 by {
        lemma_pos_of(lru, i);
        let j = lru.pos_of(i);
        assert(lru.slot(lru.order()[j]).refcnt > 0);
    }
}

proof fn lemma_victim_from_none(lru: BufLru, j: int)
    requires
        j < lru.order().len(),
        lru.victim_from(j) is None,
    ensures
        forall|k: int|
            0 <= k <= j && k < lru.order().len() ==> (#[trigger] lru.slot(
                lru.order()[k],
            )).refcnt > 0,
    decreases j + 1,
{
    if j < 0 {
    } else {
        lemma_victim_from_none(lru, j - 1);
    }
}

proof fn lemma_victim_from_position(lru: BufLru, j: int, i: int)
    requires
        lru.wf(),
        0 <= j < lru.len(),
        lru.victim_from(j) == Some(i),
    ensures
        exists|jp: int|
            0 <= jp <= j && #[trigger] lru.order()[jp] == i && forall|k: int|
                jp < k <= j ==> (#[trigger] lru.slot(lru.order()[k])).refcnt > 0,
    decreases j + 1,
{
    if lru.slot(lru.order()[j]).refcnt == 0 {
        assert(lru.order()[j] == i);
        assert(lru.order()[j] == i && forall|k: int|
            j < k <= j ==> (#[trigger] lru.slot(lru.order()[k])).refcnt > 0);
    } else {
        lemma_victim_from_position(lru, j - 1, i);
        let jp = choose|jp: int|
            0 <= jp <= j - 1 && #[trigger] lru.order()[jp] == i && forall|k: int|
                jp < k <= j - 1 ==> (#[trigger] lru.slot(lru.order()[k])).refcnt > 0;
        assert(lru.order()[jp] == i && forall|k: int|
            jp < k <= j ==> (#[trigger] lru.slot(lru.order()[k])).refcnt > 0);
    }
}

/// Eviction selects the *globally* least-recently-used unreferenced
/// record: every record nearer the least-recently-used end than the
/// victim is referenced.
pub proof fn lemma_victim_least_recently_used(lru: BufLru, i: int)
    requires
        lru.wf(),
        lru.victim() == Some(i),
    ensures
        0 <= i < lru.len(),
        lru.slot(i).refcnt == 0,
        exists|jp: int|
            0 <= jp < lru.len() && #[trigger] lru.order()[jp] == i && forall|k: int|
                jp < k < lru.len() ==> (#[trigger] lru.slot(lru.order()[k])).refcnt > 0,
{
    lemma_victim_some(lru, lru.order().len() - 1, i);
    lemma_victim_from_position(lru, lru.order().len() - 1, i);
}

proof fn lemma_first_match_from_position(lru: BufLru, j: int, dev: u32, blockno: u32, i: int)
    requires
        lru.wf(),
        0 <= j <= lru.len(),
        lru.first_match_from(j, dev, blockno) == Some(i),
    ensures
        exists|jp: int|
            j <= jp < lru.len() && #[trigger] lru.order()[jp] == i && forall|k: int|
                j <= k < jp ==> !lru.slot_matches(#[trigger] lru.order()[k], dev, blockno),
    decreases lru.len() - j,
{
    if lru.slot_matches(lru.order()[j], dev, blockno) {
        assert(lru.order()[j] == i && forall|k: int|
            j <= k < j ==> !lru.slot_matches(#[trigger] lru.order()[k], dev, blockno));
    } else {
        lemma_first_match_from_position(lru, j + 1, dev, blockno, i);
        let jp = choose|jp: int|
            j + 1 <= jp < lru.len() && #[trigger] lru.order()[jp] == i && forall|k: int|
                j + 1 <= k < jp ==> !lru.slot_matches(
                    #[trigger] lru.order()[k],
                    dev,
                    blockno,
                );
        assert(lru.order()[jp] == i && forall|k: int|
            j <= k < jp ==> !lru.slot_matches(#[trigger] lru.order()[k], dev, blockno));
    }
}

/// A cache hit returns the match nearest the most-recently-used end; a
/// cached block is found whatever its recency position, since nothing
/// before its position matches.
pub proof fn lemma_first_match_most_recent(lru: BufLru, dev: u32, blockno: u32, i: int)
    requires
        lru.wf(),
        lru.first_match(dev, blockno) == Some(i),
    ensures
        0 <= i < lru.len(),
        lru.slot_matches(i, dev, blockno),
        exists|jp: int|
            0 <= jp < lru.len() && #[trigger] lru.order()[jp] == i && forall|k: int|
                0 <= k < jp ==> !lru.slot_matches(#[trigger] lru.order()[k], dev, blockno),
{
    lemma_first_match_some(lru, 0, dev, blockno, i);
    lemma_first_match_from_position(lru, 0, dev, blockno, i);
}

/// The quiescent-state shape of the recency list: it threads all records,
/// neighbouring links agree with each other, the ends carry no outward
/// link, and no two records share a slot index.
pub proof fn lemma_links_consistent(lru: BufLru)
    requires
        lru.wf(),
    ensures
        lru.order().len() == lru.len(),
        forall|i: int|
            0 <= i < lru.len() ==> match (#[trigger] lru.slot(i)).next {
                Some(k) => k < lru.len() && lru.slot(k as int).prev == Some(i as usize),
                None => lru.tail_link() == Some(i as usize),
            },
        forall|i: int|
            0 <= i < lru.len() ==> match (#[trigger] lru.slot(i)).prev {
                Some(k) => k < lru.len() && lru.slot(k as int).next == Some(i as usize),
                None => lru.head_link() == Some(i as usize),
            },
        forall|i1: int, i2: int|
            0 <= i1 < lru.len() && 0 <= i2 < lru.len() && i1 != i2 ==> lru.slot(i1).index
                != lru.slot(i2).index,
{
    let n = lru.len() as int;
    assert forall|i: int| 0 <= i < n implies match (#[trigger] lru.slot(i)).next {
        Some(k) => k < lru.len() && lru.slot(k as int).prev == Some(i as usize),
        None => lru.tail_link() == Some(i as usize),
    } by {
        lemma_pos_of(lru, i);
        let j = lru.pos_of(i);
        assert(lru.slot(lru.order()[j]).next == (if j == n - 1 {
            None::<usize>
        } else {
            Some(lru.order()[j + 1] as usize)
        }));
        if j < n - 1 {
            assert(lru.slot(lru.order()[j + 1]).prev == Some(lru.order()[j] as usize));
        }
    }
    assert forall|i: int| 0 <= i < n implies match (#[trigger] lru.slot(i)).prev {
        Some(k) => k < lru.len() && lru.slot(k as int).next == Some(i as usize),
        None => lru.head_link() == Some(i as usize),
    } by {
        lemma_pos_of(lru, i);
        let j = lru.pos_of(i);
        assert(lru.slot(lru.order()[j]).prev == (if j == 0 {
            None::<usize>
        } else {
            Some(lru.order()[j - 1] as usize)
        }));
        if j > 0 {
            assert(lru.slot(lru.order()[j - 1]).next == Some(lru.order()[j] as usize));
        }
    }
}

/// Rewriting one record's identity or reference count, with its links, its
/// index and the rest of the list untouched, preserves well-formedness.
proof fn lemma_wf_after_slot_update(pre: BufLru, post: BufLru, i: int)
    requires
        pre.wf(),
        0 <= i < pre.len(),
        post.len() == pre.len(),
        post.order() == pre.order(),
        post.head_link() == pre.head_link(),
        post.tail_link() == pre.tail_link(),
        forall|m: int| 0 <= m < pre.len() && m != i ==> post.slot(m) == pre.slot(m),
        post.slot(i).prev == pre.slot(i).prev,
        post.slot(i).next == pre.slot(i).next,
        post.slot(i).index == pre.slot(i).index,
    ensures
        post.wf(),
{
    let n = pre.len() as int;
    assert forall|m: int| 0 <= m < n implies #[trigger] post.slot(m).prev == pre.slot(m).prev
        && post.slot(m).next == pre.slot(m).next && post.slot(m).index == pre.slot(m).index by {
        if m != i {
            assert(post.slot(m) == pre.slot(m));
        }
    }
    assert forall|j: int| 0 <= j < n implies (#[trigger] post.slot(post.order()[j])).prev == (
    if j == 0 {
        None::<usize>
    } else {
        Some(post.order()[j - 1] as usize)
    }) by {
        let m = pre.order()[j];
        assert(post.slot(m).prev == pre.slot(m).prev);
        assert(pre.slot(pre.order()[j]).prev == (if j == 0 {
            None::<usize>
        } else {
            Some(pre.order()[j - 1] as usize)
        }));
    }
    assert forall|j: int| 0 <= j < n implies (#[trigger] post.slot(post.order()[j])).next == (
    if j == n - 1 {
        None::<usize>
    } else {
        Some(post.order()[j + 1] as usize)
    }) by {
        let m = pre.order()[j];
        assert(post.slot(m).next == pre.slot(m).next);
        assert(pre.slot(pre.order()[j]).next == (if j == n - 1 {
            None::<usize>
        } else {
            Some(pre.order()[j + 1] as usize)
        }));
    }
    assert forall|m: int| 0 <= m < n implies (#[trigger] post.slot(m)).index == m by {
        assert(pre.slot(m).index == m);
    }
}

impl BufLru {
    /// A pool of `nbuf` unwired records; `init` threads them into the list.
    pub fn new(nbuf: usize) -> (lru: BufLru)
        ensures
            lru.len() == nbuf,
            forall|i: int|
                0 <= i < nbuf ==> #[trigger] lru.slot(i) == (BufCtrl {
                    dev: 0,
                    blockno: 0,
                    prev: None,
                    next: None,
                    refcnt: 0,
                    index: 0,
                }),
    {
        let mut inner: Vec<BufCtrl> = Vec::new();
        let mut i: usize = 0;
        while i < nbuf
            invariant
                i <= nbuf,
                inner@.len() == i,
                forall|k: int|
                    0 <= k < i ==> #[trigger] inner@[k] == (BufCtrl {
                        dev: 0,
                        blockno: 0,
                        prev: None,
                        next: None,
                        refcnt: 0,
                        index: 0,
                    }),
            decreases nbuf - i,
        {
            inner.push(BufCtrl::new());
            i = i + 1;
        }
        BufLru { inner, head: None, tail: None, order: Ghost(Seq::empty()) }
    }

    /// Thread all records into one list in slot order, head at slot 0, and
    /// assign each record its permanent index.  Called once, before any
    /// other operation.
    pub fn init(&mut self)
        requires
            old(self).len() >= 2,
        ensures
            final(self).wf(),
            final(self).len() == old(self).len(),
            final(self).order() == Seq::new(old(self).len(), |j: int| j),
            forall|i: int|
                0 <= i < old(self).len() ==> {
                    let s = #[trigger] final(self).slot(i);
                    &&& s.dev == old(self).slot(i).dev
                    &&& s.blockno == old(self).slot(i).blockno
                    &&& s.refcnt == old(self).slot(i).refcnt
                    &&& s.index == i
                },
    {
        let n = self.inner.len();
        self.head = Some(0);
        self.tail = Some(n - 1);
        let mut i: usize = 0;
        while i < n
            invariant
                i <= n,
                n == self.inner@.len(),
                old(self).inner@.len() == n,
                2 <= n,
                self.head == Some(0usize),
                self.tail == Some((n - 1) as usize),
                forall|k: int|
                    i <= k < n ==> #[trigger] self.inner@[k] == old(self).inner@[k],
                forall|k: int|
                    0 <= k < i ==> {
                        let s = #[trigger] self.inner@[k];
                        &&& s.dev == old(self).inner@[k].dev
                        &&& s.blockno == old(self).inner@[k].blockno
                        &&& s.refcnt == old(self).inner@[k].refcnt
                        &&& s.index == k
                        &&& s.prev == (if k == 0 {
                            None::<usize>
                        } else {
                            Some((k - 1) as usize)
                        })
                        &&& s.next == (if k == n - 1 {
                            None::<usize>
                        } else {
                            Some((k + 1) as usize)
                        })
                    },
            decreases n - i,
        {
            let prev = if i == 0 {
                None
            } else {
                Some(i - 1)
            };
            let next = if i == n - 1 {
                None
            } else {
                Some(i + 1)
            };
            self.inner[i].prev = prev;
            self.inner[i].next = next;
            self.inner[i].index = i;
            i = i + 1;
        }
        self.order = Ghost(Seq::new(n as nat, |j: int| j));
        proof {
            let n_int = n as int;
            assert(forall|j: int| 0 <= j < n_int ==> #[trigger] self.order()[j] == j);
            assert forall|j: int| 0 <= j < n_int implies (#[trigger] self.slot(
                self.order()[j],
            )).prev == (if j == 0 {
                None::<usize>
            } else {
                Some(self.order()[j - 1] as usize)
            }) by {
                assert(self.order()[j] == j);
            }
            assert forall|j: int| 0 <= j < n_int implies (#[trigger] self.slot(
                self.order()[j],
            )).next == (if j == n_int - 1 {
                None::<usize>
            } else {
                Some(self.order()[j + 1] as usize)
            }) by {
                assert(self.order()[j] == j);
            }
        }
    }

    /// Scan the list from the head for a record carrying `(dev, blockno)`;
    /// on a hit, raise its reference count and return its slot index.  The
    /// scan has no ordering side effect.
    pub fn find_cached(&mut self, dev: u32, blockno: u32) -> (r: Option<usize>)
        requires
            old(self).wf(),
            forall|i: int|
                0 <= i < old(self).len() ==> (#[trigger] old(self).slot(i)).refcnt
                    < usize::MAX,
        ensures
            final(self).wf(),
            final(self).len() == old(self).len(),
            final(self).order() == old(self).order(),
            final(self).head_link() == old(self).head_link(),
            final(self).tail_link() == old(self).tail_link(),
            r is None ==> old(self).first_match(dev, blockno) is None && *final(self)
                == *old(self),
            r matches Some(i) ==> {
                &&& 0 <= i < old(self).len()
                &&& old(self).first_match(dev, blockno) == Some(i as int)
                &&& old(self).slot_matches(i as int, dev, blockno)
                &&& final(self).slot(i as int) == (BufCtrl {
                    refcnt: (old(self).slot(i as int).refcnt + 1) as usize,
                    ..old(self).slot(i as int)
                })
                &&& forall|m: int|
                    0 <= m < old(self).len() && m != i ==> #[trigger] final(self).slot(m)
                        == old(self).slot(m)
            },
    {
        let ghost n = self.len() as int;
        let mut cur: Option<usize> = self.head;
        let ghost mut j: int = 0;
        while cur.is_some()
            invariant
                *self == *old(self),
                self.wf(),
                n == self.len() as int,
                0 <= j <= n,
                cur == (if j < n {
                    Some(self.order()[j] as usize)
                } else {
                    None::<usize>
                }),
                self.first_match(dev, blockno) == self.first_match_from(j, dev, blockno),
                forall|i: int|
                    0 <= i < n ==> (#[trigger] self.slot(i)).refcnt < usize::MAX,
            decreases n - j,
        {
            let bi = cur.unwrap();
            assert((bi as int) == self.order()[j]);
            assert(0 <= (bi as int) && (bi as int) < n);
            let c = self.inner[bi];
            if c.dev == dev && c.blockno == blockno {
                proof {
                    assert(self.first_match_from(j, dev, blockno) == Some(bi as int));
                }
                self.inner[bi].refcnt = c.refcnt + 1;
                proof {
                    assert forall|m: int|
                        0 <= m < n && m != bi as int implies #[trigger] self.slot(m) == old(
                        self,
                    ).slot(m) by {}
                    lemma_wf_after_slot_update(*old(self), *self, bi as int);
                }
                return Some(bi);
            }
            cur = c.next;
            proof {
                j = j + 1;
            }
        }
        proof {
            assert(j == n);
        }
        None
    }

    /// Scan the list from the tail for the least-recently-used
    /// unreferenced record; reassign its identity to `(dev, blockno)` with
    /// one reference and return its slot index.  `None` means every record
    /// is referenced: the pool is exhausted.
    pub fn recycle(&mut self, dev: u32, blockno: u32) -> (r: Option<usize>)
        requires
            old(self).wf(),
        ensures
            final(self).wf(),
            final(self).len() == old(self).len(),
            final(self).order() == old(self).order(),
            final(self).head_link() == old(self).head_link(),
            final(self).tail_link() == old(self).tail_link(),
            r is None ==> old(self).victim() is None && *final(self) == *old(self),
            r matches Some(i) ==> {
                &&& 0 <= i < old(self).len()
                &&& old(self).victim() == Some(i as int)
                &&& old(self).slot(i as int).refcnt == 0
                &&& final(self).slot(i as int) == (BufCtrl {
                    dev,
                    blockno,
                    refcnt: 1,
                    ..old(self).slot(i as int)
                })
                &&& forall|m: int|
                    0 <= m < old(self).len() && m != i ==> #[trigger] final(self).slot(m)
                        == old(self).slot(m)
            },
    {
        let ghost n = self.len() as int;
        let mut cur: Option<usize> = self.tail;
        let ghost mut j: int = n - 1;
        while cur.is_some()
            invariant
                *self == *old(self),
                self.wf(),
                n == self.len() as int,
                -1 <= j < n,
                cur == (if j >= 0 {
                    Some(self.order()[j] as usize)
                } else {
                    None::<usize>
                }),
                self.victim() == self.victim_from(j),
            decreases j + 1,
        {
            let bi = cur.unwrap();
            assert((bi as int) == self.order()[j]);
            assert(0 <= (bi as int) && (bi as int) < n);
            let c = self.inner[bi];
            if c.refcnt == 0 {
                proof {
                    assert(self.victim_from(j) == Some(bi as int));
                }
                self.inner[bi].dev = dev;
                self.inner[bi].blockno = blockno;
                self.inner[bi].refcnt = 1;
                proof {
                    assert forall|m: int|
                        0 <= m < n && m != bi as int implies #[trigger] self.slot(m) == old(
                        self,
                    ).slot(m) by {}
                    lemma_wf_after_slot_update(*old(self), *self, bi as int);
                }
                return Some(bi);
            }
            cur = c.prev;
            proof {
                j = j - 1;
            }
        }
        proof {
            assert(j == -1);
        }
        None
    }

    /// Drop one reference from slot `index`'s record.  If the count
    /// reaches zero and the record is not already at the head, unlink it
    /// from its place in the list (advancing the tail if it was the tail)
    /// and reinsert it at the most-recently-used head; otherwise the list
    /// order is untouched.  Dropping a reference from an unreferenced
    /// record is a bug and is excluded.
    #[verifier::rlimit(60)]
    pub fn move_if_no_ref(&mut self, index: usize)
        requires
            old(self).wf(),
            (index as int) < old(self).len(),
            old(self).slot(index as int).refcnt > 0,
        ensures
            final(self).wf(),
            final(self).len() == old(self).len(),
            forall|m: int|
                0 <= m < old(self).len() ==> {
                    let s_new = #[trigger] final(self).slot(m);
                    let s_old = old(self).slot(m);
                    &&& s_new.dev == s_old.dev
                    &&& s_new.blockno == s_old.blockno
                    &&& s_new.index == s_old.index
                    &&& (m != index as int ==> s_new.refcnt == s_old.refcnt)
                },
            final(self).slot(index as int).refcnt == old(self).slot(index as int).refcnt
                - 1,
            final(self).order() == (if old(self).slot(index as int).refcnt == 1
                && old(self).order()[0] != index as int {
                seq![index as int] + old(self).order().remove(
                    old(self).pos_of(index as int),
                )
            } else {
                old(self).order()
            }),
    {
        let nbuf = self.inner.len();
        let ghost n = self.len() as int;
        assert(n == nbuf as int);
        let b = self.inner[index];
        let new_refcnt = b.refcnt - 1;
        self.inner[index].refcnt = new_refcnt;
        proof {
            lemma_wf_after_slot_update(*old(self), *self, index as int);
        }
        let at_head = match self.head {
            Some(h) => h == index,
            None => false,
        };
        if new_refcnt == 0 && !at_head {
            proof {
                lemma_pos_of(*old(self), index as int);
            }
            let ghost ord = old(self).order();
            let ghost i = index as int;
            let ghost p = old(self).pos_of(i);
            proof {
                assert(ord[0] != i);
                assert(1 <= p < n);
                assert(old(self).slot(i).prev == Some(ord[p - 1] as usize));
                assert(0 <= ord[p - 1] < n);
                if p < n - 1 {
                    assert(old(self).slot(i).next == Some(ord[p + 1] as usize));
                    assert(0 <= ord[p + 1] < n);
                } else {
                    assert(old(self).slot(i).next is None);
                }
            }
            // forward the tail if this record is at the tail
            // (it cannot be the only record: it is not the head)
            let is_tail = match self.tail {
                Some(t) => t == index,
                None => false,
            };
            if is_tail {
                match b.prev {
                    Some(pv) => {
                        self.tail = Some(pv);
                    },
                    None => {},
                }
            }
            // detach
            match b.next {
                Some(nx) => {
                    self.inner[nx].prev = b.prev;
                },
                None => {},
            }
            match b.prev {
                Some(pv) => {
                    self.inner[pv].next = b.next;
                },
                None => {},
            }
            // attach at the head
            self.inner[index].prev = None;
            self.inner[index].next = self.head;
            let old_head = self.head;
            match old_head {
                Some(h) => {
                    self.inner[h].prev = Some(index);
                },
                None => {},
            }
            self.head = Some(index);
            self.order = Ghost(seq![index as int] + old(self).order().remove(
                old(self).pos_of(index as int),
            ));
            proof {
                let s2 = self.order();
                let h0 = ord[0];
                let pv = ord[p - 1];
                // shape of the reordered list
                assert(ord.remove(p) =~= ord.subrange(0, p) + ord.subrange(p + 1, n));
                assert(s2.len() == n);
                assert(s2[0] == i);
                assert forall|j: int| 1 <= j <= p implies #[trigger] s2[j] == ord[j - 1] by {}
                assert forall|j: int| p + 1 <= j < n implies #[trigger] s2[j] == ord[j] by {}
                // positions are pairwise distinct, so the touched records
                // are distinct unless they coincide by position
                assert forall|j1: int, j2: int| 0 <= j1 < j2 < n implies ord[j1] != ord[j2]
                    by {}
                // the final state of every record
                assert(self.slot(i).prev is None && self.slot(i).next == Some(h0 as usize));
                assert(h0 != i && pv != i);
                // well-formedness of the new list, link by link
                assert forall|j: int| 0 <= j < n implies 0 <= #[trigger] s2[j] < n by {
                    if 1 <= j && j <= p {
                        assert(s2[j] == ord[j - 1]);
                    }
                }
                assert forall|j1: int, j2: int| 0 <= j1 < j2 < n implies s2[j1] != s2[j2] by {
                    let m1 = if j1 == 0 { p } else if j1 <= p { j1 - 1 } else { j1 };
                    let m2 = if j2 == 0 { p } else if j2 <= p { j2 - 1 } else { j2 };
                    assert(s2[j1] == ord[m1]);
                    assert(s2[j2] == ord[m2]);
                    assert(m1 != m2);
                }
                assert forall|j: int| 0 <= j < n implies (#[trigger] self.slot(s2[j])).prev
                    == (if j == 0 {
                    None::<usize>
                } else {
                    Some(s2[j - 1] as usize)
                }) && self.slot(s2[j]).next == (if j == n - 1 {
                    None::<usize>
                } else {
                    Some(s2[j + 1] as usize)
                }) by {
                    if j == 0 {
                        assert(self.slot(i).next == Some(h0 as usize));
                        assert(s2[1] == ord[0]);
                    } else if j == 1 {
                        assert(s2[j] == h0);
                        assert(self.slot(h0).prev == Some(index));
                        if p == 1 {
                            assert(h0 == pv);
                            assert(self.slot(h0).next == old(self).slot(i).next);
                        } else {
                            assert(h0 != pv && h0 != i);
                            if p < n - 1 { assert(h0 != ord[p + 1]); }
                            assert(self.slot(h0).next == old(self).slot(h0).next);
                            assert(old(self).slot(ord[0]).next == Some(ord[1] as usize));
                            assert(s2[2] == ord[1]);
                        }
                    } else if j < p {
                        let m = ord[j - 1];
                        assert(s2[j] == m);
                        assert(m != i && m != h0 && m != pv);
                        if p < n - 1 { assert(m != ord[p + 1]); }
                        assert(self.slot(m) == old(self).slot(m));
                        assert(old(self).slot(ord[j - 1]).prev == Some(ord[j - 2] as usize));
                        assert(old(self).slot(ord[j - 1]).next == Some(ord[j] as usize));
                        assert(s2[j - 1] == ord[j - 2] && s2[j + 1] == ord[j]);
                    } else if j == p {
                        assert(s2[j] == ord[p - 1] && s2[j] == pv);
                        if p == 1 {
                            assert(pv == h0);
                            assert(self.slot(pv).prev == Some(index));
                        } else {
                            assert(pv != h0 && pv != i);
                            if p < n - 1 { assert(pv != ord[p + 1]); }
                            assert(self.slot(pv).prev == old(self).slot(pv).prev);
                            assert(old(self).slot(ord[p - 1]).prev == Some(ord[p - 2] as usize));
                            assert(s2[p - 1] == ord[p - 2]);
                        }
                        assert(self.slot(pv).next == old(self).slot(i).next);
                        if p == n - 1 {
                            assert(old(self).slot(ord[p]).next is None);
                        } else {
                            assert(old(self).slot(ord[p]).next == Some(ord[p + 1] as usize));
                            assert(s2[p + 1] == ord[p + 1]);
                        }
                    } else {
                        let m = ord[j];
                        assert(s2[j] == m);
                        assert(m != i && m != h0 && (p > 1 ==> m != pv));
                        if j == p + 1 {
                            assert(m == ord[p + 1]);
                            assert(self.slot(m).prev == old(self).slot(i).prev);
                            assert(s2[j - 1] == ord[p - 1]);
                            assert(self.slot(m).next == old(self).slot(m).next);
                            assert(old(self).slot(ord[j]).next == (if j == n - 1 {
                                None::<usize>
                            } else {
                                Some(ord[j + 1] as usize)
                            }));
                            if j < n - 1 { assert(s2[j + 1] == ord[j + 1]); }
                        } else {
                            assert(m != ord[p + 1]);
                            assert(self.slot(m) == old(self).slot(m));
                            assert(old(self).slot(ord[j]).prev == Some(ord[j - 1] as usize));
                            assert(s2[j - 1] == ord[j - 1]);
                            assert(old(self).slot(ord[j]).next == (if j == n - 1 {
                                None::<usize>
                            } else {
                                Some(ord[j + 1] as usize)
                            }));
                            if j < n - 1 { assert(s2[j + 1] == ord[j + 1]); }
                        }
                    }
                }
                assert forall|m: int| 0 <= m < n implies (#[trigger] self.slot(m)).index == m
                    by {
                    assert(old(self).slot(m).index == m);
                }
                // head and tail
                assert(self.head_link() == Some(s2[0] as usize));
                if p == n - 1 {
                    assert(s2[n - 1] == ord[p - 1]);
                    assert(self.tail_link() == Some(ord[p - 1] as usize));
                } else {
                    assert(s2[n - 1] == ord[n - 1]);
                    assert(old(self).tail_link() == Some(ord[n - 1] as usize));
                    assert(ord[n - 1] != i);
                    assert(self.tail_link() == old(self).tail_link());
                }
            }
        }
    }
}

} // verus!
