use vstd::prelude::*;

verus! {

/// Capacity used by `MaxHeap::default`.
pub const DEFAULT_CAPACITY: usize = 100;

/// Index of the parent of node `i` in the implicit binary tree
/// (children of node `p` live at `2*p + 1` and `2*p + 2`).
pub open spec fn parent_index(i: int) -> int {
    (i - 1) / 2
}

/// Max-heap order: every node except the root is at most its parent.
pub open spec fn heap_ordered(s: Seq<i64>) -> bool {
    forall|i: int| 0 < i < s.len() ==> #[trigger] s[i] <= s[parent_index(i)]
}

/// Max-heap order everywhere, except that node `c` may exceed its parent:
/// the shape of the tree while an element sifts up from `c`.
spec fn heap_ordered_except_at(s: Seq<i64>, c: int) -> bool {
    forall|i: int| 0 < i < s.len() && i != c ==> #[trigger] s[i] <= s[parent_index(i)]
}

/// Max-heap order everywhere, except that the children of node `h` may
/// exceed it: the shape of the tree while an element sifts down from `h`.
spec fn heap_ordered_except_below(s: Seq<i64>, h: int) -> bool {
    forall|i: int| 0 < i < s.len() && parent_index(i) != h ==> #[trigger] s[i] <= s[parent_index(i)]
}

/// Swapping two elements of a sequence leaves its multiset of elements
/// unchanged.
proof fn lemma_swap_preserves_multiset(s: Seq<i64>, a: int, b: int)
    requires
        0 <= a < s.len(),
        0 <= b < s.len(),
    ensures
        s.update(a, s[b]).update(b, s[a]).to_multiset() == s.to_multiset(),
{
    broadcast use vstd::seq_lib::group_to_multiset_ensures;

    let t1 = s.update(a, s[b]);
    let t2 = t1.update(b, s[a]);
    assert(s.contains(s[a])) by {
        assert(s[a] == s[a]);
    }
    assert(t1.to_multiset() == s.to_multiset().insert(s[b]).remove(s[a]));
    assert(t2.to_multiset() == t1.to_multiset().insert(s[a]).remove(t1[b]));
    assert(t2.to_multiset() =~= s.to_multiset());
}

/// Law: in a heap-ordered sequence the root bounds every element, so the
/// element at index 0 is a maximum.
pub proof fn lemma_root_is_max(s: Seq<i64>, i: int)
    requires
        heap_ordered(s),
        0 <= i < s.len(),
    ensures
        s[i] <= s[0],
    decreases i,
{
    if i > 0 {
        lemma_root_is_max(s, parent_index(i));
    }
}

/// Law: extraction order never increases. If `s` is the live content of a
/// heap and `t` the content after the maximum `s[0]` was extracted (one
/// copy of `s[0]` removed, the rest rearranged back into heap order), the
/// next element to be extracted, `t[0]`, is at most `s[0]`. Applied after
/// each `pop`, whose contract states exactly this relation between the old
/// and the new content, it shows that repeatedly popping drains a heap in
/// non-increasing order.
pub proof fn lemma_extraction_non_increasing(s: Seq<i64>, t: Seq<i64>)
    requires
        heap_ordered(s),
        s.len() > 0,
        heap_ordered(t),
        t.len() > 0,
        t.to_multiset() == s.to_multiset().remove(s[0]),
    ensures
        t[0] <= s[0],
{
    broadcast use vstd::seq_lib::group_to_multiset_ensures;

    assert(t.contains(t[0])) by {
        assert(t[0] == t[0]);
    }
    assert(t.to_multiset().count(t[0]) > 0);
    assert(s.to_multiset().remove(s[0]).count(t[0]) > 0);
    assert(s.to_multiset().count(t[0]) > 0);
    assert(s.contains(t[0]));
    let i = choose|i: int| 0 <= i < s.len() && s[i] == t[0];
    lemma_root_is_max(s, i);
}

/// The error reported by `push` when the heap is already full.
#[derive(Clone, Copy, Debug, PartialEq, Eq, Structural)]
pub enum HeapError {
    CapacityExceeded,
}

/// A max-oriented priority queue over a contiguous buffer whose capacity
/// is fixed at construction. The view is the sequence of live elements,
/// in slot order; slot 0 holds a maximum whenever the heap is non-empty.
pub struct MaxHeap {
    elems: Vec<i64>,
    capacity: usize,
}

impl View for MaxHeap {
    type V = Seq<i64>;

    closed spec fn view(&self) -> Seq<i64> {
        self.elems@
    }
}

impl Default for MaxHeap {
    /// An empty heap with the default capacity.
    fn default() -> (h: MaxHeap)
        ensures
            h.wf(),
            h@.len() == 0,
            h.cap() == DEFAULT_CAPACITY,
    {
        MaxHeap::new(DEFAULT_CAPACITY)
    }
}

impl MaxHeap {
    /// The fixed capacity chosen at construction.
    pub closed spec fn cap(&self) -> int {
        self.capacity as int
    }

    /// Well-formedness: the count never exceeds the capacity and the live
    /// elements are in max-heap order. Constructors establish this and
    /// every operation preserves it.
    pub open spec fn wf(&self) -> bool {
        self@.len() <= self.cap() && heap_ordered(self@)
    }

    /// Create an empty heap whose capacity is fixed at `capacity`.
    pub fn new(capacity: usize) -> (h: MaxHeap)
        ensures
            h.wf(),
            h@.len() == 0,
            h.cap() == capacity,
    {
        MaxHeap { elems: Vec::with_capacity(capacity), capacity }
    }

    /// The number of elements currently stored.
    pub fn len(&self) -> (n: usize)
        ensures
            n == self@.len(),
    {
        self.elems.len()
    }

    /// Whether the heap holds no elements.
    pub fn is_empty(&self) -> (e: bool)
        ensures
            e == (self@.len() == 0),
    {
        self.elems.len() == 0
    }

    /// Remove every element. The capacity is unchanged; clearing an
    /// already-empty heap leaves it empty.
    pub fn clear(&mut self)
        ensures
            final(self).wf(),
            final(self).cap() == old(self).cap(),
            final(self)@.len() == 0,
    {
        self.elems.clear();
    }

    /// A reference to the maximum element, or `None` when the heap is
    /// empty. Does not mutate.
    pub fn peek(&self) -> (r: Option<&i64>)
        requires
            self.wf(),
        ensures
            self@.len() == 0 ==> r is None,
            self@.len() > 0 ==> (r matches Some(v) && *v == self@[0]),
            (forall|i: int| 0 <= i < self@.len() ==> #[trigger] self@[i] <= self@[0]),
    {
        if self.elems.len() == 0 {
            None
        } else {
            proof {
                assert forall|i: int| 0 <= i < self@.len() implies #[trigger] self@[i] <= self@[0] by {
                    lemma_root_is_max(self@, i);
                }
            }
            Some(&self.elems[0])
        }
    }

    /// Index of the parent of the occupied slot `item`.
    fn get_parent(&self, item: usize) -> (r: usize)
        requires
            item >= 1,
        ensures
            r == parent_index(item as int),
    {
        (item - 1) / 2
    }

    /// Twice `item`: the base of the index arithmetic for its children.
    fn get_child(&self, item: usize) -> (r: usize)
        requires
            2 * item + 2 <= usize::MAX,
        ensures
            r == 2 * item,
    {
        item * 2
    }

    /// Index of the left child of slot `item`.
    fn get_left_child(&self, item: usize) -> (r: usize)
        requires
            2 * item + 2 <= usize::MAX,
        ensures
            r == 2 * item + 1,
    {
        self.get_child(item) + 1
    }

    /// Index of the right child of slot `item`.
    fn get_right_child(&self, item: usize) -> (r: usize)
        requires
            2 * item + 2 <= usize::MAX,
        ensures
            r == 2 * item + 2,
    {
        self.get_child(item) + 2
    }

    /// Swap the elements at slots `a` and `b`.
    fn swap(&mut self, a: usize, b: usize)
        requires
            a < old(self)@.len(),
            b < old(self)@.len(),
        ensures
            final(self).cap() == old(self).cap(),
            final(self)@ == old(self)@.update(a as int, old(self)@[b as int]).update(
                b as int,
                old(self)@[a as int],
            ),
            final(self)@.len() == old(self)@.len(),
            final(self)@.to_multiset() == old(self)@.to_multiset(),
    {
        let x = self.elems[a];
        let y = self.elems[b];
        self.elems.set(a, y);
        self.elems.set(b, x);
        proof {
            lemma_swap_preserves_multiset(old(self)@, a as int, b as int);
        }
    }

    /// Restore heap order after the element at the last occupied slot was
    /// placed there out of order (sift-up): while it is strictly greater
    /// than its parent, exchange the two and continue from the parent.
    fn swim_up(&mut self)
        requires
            old(self)@.len() > 0,
            heap_ordered_except_at(old(self)@, old(self)@.len() - 1),
        ensures
            final(self).cap() == old(self).cap(),
            final(self)@.len() == old(self)@.len(),
            final(self)@.to_multiset() == old(self)@.to_multiset(),
            heap_ordered(final(self)@),
    {
        let mut cur: usize = self.elems.len() - 1;
        proof {
            assert forall|j: int|
                0 < j < self@.len() && parent_index(j) == cur as int implies #[trigger] self@[j]
                <= self@[parent_index(cur as int)] by {
                assert(parent_index(j) < j);
            }
        }
        loop
            invariant
                self.cap() == old(self).cap(),
                self@.len() == old(self)@.len(),
                self@.to_multiset() == old(self)@.to_multiset(),
                cur < self@.len(),
                heap_ordered_except_at(self@, cur as int),
                (cur > 0 ==> forall|j: int|
                    0 < j < self@.len() && parent_index(j) == cur as int ==> #[trigger] self@[j]
                        <= self@[parent_index(cur as int)]),
            ensures
                self.cap() == old(self).cap(),
                self@.len() == old(self)@.len(),
                self@.to_multiset() == old(self)@.to_multiset(),
                heap_ordered(self@),
            decreases cur,
        {
            if cur == 0 {
                break;
            }
            let p = self.get_parent(cur);
            if self.elems[cur] <= self.elems[p] {
                proof {
                    assert forall|i: int| 0 < i < self@.len() implies #[trigger] self@[i]
                        <= self@[parent_index(i)] by {
                        if i != cur as int {
                            assert(self@[i] <= self@[parent_index(i)]);
                        }
                    }
                }
                break;
            }
            let ghost s = self@;
            self.swap(p, cur);
            proof {
                let t = self@;
                let c = cur as int;
                let pi = p as int;
                assert forall|i: int| 0 < i < t.len() && i != pi implies #[trigger] t[i]
                    <= t[parent_index(i)] by {
                    assert(parent_index(i) < i);
                    if i == c {
                        assert(t[i] == s[pi] && t[parent_index(i)] == s[c]);
                    } else if parent_index(i) == c {
                        assert(s[i] <= s[parent_index(c)]);
                        assert(t[i] == s[i] && t[c] == s[pi]);
                    } else if parent_index(i) == pi {
                        assert(s[i] <= s[pi] && s[pi] <= s[c]);
                    } else {
                        assert(t[i] == s[i] && t[parent_index(i)] == s[parent_index(i)]);
                    }
                }
                if pi > 0 {
                    assert forall|j: int|
                        0 < j < t.len() && parent_index(j) == pi implies #[trigger] t[j]
                        <= t[parent_index(pi)] by {
                        assert(0 <= parent_index(pi) < pi);
                        assert(t[parent_index(pi)] == s[parent_index(pi)]);
                        assert(s[pi] <= s[parent_index(pi)]);
                        if j == c {
                            assert(t[j] == s[pi]);
                        } else {
                            assert(t[j] == s[j] && s[j] <= s[pi]);
                        }
                    }
                }
            }
            cur = p;
        }
    }

    /// Insert `item`, or report `CapacityExceeded` and leave the heap
    /// unchanged when the heap is full. On success the element count grows
    /// by one and the stored multiset gains exactly one copy of `item`.
    pub fn push(&mut self, item: i64) -> (r: Result<(), HeapError>)
        requires
            old(self).wf(),
        ensures
            final(self).wf(),
            final(self).cap() == old(self).cap(),
            old(self)@.len() < old(self).cap() ==> (r is Ok && final(self)@.len() == old(
                self,
            )@.len() + 1 && final(self)@.to_multiset() == old(self)@.to_multiset().insert(item)),
            old(self)@.len() >= old(self).cap() ==> (r == Err::<(), HeapError>(
                HeapError::CapacityExceeded,
            ) && *final(self) == *old(self)),
    {
        if self.elems.len() >= self.capacity {
            return Err(HeapError::CapacityExceeded);
        }
        let ghost s0 = self@;
        self.elems.push(item);
        proof {
            broadcast use vstd::seq_lib::group_to_multiset_ensures;

            let s = self@;
            assert(s == s0.push(item));
            assert(s.to_multiset() == s0.to_multiset().insert(item));
            assert forall|i: int| 0 < i < s.len() && i != s.len() - 1 implies #[trigger] s[i]
                <= s[parent_index(i)] by {
                assert(parent_index(i) < i);
                assert(s[i] == s0[i] && s[parent_index(i)] == s0[parent_index(i)]);
            }
        }
        self.swim_up();
        Ok(())
    }

    /// Restore heap order after the root slot was overwritten by the
    /// former last element (sift-down): while the element is strictly
    /// smaller than its larger in-range child, exchange the two and
    /// continue from that child. A child slot at or past the live count is
    /// never read.
    #[verifier::rlimit(50)]
    fn swim_down(&mut self)
        requires
            old(self)@.len() > 0,
            heap_ordered_except_below(old(self)@, 0),
        ensures
            final(self).cap() == old(self).cap(),
            final(self)@.len() == old(self)@.len(),
            final(self)@.to_multiset() == old(self)@.to_multiset(),
            heap_ordered(final(self)@),
    {
        let mut cur: usize = 0;
        loop
            invariant
                self.cap() == old(self).cap(),
                self@.len() == old(self)@.len(),
                self@.to_multiset() == old(self)@.to_multiset(),
                cur < self@.len(),
                heap_ordered_except_below(self@, cur as int),
                (cur > 0 ==> forall|j: int|
                    0 < j < self@.len() && parent_index(j) == cur as int ==> #[trigger] self@[j]
                        <= self@[parent_index(cur as int)]),
            ensures
                self.cap() == old(self).cap(),
                self@.len() == old(self)@.len(),
                self@.to_multiset() == old(self)@.to_multiset(),
                heap_ordered(self@),
            decreases self@.len() - cur,
        {
            let len = self.elems.len();
            if cur >= len / 2 {
                proof {
                    assert(2 * (cur as int) + 1 >= len);
                    assert forall|i: int| 0 < i < self@.len() implies #[trigger] self@[i]
                        <= self@[parent_index(i)] by {
                        assert(i == 2 * parent_index(i) + 1 || i == 2 * parent_index(i) + 2);
                        assert(parent_index(i) != cur as int);
                    }
                }
                break;
            }
            proof {
                assert(2 * (cur as int) + 2 <= len);
            }
            let left = self.get_left_child(cur);
            let right = self.get_right_child(cur);
            let mut child = left;
            if right < len && self.elems[left] < self.elems[right] {
                child = right;
            }
            proof {
                assert(parent_index(left as int) == cur as int);
                assert(parent_index(right as int) == cur as int);
            }
            if self.elems[cur] < self.elems[child] {
                let ghost s = self@;
                self.swap(cur, child);
                proof {
                    let t = self@;
                    let c = child as int;
                    let u = cur as int;
                    assert forall|i: int| 0 < i < t.len() && parent_index(i) != c implies #[trigger] t[i]
                        <= t[parent_index(i)] by {
                        assert(i == 2 * parent_index(i) + 1 || i == 2 * parent_index(i) + 2);
                        if i == c {
                            assert(t[c] == s[u] && t[u] == s[c]);
                        } else if parent_index(i) == u {
                            assert(t[i] == s[i] && t[u] == s[c]);
                            assert(s[i] <= s[c]);
                        } else if i == u {
                            assert(u > 0);
                            assert(t[u] == s[c] && t[parent_index(u)] == s[parent_index(u)]);
                            assert(s[c] <= s[parent_index(u)]);
                        } else {
                            assert(t[i] == s[i] && t[parent_index(i)] == s[parent_index(i)]);
                        }
                    }
                    if c > 0 && u > 0 {
                        assert forall|j: int|
                            0 < j < t.len() && parent_index(j) == c implies #[trigger] t[j]
                            <= t[parent_index(c)] by {
                            assert(j == 2 * c + 1 || j == 2 * c + 2);
                            assert(t[j] == s[j] && t[c] == s[u]);
                            assert(s[j] <= s[c]);
                        }
                    }
                }
                cur = child;
            } else {
                proof {
                    assert forall|i: int| 0 < i < self@.len() implies #[trigger] self@[i]
                        <= self@[parent_index(i)] by {
                        assert(i == 2 * parent_index(i) + 1 || i == 2 * parent_index(i) + 2);
                        if parent_index(i) == cur as int {
                            assert(self@[i] <= self@[child as int]);
                        }
                    }
                }
                break;
            }
        }
    }

    /// Remove and return the maximum element, or return `None` and leave
    /// the heap unchanged when it is empty. On success the element count
    /// shrinks by one and the stored multiset loses exactly one copy of
    /// the returned maximum.
    pub fn pop(&mut self) -> (r: Option<i64>)
        requires
            old(self).wf(),
        ensures
            final(self).wf(),
            final(self).cap() == old(self).cap(),
            old(self)@.len() == 0 ==> (r is None && *final(self) == *old(self)),
            old(self)@.len() > 0 ==> (r == Some(old(self)@[0]) && final(self)@.len() == old(
                self,
            )@.len() - 1 && final(self)@.to_multiset() == old(self)@.to_multiset().remove(
                old(self)@[0],
            ) && (forall|i: int|
                0 <= i < old(self)@.len() ==> #[trigger] old(self)@[i] <= old(self)@[0])),
    {
        let n = self.elems.len();
        if n == 0 {
            return None;
        }
        proof {
            assert forall|i: int| 0 <= i < self@.len() implies #[trigger] self@[i] <= self@[0] by {
                lemma_root_is_max(self@, i);
            }
        }
        let root = self.elems[0];
        let last = self.elems.pop().unwrap();
        proof {
            broadcast use vstd::seq_lib::group_to_multiset_ensures;

            assert(old(self)@.drop_last() =~= old(self)@.remove(n - 1));
            assert(old(self)@.remove(n - 1).to_multiset() == old(self)@.to_multiset().remove(
                old(self)@[n - 1],
            ));
        }
        if self.elems.len() == 0 {
            proof {
                broadcast use vstd::seq_lib::group_to_multiset_ensures;

                assert(self@.to_multiset() =~= old(self)@.to_multiset().remove(old(self)@[0]));
            }
            return Some(root);
        }
        let ghost s1 = self@;
        self.elems.set(0, last);
        proof {
            broadcast use vstd::seq_lib::group_to_multiset_ensures;

            let s2 = self@;
            assert(s2 == s1.update(0, last));
            assert(old(self)@.contains(last)) by {
                assert(old(self)@[n - 1] == last);
            }
            assert(s2.to_multiset() == s1.to_multiset().insert(last).remove(s1[0]));
            assert(s2.to_multiset() =~= old(self)@.to_multiset().remove(old(self)@[0]));
            assert forall|i: int|
                0 < i < s2.len() && parent_index(i) != 0 implies #[trigger] s2[i]
                <= s2[parent_index(i)] by {
                assert(0 <= parent_index(i) < i);
                assert(s2[i] == old(self)@[i] && s2[parent_index(i)] == old(self)@[parent_index(i)]);
            }
        }
        self.swim_down();
        Some(root)
    }
}

} // verus!
