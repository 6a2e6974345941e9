//! A fixed-capacity max-oriented priority queue.
//!
//! `MaxHeap` stores its elements in a flat buffer laid out as an implicit
//! binary tree and keeps them in max-heap order: every node is at most its
//! parent, so the root is always a maximum. The capacity is fixed at
//! construction; a push onto a full heap reports an error instead of
//! growing, and a pop from an empty heap returns absence instead of
//! corrupting the count.

mod heap;

pub use heap::DEFAULT_CAPACITY;
pub use heap::HeapError;
pub use heap::MaxHeap;
pub use heap::heap_ordered;
pub use heap::lemma_extraction_non_increasing;
pub use heap::lemma_root_is_max;
pub use heap::parent_index;
