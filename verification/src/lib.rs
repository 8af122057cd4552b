//! A binary heap (priority queue) over the natural order of its elements,
//! usable as a min-heap or as a max-heap.
//!
//! [`heap`] holds the executable data structure, [`level_order`] the
//! mathematical model that its contracts speak of, [`order`] the priority
//! predicate, [`heap_order`], [`laws`] and [`effort`] what is proved of the
//! model, and [`slices`] the one assumption made of the standard library.

pub mod effort;
pub mod heap;
pub mod heap_order;
pub mod laws;
pub mod level_order;
pub mod order;
pub mod slices;

pub use heap::Heap;
pub use heap::MaxHeap;
pub use heap::MinHeap;
pub use order::Comparator;
