//! A concurrent work-distribution simulator: a producer fills a shared
//! min-priority queue with work items in bursts, and consumers drain it.

pub mod consumer;
pub mod heap;
pub mod producer;
pub mod shared_queue;
pub mod trace;
pub mod work_item;

pub use consumer::{Consumer, ConsumerAction, ConsumerState};
pub use heap::MinHeap;
pub use producer::Producer;
pub use shared_queue::SharedPriorityQueue;
pub use work_item::WorkItem;
