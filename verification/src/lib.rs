//! A last-in-first-out stack of heap-allocated cells with two operations:
//! `push`, which links a value in front of the chain, and `pop_all`, which
//! detaches the whole chain in one step and hands every value to a consumer,
//! the most recently pushed first.
//!
//! Every operation that changes a stack takes it by exclusive borrow. A step on
//! a stack is therefore indivisible by construction, and the contracts can say
//! exactly what each step does; callers that share a stack between threads
//! serialise their steps around it.
//!
//! - [`slot`]: a slot that is empty or owns one heap-allocated value.
//! - [`node`]: the cell of a chain, and the chain that a slot of cells owns.
//! - [`stack`]: the stack itself.
//! - [`history`]: sequences of steps on a stack, and what holds of all of them.

pub mod history;
pub mod node;
pub mod slot;
pub mod stack;

pub use node::Node;
pub use slot::AtomicOptionBox;
pub use stack::LifoPush;
