//! Verified demonstrations of classic algorithms: stack and queue
//! containers, Fibonacci computation, and a Reverse Polish Notation
//! expression evaluator.

pub mod fib;
pub mod queue;
pub mod rpn;
pub mod stack;
