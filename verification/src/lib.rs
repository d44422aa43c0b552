//! A verified singly-linked list: owned, sequentially linked nodes with
//! positional access and mutation, plus two classic algorithms over lists
//! (front/back halving and sort-then-merge). Every operation's behaviour is
//! stated over the list's abstract view, a `Seq` of its elements in order.

pub mod laws;
pub mod list;
pub mod merge;
pub mod order;
pub mod render;
