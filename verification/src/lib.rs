//! An index of blocks that keeps, of every transaction, only what is needed to
//! follow a satoshi back to the block that minted it.
//!
//! Satoshis are numbered in the order in which blocks mint them
//! ([`schedule`]). A transaction hands out the satoshis that it takes in,
//! in the same order, so the satoshi at a place in an output can be followed
//! back, input by input, to the coinbase whose subsidy it is of ([`hop`],
//! [`traversal`]). For that, a block is kept in a packed form: eight bytes of
//! each transaction identifier, and of each input the block and the output
//! that it spends and the amount ([`layout`], [`block`], [`compacted`],
//! [`encode`]).
//!
//! The stores and the threads are not here. The library says which writes
//! store and delete blocks ([`store`]), what is made of the rows of the
//! inscription catalogue ([`inscriptions`]), and what the last stage of the
//! ingestion pipeline does with each block that comes ([`pipeline`]).
//!
//! Every function is verified against its contract. What is taken on trust
//! is named where it stands: the concurrent map of [`cache`] and the
//! hexadecimal decoder of [`txid`].

pub mod block;
pub mod bytes;
pub mod cache;
pub mod compacted;
pub mod encode;
pub mod error;
pub mod hop;
pub mod inscriptions;
pub mod layout;
pub mod local;
pub mod pipeline;
pub mod record;
pub mod round_trip;
pub mod schedule;
pub mod store;
pub mod traversal;
pub mod txid;
pub mod unpacked;
