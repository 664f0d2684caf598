//! Exchanges: group activities in which participants submit sets of items,
//! vote on the submissions, and are then assigned the winning sets.
//!
//! Every exchange moves through four stages (submission, voting, selection,
//! frozen). This crate holds the rules of that lifecycle: how submissions are
//! merged and deleted, which stage changes are legal, how votes are tallied
//! into assignments, and what a reader may see at each stage.
//!
//! The rules are stated over mathematical values: an entry is the sequence of
//! its item identifiers, and a mapping from participants to lists is the
//! sequence of its rows in the order in which the participants first
//! appeared. Every function says in its contract which value it returns or
//! leaves behind, and the laws that follow from the rules are proved beside
//! them.
//!
//! Weights are whole numbers: the assignment factor counts thousandths, so
//! 500 gives popularity and preference the same weight. A lower priority
//! number is a stronger wish.

pub mod assignment;
pub mod entry;
pub mod exchange;
pub mod model;
pub mod name_map;
pub mod passphrase;
pub mod projection;
pub mod ranking;
pub mod reconcile;
pub mod snapshot;
pub mod stage;
pub mod store;
pub mod tally;
