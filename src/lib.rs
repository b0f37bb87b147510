//! Core of a Messaging Layer Security group: index arithmetic on the
//! left-balanced ratchet tree, the TLS-style wire codec of nodes, update
//! paths, proposals and welcome messages, secrets and MACs, the key
//! schedule, the proposal queue, the tree hash and tree mutations, and
//! joining a group from a welcome message.

pub mod ciphersuite;
pub mod index;
pub mod treemath;
pub mod codec;
pub mod crypto;
pub mod key_package;
pub mod messages;
pub mod proposals;
pub mod ratchet_tree;
pub mod schedule;
pub mod secret;
pub mod tree;
pub mod welcome;
