//! Storage logic of a few small FRAME pallets and an ERC-20 token contract,
//! with every state transition specified and verified.

pub mod dna;
pub mod storage;
pub mod linked_item;
pub mod ownership;
pub mod kitties;
pub mod kitties_indexed;
pub mod poe;
pub mod template;
pub mod erc20;
