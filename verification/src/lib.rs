//! Title verification.
//!
//! An owner proves that a title in a registry is theirs, unencumbered and validly
//! licensed, without showing which one it is. The registry issues challenges,
//! looks whether answers fit them, and spends a nullifier for each answer that it
//! accepts.
//!
//! - Arithmetic: [`field`], with [`primality`], [`certificate`], [`fermat`] and
//!   [`algebra`] about it.
//! - The hash: [`layout`] and [`permutation`].
//! - The constraint system: [`context`] and [`air`]; what it means is in
//!   [`statement`], how it is satisfied in [`trace`] and [`honest`], and what a
//!   satisfying trace shows in [`soundness`]. [`demo`] and [`fuzz`] try it out.
//! - The registry: [`tree`], [`registry`], [`challenge`] and [`snapshot`], on top of
//!   [`decimal`], [`hexadecimal`], [`table`] and [`principal`]. What it promises
//!   across its operations is in [`promises`], and over its whole life in
//!   [`history`].
//! - What the command line writes: [`cli`].
//! - What each operation does, in terms of what goes into a call and what comes out of
//!   it: [`arithmetic_laws`], [`hash_laws`], [`text_laws`], [`keeping_laws`],
//!   [`tree_laws`], [`title_laws`], [`system_laws`], [`challenge_laws`] and
//!   [`upgrade_laws`]. A law on an operation holds of whatever a call of it may return.

pub mod field;
pub mod primality;
pub mod certificate;
pub mod algebra;
pub mod fermat;
pub mod layout;
pub mod permutation;
pub mod context;
pub mod air;
pub mod statement;
pub mod trace;
pub mod honest;
pub mod soundness;
pub mod tree;
pub mod demo;
pub mod fuzz;
pub mod decimal;
pub mod hexadecimal;
pub mod table;
pub mod principal;
pub mod registry;
pub mod challenge;
pub mod promises;
pub mod snapshot;
pub mod history;
pub mod cli;
pub mod arithmetic_laws;
pub mod hash_laws;
pub mod text_laws;
pub mod keeping_laws;
pub mod tree_laws;
pub mod title_laws;
pub mod system_laws;
pub mod challenge_laws;
pub mod upgrade_laws;
