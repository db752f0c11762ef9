//! A prompt-composition library: text fragments ("chunks") carry optional
//! ordering keys, are grouped into files of defaults and named variant
//! slots, and are merged into a single rendered string under a fixed
//! ordering and punctuation rule.
//!
//! The composition engine lives in [`chunk`] (the fragments and their
//! ordering), [`builder`] (the priority merge and the punctuation rule),
//! [`template`] (the eagerly resolved composition plan) and [`generator`]
//! (the randomized selection). Around it stand the data models of the
//! workspace's collaborators: [`keyring`], [`openai`], [`guy`], [`cli`]
//! and [`session`]. File I/O, argument parsing and the network clients
//! stay outside the library and hand plain values in.

use vstd::prelude::*;

pub mod builder;
pub mod chunk;
pub mod cli;
pub mod generator;
pub mod guy;
pub mod keyring;
pub mod openai;
pub mod session;
pub mod template;

verus! {

} // verus!
