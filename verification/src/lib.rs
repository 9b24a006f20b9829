use vstd::prelude::*;

pub mod app;
pub mod catalog;
pub mod config;
pub mod laws;
pub mod pull_request;
pub mod seqs;
pub mod text;

verus! {

} // verus!
