//! Verified core of webgrab.
use vstd::prelude::*;

pub mod budget;
pub mod cli;
pub mod convert;
pub mod decode;
pub mod error;
pub mod extract;
pub mod fetch;
pub mod netguard;
pub mod output;
pub mod pipeline;
pub mod render;
pub mod renderproxy;
pub mod robots;
pub mod text;
pub mod tokens;
pub mod weburl;

verus! {
}
