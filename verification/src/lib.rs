//! A small line editor in the manner of `ed`: a buffer of lines, the
//! addresses and commands typed against it, and the editing session that
//! reads them one line at a time.
use vstd::prelude::*;

pub mod address;
pub mod address_laws;
pub mod args;
pub mod buffer;
pub mod commands;
pub mod editor;
pub mod lines;
pub mod text;

verus! {
} // verus!
