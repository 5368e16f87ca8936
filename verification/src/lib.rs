//! The verified core of the D3OS user-space terminal stack and of the kernel
//! services around it.

use vstd::prelude::*;

pub mod httpd;
pub mod kernel;
pub mod pipetest;
pub mod session;
pub mod shell;
pub mod terminal;
pub mod text;
pub mod thread;
pub mod virtio;
pub mod worker;

verus! {

} // verus!
