use vstd::prelude::*;

pub mod blob;
pub mod cmd;
pub mod codec;
pub mod daemon;
pub mod document;
pub mod format;
pub mod git_config;
pub mod hash;
pub mod ids;
pub mod ignore;
pub mod ipc;
pub mod journal;
pub mod locks;
pub mod order;
pub mod paths;
pub mod store;
pub mod system_config;
pub mod text;
pub mod tree;
pub mod ui;
pub mod wire;

verus! {

} // verus!
