use vstd::prelude::*;

pub mod aob;
pub mod bundle;
pub mod module_image;
pub mod overlay_state;
pub mod plugin;
pub mod pointer_chain;
pub mod proto;
pub mod reader;
pub mod scan;
pub mod sweep;
pub mod text;
