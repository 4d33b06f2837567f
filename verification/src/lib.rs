//! The decisions of a CEF-backed webview runtime: which popups a browser may
//! open and which are torn down with their opener, what is reported of them,
//! which initialization scripts a browser carries, and how a page's messages
//! travel to the host.

pub mod close_order;
pub mod close_sequence;
pub mod family_calls;
pub mod ipc;
pub mod lineage;
pub mod navigation;
pub mod observation;
pub mod page_calls;
pub mod popup;
pub mod revocation;
pub mod scripts;
mod shared;
