//! Directory-listing core: the entry model, the ordering policy, the
//! human-readable size formatter, the HTML renderer, and the responder
//! decision that maps a listing outcome to an HTTP status and body.

pub mod entry;
pub mod escape;
pub mod listing;
pub mod numfmt;
pub mod order;
pub mod render;
pub mod service;
pub mod sizefmt;
pub mod time;
