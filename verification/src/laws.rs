//! What the operations of the router are for, stated in the plainest terms: over the
//! configured values, the headers, the statuses and the times themselves.

pub mod attempts;
pub mod choices;
pub mod headers;
pub mod requests;
pub mod settings;
pub mod texts;
