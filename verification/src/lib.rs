//! A manager for packaged EV3 project archives: it unpacks a compressed
//! project container into a working directory, toggles the version-control
//! metadata directory between its active and dormant names around an editing
//! session, rewrites templated configuration attributes from commit metadata,
//! and repacks the tree into the container.

pub mod codec;
pub mod names;
pub mod session;
pub mod template;
pub mod template_laws;
pub mod toggler;
