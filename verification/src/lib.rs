//! Local game-client integration: lockfile discovery, request planning for the
//! client's loopback API, rune page mapping and the champion-select poller.
//!
//! The crate sends nothing and reads no file of the client. It says which
//! requests to send and what the replies mean; the host program reads the
//! lockfile and owns the transport. A session is given its TLS connector
//! and agent here, through native-tls and ureq, and the system's TLS library
//! may look up its certificate store while the connector is made.

pub mod base64;
pub mod client;
pub mod client_champ_select;
pub mod client_runepage;
pub mod context;
pub mod lcc;
pub mod text;
pub mod rune;
pub mod util;
