//! Destination resolution and tunnel session logic for an edge proxy.
pub mod directory;
pub mod endpoint;
pub mod gate;
pub mod handshake;
pub mod relay;
pub mod session;

pub use directory::{candidate_for_alias, first_candidate, resolve, DIRECTORY_URL};
pub use endpoint::{parse_port, replace_colons, resolve_direct, Endpoint, TOKEN_PATTERN};
pub use handshake::{credentials_match, parse_handshake, AddressKind, Handshake, HandshakeParse, CREDENTIAL_LEN, HANDSHAKE_VERSION};
pub use session::{FailReason, SessionAction, SessionEvent, SessionState, TunnelSession};
pub use relay::{Direction, RelayAction, RelayEngine, RelayEvent};
pub use gate::{wants_upgrade, RoutingConfig, DEFAULT_PORT, INFO_PAGE, UPGRADE_PROTOCOL};
