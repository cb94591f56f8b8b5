use vstd::prelude::*;
use vstd::string::StringExecFns;
use crate::endpoint::Endpoint;

verus! {

/// The upgrade protocol a tunnel request must name.
pub const UPGRADE_PROTOCOL: &'static str = "websocket";

/// Where a plain visit to a tunnel path is pointed.
pub const INFO_PAGE: &'static str = "https://inconigto-mode.web.id/";

/// The port a destination has when the token names none.
pub const DEFAULT_PORT: u16 = 443;

/// Whether a request whose `Upgrade` header is `upgrade` goes on to a tunnel
/// session; the comparison is case-sensitive.
pub fn wants_upgrade(upgrade: Option<&str>) -> (r: bool)
    ensures
        r == (upgrade matches Some(u) && u@ == UPGRADE_PROTOCOL@),
{
    match upgrade {
        None => false,
        Some(u) => {
            let given = String::from_str(u);
            let expected = String::from_str(UPGRADE_PROTOCOL);
            given == expected
        },
    }
}

/// The settings of one inbound request.
#[derive(Debug, PartialEq, Eq)]
pub struct RoutingConfig {
    /// The 128-bit credential that handshakes must carry.
    pub credential: Vec<u8>,
    pub request_host: String,
    pub destination: Endpoint,
    pub landing_page_url: String,
    pub subscription_page_url: String,
}

impl RoutingConfig {
    /// The settings of a request to `request_host`, whose destination is that
    /// host on the default port until a routing token says otherwise.
    pub fn new(
        credential: Vec<u8>,
        request_host: String,
        landing_page_url: String,
        subscription_page_url: String,
    ) -> (r: Self)
        ensures
            r.credential@ == credential@,
            r.request_host@ == request_host@,
            r.destination@ == (request_host@, DEFAULT_PORT),
            r.landing_page_url@ == landing_page_url@,
            r.subscription_page_url@ == subscription_page_url@,
    {
        let destination = Endpoint { host: request_host.clone(), port: DEFAULT_PORT };
        RoutingConfig { credential, request_host, destination, landing_page_url, subscription_page_url }
    }

    /// The same settings with the destination replaced.
    pub fn with_destination(self, destination: Endpoint) -> (r: Self)
        ensures
            r.credential@ == self.credential@,
            r.request_host@ == self.request_host@,
            r.destination@ == destination@,
            r.landing_page_url@ == self.landing_page_url@,
            r.subscription_page_url@ == self.subscription_page_url@,
    {
        RoutingConfig { destination, ..self }
    }
}

} // verus!
