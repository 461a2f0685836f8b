//! Process-wide protocol configuration: network magic, protocol version,
//! service flags and the node's user-agent string.

use vstd::prelude::*;

verus! {

/// 4-byte network magic for the main network (little-endian on the wire).
pub const NETWORK: u32 = 0xD9B4BEF9;

/// Protocol version this node speaks.
pub const PROTOCOL_VERSION: u32 = 70002;

/// Peers advertising a protocol version below this are rejected.
pub const PROTOCOL_VERSION_MIN: u32 = 70002;

/// Service bitfield type: a plain u64 bitmask.
pub type Services = u64;

/// Service bit meaning "this node can serve the full block chain".
pub const SERVICE_NODE_NETWORK: Services = 1;

/// Services this node advertises.
pub const SERVICES: Services = SERVICE_NODE_NETWORK;

/// Default TCP port of the network.
pub const DEFAULT_PORT: u16 = 8333;

/// How many peers bootstrap discovery should provide.
pub const INITIAL_DISCOVERY_PEERS: usize = 30;

/// The bare version string: MAJOR.MINOR.FIXES with the suffix appended.
pub fn version() -> (r: String)
    ensures
        r@ == "0.0.0-dev"@,
{
    "0.0.0-dev".to_owned()
}

/// Node name followed by the version string.
pub fn name_version() -> (r: String)
    ensures
        r@ == "rustybit 0.0.0-dev"@,
{
    "rustybit 0.0.0-dev".to_owned()
}

/// BIP0014-formatted user agent: `/NAME:VERSION/` with `-` replaced by `_`
/// in the version component.
pub fn name_version_bip0014() -> (r: String)
    ensures
        r@ == "/rustybit:0.0.0_dev/"@,
{
    "/rustybit:0.0.0_dev/".to_owned()
}

/// The BIP0014 user agent as wire bytes: the bytes of
/// `/rustybit:0.0.0_dev/`.
pub open spec fn spec_user_agent() -> Seq<u8> {
    seq![
        47u8,
        114u8,
        117u8,
        115u8,
        116u8,
        121u8,
        98u8,
        105u8,
        116u8,
        58u8,
        48u8,
        46u8,
        48u8,
        46u8,
        48u8,
        95u8,
        100u8,
        101u8,
        118u8,
        47u8,
    ]
}

/// The BIP0014 user agent as wire bytes.
pub fn user_agent() -> (r: Vec<u8>)
    ensures
        r@ == spec_user_agent(),
        crate::marshalling::all_safe(r@),
        r@.len() <= crate::marshalling::VARSTR_MAX_LENGTH,
{
    let r: Vec<u8> = vec![
        47u8,
        114u8,
        117u8,
        115u8,
        116u8,
        121u8,
        98u8,
        105u8,
        116u8,
        58u8,
        48u8,
        46u8,
        48u8,
        46u8,
        48u8,
        95u8,
        100u8,
        101u8,
        118u8,
        47u8,
    ];
    proof {
        assert(r@ =~= spec_user_agent());
    }
    r
}

} // verus!
