//! Where the server listens.

use crate::text::{decimal, push_decimal};
use vstd::prelude::*;
use vstd::string::StringExecFns;

verus! {

/// What the connection file says: the transport, the host, one port for
/// each of the five channels, the key that signs the messages, and the name
/// of the signature scheme.
pub struct ConnectionInfo {
    pub ip: String,
    pub transport: String,
    pub shell_port: u16,
    pub iopub_port: u16,
    pub stdin_port: u16,
    pub control_port: u16,
    pub hb_port: u16,
    pub key: String,
    pub signature_scheme: String,
    pub kernel_name: Option<String>,
}

/// The address of a port: transport, `://`, host, `:`, and the port in
/// decimal.
pub open spec fn endpoint_text(transport: Seq<char>, ip: Seq<char>, port: nat) -> Seq<char> {
    transport + "://"@ + ip + ":"@ + decimal(port)
}

impl ConnectionInfo {
    /// The address to bind for the given port.
    pub fn endpoint(&self, port: u16) -> (address: String)
        ensures
            address@ == endpoint_text(self.transport@, self.ip@, port as nat),
    {
        let mut address = String::new();
        address.append(self.transport.as_str());
        address.append("://");
        address.append(self.ip.as_str());
        address.append(":");
        push_decimal(&mut address, port as u64);
        assert(address@ =~= endpoint_text(self.transport@, self.ip@, port as nat));
        address
    }
}

} // verus!
