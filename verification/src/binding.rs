//! The configured pairing of one local listen address with one remote
//! overlay-network address.

use vstd::prelude::*;

verus! {

/// One forwarding binding: connections accepted on
/// `local_host:local_port` are relayed to `remote_host:remote_port`
/// through the overlay network.  Built once at startup and never
/// mutated afterwards.
#[derive(Debug)]
pub struct Binding {
    pub remote_host: String,
    pub remote_port: u16,
    pub local_host: String,
    pub local_port: u16,
}

impl Binding {
    /// A field-for-field copy of the binding.
    pub fn duplicate(&self) -> (r: Binding)
        ensures
            r == *self,
    {
        Binding {
            remote_host: self.remote_host.clone(),
            remote_port: self.remote_port,
            local_host: self.local_host.clone(),
            local_port: self.local_port,
        }
    }
}

/// Why a binding description was rejected.  Any of these aborts startup:
/// a half-configured proxy is refused rather than run with the bindings
/// that did parse.
#[derive(Clone, Copy, Debug, PartialEq, Eq, Structural)]
pub enum ConfigError {
    /// The description does not contain exactly one `'~'` separating the
    /// remote address from the local address.
    MissingSeparator,
    /// An address half does not contain exactly one `':'` separating the
    /// host from the port.
    MissingColon,
    /// A port segment is not a decimal number in range for a 16-bit
    /// unsigned integer.
    InvalidPort,
}

} // verus!
