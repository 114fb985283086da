//! The link to a GDB remote stub, and the errors of the debug bridge.
use vstd::prelude::*;
use core::time::Duration;

verus! {

/// Why a bridge request failed.
#[derive(Debug)]
pub enum BridgeError {
    /// The request's parameters are wrong.
    BadParams(String),
    /// The emulator or its stub refused or failed.
    Emulator(String),
    /// The connection to the stub failed.
    Io(String),
}

/// The result of a bridge request.
pub type BridgeResult<T> = Result<T, BridgeError>;

/// The duration of `secs` whole seconds, as `Duration::from_secs` makes it.
pub uninterp spec fn duration_from_secs(secs: u64) -> Duration;

/// `Duration::from_secs` makes the duration of `secs` whole seconds. Claimed of it: the result is
/// the same for the same `secs`, and durations made from different second counts differ (its
/// documentation shows `Duration::from_secs(s).as_secs() == s`). Nothing else is stated, as Verus
/// sees `Duration` as opaque.
pub assume_specification[ core::time::Duration::from_secs ](secs: u64) -> (r: Duration)
    ensures
        r == duration_from_secs(secs),
        forall|s: u64| duration_from_secs(s) == r ==> s == secs,
;

/// How long a stub exchange may take unless the link says otherwise.
pub const DEFAULT_TIMEOUT_SECS: u64 = 5;

/// A link to a GDB remote serial protocol stub. Implementations send packets and read replies;
/// the optional operations have defaults for links that lack them.
pub trait GdbTransport {
    /// Sends `payload` as a packet and reads the reply packet.
    fn send(&mut self, payload: &str) -> BridgeResult<String>;

    /// Sends `payload` as a packet without waiting for a reply.
    fn send_no_reply(&mut self, payload: &str) -> BridgeResult<()>;

    /// Interrupts the target and reads its stop reply.
    fn interrupt(&mut self) -> BridgeResult<String>;

    /// Reads the next reply packet without sending anything first.
    fn recv_reply(&mut self) -> (r: BridgeResult<String>)
        default_ensures
            r matches Err(BridgeError::Emulator(m)) && m@ == "recv_reply unsupported"@,
    {
        Err(BridgeError::Emulator(String::from_str("recv_reply unsupported")))
    }

    /// The read timeout of the link.
    fn get_timeout(&self) -> (r: BridgeResult<Duration>)
        default_ensures
            r matches Ok(d) && d == duration_from_secs(DEFAULT_TIMEOUT_SECS),
    {
        Ok(Duration::from_secs(DEFAULT_TIMEOUT_SECS))
    }

    /// Sets the read and write timeout of the link.
    fn set_timeout(&mut self, _timeout: Duration) -> (r: BridgeResult<()>)
        default_ensures
            r is Ok,
    {
        Ok(())
    }

    /// A reply packet if one has already arrived, without blocking.
    fn recv_nonblocking(&mut self) -> (r: BridgeResult<Option<String>>)
        default_ensures
            r matches Ok(None),
    {
        Ok(None)
    }
}

} // verus!
