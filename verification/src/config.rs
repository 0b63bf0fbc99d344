use vstd::prelude::*;

verus! {

/// The persisted configuration: the target's MAC address and the IP (or
/// hostname) the wake packet is broadcast to, both kept as the user typed
/// them. Loading and saving the file is an outside concern; the core only
/// ever borrows a snapshot of this pair for the duration of one send.
pub struct AppConfig {
    pub mac: String,
    pub ip: String,
}

impl Default for AppConfig {
    /// A never-configured application: both fields empty. An empty MAC
    /// deterministically fails address parsing, so a send attempted before
    /// first-time configuration is rejected rather than misdirected.
    fn default() -> (c: AppConfig)
        ensures
            c.mac@ == Seq::<char>::empty(),
            c.ip@ == Seq::<char>::empty(),
    {
        AppConfig { mac: String::new(), ip: String::new() }
    }
}

} // verus!
