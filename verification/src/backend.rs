//! Fatal helper errors, and the backend of platforms that cannot probe.
use vstd::prelude::*;

use crate::cdecode::CProbeParams;
use crate::command::{platform_errnos, ProbeBackend};
use crate::probe_table::ProbeTable;
use crate::request::Protocol;

verus! {

/// `std::io::Error`: an error of the operating system, carried in `Fatal` and never looked
/// into.
#[verifier::external_type_specification]
#[verifier::external_body]
pub struct ExIoError(std::io::Error);

/// Why the helper must stop.
#[derive(Debug)]
pub enum Fatal {
    Message(String),
    Io(String, std::io::Error),
}

/// The backend of a platform that cannot probe: it supports nothing, and any probe is
/// refused with `EPERM`.
#[derive(Debug, Clone, Copy, PartialEq, Eq, Structural)]
pub struct MacosBackend;

impl MacosBackend {
    pub fn open_privileged() -> (r: Result<Self, Fatal>)
        ensures
            r is Ok,
    {
        Ok(MacosBackend)
    }

    pub fn finish_init(&mut self) -> (r: Result<(), std::io::Error>)
        ensures
            r is Ok,
            *final(self) == *old(self),
    {
        Ok(())
    }
}

impl ProbeBackend for MacosBackend {
    open spec fn ip_version_ok(&self, version: u8) -> bool {
        false
    }

    open spec fn protocol_ok(&self, protocol: Protocol) -> bool {
        false
    }

    open spec fn mark_ok(&self) -> bool {
        false
    }

    fn ip_version_supported(&self, version: u8) -> (r: bool) {
        false
    }

    fn protocol_supported(&self, protocol: Protocol) -> (r: bool) {
        false
    }

    fn mark_supported(&self) -> (r: bool) {
        false
    }

    /// Refuses every probe with the platform's `EPERM`, leaving the table as it was.
    fn send_probe(&mut self, table: &mut ProbeTable, idx: usize, params: &CProbeParams) -> (r: Result<(), Option<i32>>)
        ensures
            r matches Err(Some(_)),
            *final(table) == *old(table),
            *final(self) == *old(self),
    {
        Err(Some(platform_errnos().eperm))
    }
}

} // verus!
