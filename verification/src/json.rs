//! The shapes of the machine-readable reports, as plain data. Addresses
//! are held as their text.

use vstd::prelude::*;

verus! {

/// The report of `explain`.
pub struct ExplainOutput {
    pub name: String,
    pub resolved: bool,
    pub addresses: Vec<String>,
    pub steps: Vec<ResolutionStepJson>,
}

/// The report of `doctor`.
pub struct DoctorOutput {
    pub name: String,
    pub resolved: bool,
    pub addresses: Vec<String>,
    pub steps: Vec<ResolutionStepJson>,
    pub reality_check: RealityCheckJson,
    pub diagnosis: DiagnosisJson,
}

/// One step of the resolution path.
pub struct ResolutionStepJson {
    pub source: String,
    pub status: String,
    pub addresses: Vec<String>,
    pub reason: Option<String>,
    pub halted_chain: Option<HaltedChainJson>,
}

/// The reality check (the direct DNS query).
pub struct RealityCheckJson {
    pub resolved: bool,
    pub addresses: Vec<String>,
    pub nameservers: Vec<String>,
    pub reason: Option<String>,
}

/// A diagnosis: how much attention it asks for, and its message.
pub struct DiagnosisJson {
    pub severity: String,
    pub message: String,
}

/// The criterion that halted the chain.
pub struct HaltedChainJson {
    pub status: String,
    pub action: String,
}

} // verus!
