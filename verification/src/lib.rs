//! Persistence engine for filesystem-access scope grants and denials.
//!
//! A host application keeps a live, in-memory filesystem scope that gates
//! file access. This library mirrors changes to that scope into a durable
//! snapshot and, on startup, turns the stored snapshot back into the host
//! commands that restore the previous grants and denials.
//!
//! The library itself performs no I/O and owns no lock: it is the verified
//! core (the entry model, the binary codec, the setup plan and the
//! per-event update rule), and a thin unverified shell around it reads and
//! writes the snapshot file and talks to the host.

pub mod codec;
pub mod engine;
pub mod model;
