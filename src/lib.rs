//! A reader for GHDL's binary waveform dumps (the `ghw` format) together with a
//! compact hierarchy store and an in-memory sample store.

pub mod error;
pub mod input;
pub mod leb;
pub mod header;
pub mod strings;
pub mod types;
pub mod typesection;
pub mod hierarchy;
pub mod signals;
pub mod hiersection;
pub mod ghw;

pub use error::{GhwParseError, HeaderData};
pub use ghw::{read_from_bytes, read_hierarchy, read_internal, Signal, Waveform};
pub use header::is_ghw;
pub use hierarchy::{Hierarchy, HierarchyBuilder, Scope, ScopeRef, ScopeType, SignalRef, Var, VarRef};
pub use input::Input;
pub use signals::{Sample, SignalInfo, SignalType, SignalValue};
