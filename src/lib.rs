//! A replica of a three-phase (pre-prepare, prepare, commit) Byzantine fault tolerant
//! agreement protocol, with the quorum bookkeeping that drives it.
pub mod dto;
pub mod sufficiency;
pub mod reqtable;
pub mod node;
pub mod util;
pub mod test_util;
