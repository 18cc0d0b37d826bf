//! Read-only observability for Linux machines: the parsers, rules and
//! formatters behind the `stethoscope` probes and the server that runs them.

pub mod guard;
pub mod mountinfo;
pub mod path;
pub mod payload;
pub mod probe_rt;
pub mod probe_size;
pub mod proc;
pub mod prologue;
pub mod release;
pub mod storage;
pub mod storage_health;
pub mod system_health;
pub mod system_info;
pub mod target;
pub mod text;
pub mod time;
