//! Process exit codes.
//!
//! Command-line usage errors exit with 2 before the program gets control. The
//! other codes are grouped so that operators can tell which startup phase failed.

use vstd::prelude::*;

verus! {

pub const OK: i32 = 0;

/// The configuration could not be loaded.
pub const CONFIG: i32 = 1;

pub const USAGE: i32 = 2;

pub const CONFIG_VALIDATION: i32 = 11;

pub const ALREADY_RUNNING: i32 = 12;

pub const DAEMONIZE: i32 = 13;

pub const RUNTIME: i32 = 14;

pub const INTERFACE_SETUP: i32 = 20;

pub const PRIVILEGE_DROP: i32 = 21;

pub const SERVICE_RECORDS: i32 = 22;

} // verus!
