//! The fault codes of the control interface.
use vstd::prelude::*;

verus! {

pub const UNKNOWN_METHOD: i32 = 1;

pub const INCORRECT_PARAMETERS: i32 = 2;

pub const BAD_NAME: i32 = 10;

pub const NO_FILE: i32 = 20;

pub const FAILED: i32 = 30;

pub const SPAWN_ERROR: i32 = 50;

pub const ALREADY_STARTED: i32 = 60;

pub const NOT_RUNNING: i32 = 70;

pub const SUCCESS: i32 = 80;

pub const ALREADY_ADDED: i32 = 90;

pub const STILL_RUNNING: i32 = 91;

pub const CANT_REREAD: i32 = 92;

} // verus!
