//! Packet-type numbers of the Gearman binary protocol, and the codes the
//! codec assigns to admin-text commands.

use vstd::prelude::*;

verus! {

pub const CAN_DO: u32 = 1;
pub const CANT_DO: u32 = 2;
pub const RESET_ABILITIES: u32 = 3;
pub const PRE_SLEEP: u32 = 4;
pub const NOOP: u32 = 6;
pub const SUBMIT_JOB: u32 = 7;
pub const JOB_CREATED: u32 = 8;
pub const GRAB_JOB: u32 = 9;
pub const NO_JOB: u32 = 10;
pub const JOB_ASSIGN: u32 = 11;
pub const WORK_STATUS: u32 = 12;
pub const WORK_COMPLETE: u32 = 13;
pub const WORK_FAIL: u32 = 14;
pub const GET_STATUS: u32 = 15;
pub const ECHO_REQ: u32 = 16;
pub const ECHO_RES: u32 = 17;
pub const SUBMIT_JOB_BG: u32 = 18;
pub const ERROR: u32 = 19;
pub const STATUS_RES: u32 = 20;
pub const SUBMIT_JOB_HIGH: u32 = 21;
pub const SET_CLIENT_ID: u32 = 22;
pub const CAN_DO_TIMEOUT: u32 = 23;
pub const ALL_YOURS: u32 = 24;
pub const WORK_EXCEPTION: u32 = 25;
pub const OPTION_REQ: u32 = 26;
pub const OPTION_RES: u32 = 27;
pub const WORK_DATA: u32 = 28;
pub const WORK_WARNING: u32 = 29;
pub const GRAB_JOB_UNIQ: u32 = 30;
pub const JOB_ASSIGN_UNIQ: u32 = 31;
pub const SUBMIT_JOB_HIGH_BG: u32 = 32;
pub const SUBMIT_JOB_LOW: u32 = 33;
pub const SUBMIT_JOB_LOW_BG: u32 = 34;
pub const SUBMIT_JOB_SCHED: u32 = 35;
pub const SUBMIT_JOB_EPOCH: u32 = 36;
pub const SUBMIT_REDUCE_JOB: u32 = 37;
pub const SUBMIT_REDUCE_JOB_BACKGROUND: u32 = 38;
pub const GRAB_JOB_ALL: u32 = 39;
pub const JOB_ASSIGN_ALL: u32 = 40;
pub const GET_STATUS_UNIQUE: u32 = 41;
pub const STATUS_RES_UNIQUE: u32 = 42;

/// Codes for decoded admin-text commands; they live outside the binary
/// packet-type range.
pub const ADMIN_UNKNOWN: u32 = 1000;
pub const ADMIN_VERSION: u32 = 1001;
pub const ADMIN_STATUS: u32 = 1002;

/// The first four bytes of a binary request frame: `\0REQ`.
pub open spec fn req_magic() -> Seq<u8> {
    seq![0u8, 82u8, 69u8, 81u8]
}

/// The first four bytes of a binary response frame: `\0RES`.
pub open spec fn res_magic() -> Seq<u8> {
    seq![0u8, 82u8, 69u8, 83u8]
}

pub fn req_magic_bytes() -> (r: Vec<u8>)
    ensures
        r@ == req_magic(),
{
    let mut v: Vec<u8> = Vec::new();
    v.push(0u8);
    v.push(82u8);
    v.push(69u8);
    v.push(81u8);
    proof {
        assert(v@ =~= req_magic());
    }
    v
}

pub fn res_magic_bytes() -> (r: Vec<u8>)
    ensures
        r@ == res_magic(),
{
    let mut v: Vec<u8> = Vec::new();
    v.push(0u8);
    v.push(82u8);
    v.push(69u8);
    v.push(83u8);
    proof {
        assert(v@ =~= res_magic());
    }
    v
}

} // verus!
