use rustygear::constants::CAN_DO;
use rustygear::constants::ADMIN_STATUS;
use rustygear::constants::ADMIN_VERSION;
use rustygear::constants::ECHO_REQ;
use rustygear::constants::ECHO_RES;
use rustygear::constants::ERROR;
use rustygear::constants::GET_STATUS;
use rustygear::constants::GRAB_JOB;
use rustygear::constants::JOB_ASSIGN;
use rustygear::constants::JOB_CREATED;
use rustygear::constants::NOOP;
use rustygear::constants::NO_JOB;
use rustygear::constants::OPTION_REQ;
use rustygear::constants::OPTION_RES;
use rustygear::constants::PRE_SLEEP;
use rustygear::constants::STATUS_RES;
use rustygear::constants::SUBMIT_JOB;
use rustygear::constants::SUBMIT_JOB_BG;
use rustygear::constants::SUBMIT_JOB_EPOCH;
use rustygear::constants::SUBMIT_JOB_HIGH;
use rustygear::constants::SUBMIT_JOB_LOW;
use rustygear::constants::WORK_COMPLETE;
use rustygear::constants::WORK_FAIL;
use rustygear::packet::Packet;
use rustygear::packet::PacketMagic;
use rustygear::service::Broker;
use rustygear::service::Delivery;

fn req(ptype: u32, data: &[u8]) -> Packet {
    let mut p = Packet::new();
    p.magic = PacketMagic::REQ;
    p.ptype = ptype;
    p.psize = data.len() as u32;
    p.data = Box::new(data.to_vec());
    p
}

fn text(ptype: u32) -> Packet {
    let mut p = Packet::new();
    p.magic = PacketMagic::TEXT;
    p.ptype = ptype;
    p
}

fn step(b: &mut Broker, conn: u64, p: Packet) -> Vec<Delivery> {
    let mut p = p;
    match p.process(b, conn) {
        Ok(out) => out,
        Err(_) => panic!("dispatch failed"),
    }
}

#[test]
fn e1_submit_grab_complete() {
    let mut b = Broker::new();
    let client = 1u64;
    let worker = 2u64;
    let out = step(&mut b, client, req(SUBMIT_JOB, b"reverse\0u1\0abc"));
    assert_eq!(out.len(), 1);
    assert_eq!(out[0].target, client);
    assert_eq!(out[0].packet.ptype, JOB_CREATED);
    let h = (*out[0].packet.data).clone();
    assert!(!h.is_empty());

    let out = step(&mut b, worker, req(CAN_DO, b"reverse"));
    assert!(out.is_empty());
    let out = step(&mut b, worker, req(GRAB_JOB, b""));
    assert_eq!(out.len(), 1);
    assert_eq!(out[0].target, worker);
    assert_eq!(out[0].packet.ptype, JOB_ASSIGN);
    let mut want = h.clone();
    want.push(0);
    want.extend_from_slice(b"reverse");
    want.push(0);
    want.extend_from_slice(b"abc");
    assert_eq!(*out[0].packet.data, want);

    let mut complete = h.clone();
    complete.push(0);
    complete.extend_from_slice(b"cba");
    let out = step(&mut b, worker, req(WORK_COMPLETE, &complete));
    assert_eq!(out.len(), 1);
    assert_eq!(out[0].target, client);
    assert_eq!(out[0].packet.ptype, WORK_COMPLETE);
    assert_eq!(*out[0].packet.data, complete);
}

#[test]
fn e2_background_stays_silent() {
    let mut b = Broker::new();
    let client = 1u64;
    let worker = 2u64;
    let out = step(&mut b, client, req(SUBMIT_JOB_BG, b"f\0u\0x"));
    assert_eq!(out.len(), 1);
    assert_eq!(out[0].packet.ptype, JOB_CREATED);
    let h = (*out[0].packet.data).clone();

    step(&mut b, worker, req(CAN_DO, b"f"));
    let out = step(&mut b, worker, req(GRAB_JOB, b""));
    assert_eq!(out[0].packet.ptype, JOB_ASSIGN);
    let out = step(&mut b, worker, req(WORK_FAIL, &h));
    assert!(out.is_empty(), "a background job notifies nobody");
}

#[test]
fn e3_dedup_multicasts_to_both_clients() {
    let mut b = Broker::new();
    let c1 = 1u64;
    let c2 = 2u64;
    let worker = 3u64;
    let out1 = step(&mut b, c1, req(SUBMIT_JOB, b"f\0u\0p1"));
    let out2 = step(&mut b, c2, req(SUBMIT_JOB, b"f\0u\0p2"));
    let h1 = (*out1[0].packet.data).clone();
    let h2 = (*out2[0].packet.data).clone();
    assert_eq!(h1, h2, "both submitters see the same handle");

    step(&mut b, worker, req(CAN_DO, b"f"));
    let out = step(&mut b, worker, req(GRAB_JOB, b""));
    assert_eq!(out.len(), 1);
    let mut want = h1.clone();
    want.push(0);
    want.extend_from_slice(b"f");
    want.push(0);
    want.extend_from_slice(b"p1");
    assert_eq!(*out[0].packet.data, want, "the first payload wins");

    let mut complete = h1.clone();
    complete.push(0);
    complete.extend_from_slice(b"done");
    let out = step(&mut b, worker, req(WORK_COMPLETE, &complete));
    let mut targets: Vec<u64> = out.iter().map(|d| d.target).collect();
    targets.sort();
    assert_eq!(targets, vec![c1, c2]);
    for d in &out {
        assert_eq!(d.packet.ptype, WORK_COMPLETE);
        assert_eq!(*d.packet.data, complete);
    }
}

#[test]
fn e4_priority_orders_grabs() {
    let mut b = Broker::new();
    let client = 1u64;
    let worker = 2u64;
    step(&mut b, client, req(SUBMIT_JOB_LOW, b"f\0u-low\0lo"));
    step(&mut b, client, req(SUBMIT_JOB, b"f\0u-norm\0no"));
    step(&mut b, client, req(SUBMIT_JOB_HIGH, b"f\0u-high\0hi"));
    step(&mut b, worker, req(CAN_DO, b"f"));
    let mut seen: Vec<Vec<u8>> = Vec::new();
    for _ in 0..3 {
        let out = step(&mut b, worker, req(GRAB_JOB, b""));
        assert_eq!(out[0].packet.ptype, JOB_ASSIGN);
        let data = (*out[0].packet.data).clone();
        let payload = data.rsplit(|b| *b == 0).next().unwrap().to_vec();
        seen.push(payload);
    }
    assert_eq!(seen, vec![b"hi".to_vec(), b"no".to_vec(), b"lo".to_vec()]);
    let out = step(&mut b, worker, req(GRAB_JOB, b""));
    assert_eq!(out[0].packet.ptype, NO_JOB);
}

#[test]
fn e5_retry_after_worker_loss() {
    let mut b = Broker::new();
    let client = 1u64;
    let w1 = 2u64;
    let w2 = 3u64;
    let out = step(&mut b, client, req(SUBMIT_JOB, b"f\0u\0p"));
    let h = (*out[0].packet.data).clone();
    step(&mut b, w1, req(CAN_DO, b"f"));
    let out = step(&mut b, w1, req(GRAB_JOB, b""));
    assert_eq!(out[0].packet.ptype, JOB_ASSIGN);
    b.disconnect(w1);

    step(&mut b, w2, req(CAN_DO, b"f"));
    let out = step(&mut b, w2, req(GRAB_JOB, b""));
    assert_eq!(out[0].packet.ptype, JOB_ASSIGN, "the job reappears once");
    let mut complete = h.clone();
    complete.push(0);
    complete.extend_from_slice(b"r");
    let out = step(&mut b, w2, req(WORK_COMPLETE, &complete));
    assert_eq!(out.len(), 1, "exactly one completion reaches the client");
    assert_eq!(out[0].target, client);
    // and nothing is left to grab
    let out = step(&mut b, w2, req(GRAB_JOB, b""));
    assert_eq!(out[0].packet.ptype, NO_JOB);
}

#[test]
fn e6_admin_status_reports_counts() {
    let mut b = Broker::new();
    let client = 1u64;
    let worker = 2u64;
    step(&mut b, worker, req(CAN_DO, b"f"));
    step(&mut b, client, req(SUBMIT_JOB, b"f\0u1\0a"));
    step(&mut b, client, req(SUBMIT_JOB, b"f\0u2\0b"));
    step(&mut b, client, req(SUBMIT_JOB, b"f\0u3\0c"));
    let out = step(&mut b, worker, req(GRAB_JOB, b""));
    assert_eq!(out[0].packet.ptype, JOB_ASSIGN);

    let out = step(&mut b, client, text(ADMIN_STATUS));
    assert_eq!(out.len(), 1);
    assert!(matches!(out[0].packet.magic, PacketMagic::TEXT));
    assert_eq!(*out[0].packet.data, b"f\t3\t1\t1\n.\n".to_vec());
}

#[test]
fn admin_version_replies_identically() {
    let mut b = Broker::new();
    let out1 = step(&mut b, 1, text(ADMIN_VERSION));
    let out2 = step(&mut b, 1, text(ADMIN_VERSION));
    assert_eq!(out1.len(), 1);
    assert_eq!(*out1[0].packet.data, b"0.1.0\n".to_vec());
    assert_eq!(*out1[0].packet.data, *out2[0].packet.data);
}

#[test]
fn admin_unknown_command_reports_error_line() {
    let mut b = Broker::new();
    let out = step(&mut b, 1, text(9999));
    assert_eq!(out.len(), 1);
    assert_eq!(*out[0].packet.data, b"ERR UNKNOWN_COMMAND Unknown+server+command\n".to_vec());
}

#[test]
fn pre_sleep_worker_gets_one_noop_per_wave() {
    let mut b = Broker::new();
    let client = 1u64;
    let worker = 2u64;
    step(&mut b, worker, req(CAN_DO, b"f"));
    step(&mut b, worker, req(PRE_SLEEP, b""));
    let out = step(&mut b, client, req(SUBMIT_JOB, b"f\0u1\0a"));
    let noops: Vec<&Delivery> = out.iter().filter(|d| d.packet.ptype == NOOP).collect();
    assert_eq!(noops.len(), 1);
    assert_eq!(noops[0].target, worker);
    // the worker is awake now: a second fresh job sends no further NOOP
    let out = step(&mut b, client, req(SUBMIT_JOB, b"f\0u2\0b"));
    assert!(out.iter().all(|d| d.packet.ptype != NOOP));
}

#[test]
fn echo_returns_payload() {
    let mut b = Broker::new();
    let out = step(&mut b, 1, req(ECHO_REQ, b"ping"));
    assert_eq!(out.len(), 1);
    assert_eq!(out[0].packet.ptype, ECHO_RES);
    assert_eq!(*out[0].packet.data, b"ping".to_vec());
}

#[test]
fn option_req_recognises_exceptions_only() {
    let mut b = Broker::new();
    let out = step(&mut b, 1, req(OPTION_REQ, b"exceptions"));
    assert_eq!(out[0].packet.ptype, OPTION_RES);
    assert_eq!(*out[0].packet.data, b"exceptions".to_vec());
    let out = step(&mut b, 1, req(OPTION_REQ, b"nonsense"));
    assert_eq!(out[0].packet.ptype, ERROR);
}

#[test]
fn get_status_reports_each_lifecycle_stage() {
    let mut b = Broker::new();
    let client = 1u64;
    let worker = 2u64;
    let out = step(&mut b, client, req(SUBMIT_JOB, b"f\0u\0p"));
    let h = (*out[0].packet.data).clone();

    let out = step(&mut b, client, req(GET_STATUS, &h));
    assert_eq!(out[0].packet.ptype, STATUS_RES);
    let mut want = h.clone();
    want.extend_from_slice(b"\x001\x000\x000\x000");
    assert_eq!(*out[0].packet.data, want, "queued: known, not running");

    step(&mut b, worker, req(CAN_DO, b"f"));
    step(&mut b, worker, req(GRAB_JOB, b""));
    let out = step(&mut b, client, req(GET_STATUS, &h));
    let mut want = h.clone();
    want.extend_from_slice(b"\x001\x001\x000\x000");
    assert_eq!(*out[0].packet.data, want, "running: known and running");

    let out = step(&mut b, client, req(GET_STATUS, b"H:nonesuch"));
    let mut want = b"H:nonesuch".to_vec();
    want.extend_from_slice(b"\x000\x000\x000\x000");
    assert_eq!(*out[0].packet.data, want, "unknown handle: zeros");
}

#[test]
fn unknown_ptype_earns_error_packet() {
    let mut b = Broker::new();
    let out = step(&mut b, 1, req(200, b""));
    assert_eq!(out.len(), 1);
    assert_eq!(out[0].packet.ptype, ERROR);
}

#[test]
fn malformed_submit_is_a_parse_error() {
    let mut b = Broker::new();
    let mut p = req(SUBMIT_JOB, b"no-separators-here");
    assert!(p.process(&mut b, 1).is_err());
}

#[test]
fn epoch_submission_waits_for_its_time() {
    let mut b = Broker::new();
    let client = 1u64;
    let worker = 2u64;
    let out = step(&mut b, client, req(SUBMIT_JOB_EPOCH, b"f\0u\0100\0p"));
    assert_eq!(out.len(), 1);
    assert_eq!(out[0].packet.ptype, JOB_CREATED);
    step(&mut b, worker, req(CAN_DO, b"f"));
    let out = step(&mut b, worker, req(GRAB_JOB, b""));
    assert_eq!(out[0].packet.ptype, NO_JOB, "not runnable before its epoch");

    let out = b.schedule_tick(99);
    assert!(out.is_empty());
    let grab = step(&mut b, worker, req(GRAB_JOB, b""));
    assert_eq!(grab[0].packet.ptype, NO_JOB);

    step(&mut b, worker, req(PRE_SLEEP, b""));
    let out = b.schedule_tick(100);
    assert_eq!(out.len(), 1, "promotion wakes the sleeping worker");
    assert_eq!(out[0].packet.ptype, NOOP);
    assert_eq!(out[0].target, worker);
    let grab = step(&mut b, worker, req(GRAB_JOB, b""));
    assert_eq!(grab[0].packet.ptype, JOB_ASSIGN);
}

#[test]
fn epoch_submission_with_bad_time_is_refused() {
    let mut b = Broker::new();
    let out = step(&mut b, 1, req(SUBMIT_JOB_EPOCH, b"f\0u\0soon\0p"));
    assert_eq!(out.len(), 1);
    assert_eq!(out[0].packet.ptype, ERROR);
}
