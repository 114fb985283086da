use emucap::bridge::{
    breakpoint_kind, breakpoint_range, breakpoint_spec, plan_breakpoint, plan_register_watch,
    regpoint_spec, register_watch, require_region, Bridge, BreakpointKind, BreakpointParams,
    BreakpointRow, EventKey, PendingPoint, PendingRegisterPoint, Region,
};
use emucap::transport::BridgeError;

fn msg(e: BridgeError) -> String {
    match e {
        BridgeError::BadParams(m) | BridgeError::Emulator(m) | BridgeError::Io(m) => m,
    }
}

#[test]
fn kinds_map_to_backend_codes() {
    assert_eq!(breakpoint_kind("exec").unwrap(), BreakpointKind::Exec);
    assert_eq!(breakpoint_kind("access").unwrap(), BreakpointKind::Access);
    let e = breakpoint_kind("reg").unwrap_err();
    assert!(matches!(e, BridgeError::BadParams(_)));
    assert_eq!(msg(e), "MAME PC-98 supports exec/read/write/access breakpoints");
    assert_eq!(breakpoint_spec(BreakpointKind::Write, 0xa0000, 2, true, ""), "2|a0000|2|1|");
    assert_eq!(breakpoint_spec(BreakpointKind::Read, 0, 1, false, "pc==0"), "3|0|1|0|pc==0");
}

#[test]
fn params_defaults() {
    let p = BreakpointParams { kind: None, memory_type: None, pause_on_hit: None };
    assert_eq!(p.kind_text(), "exec");
    assert_eq!(p.memory_type_text(), "physical");
    assert!(p.pauses());
    let q = BreakpointParams { kind: Some("read"), memory_type: Some("tvram"), pause_on_hit: Some(false) };
    assert_eq!(q.kind_text(), "read");
    assert_eq!(q.memory_type_text(), "tvram");
    assert!(!q.pauses());
}

#[test]
fn range_is_inclusive_and_checked_against_region() {
    let ram = Region { base: 0x1000, size: 0x100 };
    assert_eq!(breakpoint_range("ram", ram, 0x10, Some(0x13)).unwrap(), (0x1010, 4));
    assert_eq!(breakpoint_range("ram", ram, 0x10, None).unwrap(), (0x1010, 1));
    // an end below the start collapses to one byte
    assert_eq!(breakpoint_range("ram", ram, 0x10, Some(2)).unwrap(), (0x1010, 1));
    assert_eq!(breakpoint_range("ram", ram, 0xff, None).unwrap(), (0x10ff, 1));
    let e = breakpoint_range("ram", ram, 0xff, Some(0x100)).unwrap_err();
    assert_eq!(msg(e), "ram breakpoint out of range: offset 0xff+0x2 exceeds region size 0x100");
    let e = require_region("bogus", None).unwrap_err();
    assert_eq!(msg(e), "unsupported memory_type: bogus");
}

#[test]
fn register_watch_defaults_and_condition() {
    let (lo, hi, c) = register_watch("SP", None, None).unwrap();
    assert_eq!((lo, hi), (0, 0xFFFF_FFFF));
    assert_eq!(c, "(SP < 0) || (SP > FFFFFFFF)");
    let (_, _, c2) = register_watch("CS", Some(0x10), Some(0xabc)).unwrap();
    assert_eq!(c2, "(CS < 10) || (CS > ABC)");
    assert_eq!(regpoint_spec(true, &c2), "1|(CS < 10) || (CS > ABC)");
    let e = register_watch("SP", Some(5), Some(4)).unwrap_err();
    assert_eq!(msg(e), "min must be <= max");
}

const PHYSICAL: Region = Region { base: 0, size: 0x10_0000 };

fn exec_params() -> BreakpointParams<'static> {
    BreakpointParams { kind: None, memory_type: None, pause_on_hit: None }
}

fn plan(
    params: &BreakpointParams,
    region: Option<Region>,
    start: u64,
    end: Option<u64>,
) -> Result<PendingPoint<u8>, BridgeError> {
    plan_breakpoint(params, region, Ok(start), Ok(end), Ok(vec![]), Ok(String::new()))
}

fn watch(register: Option<&str>, min: Option<u64>, max: Option<u64>) -> Result<PendingRegisterPoint, BridgeError> {
    plan_register_watch(
        register,
        Ok(("SP".to_string(), "sp".to_string())),
        Ok(min),
        Ok(max),
        None,
    )
}

#[test]
fn plan_builds_the_setpoint_command_from_the_request() {
    let p = plan(&exec_params(), Some(Region { base: 0x1000, size: 0x100 }), 0x10, Some(0x13)).unwrap();
    assert_eq!((p.kind, p.addr, p.size, p.pause_on_hit), (BreakpointKind::Exec, 0x1010, 4, true));
    assert_eq!(p.spec, "0|1010|4|1|");
    let q = BreakpointParams { kind: Some("write"), memory_type: Some("ram"), pause_on_hit: Some(false) };
    let p = plan_breakpoint::<u8>(
        &q,
        Some(PHYSICAL),
        Ok(0xa0000),
        Ok(Some(2)),
        Ok(vec![]),
        Ok("pc==1".to_string()),
    )
    .unwrap();
    assert_eq!((p.addr, p.size), (0xa0000, 1));
    assert_eq!(p.spec, "2|a0000|1|0|pc==1");
}

#[test]
fn plan_refuses_bad_requests_in_order() {
    let bad_kind = BreakpointParams { kind: Some("execute"), memory_type: Some("nowhere"), pause_on_hit: None };
    let e = plan(&bad_kind, None, 0, None).unwrap_err();
    assert_eq!(msg(e), "MAME PC-98 supports exec/read/write/access breakpoints");
    let bad_type = BreakpointParams { kind: None, memory_type: Some("nowhere"), pause_on_hit: None };
    assert_eq!(msg(plan(&bad_type, None, 0, None).unwrap_err()), "unsupported memory_type: nowhere");
    let e = plan_breakpoint::<u8>(
        &exec_params(),
        Some(PHYSICAL),
        Err(BridgeError::BadParams("missing start".into())),
        Err(BridgeError::BadParams("end must be a number".into())),
        Ok(vec![]),
        Ok(String::new()),
    )
    .unwrap_err();
    assert_eq!(msg(e), "missing start");
    let e = plan_breakpoint::<u8>(
        &exec_params(),
        Some(PHYSICAL),
        Ok(0x200000),
        Ok(None),
        Err(BridgeError::BadParams("bad snapshot".into())),
        Ok(String::new()),
    )
    .unwrap_err();
    assert!(msg(e).starts_with("physical breakpoint out of range"));
    let e = plan_breakpoint::<u8>(
        &exec_params(),
        Some(PHYSICAL),
        Ok(0),
        Ok(None),
        Err(BridgeError::BadParams("bad snapshot".into())),
        Err(BridgeError::BadParams("bad condition".into())),
    )
    .unwrap_err();
    assert_eq!(msg(e), "bad snapshot");
    let e = plan_breakpoint::<u8>(
        &exec_params(),
        Some(PHYSICAL),
        Ok(0),
        Ok(None),
        Ok(vec![]),
        Err(BridgeError::BadParams("bad condition".into())),
    )
    .unwrap_err();
    assert_eq!(msg(e), "bad condition");
}

#[test]
fn plan_refuses_ranges_that_overflow_without_panicking() {
    let e = plan(&exec_params(), Some(PHYSICAL), u64::MAX, None).unwrap_err();
    assert!(matches!(e, BridgeError::BadParams(_)));
    assert_eq!(
        msg(e),
        "physical breakpoint out of range: offset 0xffffffffffffffff+0x1 exceeds region size 0x100000"
    );
    let e = plan(&exec_params(), Some(PHYSICAL), 0, Some(u64::MAX)).unwrap_err();
    assert_eq!(
        msg(e),
        "physical breakpoint out of range: offset 0x0+0x10000000000000000 exceeds region size 0x100000"
    );
    let e = breakpoint_range("ram", Region { base: 0, size: u64::MAX }, 0, Some(u64::MAX)).unwrap_err();
    assert_eq!(
        msg(e),
        "ram breakpoint out of range: offset 0x0+0x10000000000000000 exceeds region size 0xffffffffffffffff"
    );
}

#[test]
fn plan_register_watch_checks_bounds() {
    let e = watch(Some("sp"), Some(16), Some(8)).unwrap_err();
    assert!(matches!(e, BridgeError::BadParams(_)));
    assert_eq!(msg(e), "min must be <= max");
    let p = watch(None, None, Some(0x10)).unwrap();
    assert_eq!(p.register, "sp");
    assert_eq!((p.min, p.max), (0, 0x10));
    assert_eq!(p.condition, "(SP < 0) || (SP > 10)");
    assert_eq!(p.spec, "1|(SP < 0) || (SP > 10)");
    let e = plan_register_watch(
        Some("zz"),
        Err(BridgeError::BadParams("unknown register: zz".into())),
        Ok(Some(16)),
        Ok(Some(8)),
        None,
    )
    .unwrap_err();
    assert_eq!(msg(e), "unknown register: zz");
}

#[test]
fn failed_replies_leave_the_table_alone() {
    let mut b: Bridge<u8, &'static str> = Bridge::new(5);
    let p = plan(&exec_params(), Some(PHYSICAL), 0x100, None).unwrap();
    let e = b.set_breakpoint(p, Err(BridgeError::Emulator("setpoint failed".into()))).unwrap_err();
    assert_eq!(msg(e), "setpoint failed");
    let w = watch(None, None, None).unwrap();
    let e = b.watch_register(w, Err(BridgeError::Io("closed".into()))).unwrap_err();
    assert_eq!(msg(e), "closed");
    assert!(b.list_breakpoints().is_empty());
    assert_eq!(b.next_id(), 5);
}

#[test]
fn set_list_clear_cycle() {
    let mut b: Bridge<u8, &'static str> = Bridge::new(1);
    let p = plan(&exec_params(), Some(PHYSICAL), 0x100, None).unwrap();
    let a = b.set_breakpoint(p, Ok(("bp".into(), "7".into()))).unwrap();
    let w = plan_register_watch(
        Some("sp"),
        Ok(("SP".to_string(), "SP".to_string())),
        Ok(Some(0)),
        Ok(Some(0x10)),
        Some(false),
    )
    .unwrap();
    let r = b.watch_register(w, Ok("3".into())).unwrap();
    assert_eq!((a, r), (1, 2));
    let rows = b.list_breakpoints();
    assert_eq!(rows.len(), 2);
    match &rows[0] {
        BreakpointRow::Memory { id, kind, start, end, condition } => {
            assert_eq!((*id, *kind, *start, *end), (1, BreakpointKind::Exec, 0x100, 0x100));
            assert!(condition.is_none());
        }
        _ => panic!("expected a memory row"),
    }
    match &rows[1] {
        BreakpointRow::Register { id, register, min, max, condition } => {
            assert_eq!(*id, 2);
            assert_eq!(register.as_deref(), Some("sp"));
            assert_eq!((*min, *max), (Some(0), Some(0x10)));
            assert_eq!(condition.as_deref(), Some("(SP < 0) || (SP > 10)"));
        }
        _ => panic!("expected a register row"),
    }
    assert_eq!(b.breakpoint_ids(), vec![1, 2]);
    assert_eq!(b.clear_request(1).unwrap(), "bp|7");
    assert_eq!(b.clear_request(2).unwrap(), "rp|3");
    assert_eq!(msg(b.clear_request(9).unwrap_err()), "unknown breakpoint id: 9");
    let e = b.clear_breakpoint(1, Ok("E01".into())).unwrap_err();
    assert!(matches!(e, BridgeError::Emulator(_)));
    assert_eq!(msg(e), "MAME breakpoint clear failed: E01");
    let e = b.clear_breakpoint(1, Err(BridgeError::Io("closed".into()))).unwrap_err();
    assert_eq!(msg(e), "closed");
    assert_eq!(b.list_breakpoints().len(), 2);
    assert_eq!(b.clear_breakpoint(1, Ok("OK".into())).unwrap(), 1);
    assert_eq!(b.clear_breakpoint(2, Ok("E00".into())).unwrap(), 2);
    assert!(b.list_breakpoints().is_empty());
    let q = BreakpointParams { kind: Some("write"), memory_type: None, pause_on_hit: Some(false) };
    let p = plan_breakpoint::<u8>(&q, Some(PHYSICAL), Ok(8), Ok(Some(11)), Ok(vec![3]), Ok("x==1".into())).unwrap();
    let c = b.set_breakpoint(p, Ok(("wp".into(), "1".into()))).unwrap();
    assert_eq!(c, 3);
    match &b.list_breakpoints()[0] {
        BreakpointRow::Memory { start, end, condition, .. } => {
            assert_eq!((*start, *end), (8, 11));
            assert_eq!(condition.as_deref(), Some("x==1"));
        }
        _ => panic!("expected a memory row"),
    }
}

#[test]
fn clearing_an_unknown_id_is_refused_even_on_an_ok_answer() {
    let mut b: Bridge<u8, &'static str> = Bridge::new(1);
    let p = plan(&exec_params(), Some(PHYSICAL), 0, None).unwrap();
    b.set_breakpoint(p, Ok(("bp".into(), "1".into()))).unwrap();
    let e = b.clear_breakpoint(7, Ok("OK".into())).unwrap_err();
    assert!(matches!(e, BridgeError::BadParams(_)));
    assert_eq!(msg(e), "unknown breakpoint id: 7");
    assert_eq!(b.list_breakpoints().len(), 1);
}

#[test]
fn clear_all_keeps_the_breakpoints_whose_clear_failed() {
    let mut b: Bridge<u8, &'static str> = Bridge::new(1);
    for start in [0u64, 1, 2, 3] {
        let p = plan(&exec_params(), Some(PHYSICAL), start, None).unwrap();
        b.set_breakpoint(p, Ok(("bp".into(), start.to_string()))).unwrap();
    }
    let answers = vec![
        Ok("OK".to_string()),
        Ok("E01".to_string()),
        Err(BridgeError::Io("timed out".into())),
        Ok("E00".to_string()),
    ];
    assert_eq!(b.clear_all_breakpoints(answers), vec![1, 4]);
    assert_eq!(b.breakpoint_ids(), vec![2, 3]);
    let all_ok = vec![Ok("OK".to_string()), Ok("OK".to_string())];
    assert_eq!(b.clear_all_breakpoints(all_ok), vec![2, 3]);
    assert!(b.breakpoint_ids().is_empty());
}

#[test]
fn poll_filters_and_drops_stale_stops() {
    let mut b: Bridge<u8, &'static str> = Bridge::new(1);
    b.push_event(EventKey { reset_stop: true, breakpoint_id: None }, "stale");
    b.push_event(EventKey { reset_stop: false, breakpoint_id: Some(1) }, "one");
    b.push_event(EventKey { reset_stop: false, breakpoint_id: Some(2) }, "two");
    b.push_event(EventKey { reset_stop: false, breakpoint_id: Some(1) }, "one-again");
    let e = b.poll_events(true, Err(BridgeError::BadParams("breakpoint_id must be a number".into())));
    assert_eq!(msg(e.unwrap_err()), "breakpoint_id must be a number");
    assert_eq!(b.poll_events(true, Ok(Some(1))).unwrap(), vec!["one", "one-again"]);
    assert_eq!(b.poll_events(false, Ok(None)).unwrap(), vec!["two"]);
    assert!(b.poll_events(false, Ok(None)).unwrap().is_empty());
    b.push_event(EventKey { reset_stop: true, breakpoint_id: None }, "stop");
    assert_eq!(b.poll_events(false, Ok(Some(4))).unwrap(), Vec::<&str>::new());
    assert_eq!(b.poll_events(false, Ok(None)).unwrap(), vec!["stop"]);
}

#[test]
fn a_breakpoint_keeps_its_row_through_other_changes() {
    let mut b: Bridge<u8, &'static str> = Bridge::new(1);
    let p = plan(&exec_params(), Some(PHYSICAL), 0x20, Some(0x2f)).unwrap();
    b.set_breakpoint(p, Ok(("bp".into(), "1".into()))).unwrap();
    let q = plan(&exec_params(), Some(PHYSICAL), 0x40, None).unwrap();
    b.set_breakpoint(q, Ok(("bp".into(), "2".into()))).unwrap();
    b.clear_breakpoint(2, Ok("OK".into())).unwrap();
    let r = plan(&exec_params(), Some(PHYSICAL), 0x60, None).unwrap();
    b.set_breakpoint(r, Ok(("bp".into(), "3".into()))).unwrap();
    b.clear_all_breakpoints(vec![Ok("E01".to_string()), Ok("OK".to_string())]);
    let rows = b.list_breakpoints();
    assert_eq!(rows.len(), 1);
    match &rows[0] {
        BreakpointRow::Memory { id, start, end, .. } => assert_eq!((*id, *start, *end), (1, 0x20, 0x2f)),
        _ => panic!("expected a memory row"),
    }
}
