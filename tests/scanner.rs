use netscan::liveness::{classify_probe_exit, ProbeExit, ProbeMechanismError};
use netscan::port_list::parse_port_list;
use netscan::ports::{normalize_ports, port_range, ScanTarget};
use netscan::scan::{PortScan, Probe, ScanSession, Slot};
use netscan::types::{
    classify_connect, ipv4_bounds, next_in_range, ConnectOutcome, IpAddress, PortStatus,
};

const LOOPBACK: IpAddress = IpAddress::V4(0x7f00_0001);

/// Runs a scan to the end, resolving in-flight probes in the order `pick`
/// chooses and giving each port the outcome `outcome_of` assigns.
fn drive(
    target: ScanTarget,
    concurrency: usize,
    outcome_of: &dyn Fn(u16) -> ConnectOutcome,
    newest_first: bool,
) -> ScanSession {
    let mut scan = PortScan::new(target, 50, concurrency);
    let mut running: Vec<Probe> = Vec::new();
    loop {
        while let Some(p) = scan.next_probe() {
            running.push(p);
            assert!(scan.in_flight <= scan.limit);
        }
        if scan.is_complete() {
            break;
        }
        let p = if newest_first { running.pop().unwrap() } else { running.remove(0) };
        assert!(scan.record(p.slot, outcome_of(p.port), p.port as u64));
    }
    scan.finish(7)
}

#[test]
fn connected_port_is_open() {
    assert_eq!(classify_connect(ConnectOutcome::Connected), PortStatus::Open);
}

#[test]
fn refused_port_is_closed() {
    assert_eq!(classify_connect(ConnectOutcome::Refused), PortStatus::Closed);
}

#[test]
fn silent_port_is_filtered() {
    assert_eq!(classify_connect(ConnectOutcome::TimedOut), PortStatus::Filtered);
    assert_eq!(classify_connect(ConnectOutcome::Unanswered), PortStatus::Filtered);
}

#[test]
fn scan_reports_each_port_once() {
    let target = ScanTarget::from_ports(LOOPBACK, &vec![443, 22, 80, 22, 8080]);
    let s = drive(target, 2, &|_| ConnectOutcome::Refused, false);
    let ports: Vec<u16> = s.results.iter().map(|r| r.port).collect();
    assert_eq!(ports, vec![22, 80, 443, 8080]);
    assert!(!s.cancelled);
    assert_eq!(s.duration_ms, 7);
    assert_eq!(s.concurrency, 2);
}

#[test]
fn order_does_not_depend_on_concurrency() {
    let outcome = |p: u16| if p % 2 == 0 { ConnectOutcome::Connected } else { ConnectOutcome::Refused };
    let a = drive(ScanTarget::from_range(LOOPBACK, 20, 30), 1, &outcome, false);
    let b = drive(ScanTarget::from_range(LOOPBACK, 20, 30), 11, &outcome, true);
    assert_eq!(a.results, b.results);
    let ports: Vec<u16> = a.results.iter().map(|r| r.port).collect();
    assert_eq!(ports, (20..=30).collect::<Vec<u16>>());
    assert_eq!(a.open_ports(), vec![20, 22, 24, 26, 28, 30]);
}

#[test]
fn black_holed_ports_are_all_filtered() {
    let target = ScanTarget::from_range(IpAddress::V4(0x0a00_0001), 1, 100);
    let s = drive(target, 10, &|_| ConnectOutcome::TimedOut, false);
    assert_eq!(s.results.len(), 100);
    assert!(s.results.iter().all(|r| r.status == PortStatus::Filtered));
    assert!(s.open_ports().is_empty());
}

#[test]
fn concurrency_limit_bounds_dispatch() {
    let mut scan = PortScan::new(ScanTarget::from_range(LOOPBACK, 1, 10), 50, 3);
    let mut handed = Vec::new();
    while let Some(p) = scan.next_probe() {
        handed.push(p);
    }
    assert_eq!(handed.len(), 3);
    assert_eq!(handed[0], Probe { slot: 0, port: 1 });
    assert!(scan.record(1, ConnectOutcome::Connected, 3));
    assert_eq!(scan.next_probe(), Some(Probe { slot: 3, port: 4 }));
    assert_eq!(scan.next_probe(), None);
}

#[test]
fn zero_concurrency_runs_one_at_a_time() {
    let mut scan = PortScan::new(ScanTarget::from_range(LOOPBACK, 1, 3), 50, 0);
    assert_eq!(scan.limit, 1);
    assert!(scan.next_probe().is_some());
    assert!(scan.next_probe().is_none());
}

#[test]
fn cancel_keeps_resolved_and_marks_the_rest() {
    let mut scan = PortScan::new(ScanTarget::from_ports(LOOPBACK, &vec![10, 20, 30, 40]), 50, 2);
    let a = scan.next_probe().unwrap();
    let b = scan.next_probe().unwrap();
    assert!(scan.record(a.slot, ConnectOutcome::Connected, 5));
    let c = scan.next_probe().unwrap();
    assert!(scan.record(c.slot, ConnectOutcome::Refused, 6));
    assert!(!scan.is_complete());
    scan.cancel();
    assert!(scan.is_complete());
    assert!(scan.next_probe().is_none());
    assert!(!scan.record(b.slot, ConnectOutcome::Connected, 9));
    let s = scan.finish(11);
    assert!(s.cancelled);
    let statuses: Vec<PortStatus> = s.results.iter().map(|r| r.status).collect();
    assert_eq!(
        statuses,
        vec![PortStatus::Open, PortStatus::Cancelled, PortStatus::Closed, PortStatus::Cancelled]
    );
    assert_eq!(s.results.len(), 4);
    assert_eq!(s.results[0].elapsed_ms, 5);
    assert_eq!(s.results[2].elapsed_ms, 6);
    assert_eq!(s.results[1].elapsed_ms, 0);
}

#[test]
fn finishing_early_marks_session_cancelled() {
    let mut scan = PortScan::new(ScanTarget::from_ports(LOOPBACK, &vec![1, 2]), 50, 2);
    let p = scan.next_probe().unwrap();
    assert!(scan.record(p.slot, ConnectOutcome::Refused, 1));
    let s = scan.finish(2);
    assert!(s.cancelled);
    assert_eq!(s.results[1].status, PortStatus::Cancelled);
}

#[test]
fn record_refuses_slots_that_are_not_running() {
    let mut scan = PortScan::new(ScanTarget::from_ports(LOOPBACK, &vec![1, 2]), 50, 1);
    assert!(!scan.record(0, ConnectOutcome::Connected, 1));
    assert!(!scan.record(5, ConnectOutcome::Connected, 1));
    let p = scan.next_probe().unwrap();
    assert!(scan.record(p.slot, ConnectOutcome::Connected, 1));
    assert!(!scan.record(p.slot, ConnectOutcome::Refused, 1));
    assert_eq!(scan.slots[0], Slot::Done(PortStatus::Open, 1));
    assert_eq!(scan.in_flight, 0);
}

#[test]
fn empty_target_completes_at_once() {
    let scan = PortScan::new(ScanTarget::from_ports(LOOPBACK, &vec![]), 50, 4);
    assert!(scan.is_complete());
    let s = scan.finish(0);
    assert!(s.results.is_empty());
    assert!(!s.cancelled);
}

#[test]
fn liveness_distinguishes_down_from_unprobed() {
    let up = classify_probe_exit(LOOPBACK, ProbeExit::Replied);
    assert!(up.is_reachable());
    assert_eq!(up.into_checked(), Ok(up));
    let down = classify_probe_exit(IpAddress::V4(0x0a00_0001), ProbeExit::NoReply);
    assert!(!down.is_reachable());
    assert_eq!(down.into_checked(), Ok(down));
    let broken = classify_probe_exit(LOOPBACK, ProbeExit::MechanismError);
    assert!(!broken.reachable);
    assert_eq!(broken.into_checked(), Err(ProbeMechanismError { address: LOOPBACK }));
}

#[test]
fn normalize_sorts_and_drops_repeats() {
    assert_eq!(normalize_ports(&vec![443, 22, 443, 0, 65535, 22]), vec![0, 22, 443, 65535]);
    assert_eq!(normalize_ports(&vec![]), Vec::<u16>::new());
}

#[test]
fn port_range_edges() {
    assert_eq!(port_range(5, 8), vec![5, 6, 7, 8]);
    assert_eq!(port_range(9, 8), Vec::<u16>::new());
    assert_eq!(port_range(65534, 65535), vec![65534, 65535]);
    assert_eq!(port_range(0, 65535).len(), 65536);
    let t = ScanTarget::from_range(LOOPBACK, 80, 80);
    assert_eq!(t.port_count(), 1);
}

#[test]
fn parse_port_list_reads_fields() {
    assert_eq!(parse_port_list(&b"22,80,443".to_vec()), vec![22, 80, 443]);
    assert_eq!(
        parse_port_list(&b" 22 , abc,70000, +8080,,65535,-1, 0\n".to_vec()),
        vec![22, 8080, 65535, 0]
    );
    assert_eq!(parse_port_list(&b"".to_vec()), Vec::<u16>::new());
    assert_eq!(parse_port_list(&b"65536,+,8 0".to_vec()), Vec::<u16>::new());
    assert_eq!(parse_port_list(&b"00022".to_vec()), vec![22]);
}

#[test]
fn range_steps_stop_at_the_end() {
    assert_eq!(next_in_range(10, 12), Some(11));
    assert_eq!(next_in_range(12, 12), None);
    assert_eq!(next_in_range(u32::MAX, u32::MAX), None);
    assert_eq!(next_in_range(13, 12), None);
}

#[test]
fn range_bounds_need_ipv4() {
    assert_eq!(ipv4_bounds(IpAddress::V4(1), IpAddress::V4(9)), Some((1, 9)));
    assert_eq!(ipv4_bounds(IpAddress::V4(1), IpAddress::V6(9)), None);
    assert_eq!(ipv4_bounds(IpAddress::V6(1), IpAddress::V6(9)), None);
}
