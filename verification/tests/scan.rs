use ip_sniffer::addr::IpAddress;
use ip_sniffer::collector::collect;
use ip_sniffer::config::ScanConfig;
use ip_sniffer::dispatcher::make_workers;
use ip_sniffer::worker::Worker;

fn loopback() -> IpAddress {
    IpAddress::loopback()
}

/// Run a whole scan against a simulated network where exactly the ports in
/// `open` accept a connection: every worker walks its stride, each probe
/// outcome is fed back, and the reports are collected and sorted.
fn run_scan(config: &ScanConfig, open: &[u16]) -> Vec<u16> {
    let mut received: Vec<u16> = Vec::new();
    for mut w in make_workers(config) {
        while let Some(port) = w.current() {
            let outcome = open.contains(&port);
            if let Some(report) = w.record(outcome) {
                received.push(report);
            }
        }
    }
    collect(&received)
}

#[test]
fn scenario_listener_on_80_of_80_82() {
    let config = ScanConfig::new(loopback(), 80, 82, 2).unwrap();
    assert_eq!(run_scan(&config, &[80]), vec![80]);
}

#[test]
fn scenario_listeners_on_3_and_7_of_1_10() {
    let config = ScanConfig::new(loopback(), 1, 10, 3).unwrap();
    assert_eq!(run_scan(&config, &[3, 7]), vec![3, 7]);
}

#[test]
fn scenario_result_independent_of_worker_count() {
    // whichever stride owns a port, the sorted result is the same
    for workers in 1..=6u16 {
        let config = ScanConfig::new(loopback(), 1, 10, workers).unwrap();
        assert_eq!(run_scan(&config, &[3, 7]), vec![3, 7]);
    }
}

#[test]
fn scenario_no_open_ports() {
    let config = ScanConfig::new(loopback(), 1, 10, 4).unwrap();
    assert_eq!(run_scan(&config, &[]), Vec::<u16>::new());
}

#[test]
fn scenario_all_ports_open() {
    let config = ScanConfig::new(loopback(), 5, 9, 2).unwrap();
    assert_eq!(run_scan(&config, &[5, 6, 7, 8, 9]), vec![5, 6, 7, 8, 9]);
}

#[test]
fn more_workers_than_ports() {
    let config = ScanConfig::new(loopback(), 10, 12, 8).unwrap();
    assert_eq!(run_scan(&config, &[10, 12]), vec![10, 12]);
}

#[test]
fn single_port_range() {
    let config = ScanConfig::new(loopback(), 443, 443, 4).unwrap();
    assert_eq!(run_scan(&config, &[443]), vec![443]);
    assert_eq!(run_scan(&config, &[80]), Vec::<u16>::new());
}

#[test]
fn full_range_bounds_are_probed() {
    // the extreme ports 1 and 65535 are assigned and reported when open
    let config = ScanConfig::new(loopback(), 65530, 65535, 4).unwrap();
    assert_eq!(run_scan(&config, &[65535, 65530]), vec![65530, 65535]);
}

#[test]
fn worker_walks_its_stride_in_order() {
    let config = ScanConfig::new(loopback(), 1, 10, 3).unwrap();
    let mut w = Worker::new(&config, 0);
    let mut seen: Vec<u16> = Vec::new();
    while let Some(port) = w.current() {
        seen.push(port);
        w.record(false);
    }
    assert_eq!(seen, vec![1, 4, 7, 10]);

    let mut w1 = Worker::new(&config, 1);
    let mut seen1: Vec<u16> = Vec::new();
    while let Some(port) = w1.current() {
        seen1.push(port);
        w1.record(false);
    }
    assert_eq!(seen1, vec![2, 5, 8]);

    let mut w2 = Worker::new(&config, 2);
    let mut seen2: Vec<u16> = Vec::new();
    while let Some(port) = w2.current() {
        seen2.push(port);
        w2.record(false);
    }
    assert_eq!(seen2, vec![3, 6, 9]);
}

#[test]
fn strides_partition_the_range() {
    // union of the workers' strides is exactly the range, with no repeats
    let config = ScanConfig::new(loopback(), 100, 137, 5).unwrap();
    let mut all: Vec<u16> = Vec::new();
    for mut w in make_workers(&config) {
        while let Some(port) = w.current() {
            all.push(port);
            w.record(false);
        }
    }
    all.sort();
    let expected: Vec<u16> = (100..=137).collect();
    assert_eq!(all, expected);
}

#[test]
fn worker_reports_exactly_the_open_probes() {
    let config = ScanConfig::new(loopback(), 1, 9, 1).unwrap();
    let mut w = Worker::new(&config, 0);
    let open = [2u16, 5, 9];
    let mut reported: Vec<u16> = Vec::new();
    while let Some(port) = w.current() {
        let outcome = open.contains(&port);
        match w.record(outcome) {
            Some(p) => {
                assert!(outcome);
                assert_eq!(p, port);
                reported.push(p);
            }
            None => assert!(!outcome),
        }
    }
    assert_eq!(reported, vec![2, 5, 9]);
    assert_eq!(w.found, vec![2, 5, 9]);
}

#[test]
fn collector_sorts_ascending() {
    assert_eq!(collect(&vec![9, 1, 5, 3]), vec![1, 3, 5, 9]);
    assert_eq!(collect(&Vec::new()), Vec::<u16>::new());
    assert_eq!(collect(&vec![7]), vec![7]);
    assert_eq!(collect(&vec![2, 2, 1]), vec![1, 2, 2]);
    assert_eq!(collect(&vec![65535, 1, 443, 80]), vec![1, 80, 443, 65535]);
}

#[test]
fn dispatcher_makes_one_worker_per_stride() {
    let config = ScanConfig::new(loopback(), 20, 30, 4).unwrap();
    let ws = make_workers(&config);
    assert_eq!(ws.len(), 4);
    for (i, w) in ws.iter().enumerate() {
        assert_eq!(w.stride_index as usize, i);
        assert_eq!(w.start_port, 20);
        assert_eq!(w.end_port, 30);
        assert_eq!(w.worker_count, 4);
        assert!(w.found.is_empty());
    }
}
