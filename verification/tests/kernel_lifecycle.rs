use kernel_gateway::kernel_manager::{Kernel, KernelError, KernelManager, KernelStatus};

const IP: &str = "0.0.0.0";

/// Drives the launch protocol with the first proposed candidate, assuming the
/// probe and the spawn succeed.
fn launch_ok(m: &mut KernelManager, report_id: &str, pid: u32) -> Kernel {
    let (index, _start) = m.pick_candidate(0).expect("pool is exhausted");
    let config = m.allocate_at(index, IP.to_string()).expect("allocation failed");
    m.launch(report_id.to_string(), config, pid, true)
        .expect("launch failed")
}

fn ports(k: &Kernel) -> [u32; 5] {
    let c = k.config.as_ref().expect("record has no port config");
    [c.hb_port, c.control_port, c.shell_port, c.iopub_port, c.stdin_port]
}

#[test]
fn launch_then_get_is_running() {
    let mut m = KernelManager::with_range(2000, 2010);
    let k = launch_ok(&mut m, "report-a", 4242);
    assert!(matches!(k.status, KernelStatus::Running));
    assert_eq!(k.process_id, Some(4242));
    let got = m.get_kernel(&"report-a".to_string()).expect("record is missing");
    assert!(matches!(got.status, KernelStatus::Running));
    assert_eq!(got.process_id, Some(4242));
    assert_eq!(got.report_id, "report-a");
    let ps = ports(got);
    assert_eq!(ps, [2000, 2001, 2002, 2003, 2004]);
    for a in 0..5 {
        for b in 0..5 {
            if a != b {
                assert_ne!(ps[a], ps[b]);
            }
        }
        assert!((2000..2010).contains(&ps[a]));
    }
    assert_eq!(m.get_kernels().len(), 1);
}

#[test]
fn two_launches_get_disjoint_segments() {
    let mut m = KernelManager::with_range(2000, 2010);
    let ka = launch_ok(&mut m, "report-a", 11);
    let kb = launch_ok(&mut m, "report-b", 12);
    let pa = ports(&ka);
    let pb = ports(&kb);
    for a in pa.iter() {
        for b in pb.iter() {
            assert_ne!(a, b);
        }
    }
    assert_eq!(pa, [2000, 2001, 2002, 2003, 2004]);
    assert_eq!(pb, [2005, 2006, 2007, 2008, 2009]);
}

#[test]
fn kill_unknown_fails_not_found_and_changes_nothing() {
    let mut m = KernelManager::with_range(2000, 2010);
    launch_ok(&mut m, "report-a", 11);
    let pool_before = m.pool_len();
    let res = m.kill(&"ghost".to_string(), true);
    assert_eq!(res, Err(KernelError::NotFoundError));
    assert_eq!(m.pool_len(), pool_before);
    assert_eq!(m.get_kernels().len(), 1);
    assert!(m.get_kernel(&"report-a".to_string()).is_some());
}

#[test]
fn kill_leaves_no_tombstone() {
    let mut m = KernelManager::with_range(2000, 2010);
    launch_ok(&mut m, "report-a", 11);
    let res = m.kill(&"report-a".to_string(), true);
    assert_eq!(res, Ok(true));
    assert!(m.get_kernel(&"report-a".to_string()).is_none());
    assert_eq!(m.get_kernels().len(), 0);
}

#[test]
fn kill_undelivered_signal_fails_terminate_and_keeps_record() {
    let mut m = KernelManager::with_range(2000, 2010);
    launch_ok(&mut m, "report-a", 11);
    let pool_before = m.pool_len();
    let res = m.kill(&"report-a".to_string(), false);
    assert_eq!(res, Err(KernelError::TerminateError));
    assert!(m.get_kernel(&"report-a".to_string()).is_some());
    assert_eq!(m.pool_len(), pool_before);
}

#[test]
fn killed_segment_restores_pool_size() {
    let mut m = KernelManager::with_range(2000, 2010);
    let pool_before_launch = m.pool_len();
    launch_ok(&mut m, "report-a", 11);
    assert_eq!(m.pool_len(), pool_before_launch - 1);
    assert_eq!(m.kill(&"report-a".to_string(), true), Ok(true));
    assert_eq!(m.pool_len(), pool_before_launch);
}

#[test]
fn restart_keeps_report_id_but_renews_identity_and_ports() {
    let mut m = KernelManager::with_range(2000, 2010);
    let k0 = launch_ok(&mut m, "report-a", 11);
    // Restart is a kill strictly followed by a launch of the same report id.
    assert_eq!(m.kill(&"report-a".to_string(), true), Ok(true));
    let k1 = launch_ok(&mut m, "report-a", 12);
    assert_eq!(k1.report_id, "report-a");
    assert_ne!(k1.id, k0.id);
    assert_ne!(ports(&k1), ports(&k0));
    assert_eq!(ports(&k1), [2005, 2006, 2007, 2008, 2009]);
    assert_eq!(m.get_kernels().len(), 1);
}

#[test]
fn restart_unknown_propagates_not_found_without_launch() {
    let mut m = KernelManager::with_range(2000, 2010);
    let pool_before = m.pool_len();
    // The kill step fails, so the restart stops before any launch.
    let res = m.kill(&"ghost".to_string(), true);
    assert_eq!(res, Err(KernelError::NotFoundError));
    assert_eq!(m.pool_len(), pool_before);
    assert_eq!(m.get_kernels().len(), 0);
}

#[test]
fn two_segment_pool_exhaustion_and_reuse() {
    let mut m = KernelManager::with_range(2000, 2010);
    let ka = launch_ok(&mut m, "report-a", 1);
    assert_eq!(ports(&ka), [2000, 2001, 2002, 2003, 2004]);
    let kb = launch_ok(&mut m, "report-b", 2);
    assert_eq!(ports(&kb), [2005, 2006, 2007, 2008, 2009]);
    // Pool exhausted: no candidate is proposed, allocation reports the error.
    assert!(m.pick_candidate(0).is_none());
    assert_eq!(
        m.allocate_at(0, IP.to_string()).unwrap_err(),
        KernelError::PortAllocationError
    );
    // Killing the first kernel returns its segment to the pool.
    assert_eq!(m.kill(&"report-a".to_string(), true), Ok(true));
    assert_eq!(m.pool_len(), 1);
    let kc = launch_ok(&mut m, "report-c", 3);
    assert_eq!(ports(&kc), [2000, 2001, 2002, 2003, 2004]);
}

#[test]
fn failed_liveness_confirmation_releases_segment() {
    let mut m = KernelManager::with_range(2000, 2010);
    let pool_before = m.pool_len();
    let (index, _) = m.pick_candidate(0).unwrap();
    let config = m.allocate_at(index, IP.to_string()).unwrap();
    let res = m.launch("report-a".to_string(), config, 7, false);
    assert_eq!(res.unwrap_err(), KernelError::KernelNotRunningError);
    assert!(m.get_kernel(&"report-a".to_string()).is_none());
    assert_eq!(m.pool_len(), pool_before);
}

#[test]
fn failed_spawn_abort_releases_segment_once() {
    let mut m = KernelManager::with_range(2000, 2010);
    let pool_before = m.pool_len();
    let (index, _) = m.pick_candidate(0).unwrap();
    let config = m.allocate_at(index, IP.to_string()).unwrap();
    let copy = config.duplicate();
    assert!(m.abort_launch(config));
    assert_eq!(m.pool_len(), pool_before);
    // The segment is back in the pool, so a second release is refused.
    assert!(!m.abort_launch(copy));
    assert_eq!(m.pool_len(), pool_before);
}

#[test]
fn relaunch_of_live_report_id_replaces_record() {
    let mut m = KernelManager::with_range(2000, 2010);
    launch_ok(&mut m, "report-a", 11);
    let k2 = launch_ok(&mut m, "report-a", 22);
    assert_eq!(m.get_kernels().len(), 1);
    let got = m.get_kernel(&"report-a".to_string()).unwrap();
    assert_eq!(got.process_id, Some(22));
    assert_eq!(got.id, k2.id);
    assert_eq!(ports(got), [2005, 2006, 2007, 2008, 2009]);
}

#[test]
fn launch_with_improper_config_is_a_port_allocation_failure() {
    let mut m = KernelManager::with_range(2000, 2010);
    let (index, _) = m.pick_candidate(0).unwrap();
    let mut config = m.allocate_at(index, IP.to_string()).unwrap();
    // A config whose start is off the pool grid counts as a bind conflict.
    config.hb_port = 2001;
    let pool_before = m.pool_len();
    let res = m.launch("report-a".to_string(), config, 7, true);
    assert_eq!(res.unwrap_err(), KernelError::PortAllocationError);
    assert_eq!(m.pool_len(), pool_before);
    assert_eq!(m.get_kernels().len(), 0);
}
