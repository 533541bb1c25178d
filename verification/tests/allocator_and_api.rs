use kernel_gateway::kernel_manager::{Kernel, KernelError, KernelManager};
use kernel_gateway::response::ApiResponse;

#[test]
fn default_pool_strides_the_whole_range() {
    let m = KernelManager::new();
    assert_eq!(m.pool_len(), 12600);
    let (index, start) = m.pick_candidate(0).unwrap();
    assert_eq!(index, 0);
    assert_eq!(start, 2000);
}

#[test]
fn candidates_stay_inside_the_pool() {
    let m = KernelManager::with_range(2000, 2030);
    assert_eq!(m.pool_len(), 6);
    for attempt in 0..6 {
        let (index, start) = m.pick_candidate(attempt).expect("candidate expected");
        assert!(index < 6);
        assert!((2000..2030).contains(&start));
        assert_eq!((start - 2000) % 5, 0);
        if attempt == 0 {
            assert_eq!(index, 0);
            assert_eq!(start, 2000);
        }
    }
    assert!(m.pick_candidate(6).is_none());
}

#[test]
fn empty_range_gives_an_empty_pool() {
    let m = KernelManager::with_range(3000, 3000);
    assert_eq!(m.pool_len(), 0);
    assert!(m.pick_candidate(0).is_none());
}

#[test]
fn allocation_consumes_the_chosen_segment() {
    let mut m = KernelManager::with_range(2000, 2020);
    assert_eq!(m.pool_len(), 4);
    let config = m.allocate_at(2, "127.0.0.1".to_string()).unwrap();
    assert_eq!(config.ip, "127.0.0.1");
    assert_eq!(config.hb_port, 2010);
    assert_eq!(config.control_port, 2011);
    assert_eq!(config.shell_port, 2012);
    assert_eq!(config.iopub_port, 2013);
    assert_eq!(config.stdin_port, 2014);
    assert_eq!(m.pool_len(), 3);
}

#[test]
fn allocation_outside_the_pool_fails() {
    let mut m = KernelManager::with_range(2000, 2020);
    let res = m.allocate_at(4, "0.0.0.0".to_string());
    assert_eq!(res.unwrap_err(), KernelError::PortAllocationError);
    assert_eq!(m.pool_len(), 4);
}

#[test]
fn new_kernel_record_is_created_and_unresourced() {
    let k = Kernel::new("report-a".to_string());
    assert!(matches!(
        k.status,
        kernel_gateway::kernel_manager::KernelStatus::Created
    ));
    assert!(k.process_id.is_none());
    assert!(k.config.is_none());
    assert_eq!(k.report_id, "report-a");
    assert_eq!(k.id.len(), 36);
}

#[test]
fn fresh_kernel_ids_differ() {
    let a = Kernel::new("report-a".to_string());
    let b = Kernel::new("report-a".to_string());
    assert_ne!(a.id, b.id);
}

#[test]
fn error_messages_name_each_failure() {
    assert_eq!(
        KernelError::PortAllocationError.message(),
        "no free port segment could be allocated"
    );
    assert_eq!(
        KernelError::SpawnError.message(),
        "failed to start the kernel process"
    );
    assert_eq!(
        KernelError::KernelNotRunningError.message(),
        "kernel process is not running"
    );
    assert_eq!(
        KernelError::NotFoundError.message(),
        "kernel for this report id was not found"
    );
    assert_eq!(
        KernelError::TerminateError.message(),
        "failed to kill the kernel process"
    );
}

#[test]
fn api_response_wraps_success_and_error() {
    let ok = ApiResponse::success(17u32);
    assert!(ok.success);
    assert_eq!(ok.data, Some(17));
    assert!(ok.error.is_none());

    let err = ApiResponse::<u32>::error("something went wrong");
    assert!(!err.success);
    assert!(err.data.is_none());
    assert_eq!(err.error.as_deref(), Some("something went wrong"));
}
