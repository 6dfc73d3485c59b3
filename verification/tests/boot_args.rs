use tvisor::boot_mode::{BootModeError, FaultTest, TakeoverRequest, takeover_request_from_args};

#[test]
fn takeover_requests_are_read_from_terminated_arguments() {
    let entry: &[u8] = b"4001010\0";
    let mode: &[u8] = b"mode=takeover\0";
    let mmu: &[u8] = b"mmu=switch\0";
    let fault: &[u8] = b"fault=guard\0";
    let argv = [Some(entry), Some(mode), Some(mmu), Some(fault)];
    assert_eq!(
        takeover_request_from_args(4, Some(&argv)),
        Ok(Some(TakeoverRequest {
            fault_test: FaultTest::Guard,
            switch_page_tables: true,
        }))
    );
    assert_eq!(takeover_request_from_args(1, Some(&argv)), Ok(None));
}

#[test]
fn malformed_argument_vectors_are_rejected() {
    let mode: &[u8] = b"mode=takeover\0";
    let argv = [Some(mode)];
    assert_eq!(
        takeover_request_from_args(0, Some(&argv)),
        Err(BootModeError::InvalidArgCount)
    );
    assert_eq!(
        takeover_request_from_args(-1, Some(&argv)),
        Err(BootModeError::InvalidArgCount)
    );
    assert_eq!(
        takeover_request_from_args(1, None),
        Err(BootModeError::NullArgv)
    );
    let missing: [Option<&[u8]>; 2] = [Some(mode), None];
    assert_eq!(
        takeover_request_from_args(2, Some(&missing)),
        Err(BootModeError::NullArgument)
    );
    let long = [b'm'; 64];
    let unterminated = [Some(&long[..])];
    assert_eq!(
        takeover_request_from_args(1, Some(&unterminated)),
        Err(BootModeError::UnterminatedArgument)
    );
    let unknown: &[u8] = b"mode=fast\0";
    let argv = [Some(unknown)];
    assert_eq!(
        takeover_request_from_args(1, Some(&argv)),
        Err(BootModeError::UnknownMode)
    );
}
