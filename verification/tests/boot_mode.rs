use tvisor::boot_mode::{BootModeError, FaultTest, TakeoverRequest, parse_mode};

#[test]
fn parses_default_and_takeover_modes() {
    assert_eq!(parse_mode(&[b"fdt=1000".as_slice()]), Ok(None));
    assert_eq!(
        parse_mode(&[b"mode=takeover".as_slice(), b"fault=sync".as_slice()]),
        Ok(Some(TakeoverRequest {
            fault_test: FaultTest::Sync,
            switch_page_tables: false,
        }))
    );
    assert_eq!(
        parse_mode(&[b"mode=takeover".as_slice(), b"mmu=switch".as_slice()]),
        Ok(Some(TakeoverRequest {
            fault_test: FaultTest::NoFault,
            switch_page_tables: true,
        }))
    );
}

#[test]
fn rejects_fault_on_returnable_path_and_duplicates() {
    assert_eq!(
        parse_mode(&[b"fault=sync".as_slice()]),
        Err(BootModeError::FaultWithoutTakeover)
    );
    assert_eq!(
        parse_mode(&[b"mode=takeover".as_slice(), b"mode=diagnostic".as_slice()]),
        Err(BootModeError::DuplicateMode)
    );
    assert_eq!(
        parse_mode(&[b"mmu=switch".as_slice()]),
        Err(BootModeError::MmuWithoutTakeover)
    );
    assert_eq!(
        parse_mode(&[b"mode=takeover".as_slice(), b"fault=guard".as_slice()]),
        Err(BootModeError::TranslationFaultWithoutMmuSwitch)
    );
}
