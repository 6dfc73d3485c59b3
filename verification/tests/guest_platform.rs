use tvisor::guest_platform::{IpaRegion, guest_gicv, guest_pl011, guest_ram, validate};

#[test]
fn default_layout_is_page_aligned_non_overlapping_and_in_range() {
    assert_eq!(validate(), Ok(()));
    assert_eq!(guest_ram().end(), Some(0x6000_0000));
    assert!(!guest_gicv().overlaps(guest_pl011()));
    assert!(!guest_ram().overlaps(guest_gicv()));
}

#[test]
fn region_overlap_detects_partial_and_adjacent_ranges() {
    let base = IpaRegion::new(0x1000, 0x2000);
    assert!(base.overlaps(IpaRegion::new(0x2000, 0x1000)));
    assert!(!base.overlaps(IpaRegion::new(0x3000, 0x1000)));
}

#[test]
fn a_range_whose_end_overflows_overlaps_everything() {
    let wrapping = IpaRegion::new(u64::MAX, 2);
    assert_eq!(wrapping.end(), None);
    assert!(wrapping.overlaps(IpaRegion::new(0, 1)));
}
