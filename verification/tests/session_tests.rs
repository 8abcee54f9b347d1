#![allow(non_snake_case)]

use memory_scanner::config::FilterOption;
use memory_scanner::region::{
    is_scannable_region, scan_region, FilterMatchesRegion, MemoryMatches, RegionInfo,
};
use memory_scanner::scan::AddressMatch;
use memory_scanner::session::{
    write_sweep_outcome, GetNumberOfMatches, SessionState, SessionStatus,
};
use memory_scanner::target::encode_target;

#[test]
fn WriteMemoryOnceComparison() {
    assert!(true);
}

fn region_of(base: usize, buffer: &Vec<u8>) -> RegionInfo {
    RegionInfo { base, size: buffer.len() }
}

#[test]
fn ScanRegionFindsAbsoluteAddress() {
    let mut buffer: Vec<u8> = vec![0; 4096];
    buffer[100] = 42;
    let page = region_of(0x1000, &buffer);
    let m = scan_region(page, &buffer, 4, &vec![FilterOption::U32], b"42").expect("one match");
    assert_eq!(vec![100], m.matches.U32);
    let absolute = m.get_absolute_virtual_address();
    assert_eq!(vec![0x1000 + 100], absolute.U32);
}

#[test]
fn ScanRegionWithoutMatchIsDropped() {
    let buffer: Vec<u8> = vec![0; 64];
    let page = region_of(0x2000, &buffer);
    assert!(scan_region(page, &buffer, 2, &vec![FilterOption::U32], b"42").is_none());
}

#[test]
fn RefineKeepsSubset() {
    // Initial scan finds the value at two offsets; after the region changes,
    // only one of them still matches, and nothing new can appear.
    let mut buffer: Vec<u8> = vec![0; 32];
    buffer[0] = 15;
    buffer[8] = 15;
    let page = region_of(0x3000, &buffer);
    let m = scan_region(page, &buffer, 3, &vec![FilterOption::U32], b"15").expect("two matches");
    assert_eq!(vec![0, 8], m.matches.U32);

    let mut changed = buffer.clone();
    changed[0] = 0;
    changed[16] = 15;
    let refined =
        FilterMatchesRegion(&m, &changed, &vec![FilterOption::U32], b"15").expect("one left");
    assert_eq!(vec![8], refined.matches.U32);
}

#[test]
fn RefineToNothingDropsRegion() {
    let mut buffer: Vec<u8> = vec![0; 16];
    buffer[4] = 9;
    let page = region_of(0x4000, &buffer);
    let m = scan_region(page, &buffer, 1, &vec![FilterOption::U8], b"9").expect("one match");
    let mut changed = buffer.clone();
    changed[4] = 8;
    assert!(FilterMatchesRegion(&m, &changed, &vec![FilterOption::U8], b"9").is_none());
}

#[test]
fn RefineLeavesOtherKindsUntouched() {
    let mut buffer: Vec<u8> = vec![0; 16];
    buffer[2] = 5;
    let page = region_of(0x5000, &buffer);
    let m = scan_region(page, &buffer, 1, &vec![FilterOption::U8, FilterOption::U16], b"5")
        .expect("matches");
    assert_eq!(vec![2], m.matches.U8);
    assert_eq!(vec![2], m.matches.U16);
    // A refinement that only selects u8 must not touch the u16 offsets.
    let refined = FilterMatchesRegion(&m, &buffer, &vec![FilterOption::U8], b"5").expect("kept");
    assert_eq!(vec![2], refined.matches.U8);
    assert_eq!(vec![2], refined.matches.U16);
}

#[test]
fn WriteThenRefineKeepsEveryAddress() {
    // The match set for u32 value 15, written over with value 7, then refined
    // with target 7: every offset survives.
    let mut buffer: Vec<u8> = vec![0; 32];
    buffer[0] = 15;
    buffer[5] = 15;
    let page = region_of(0x6000, &buffer);
    let m = scan_region(page, &buffer, 2, &vec![FilterOption::U32], b"15").expect("matches");
    assert_eq!(vec![0, 5], m.matches.U32);

    let bytes = encode_target(&FilterOption::U32, b"7").expect("encodes");
    let mut written = buffer.clone();
    for &offset in &m.matches.U32 {
        written[offset..offset + bytes.len()].copy_from_slice(&bytes);
    }
    let refined =
        FilterMatchesRegion(&m, &written, &vec![FilterOption::U32], b"7").expect("all kept");
    assert_eq!(m.matches.U32, refined.matches.U32);
}

#[test]
fn ScannableRegionPredicate() {
    let commit = 0x1000;
    // Plain read-write, committed: scanned.
    assert!(is_scannable_region(commit, 0x04));
    // Execute-read-write, committed: scanned.
    assert!(is_scannable_region(commit, 0x40));
    // Guard and non-cacheable bits are masked off before the comparison.
    assert!(is_scannable_region(commit, 0x04 | 0x100));
    assert!(is_scannable_region(commit, 0x40 | 0x200));
    // Read-only, or not committed: not scanned.
    assert!(!is_scannable_region(commit, 0x02));
    assert!(!is_scannable_region(0x2000, 0x04));
}

#[test]
fn CountsAndSessionLifecycle() {
    let mut buffer: Vec<u8> = vec![0; 16];
    buffer[1] = 3;
    let page = region_of(0x7000, &buffer);
    let m = scan_region(page, &buffer, 1, &vec![FilterOption::U8, FilterOption::U32], b"3")
        .expect("matches");
    assert_eq!(2, GetNumberOfMatches(&vec![m.clone()]));

    let mut session = SessionState::new();
    assert_eq!(SessionStatus::Attached, session.status);
    session.install_results(vec![m]);
    assert_eq!(SessionStatus::Scanned, session.status);
    assert_eq!(2, session.total_count());
    let addresses = session.absolute_addresses(&FilterOption::U8);
    assert_eq!(vec![0x7000 + 1], addresses);

    session.install_results(Vec::new());
    assert_eq!(SessionStatus::Attached, session.status);
    assert_eq!(0, session.total_count());

    session.close();
    assert_eq!(SessionStatus::Closed, session.status);
}

#[test]
fn AbsoluteAddressesKeepRegionOrder() {
    let mut b1: Vec<u8> = vec![0; 8];
    b1[6] = 1;
    let mut b2: Vec<u8> = vec![0; 8];
    b2[2] = 1;
    let m1 = scan_region(region_of(0x100, &b1), &b1, 1, &vec![FilterOption::U8], b"1").unwrap();
    let m2 = scan_region(region_of(0x200, &b2), &b2, 1, &vec![FilterOption::U8], b"1").unwrap();
    let mut session = SessionState::new();
    session.install_results(vec![m1, m2]);
    assert_eq!(vec![0x106, 0x202], session.absolute_addresses(&FilterOption::U8));
}

#[test]
fn WriteSweepOutcome() {
    assert_eq!(Ok(()), write_sweep_outcome(5, 0));
    assert_eq!(Ok(()), write_sweep_outcome(5, 4));
    assert_eq!(Err(5), write_sweep_outcome(5, 5));
    assert_eq!(Err(0), write_sweep_outcome(0, 0));
}

#[test]
fn EmptyAddressMatchCounts() {
    let am = AddressMatch::new();
    assert!(am.is_empty());
    assert_eq!(0, am.len());
    let mm = MemoryMatches::new(RegionInfo { base: 0, size: 0 }, am);
    assert_eq!(0, GetNumberOfMatches(&vec![mm]));
}
