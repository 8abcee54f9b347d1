#![allow(non_snake_case)]

use memory_scanner::config::FilterOption;
use memory_scanner::scan::{
    merge_sorted, scan_tile, InitialCompareMemoryValue, InitialMatchMemory,
    InitialMultithreadSearch,
};

#[test]
fn MemoryComparison() {
    let buffer: Vec<u8> = vec![15, 0, 0, 0];
    assert_eq!(
        [0 as usize].to_vec(),
        InitialCompareMemoryValue(&FilterOption::U32, b"15", &buffer, 0, buffer.len())
    );
}

#[test]
fn EmptyMatchMemoryComparison() {
    let buffer: Vec<u8> = vec![15, 0, 0, 0];
    assert_eq!(
        true,
        InitialCompareMemoryValue(&FilterOption::U32, b"10", &buffer, 0, buffer.len()).len() == 0
    );
}

#[test]
fn FindMatch_RegularCase() {
    let buffer: Vec<u8> = vec![15, 0, 0, 0, 0, 0, 0, 0, 0];
    let buffer_len = buffer.len();
    assert_eq!(
        [0].to_vec(),
        InitialMatchMemory(&[FilterOption::U32].to_vec(), b"15", &buffer, 0, buffer_len).U32
    );
}

#[test]
fn FindMatch_RegularCaseMiddle() {
    let buffer: Vec<u8> = vec![0, 0, 0, 0, 0, 15, 0, 0, 0];
    let buffer_len = buffer.len();
    assert_eq!(
        [5].to_vec(),
        InitialMatchMemory(&[FilterOption::U32].to_vec(), b"15", &buffer, 5, buffer_len - 5).U32
    );
}

#[test]
fn FindMatch_ArraySmallerThanType() {
    let buffer: Vec<u8> = vec![15, 0, 0, 0];
    let buffer_len = buffer.len();
    assert_eq!(
        true,
        InitialMatchMemory(&[FilterOption::U64].to_vec(), b"15", &buffer, 0, buffer_len).U64.len()
            == 0
    );
}

#[test]
fn FindMatch_Start_AllocatedSpaceSmallerThanType() {
    // Consider 4 threads reading the buffer
    let buffer: Vec<u8> = vec![15, 0, 0, 0, 0, 0, 0, 0];
    assert_eq!(
        [0].to_vec(),
        InitialMatchMemory(&[FilterOption::U32].to_vec(), b"15", &buffer, 0, 2).U32
    );
}

#[test]
fn FindMatch_End_AllocatedSpaceSmallerThanType() {
    // Consider 4 threads reading the buffer
    let buffer: Vec<u8> = vec![0, 0, 0, 0, 15, 0, 0, 0];
    assert_eq!(
        [4].to_vec(),
        InitialMatchMemory(&[FilterOption::U32].to_vec(), b"15", &buffer, 4, 2).U32
    );
}

#[test]
fn FindMatch_ThreadStartOutOfBounds() {
    // Consider 10 threads reading the buffer and the space is ceil-rounded - thread 10
    let buffer: Vec<u8> = vec![0, 0, 0, 0, 15, 0, 0, 0];
    assert_eq!(
        true,
        InitialMatchMemory(&[FilterOption::U32].to_vec(), b"15", &buffer, 10, 1).U32.len() == 0
    );
}

#[test]
fn FindMatch_ThreadStartNotEnounghSpace() {
    // Consider 10 threads reading the buffer and the space is ceil-rounded - thread 7
    let buffer: Vec<u8> = vec![0, 0, 0, 0, 15, 0, 0, 0];
    assert_eq!(
        true,
        InitialMatchMemory(&[FilterOption::U32].to_vec(), b"15", &buffer, 7, 1).U32.len() == 0
    );
}

#[test]
fn FindMatch_MultiThread_RegularCase() {
    let buffer: Vec<u8> = vec![15, 0, 0, 0, 0, 0, 0, 0, 0];
    assert!(InitialMultithreadSearch(&buffer, 6, &[FilterOption::U32].to_vec(), b"15")
        .U32
        .contains(&0));
}

#[test]
fn FindMatch_MultiThread_MiddleCase() {
    let buffer: Vec<u8> = vec![0, 0, 0, 0, 15, 0, 0, 0, 0];
    assert!(InitialMultithreadSearch(&buffer, 6, &[FilterOption::U32].to_vec(), b"15")
        .U32
        .contains(&4));
}

#[test]
fn FindMatch_MultiThread_EndCase() {
    let buffer: Vec<u8> = vec![0, 0, 0, 0, 0, 15, 0, 0, 0];
    assert!(InitialMultithreadSearch(&buffer, 6, &[FilterOption::U32].to_vec(), b"15")
        .U32
        .contains(&5));
}

#[test]
fn FindMatch_MultiThread_Intersection() {
    // Two workers partition 8 bytes as [0,4) and [4,8); the match at offset 2
    // straddles the seam and must be found through tile 0's extension.
    let buffer: Vec<u8> = vec![0, 0, 15, 0, 0, 0, 0, 0];
    assert!(InitialMultithreadSearch(&buffer, 2, &[FilterOption::U32].to_vec(), b"15")
        .U32
        .contains(&2));
}

#[test]
fn FindMatch_SingleWorker_MiddleCase() {
    let buffer: Vec<u8> = vec![0, 0, 0, 0, 0, 15, 0, 0, 0];
    assert_eq!(
        vec![5],
        InitialMultithreadSearch(&buffer, 1, &[FilterOption::U32].to_vec(), b"15").U32
    );
}

#[test]
fn FindMatch_ExactSetAndOrder() {
    // Every offset whose window decodes to the target, in ascending order,
    // without duplicates, whatever the worker count.
    let buffer: Vec<u8> = vec![7, 7, 0, 7, 7, 7];
    for workers in 1..9 {
        let result =
            InitialMultithreadSearch(&buffer, workers, &[FilterOption::U8].to_vec(), b"7");
        assert_eq!(vec![0, 1, 3, 4, 5], result.U8);
    }
}

#[test]
fn FindMatch_SeamValueFoundOnce() {
    // A u16 value written across the seam of every partitioning appears
    // exactly once in the result.
    let buffer: Vec<u8> = vec![0, 0, 0, 1, 2, 0, 0, 0];
    // 0x0201 little-endian at offset 3
    for workers in 1..10 {
        let result =
            InitialMultithreadSearch(&buffer, workers, &[FilterOption::U16].to_vec(), b"513");
        assert_eq!(vec![3], result.U16);
    }
}

#[test]
fn FindMatch_UnparsableTargetContributesNothing() {
    let buffer: Vec<u8> = vec![15, 0, 0, 0];
    let result = InitialMultithreadSearch(
        &buffer,
        2,
        &[FilterOption::U8, FilterOption::U32].to_vec(),
        b"300",
    );
    // 300 is not representable in u8 but is in u32.
    assert!(result.U8.is_empty());
    assert!(result.U32.is_empty());
    let found = InitialMultithreadSearch(&buffer, 2, &[FilterOption::U8].to_vec(), b"15");
    assert_eq!(vec![0], found.U8);
}

#[test]
fn FindMatch_DisabledKindStaysEmpty() {
    let buffer: Vec<u8> = vec![15, 0, 0, 0];
    let result = InitialMultithreadSearch(&buffer, 1, &[FilterOption::U32].to_vec(), b"15");
    assert_eq!(vec![0], result.U32);
    assert!(result.U16.is_empty());
    assert!(result.U64.is_empty());
}

#[test]
fn ScanTile_PatternLevel() {
    // The pattern-level scan the floating-point path uses: 15.0f32 has bit
    // pattern 0x41700000, stored little-endian.
    let bits = 15.0f32.to_bits() as u64;
    let buffer: Vec<u8> = vec![0, 0, 0x70, 0x41, 0, 0, 0, 0];
    let found = scan_tile(&buffer, 4, bits, 0, buffer.len());
    assert_eq!(vec![0], found);
}

#[test]
fn MergeSorted_DeduplicatesAndOrders() {
    let a: Vec<usize> = vec![1, 4, 9];
    let b: Vec<usize> = vec![0, 4, 10];
    assert_eq!(vec![0, 1, 4, 9, 10], merge_sorted(&a, &b));
}

#[test]
fn FindMatch_NegativeSignedValue() {
    // -2 as a 32-bit little-endian two's complement value.
    let buffer: Vec<u8> = vec![0xFE, 0xFF, 0xFF, 0xFF, 0, 0];
    let result = InitialMultithreadSearch(&buffer, 2, &[FilterOption::I32].to_vec(), b"-2");
    assert_eq!(vec![0], result.I32);
}

#[test]
fn FindMatch_WideUnsignedValue() {
    let buffer: Vec<u8> = vec![1, 2, 3, 4, 5, 6, 7, 8, 0];
    let result = InitialMultithreadSearch(
        &buffer,
        3,
        &[FilterOption::U64].to_vec(),
        b"578437695752307201",
    );
    assert_eq!(vec![0], result.U64);
}
