#![allow(non_snake_case)]

use huturs_core::util::{hex_decoding, hex_encoding, page_rainbow, page_totalPage, page_transToStartEnd};

#[test]
pub fn test_hex_encode() {
    let hex_value = hex_encoding("hello, world!");
    assert_eq!(hex_value, "68656c6c6f2c20776f726c6421");

    let hex_value = hex_encoding("hello, hutuRs!");
    assert_eq!(hex_value, "68656c6c6f2c2068757475527321");
}

#[test]
pub fn test_hex_decode() {
    let raw_value = hex_decoding("68656c6c6f2c20776f726c6421");
    assert_eq!(raw_value.to_string(), "hello, world!");

    let raw_value = hex_decoding("68656c6c6f2c2068757475527321");
    assert_eq!(raw_value.to_string(), "hello, hutuRs!");
}

#[test]
pub fn test_page_transToStartEnd() {
    // page 1
    let (start, end) = page_transToStartEnd(1, 10);
    assert_eq!(start, 0);
    assert_eq!(end, 10);

    // page 2
    let (start, end) = page_transToStartEnd(2, 10);
    assert_eq!(start, 10);
    assert_eq!(end, 20);

    // page 5
    let (start, end) = page_transToStartEnd(5, 20);
    assert_eq!(start, 80);
    assert_eq!(end, 100);
}

#[test]
pub fn test_page_totalPage() {
    // exact division
    assert_eq!(page_totalPage(9, 3), 3);
    assert_eq!(page_totalPage(10, 5), 2);

    // rounded up
    assert_eq!(page_totalPage(10, 3), 4);
    assert_eq!(page_totalPage(20, 3), 7);

    // edge cases
    assert_eq!(page_totalPage(0, 10), 0);
    assert_eq!(page_totalPage(1, 10), 1);
}

#[test]
pub fn test_page_rainbow() {
    // more pages than shown, current page near the start
    let result = page_rainbow(1, 10, 5);
    assert_eq!(result, vec![1, 2, 3, 4, 5]);

    // more pages than shown, current page in the middle
    let result = page_rainbow(5, 10, 5);
    assert_eq!(result, vec![3, 4, 5, 6, 7]);

    // more pages than shown, current page near the end
    let result = page_rainbow(10, 10, 5);
    assert_eq!(result, vec![6, 7, 8, 9, 10]);

    // fewer pages than shown
    let result = page_rainbow(2, 5, 10);
    assert_eq!(result, vec![1, 2, 3, 4, 5]);

    // as many pages as shown
    let result = page_rainbow(5, 5, 5);
    assert_eq!(result, vec![1, 2, 3, 4, 5]);

    // even number of links
    let result = page_rainbow(5, 20, 6);
    assert_eq!(result, vec![3, 4, 5, 6, 7, 8]);
}
