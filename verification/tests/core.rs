use pdfpages::cli::usage;
use pdfpages::dims::{check_dimension, DimError, PageDim};
use pdfpages::naming::page_filename;
use pdfpages::pages::{parse_pages, select_pages, InvalidPage, PageListError};
use pdfpages::repack::repack_rgb;
use pdfpages::scale::{scale_ratio, scale_rect, surface_dims_valid, ScaleRatio};

fn dim(neg: bool, mantissa: u64, exp: i32) -> PageDim {
    PageDim { neg, mantissa, exp }
}

#[test]
fn dimension_integer_passes_through() {
    assert_eq!(check_dimension(&dim(false, 1000, 0)), Ok(1000));
}

#[test]
fn dimension_fraction_truncates() {
    // 7 * 2^-1 = 3.5 truncates to 3
    assert_eq!(check_dimension(&dim(false, 7, -1)), Ok(3));
    // 6894794427313947 * 2^-43 is roughly 783.84
    assert_eq!(check_dimension(&dim(false, 6894794427313947, -43)), Ok(783));
}

#[test]
fn dimension_small_fraction_truncates_to_zero() {
    assert_eq!(check_dimension(&dim(false, 123, -100)), Ok(0));
    assert_eq!(check_dimension(&dim(false, 1, -1)), Ok(0));
}

#[test]
fn dimension_negative_rejected() {
    assert_eq!(check_dimension(&dim(true, 1, 0)), Err(DimError::Negative));
    assert_eq!(check_dimension(&dim(true, 7, -1)), Err(DimError::Negative));
}

#[test]
fn dimension_negative_zero_is_zero() {
    assert_eq!(check_dimension(&dim(true, 0, 0)), Ok(0));
}

#[test]
fn dimension_at_u32_max_accepted() {
    assert_eq!(check_dimension(&dim(false, u32::MAX as u64, 0)), Ok(u32::MAX));
    // u32::MAX as 8589934590 * 2^-1
    assert_eq!(check_dimension(&dim(false, 8589934590, -1)), Ok(u32::MAX));
}

#[test]
fn dimension_above_u32_max_rejected() {
    assert_eq!(check_dimension(&dim(false, u32::MAX as u64 + 1, 0)), Err(DimError::TooLarge));
    assert_eq!(check_dimension(&dim(false, 1, 32)), Err(DimError::TooLarge));
    assert_eq!(check_dimension(&dim(false, 1, 1000)), Err(DimError::TooLarge));
    // u32::MAX + 0.5 = 8589934591 * 2^-1: above the limit though its floor fits
    assert_eq!(check_dimension(&dim(false, 8589934591, -1)), Err(DimError::TooLarge));
}

#[test]
fn ratio_of_1000_by_500_at_512_is_512_over_1000() {
    // 512 / max(1000, 500) = 0.512
    let r = scale_ratio(1000, 500, 512);
    assert_eq!((r.num, r.den), (512, 1000));
    assert_eq!(scale_rect(1000, 500, &r), (512, 256));
}

#[test]
fn ratio_of_degenerate_page_is_zero() {
    let r = scale_ratio(0, 0, 512);
    assert_eq!(r.num, 0);
    assert_eq!(scale_rect(0, 0, &r), (0, 0));
    assert!(!surface_dims_valid(0, 0));
}

#[test]
fn larger_side_lands_exactly_on_max_side() {
    let r = scale_ratio(800, 600, 512);
    assert_eq!(scale_rect(800, 600, &r).0, 512);
    let r = scale_ratio(300, 7000, 512);
    assert_eq!(scale_rect(300, 7000, &r).1, 512);
}

#[test]
fn scaling_truncates_and_never_rounds_up() {
    // 999 * 512 / 1000 = 511.488 -> 511
    let r = scale_ratio(1000, 999, 512);
    assert_eq!(scale_rect(1000, 999, &r), (512, 511));
}

#[test]
fn upscaling_small_pages() {
    // 512 / 100 = 5.12; 100 -> 512, 50 -> 256
    let r = scale_ratio(100, 50, 512);
    assert_eq!((r.num, r.den), (512, 100));
    assert_eq!(scale_rect(100, 50, &r), (512, 256));
}

#[test]
fn scale_dim_saturates_at_u32_max() {
    let r = ScaleRatio { num: u32::MAX, den: 1 };
    assert_eq!(scale_rect(u32::MAX, 0, &r), (u32::MAX, 0));
}

#[test]
fn surface_dims_need_both_axes() {
    assert!(surface_dims_valid(1, 1));
    assert!(!surface_dims_valid(0, 5));
    assert!(!surface_dims_valid(5, 0));
}

#[test]
fn repack_single_pixel_reverses_channels() {
    // native bytes per pixel: [blue, green, red, padding]
    let out = repack_rgb(&[30, 20, 10, 99]);
    assert_eq!(out, vec![10, 20, 30]);
}

#[test]
fn repack_2x2_is_12_bytes_row_major() {
    let data = [
        1, 2, 3, 4, // pixel 0
        5, 6, 7, 8, // pixel 1
        9, 10, 11, 12, // pixel 2
        13, 14, 15, 16, // pixel 3
    ];
    let out = repack_rgb(&data);
    assert_eq!(out.len(), 12);
    assert_eq!(out, vec![3, 2, 1, 7, 6, 5, 11, 10, 9, 15, 14, 13]);
}

#[test]
fn repack_empty_buffer() {
    let out = repack_rgb(&[]);
    assert_eq!(out.len(), 0);
}

#[test]
fn repack_length_is_three_quarters() {
    let data = vec![0u8; 4 * 37];
    assert_eq!(repack_rgb(&data).len(), 3 * 37);
}

#[test]
fn parse_single_page() {
    assert_eq!(parse_pages(b"7"), Ok(vec![7]));
}

#[test]
fn parse_page_list() {
    assert_eq!(parse_pages(b"1,5,12"), Ok(vec![1, 5, 12]));
}

#[test]
fn parse_leading_zeros() {
    assert_eq!(parse_pages(b"007"), Ok(vec![7]));
}

#[test]
fn parse_u32_boundary() {
    assert_eq!(parse_pages(b"4294967295"), Ok(vec![u32::MAX]));
    assert_eq!(parse_pages(b"4294967296"), Err(PageListError));
}

#[test]
fn parse_rejects_empty_input() {
    assert_eq!(parse_pages(b""), Err(PageListError));
}

#[test]
fn parse_rejects_empty_segment() {
    assert_eq!(parse_pages(b"1,,2"), Err(PageListError));
    assert_eq!(parse_pages(b"1,"), Err(PageListError));
    assert_eq!(parse_pages(b",1"), Err(PageListError));
}

#[test]
fn parse_rejects_non_digits() {
    assert_eq!(parse_pages(b"12a"), Err(PageListError));
    assert_eq!(parse_pages(b"1, 2"), Err(PageListError));
    assert_eq!(parse_pages(b"-1"), Err(PageListError));
}

#[test]
fn select_all_pages_without_a_selection() {
    assert_eq!(select_pages(&None, 3), Ok(vec![0, 1, 2]));
    assert_eq!(select_pages(&None, 0), Ok(vec![]));
}

#[test]
fn select_listed_pages_to_zero_based_indexes() {
    assert_eq!(select_pages(&Some(vec![1, 3]), 3), Ok(vec![0, 2]));
}

#[test]
fn select_page_beyond_count_names_the_page() {
    // page 5 of a 3-page document: rejected before any page is processed
    assert_eq!(select_pages(&Some(vec![5]), 3), Err(InvalidPage { number: 5 }));
    assert_eq!(select_pages(&Some(vec![1, 5, 2]), 3), Err(InvalidPage { number: 5 }));
}

#[test]
fn select_page_zero_is_invalid() {
    assert_eq!(select_pages(&Some(vec![0]), 3), Err(InvalidPage { number: 0 }));
}

#[test]
fn filenames_are_zero_padded_to_three_digits() {
    assert_eq!(page_filename(1, "svg"), "001.svg");
    assert_eq!(page_filename(12, "jpg"), "012.jpg");
    assert_eq!(page_filename(123, "jpg"), "123.jpg");
    assert_eq!(page_filename(1000, "svg"), "1000.svg");
}

#[test]
fn usage_names_the_program() {
    let text = usage("tool");
    assert!(text.starts_with("Usage: tool [OPTIONS] file.pdf [output_dir]\n"));
    assert!(text.contains("--pages PAGES"));
    assert!(text.ends_with("number of the first page is 1."));
}
