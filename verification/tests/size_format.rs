use dirlist::service::DirListService;
use dirlist::sizefmt::human_size_string;

#[test]
fn boundaries_bytes_to_tib() {
    assert_eq!(human_size_string(1023), "1023 B");
    assert_eq!(human_size_string(1024), "1.00 KiB");
    assert_eq!(human_size_string(1048575), "1024.00 KiB");
    assert_eq!(human_size_string(1048576), "1.00 MiB");
    assert_eq!(human_size_string(1073741824), "1.00 GiB");
    assert_eq!(human_size_string(1099511627775), "1024.00 GiB");
    assert_eq!(human_size_string(1099511627776), "1.00 TiB");
}

#[test]
fn small_values_are_integers() {
    assert_eq!(human_size_string(0), "0 B");
    assert_eq!(human_size_string(1), "1 B");
    assert_eq!(human_size_string(512), "512 B");
}

#[test]
fn two_decimals_with_rounding() {
    assert_eq!(human_size_string(1536), "1.50 KiB");
    assert_eq!(human_size_string(2000), "1.95 KiB");
    // exact halves round to the even hundredth, as float formatting does
    assert_eq!(human_size_string(1152), "1.12 KiB");
    assert_eq!(human_size_string(1408), "1.38 KiB");
}

#[test]
fn largest_sizes_render_in_tib() {
    assert_eq!(human_size_string(u64::MAX), "16777216.00 TiB");
}

#[test]
fn push_appends_to_existing_output() {
    let mut out = String::from("size: ");
    DirListService::push_human_size(2048, &mut out);
    assert_eq!(out, "size: 2.00 KiB");
}
