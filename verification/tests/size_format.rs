use streamed_data_benchmark::size::{choose_unit, pretty_size};
use streamed_data_benchmark::text::{digit_to_char, push_decimal};

#[test]
fn zero_bytes() {
    assert_eq!(pretty_size(0), "0.00 B");
}

#[test]
fn one_and_a_half_kilobytes() {
    assert_eq!(pretty_size(1536), "1.50 KB");
}

#[test]
fn one_gigabyte() {
    assert_eq!(pretty_size(1073741824), "1.00 GB");
}

#[test]
fn unit_boundaries() {
    assert_eq!(pretty_size(1), "1.00 B");
    assert_eq!(pretty_size(1023), "1023.00 B");
    assert_eq!(pretty_size(1024), "1.00 KB");
    assert_eq!(pretty_size(1024 * 1024 - 1024), "1023.00 KB");
    assert_eq!(pretty_size(1024 * 1024), "1.00 MB");
    assert_eq!(pretty_size(1024 * 1024 * 1024 - 1024 * 1024), "1023.00 MB");
    assert_eq!(pretty_size(1024 * 1024 * 1024 * 1024 - 1024 * 1024 * 1024), "1023.00 GB");
    assert_eq!(pretty_size(1024 * 1024 * 1024 * 1024), "1.00 TB");
}

#[test]
fn terabytes_are_the_largest_unit() {
    assert_eq!(pretty_size(1 << 50), "1024.00 TB");
    assert_eq!(pretty_size(5 * (1 << 40) + (1 << 39)), "5.50 TB");
    assert_eq!(pretty_size(u128::MAX), "309485009821345068724781056.00 TB");
}

#[test]
fn rounds_to_the_nearest_hundredth() {
    assert_eq!(pretty_size(1029), "1.00 KB");
    assert_eq!(pretty_size(1030), "1.01 KB");
    assert_eq!(pretty_size(2047), "2.00 KB");
    assert_eq!(pretty_size(1024 * 1024 - 1), "1024.00 KB");
}

#[test]
fn a_tie_goes_to_the_even_hundredth() {
    // 1152 / 1024 = 1.125 and 1408 / 1024 = 1.375
    assert_eq!(pretty_size(1152), "1.12 KB");
    assert_eq!(pretty_size(1408), "1.38 KB");
}

#[test]
fn agrees_with_floating_point_formatting() {
    let names = ["B", "KB", "MB", "GB"];
    let mut size: u128 = 0;
    while size < 5_000_000_000_000 {
        let mut value = size as f64;
        let mut expected = None;
        for name in names {
            if value < 1024.0 {
                expected = Some(format!("{:.2} {}", value, name));
                break;
            }
            value /= 1024.0;
        }
        let expected = expected.unwrap_or(format!("{:.2} TB", value));
        assert_eq!(pretty_size(size), expected);
        size = size * 3 + 640;
    }
}

#[test]
fn unit_of_a_size() {
    assert_eq!(choose_unit(0), (0, 1));
    assert_eq!(choose_unit(1023), (0, 1));
    assert_eq!(choose_unit(1024), (1, 1024));
    assert_eq!(choose_unit(1 << 20), (2, 1 << 20));
    assert_eq!(choose_unit(1 << 30), (3, 1 << 30));
    assert_eq!(choose_unit(1 << 40), (4, 1 << 40));
    assert_eq!(choose_unit(u128::MAX), (4, 1 << 40));
}

#[test]
fn decimal_numerals() {
    let mut text = String::from("n=");
    push_decimal(&mut text, 0);
    assert_eq!(text, "n=0");
    push_decimal(&mut text, 9);
    push_decimal(&mut text, 10);
    push_decimal(&mut text, 120034);
    assert_eq!(text, "n=0910120034");
    let mut largest = String::new();
    push_decimal(&mut largest, u128::MAX);
    assert_eq!(largest, "340282366920938463463374607431768211455");
}

#[test]
fn digits() {
    let all: Vec<char> = (0..10).map(digit_to_char).collect();
    assert_eq!(all, vec!['0', '1', '2', '3', '4', '5', '6', '7', '8', '9']);
}
