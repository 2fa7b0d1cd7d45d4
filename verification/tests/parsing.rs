use nova_monitor::disk::{
    io_for_device, parse_diskstats, parse_smart_output, smart_device_base, SmartHealth,
};
use nova_monitor::gpu::{
    amd_device_name, find_selected_clock, is_amd_vendor_tag, is_intel_vendor_tag,
    parse_scaled_value,
};
use nova_monitor::text::{
    bytes_eq, contains_bytes, eq_ignore_ascii_case, parse_u32_bytes, parse_u64_bytes,
    split_lines, split_ws_tokens, to_lower_bytes, trim_bytes, trim_str, u64_to_dec_string,
};

#[test]
fn decimal_rendering_is_exact() {
    assert_eq!(u64_to_dec_string(0), "0");
    assert_eq!(u64_to_dec_string(7), "7");
    assert_eq!(u64_to_dec_string(999999), "999999");
    assert_eq!(u64_to_dec_string(u64::MAX), "18446744073709551615");
}

#[test]
fn decimal_parsing_is_exact() {
    assert_eq!(parse_u64_bytes(b"0"), Some(0));
    assert_eq!(parse_u64_bytes(b"1234"), Some(1234));
    assert_eq!(parse_u64_bytes(b"18446744073709551615"), Some(u64::MAX));
    assert_eq!(parse_u64_bytes(b"18446744073709551616"), None);
    assert_eq!(parse_u64_bytes(b""), None);
    assert_eq!(parse_u64_bytes(b"12a"), None);
    assert_eq!(parse_u64_bytes(b"-4"), None);
    assert_eq!(parse_u32_bytes(b"4294967295"), Some(u32::MAX));
    assert_eq!(parse_u32_bytes(b"4294967296"), None);
}

#[test]
fn byte_utilities_behave() {
    assert!(bytes_eq(b"abc", b"abc"));
    assert!(!bytes_eq(b"abc", b"abd"));
    assert!(contains_bytes(b"hello world", b"lo wo"));
    assert!(!contains_bytes(b"hello", b"world"));
    assert!(contains_bytes(b"anything", b""));
    assert_eq!(to_lower_bytes(b"MiXeD 123"), b"mixed 123".to_vec());
    assert!(eq_ignore_ascii_case(b"0X1002", b"0x1002"));
    assert!(!eq_ignore_ascii_case(b"0x1003", b"0x1002"));
    assert_eq!(trim_bytes(b"  x y\t\n"), b"x y".to_vec());
    assert_eq!(trim_str("  0x1638\n"), "0x1638");
}

#[test]
fn splitting_matches_line_and_token_rules() {
    let lines = split_lines(b"one\r\ntwo\nthree");
    assert_eq!(lines, vec![b"one".to_vec(), b"two".to_vec(), b"three".to_vec()]);
    let lines = split_lines(b"ends with newline\n");
    assert_eq!(lines, vec![b"ends with newline".to_vec()]);
    let toks = split_ws_tokens(b"  a\tbb   ccc\n");
    assert_eq!(toks, vec![b"a".to_vec(), b"bb".to_vec(), b"ccc".to_vec()]);
}

#[test]
fn smart_output_is_pattern_parsed() {
    let out = b"smartctl 7.2\n\
SMART overall-health self-assessment test result: PASSED\n\
ID# ATTRIBUTE_NAME          FLAG     VALUE WORST THRESH TYPE      UPDATED  WHEN_FAILED RAW_VALUE\n\
  9 Power_On_Hours          0x0032   099   099   000    Old_age   Always       -       12345\n\
 12 Power_Cycle_Count       0x0032   100   100   000    Old_age   Always       -       432\n\
194 Temperature_Celsius     0x0022   036   052   000    Old_age   Always       -       36\n";
    let info = parse_smart_output(out);
    assert_eq!(info.health, SmartHealth::Passed);
    assert_eq!(info.temperature, Some(36));
    assert_eq!(info.power_on_hours, Some(12345));
    assert_eq!(info.power_cycle_count, Some(432));
}

#[test]
fn smart_output_failed_and_absent_attributes() {
    let info = parse_smart_output(b"test result: FAILED\nno attributes here\n");
    assert_eq!(info.health, SmartHealth::Failed);
    assert_eq!(info.temperature, None);
    assert_eq!(info.power_on_hours, None);
    assert_eq!(info.power_cycle_count, None);
    let info = parse_smart_output(b"");
    assert_eq!(info.health, SmartHealth::Unknown);
}

#[test]
fn device_base_strips_partition_suffix() {
    assert_eq!(smart_device_base(b"/dev/sda1"), Some(b"/dev/sda".to_vec()));
    assert_eq!(
        smart_device_base(b"/dev/nvme0n1p1"),
        Some(b"/dev/nvme0n1".to_vec())
    );
    assert_eq!(smart_device_base(b"/dev/sda"), Some(b"/dev/sda".to_vec()));
    assert_eq!(smart_device_base(b"sda1"), None);
}

#[test]
fn diskstats_rows_are_parsed_in_sectors() {
    let table = b"   8       0 sda 1000 0 2000 0 500 0 600 0 0 0 0 0 0 0 0\n\
   8       1 sda1 1 2 3 4 5 6 7 8 9 10 11\n\
 259       0 nvme0n1 10 0 100 0 20 0 40 0 0 0 0 0 0 0\nshort line\n";
    let stats = parse_diskstats(table);
    assert_eq!(stats.len(), 3);
    assert_eq!(stats[0].name, b"sda".to_vec());
    assert_eq!(stats[0].read_bytes, 2000 * 512);
    assert_eq!(stats[0].written_bytes, 600 * 512);
    assert_eq!(stats[1].name, b"sda1".to_vec());
    assert_eq!(stats[1].read_bytes, 3 * 512);
    assert_eq!(stats[1].written_bytes, 7 * 512);
    assert_eq!(io_for_device(&stats, b"nvme0n1"), (100 * 512, 40 * 512));
    assert_eq!(io_for_device(&stats, b"missing"), (0, 0));
}

#[test]
fn diskstats_last_row_wins_for_a_repeated_device() {
    let table = b"8 0 sda 0 0 10 0 0 0 20 0 0 0 0 0\n8 0 sda 0 0 30 0 0 0 40 0 0 0 0 0\n";
    let stats = parse_diskstats(table);
    assert_eq!(io_for_device(&stats, b"sda"), (30 * 512, 40 * 512));
}

#[test]
fn vendor_tags_match_case_insensitively_after_trim() {
    assert!(is_amd_vendor_tag(b"0x1002\n"));
    assert!(is_amd_vendor_tag(b"  0X1002  "));
    assert!(!is_amd_vendor_tag(b"0x8086\n"));
    assert!(is_intel_vendor_tag(b"0x8086\n"));
    assert!(!is_intel_vendor_tag(b"0x1002"));
}

#[test]
fn amd_names_follow_the_device_id() {
    assert_eq!(amd_device_name(None), "AMD Radeon Graphics");
    assert_eq!(
        amd_device_name(Some(&String::from("0x1638\n"))),
        "AMD Radeon Graphics (Ryzen 5000 Series iGPU)"
    );
    assert_eq!(
        amd_device_name(Some(&String::from("0x1506"))),
        "AMD Radeon Graphics (Ryzen 7000 Series iGPU)"
    );
    assert_eq!(
        amd_device_name(Some(&String::from(" 0xabcd "))),
        "AMD Radeon Graphics (Device 0xabcd)"
    );
}

#[test]
fn scaled_values_divide_by_a_thousand() {
    assert_eq!(parse_scaled_value(b"45000\n"), Some(45));
    assert_eq!(parse_scaled_value(b"  999 "), Some(0));
    assert_eq!(parse_scaled_value(b"garbage"), None);
}

#[test]
fn selected_clock_is_read_from_the_starred_line() {
    let table = b"0: 200Mhz\n1: 800Mhz *\nwait no second column\n";
    // the starred line's second column is "800Mhz"
    assert_eq!(find_selected_clock(table), Some(800));
    let table = b"0: 200Mhz\n2: 1600MHz *\n";
    assert_eq!(find_selected_clock(table), Some(1600));
    assert_eq!(find_selected_clock(b"0: 200Mhz\n"), None);
    // a starred line without a megahertz suffix keeps searching
    let table = b"1: high *\n2: 950Mhz *\n";
    assert_eq!(find_selected_clock(table), Some(950));
}
