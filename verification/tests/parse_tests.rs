use cgroup_reclaim::parse::build_snapshot;
use cgroup_reclaim::parse::build_snapshot_strict;
use cgroup_reclaim::parse::parse_memory_stat_strict;
use cgroup_reclaim::parse::parse_value_strict;
use cgroup_reclaim::parse::format_u64;
use cgroup_reclaim::parse::parse_memory_stat;
use cgroup_reclaim::parse::parse_u64;
use cgroup_reclaim::parse::parse_u64_or_zero;
use cgroup_reclaim::parse::parse_value;

#[test]
fn strict_parse_accepts_plain_decimals() {
    assert_eq!(parse_u64(b"0"), Some(0));
    assert_eq!(parse_u64(b"12345"), Some(12345));
    assert_eq!(parse_u64(b"+7"), Some(7));
    assert_eq!(parse_u64(b"0012"), Some(12));
    assert_eq!(parse_u64(b"18446744073709551615"), Some(u64::MAX));
}

#[test]
fn strict_parse_rejects_everything_else() {
    assert_eq!(parse_u64(b""), None);
    assert_eq!(parse_u64(b"+"), None);
    assert_eq!(parse_u64(b"12a"), None);
    assert_eq!(parse_u64(b"-3"), None);
    assert_eq!(parse_u64(b" 5"), None);
    assert_eq!(parse_u64(b"18446744073709551616"), None); // u64::MAX + 1
    assert_eq!(parse_u64(b"99999999999999999999999"), None);
}

#[test]
fn lenient_parse_defaults_to_zero() {
    assert_eq!(parse_u64_or_zero(b"max"), 0);
    assert_eq!(parse_u64_or_zero(b""), 0);
    assert_eq!(parse_u64_or_zero(b"314"), 314);
}

#[test]
fn single_value_file_is_trimmed_then_parsed() {
    assert_eq!(parse_value(b"42\n"), 42);
    assert_eq!(parse_value(b"  42  \n"), 42);
    assert_eq!(parse_value(b"\n"), 0);
    assert_eq!(parse_value(b"max\n"), 0);
    assert_eq!(parse_value(b"1 2\n"), 0); // inner whitespace is not a number
}

#[test]
fn formatting_round_trips_through_the_strict_parse() {
    assert_eq!(format_u64(0), b"0".to_vec());
    assert_eq!(format_u64(907), b"907".to_vec());
    assert_eq!(format_u64(15 * 1024 * 1024), b"15728640".to_vec());
    assert_eq!(parse_u64(&format_u64(u64::MAX)), Some(u64::MAX));
    assert_eq!(parse_u64(&format_u64(1)), Some(1));
}

#[test]
fn stat_text_keeps_known_keys_only() {
    let text = b"anon 999\n\
inactive_anon 111\n\
active_anon 222\n\
inactive_file 333\n\
active_file 444\n\
workingset_refault_anon 5\n";
    let c = parse_memory_stat(text);
    assert_eq!(c.inactive_anon, 111);
    assert_eq!(c.active_anon, 222);
    assert_eq!(c.inactive_file, 333);
    assert_eq!(c.active_file, 444);
}

#[test]
fn stat_text_last_occurrence_wins() {
    let text = b"inactive_anon 1\ninactive_anon 2\n";
    let c = parse_memory_stat(text);
    assert_eq!(c.inactive_anon, 2);
}

#[test]
fn stat_lines_with_other_field_counts_are_ignored() {
    let text = b"inactive_anon 7\ninactive_anon\ninactive_anon 8 9\n\n";
    let c = parse_memory_stat(text);
    assert_eq!(c.inactive_anon, 7);
}

#[test]
fn stat_unparsable_value_counts_as_zero() {
    let text = b"inactive_anon 5\ninactive_anon lots\n";
    let c = parse_memory_stat(text);
    assert_eq!(c.inactive_anon, 0);
}

#[test]
fn stat_text_with_crlf_and_no_final_newline() {
    let text = b"inactive_anon 11\r\nactive_anon 22";
    let c = parse_memory_stat(text);
    assert_eq!(c.inactive_anon, 11);
    assert_eq!(c.active_anon, 22);
}

#[test]
fn strict_stat_fails_fast_on_a_bad_retained_value() {
    // Leniently this counts as zero; strictly it is an error.
    let bad = b"inactive_anon lots\n";
    assert_eq!(parse_memory_stat(bad).inactive_anon, 0);
    assert!(parse_memory_stat_strict(bad).is_none());
    // A bad value under an unknown key does not matter either way.
    let other = b"inactive_anon 5\nsomething lots\n";
    let c = parse_memory_stat_strict(other).unwrap();
    assert_eq!(c.inactive_anon, 5);
    // Only the last occurrence is judged.
    let healed = b"inactive_anon lots\ninactive_anon 9\n";
    assert_eq!(parse_memory_stat_strict(healed).unwrap().inactive_anon, 9);
}

#[test]
fn strict_single_value_parse() {
    assert_eq!(parse_value_strict(b"42\n"), Some(42));
    assert_eq!(parse_value_strict(b"max\n"), None);
}

#[test]
fn strict_snapshot_rejects_what_the_lenient_one_zeroes() {
    let stat = b"inactive_anon 10\nactive_anon 20\ninactive_file 30\nactive_file 40\n";
    let s = build_snapshot_strict(stat, b"500\n", b"60\n", b"1000\n", b"max\n");
    assert!(s.is_none());
    let s = build_snapshot_strict(stat, b"500\n", b"60\n", b"1000\n", b"0\n").unwrap();
    assert_eq!(s.current_memory_usage, 500);
    assert_eq!(s.swap_max, 0);
    assert_eq!(s.inactive_anon, 10);
}

#[test]
fn snapshot_is_assembled_from_all_five_files() {
    let stat = b"inactive_anon 10\nactive_anon 20\ninactive_file 30\nactive_file 40\n";
    let s = build_snapshot(stat, b"500\n", b"60\n", b"1000\n", b"max\n");
    assert_eq!(s.inactive_anon, 10);
    assert_eq!(s.active_anon, 20);
    assert_eq!(s.inactive_file, 30);
    assert_eq!(s.active_file, 40);
    assert_eq!(s.current_memory_usage, 500);
    assert_eq!(s.current_swap_usage, 60);
    assert_eq!(s.memory_max, 1000);
    assert_eq!(s.swap_max, 0); // "max" is not a number: lenient zero
}
