use ai_sidecar_proxy::clock::{cap, elapsed, unix_nanos, unix_seconds, Clock};
use ai_sidecar_proxy::table::Table;
use ai_sidecar_proxy::text::{
    chars_of, clone_strings, decimal_string, push_padded_decimal, push_thousandths, str_contains,
    str_eq,
};

#[test]
fn table_keeps_insertion_order_and_one_value_per_key() {
    let mut table: Table<u32> = Table::new();
    assert_eq!(table.len(), 0);
    table.insert("b", 1);
    table.insert("a", 2);
    table.insert("c", 3);
    table.insert("a", 4);
    assert_eq!(table.len(), 3);
    assert_eq!(table.get("a"), Some(&4));
    assert_eq!(table.get("z"), None);
    assert_eq!(table.position("a"), Some(1));
    assert_eq!(table.position("z"), None);
    assert!(table.contains_key("c"));
    assert!(!table.contains_key(""));
    let keys: Vec<&str> = (0..table.len()).map(|i| table.key_at(i).as_str()).collect();
    assert_eq!(keys, vec!["b", "a", "c"]);
    let values: Vec<u32> = (0..table.len()).map(|i| *table.value_at(i)).collect();
    assert_eq!(values, vec![1, 4, 3]);
    assert_eq!(table.remove("a"), Some(4));
    assert_eq!(table.remove("a"), None);
    let taken = table.remove_at(0);
    assert_eq!(taken.key, "b");
    assert_eq!(taken.value, 1);
    assert_eq!(table.len(), 1);
    assert_eq!(table.key_at(0), "c");
    table.insert("a", 9);
    assert_eq!(table.position("a"), Some(1));
}

#[test]
fn strings_are_compared_and_searched_by_characters() {
    assert!(str_eq("", ""));
    assert!(str_eq("héllo", "héllo"));
    assert!(!str_eq("héllo", "hello"));
    assert!(!str_eq("ab", "abc"));
    assert!(!str_eq("abc", "abd"));
    assert!(str_contains("a..b", ".."));
    assert!(str_contains("abc", ""));
    assert!(str_contains("", ""));
    assert!(!str_contains("", "a"));
    assert!(!str_contains("a.b.c", ".."));
    assert!(str_contains("xxbot", "bot"));
    assert!(!str_contains("bo", "bot"));
    assert!(str_contains("ünïcödé", "cöd"));
    assert_eq!(chars_of("aé€"), vec!['a', 'é', '€']);
    let list = vec!["x".to_string(), "".to_string(), "yz".to_string()];
    assert_eq!(clone_strings(&list), list);
}

#[test]
fn numbers_are_written_in_decimal() {
    assert_eq!(decimal_string(0), "0");
    assert_eq!(decimal_string(7), "7");
    assert_eq!(decimal_string(10), "10");
    assert_eq!(decimal_string(1234567890), "1234567890");
    assert_eq!(decimal_string(u64::MAX), "18446744073709551615");
    let mut out = String::from(">");
    push_padded_decimal(&mut out, 42, 5);
    assert_eq!(out, ">00042");
    push_padded_decimal(&mut out, 123456, 3);
    assert_eq!(out, ">00042456");
    push_padded_decimal(&mut out, 9, 0);
    assert_eq!(out, ">00042456");
    let mut out = String::new();
    push_thousandths(&mut out, 964);
    out.push(' ');
    push_thousandths(&mut out, 1000);
    out.push(' ');
    push_thousandths(&mut out, 5);
    out.push(' ');
    push_thousandths(&mut out, 123456);
    assert_eq!(out, "0.964 1.000 0.005 123.456");
}

#[test]
fn clock_readings_are_plain_integers() {
    assert_eq!(cap(0), 0);
    assert_eq!(cap(u64::MAX as u128), u64::MAX);
    assert_eq!(cap(u64::MAX as u128 + 1), u64::MAX);
    assert_eq!(elapsed(3, 10), 7);
    assert_eq!(elapsed(10, 3), 0);
    assert_eq!(elapsed(5, 5), 0);
    let clock = Clock::new();
    let first = clock.now();
    let second = clock.now();
    assert!(second >= first);
    assert!(second < 60_000_000_000);
    // after 2020 and before 2100
    assert!(unix_seconds() > 1_577_836_800);
    assert!(unix_seconds() < 4_102_444_800);
    assert!(unix_nanos() / 1_000_000_000 >= 1_577_836_800);
}
