use with_clean_env::block::{next_equals, next_null, parse_environment, to_wide};

fn w(s: &str) -> Vec<u16> {
    s.encode_utf16().collect()
}

fn pairs(list: &[(&str, &str)]) -> Vec<(Vec<u16>, Vec<u16>)> {
    list.iter().map(|(n, v)| (w(n), w(v))).collect()
}

#[test]
fn two_entries_in_order() {
    let block = w("A=1\0B=two\0\0");
    assert_eq!(parse_environment(&block), pairs(&[("A", "1"), ("B", "two")]));
}

#[test]
fn leading_equals_gives_empty_name() {
    let block = w("=orphan\0NAME=val\0\0");
    assert_eq!(parse_environment(&block), pairs(&[("", "orphan"), ("NAME", "val")]));
}

#[test]
fn single_null_is_empty() {
    let block = w("\0");
    assert_eq!(parse_environment(&block), Vec::new());
}

#[test]
fn double_null_is_empty() {
    let block = w("\0\0");
    assert_eq!(parse_environment(&block), Vec::new());
}

#[test]
fn empty_view_is_empty() {
    let block: Vec<u16> = Vec::new();
    assert_eq!(parse_environment(&block), Vec::new());
}

#[test]
fn entry_without_equals_is_dropped() {
    let block = w("A=1\0NOSEP\0B=2\0\0");
    assert_eq!(parse_environment(&block), pairs(&[("A", "1"), ("B", "2")]));
}

#[test]
fn round_trip_of_encoded_pairs() {
    let input = [("PATH", "C:\\Windows"), ("USERNAME", "x"), ("EMPTY", "")];
    let mut block = Vec::new();
    for (n, v) in input.iter() {
        block.extend(w(n));
        block.push(0x3d);
        block.extend(w(v));
        block.push(0);
    }
    block.push(0);
    assert_eq!(parse_environment(&block), pairs(&input));
}

#[test]
fn value_keeps_later_equals() {
    let block = w("K=a=b=c\0\0");
    assert_eq!(parse_environment(&block), pairs(&[("K", "a=b=c")]));
}

#[test]
fn nothing_after_double_null_is_read() {
    let block = w("A=1\0\0B=2\0\0");
    assert_eq!(parse_environment(&block), pairs(&[("A", "1")]));
}

#[test]
fn unterminated_entry_at_view_end_is_dropped() {
    let block = w("A=1\0B=2");
    assert_eq!(parse_environment(&block), pairs(&[("A", "1")]));
}

#[test]
fn non_ascii_text_is_kept() {
    let block = w("NAME=\u{e9}t\u{e9}\0\0");
    assert_eq!(parse_environment(&block), pairs(&[("NAME", "\u{e9}t\u{e9}")]));
}

#[test]
fn next_null_finds_terminator() {
    let block = w("AB=1\0C");
    assert_eq!(next_null(&block, 0), 4);
    assert_eq!(next_null(&block, 5), 6);
}

#[test]
fn next_equals_searches_range_only() {
    let block = w("AB=1\0C=");
    assert_eq!(next_equals(&block, 0, 4), Some(2));
    assert_eq!(next_equals(&block, 0, 2), None);
    assert_eq!(next_equals(&block, 5, 7), Some(6));
}

#[test]
fn to_wide_copies_range() {
    let block = w("AB=1\0");
    assert_eq!(to_wide(&block, 3, 4), w("1"));
    assert_eq!(to_wide(&block, 2, 2), Vec::<u16>::new());
}
