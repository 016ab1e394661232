use clipboard_sync::naming::{decode_file_name, is_own_file, publication_file_name, Decoded};
use clipboard_sync::text::{chars_of, lines_of, split_chars, trim_chars};
use clipboard_sync::utils::get_timestamp;

fn names(v: &[&str]) -> Vec<String> {
    v.iter().map(|s| s.to_string()).collect()
}

#[test]
fn publication_name_encodes_owner_and_time() {
    assert_eq!(publication_file_name("B", 1234), "clipboard-B-1234.tmp");
    assert_eq!(publication_file_name("win", 0), "clipboard-win-0.tmp");
    assert_eq!(publication_file_name("x", u64::MAX), "clipboard-x-18446744073709551615.tmp");
}

#[test]
fn decode_tries_names_in_order_and_needs_dash() {
    let r = names(&["win", "win2"]);
    assert_eq!(
        decode_file_name("clipboard-win2-555.tmp", &r),
        Decoded::Published { owner: 1, timestamp: 555 }
    );
    assert_eq!(
        decode_file_name("clipboard-win-555.tmp", &r),
        Decoded::Published { owner: 0, timestamp: 555 }
    );
}

#[test]
fn decode_kinds() {
    let r = names(&["win"]);
    assert_eq!(decode_file_name("clipboard-win-notanumber", &r), Decoded::Anomalous);
    assert_eq!(decode_file_name("clipboard-win-12a.tmp", &r), Decoded::Corrupt);
    assert_eq!(decode_file_name("clipboard-win-.tmp", &r), Decoded::Corrupt);
    assert_eq!(decode_file_name("clipboard-win-99999999999999999999.tmp", &r), Decoded::Corrupt);
    assert_eq!(decode_file_name("clipboard-win-+7.tmp", &r), Decoded::Published { owner: 0, timestamp: 7 });
    assert_eq!(decode_file_name("clipboard-other-1.tmp", &r), Decoded::Foreign);
    assert_eq!(decode_file_name("notes.tmp", &r), Decoded::Foreign);
    assert_eq!(decode_file_name("clipboard-win", &r), Decoded::Foreign);
}

#[test]
fn own_file_by_prefix() {
    assert!(is_own_file("clipboard-me-5.tmp", "me"));
    assert!(!is_own_file("clipboard-mine-5.tmp", "me"));
    assert!(!is_own_file("clipboard-me", "me"));
}

#[test]
fn text_helpers() {
    let s = chars_of(" \u{3000}a b\t");
    assert_eq!(trim_chars(&s), vec!['a', ' ', 'b']);
    let parts = split_chars(&chars_of("a,,b"), ',');
    assert_eq!(parts, vec![vec!['a'], vec![], vec!['b']]);
    let ls = lines_of(&chars_of("x\r\n\ny\r"));
    assert_eq!(ls, vec![vec!['x'], vec![], vec!['y', '\r']]);
    assert!(lines_of(&chars_of("")).is_empty());
}

#[test]
fn clock_is_after_epoch() {
    let t = get_timestamp().unwrap();
    assert!(t > 1_600_000_000);
}
