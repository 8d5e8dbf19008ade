use byte_unit::Byte;
use zfs_autosnap::parser::{List, ListItem};
use zfs_autosnap::text::{chars_of, comes_before, find_from, same_text, split_fields, split_lines, string_of};
use zfs_autosnap::zfs::{decode_listing, ZfsError};

#[test]
fn test_parse_list_line() {
    let info = ListItem::from_str("radon_pool/data/root/home/alepez/workspace@autosnap_2022-11-13_13:03:01_daily                        51.8M      -     56.9G  -");
    let info = info.unwrap();

    assert_eq!(
        info.name(),
        "radon_pool/data/root/home/alepez/workspace@autosnap_2022-11-13_13:03:01_daily"
    );
    assert_eq!(
        info.used().unwrap(),
        Byte::from_str("51.8 MB").unwrap().get_bytes()
    );
    assert!(info.available().is_none());
    assert_eq!(
        info.refer().unwrap(),
        Byte::from_str("56.9 GB").unwrap().get_bytes()
    );
}

#[test]
fn sizes_are_counted_in_bytes() {
    let item = ListItem::from_str("pool@snap 1K 2KiB 3MB").unwrap();
    assert_eq!(item.name(), "pool@snap");
    assert_eq!(item.used(), Some(1000));
    assert_eq!(item.available(), Some(2048));
    assert_eq!(item.refer(), Some(3000000));

    let item = ListItem::from_str("pool@snap 51.8M 0 56.9G").unwrap();
    assert_eq!(item.used(), Some(51800000));
    assert_eq!(item.available(), Some(0));
    assert_eq!(item.refer(), Some(56900000000));

    let item = ListItem::from_str("pool@snap 1T 123 1.5K").unwrap();
    assert_eq!(item.used(), Some(1000000000000));
    assert_eq!(item.available(), Some(123));
    assert_eq!(item.refer(), Some(1500));
}

#[test]
fn missing_fields_are_absent() {
    let item = ListItem::from_str("pool@snap").unwrap();
    assert_eq!(item.name(), "pool@snap");
    assert_eq!(item.used(), None);
    assert_eq!(item.available(), None);
    assert_eq!(item.refer(), None);

    let item = ListItem::from_str("pool@snap 4K").unwrap();
    assert_eq!(item.used(), Some(4000));
    assert_eq!(item.available(), None);
    assert_eq!(item.refer(), None);

    let item = ListItem::from_str("  pool@snap\t4K\t\t8K  ").unwrap();
    assert_eq!(item.name(), "pool@snap");
    assert_eq!(item.used(), Some(4000));
    assert_eq!(item.available(), Some(8000));
    assert_eq!(item.refer(), None);
}

#[test]
fn dash_and_unreadable_sizes_are_absent() {
    let item = ListItem::from_str("pool@snap - - -").unwrap();
    assert_eq!(item.used(), None);
    assert_eq!(item.available(), None);
    assert_eq!(item.refer(), None);

    let item = ListItem::from_str("pool@snap USED 12Q -5K").unwrap();
    assert_eq!(item.used(), None);
    assert_eq!(item.available(), None);
    assert_eq!(item.refer(), None);

    let item = ListItem::from_str("pool@snap 1K - 2K /mnt 9K").unwrap();
    assert_eq!(item.used(), Some(1000));
    assert_eq!(item.available(), None);
    assert_eq!(item.refer(), Some(2000));
}

#[test]
fn item_can_be_made_of_its_parts() {
    let item = ListItem::new("tank@now", Some(1), None, Some(u128::MAX));
    assert_eq!(item.name(), "tank@now");
    assert_eq!(item.used(), Some(1));
    assert_eq!(item.available(), None);
    assert_eq!(item.refer(), Some(u128::MAX));
}

#[test]
fn empty_text_has_no_items() {
    assert_eq!(List::from_str("").unwrap().len(), 0);
    assert_eq!(List::from_str("\n").unwrap().len(), 0);
    assert_eq!(List::from_str("\n\n  \n\t\r\n").unwrap().len(), 0);
}

#[test]
fn blank_lines_give_no_items() {
    let list = List::from_str("a@1 1K\n\n   \nb@2 2K\r\n\r\nc@3").unwrap();
    assert_eq!(list.len(), 3);
    assert_eq!(list.get(0).name(), "a@1");
    assert_eq!(list.get(0).used(), Some(1000));
    assert_eq!(list.get(1).name(), "b@2");
    assert_eq!(list.get(1).used(), Some(2000));
    assert_eq!(list.get(2).name(), "c@3");
    assert_eq!(list.get(2).used(), None);
    let names: Vec<&str> = list.iter().map(|item| item.name()).collect();
    assert_eq!(names, vec!["a@1", "b@2", "c@3"]);
}

#[test]
fn final_line_feed_is_optional() {
    let with = List::from_str("a@1\nb@2\n").unwrap();
    let without = List::from_str("a@1\nb@2").unwrap();
    assert_eq!(with.len(), 2);
    assert_eq!(without.len(), 2);
    assert_eq!(with.get(1).name(), without.get(1).name());
}

#[test]
fn lines_are_cut_at_line_feeds() {
    let lines = split_lines(&chars_of("ab\n\ncd\n"));
    let lines: Vec<String> = lines.iter().map(|l| l.iter().collect()).collect();
    assert_eq!(lines, vec!["ab", "", "cd"]);
    assert_eq!(split_lines(&chars_of("")).len(), 0);
    assert_eq!(split_lines(&chars_of("\n")).len(), 1);
    assert_eq!(split_lines(&chars_of("x")).len(), 1);
}

#[test]
fn fields_are_cut_at_ascii_whitespace() {
    assert_eq!(
        split_fields(&chars_of(" a  b\tc\rd\x0Ce\n")),
        vec!["a", "b", "c", "d", "e"]
    );
    assert_eq!(split_fields(&chars_of("")).len(), 0);
    assert_eq!(split_fields(&chars_of(" \t ")).len(), 0);
    assert_eq!(split_fields(&chars_of("a\u{a0}b\u{b}c")), vec!["a\u{a0}b\u{b}c"]);
}

#[test]
fn search_finds_the_leftmost_occurrence() {
    let text = chars_of("abcabc");
    assert_eq!(find_from(&text, 0, &chars_of("bc")), Some(1));
    assert_eq!(find_from(&text, 2, &chars_of("bc")), Some(4));
    assert_eq!(find_from(&text, 5, &chars_of("bc")), None);
    assert_eq!(find_from(&text, 0, &chars_of("abcabcd")), None);
    assert_eq!(find_from(&text, 3, &chars_of("")), Some(3));
    assert_eq!(find_from(&text, 6, &chars_of("")), Some(6));
    assert_eq!(string_of(&text, 1, 4), "bca");
}

#[test]
fn texts_are_ordered_by_code_point() {
    assert!(comes_before("a", "b"));
    assert!(!comes_before("b", "a"));
    assert!(!comes_before("a", "a"));
    assert!(comes_before("", "a"));
    assert!(!comes_before("", ""));
    assert!(comes_before("a", "ab"));
    assert!(!comes_before("ab", "a"));
    assert!(comes_before("Z", "a"));
    assert!(comes_before("pool/a", "pool/b"));
    assert!(comes_before("z", "\u{e4}"));
    assert!(comes_before("\u{ffff}", "\u{10000}"));
    let mut names = vec!["b", "", "\u{10000}", "a", "ab", "\u{ffff}", "B"];
    names.sort();
    for i in 0..names.len() {
        for j in 0..names.len() {
            assert_eq!(comes_before(names[i], names[j]), i < j);
            assert_eq!(same_text(names[i], names[j]), i == j);
        }
    }
}

#[test]
fn listing_is_decoded_from_utf8() {
    let text = decode_listing("pool/\u{e4}@snap 1K\n".as_bytes().to_vec()).unwrap();
    assert_eq!(text, "pool/\u{e4}@snap 1K\n");
    assert_eq!(decode_listing(Vec::new()).unwrap(), "");
    assert!(matches!(
        decode_listing(vec![0x70, 0xff, 0x6f]),
        Err(ZfsError::InvalidOutput(_))
    ));
    assert!(matches!(
        decode_listing(vec![0xc3]),
        Err(ZfsError::InvalidOutput(_))
    ));
}
