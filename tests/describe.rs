use fm::describe::{
    count_words, date_span, item_types, items_heading, summarize, DateSpan, DateStamp, EntryMeta,
};

fn stamp(seconds: i64, year: i32, month: u8, day: u8) -> DateStamp {
    DateStamp { seconds, year, month, day }
}

#[test]
fn item_types_phrases() {
    assert_eq!(item_types(0, 2), "2 folders");
    assert_eq!(item_types(0, 1), "1 folder");
    assert_eq!(item_types(1, 0), "1 document");
    assert_eq!(item_types(4, 0), "4 documents");
    assert_eq!(item_types(3, 1), "3 documents, 1 folder");
    assert_eq!(item_types(1, 12), "1 document, 12 folders");
    assert_eq!(item_types(0, 0), "0 folders");
}

#[test]
fn headings_and_counts() {
    assert_eq!(items_heading(3), "3 items");
    assert_eq!(items_heading(120), "120 items");
    assert_eq!(count_words(1, "file"), "1 file");
    assert_eq!(count_words(10, "file"), "10 files");
    assert_eq!(count_words(18446744073709551615, "byte"), "18446744073709551615 bytes");
}

#[test]
fn date_span_of_nothing_one_day_and_a_range() {
    assert_eq!(date_span(&vec![]), DateSpan::Missing);
    let a = stamp(100, 2023, 5, 1);
    let b = stamp(200, 2023, 5, 1);
    let c = stamp(90_000, 2023, 5, 2);
    assert_eq!(date_span(&vec![b, a]), DateSpan::Day(a));
    assert_eq!(date_span(&vec![b]), DateSpan::Day(b));
    assert_eq!(date_span(&vec![b, c, a]), DateSpan::Range(a, c));
}

#[test]
fn summary_counts_sizes_and_dates() {
    let e1 = EntryMeta { is_dir: false, size: 10, created: Some(stamp(5, 2020, 1, 1)), modified: None };
    let e2 = EntryMeta { is_dir: true, size: 20, created: None, modified: Some(stamp(7, 2020, 1, 1)) };
    let e3 = EntryMeta { is_dir: false, size: 30, created: Some(stamp(400_000, 2020, 1, 5)), modified: Some(stamp(8, 2020, 1, 1)) };
    let s = summarize(&vec![e1, e2, e3]);
    assert_eq!(s.count, 3);
    assert_eq!(s.documents, 2);
    assert_eq!(s.folders, 1);
    assert_eq!(s.total_size, 60);
    assert_eq!(s.created, DateSpan::Range(stamp(5, 2020, 1, 1), stamp(400_000, 2020, 1, 5)));
    assert_eq!(s.modified, DateSpan::Day(stamp(7, 2020, 1, 1)));
}

#[test]
fn summary_size_saturates() {
    let big = EntryMeta { is_dir: false, size: u64::MAX - 1, created: None, modified: None };
    let s = summarize(&vec![big, big]);
    assert_eq!(s.total_size, u64::MAX);
    let e = summarize(&vec![]);
    assert_eq!(e.count, 0);
    assert_eq!(e.total_size, 0);
    assert_eq!(e.created, DateSpan::Missing);
}
