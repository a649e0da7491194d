use unsegen::widget::linestorage::{
    decimal_text, strip_line_end, Bound, LineIndex, LineNumber, LineSeeker, LineStorage, MemoryLineStorage,
    SeekStep, StringLineStorage,
};

fn storage_of(lines: &[&str]) -> StringLineStorage {
    MemoryLineStorage::with_lines(lines.iter().map(|l| l.to_string()).collect())
}

fn forwards(storage: &StringLineStorage, start: Bound<LineIndex>, end: Bound<LineIndex>) -> Vec<(usize, String)> {
    let mut lines = storage.view(start, end);
    let mut seen = Vec::new();
    while let Some((index, line)) = lines.next() {
        seen.push((index.0, line));
    }
    seen
}

fn backwards(storage: &StringLineStorage, start: Bound<LineIndex>, end: Bound<LineIndex>) -> Vec<(usize, String)> {
    let mut lines = storage.view(start, end);
    let mut seen = Vec::new();
    while let Some((index, line)) = lines.next_back() {
        seen.push((index.0, line));
    }
    seen
}

#[test]
fn line_index_checked_sub() {
    assert_eq!(LineIndex(5).checked_sub(2), Some(LineIndex(3)));
    assert_eq!(LineIndex(5).checked_sub(5), Some(LineIndex(0)));
    assert_eq!(LineIndex(5).checked_sub(6), None);
    assert_eq!(LineIndex(0).checked_sub(0), Some(LineIndex(0)));
}

#[test]
fn line_number_checked_sub() {
    assert_eq!(LineNumber(5).checked_sub(2), Some(LineNumber(3)));
    assert_eq!(LineNumber(5).checked_sub(4), Some(LineNumber(1)));
    assert_eq!(LineNumber(5).checked_sub(5), None);
    assert_eq!(LineNumber(1).checked_sub(0), Some(LineNumber(1)));
    assert_eq!(LineNumber(1).checked_sub(1), None);
}

#[test]
fn line_index_arithmetic() {
    assert_eq!(LineIndex(3) + 4, LineIndex(7));
    assert_eq!(LineIndex(7) - 4, LineIndex(3));
    assert_eq!(LineIndex(7) - 7, LineIndex(0));
    let raw: usize = LineIndex(9).into();
    assert_eq!(raw, 9);
    assert!(LineIndex(1) < LineIndex(2));
}

#[test]
fn line_number_arithmetic() {
    assert_eq!(LineNumber(3) + 4, LineNumber(7));
    assert_eq!(LineNumber(7) - 4, LineNumber(3));
    let raw: usize = LineNumber(9).into();
    assert_eq!(raw, 9);
    assert!(LineNumber(1) < LineNumber(2));
}

#[test]
fn line_numbers_are_one_above_indices() {
    assert_eq!(LineNumber::from_index(LineIndex(0)), LineNumber(1));
    assert_eq!(LineNumber::from_index(LineIndex(41)), LineNumber(42));
    assert_eq!(LineIndex::from_number(LineNumber(1)), LineIndex(0));
    assert_eq!(LineIndex::from_number(LineNumber(42)), LineIndex(41));
}

#[test]
fn memory_storage_holds_lines() {
    let empty: MemoryLineStorage<String> = MemoryLineStorage::new();
    assert_eq!(empty.num_lines_stored(), 0);
    assert_eq!(empty.view_line(LineIndex(0)), None);
    let storage = storage_of(&["a", "b", "c"]);
    assert_eq!(storage.num_lines_stored(), 3);
    assert_eq!(storage.view_line(LineIndex(0)), Some(String::from("a")));
    assert_eq!(storage.view_line(LineIndex(2)), Some(String::from("c")));
    assert_eq!(storage.view_line(LineIndex(3)), None);
}

#[test]
fn active_line_is_the_last_line() {
    let mut storage = storage_of(&["a", "b"]);
    storage.active_line_mut().push('!');
    assert_eq!(storage.lines, vec!["a", "b!"]);
    let mut empty: MemoryLineStorage<String> = MemoryLineStorage::new();
    assert_eq!(empty.active_line_mut(), "");
    assert_eq!(empty.num_lines_stored(), 1);
    empty.active_line_mut().push('x');
    assert_eq!(empty.lines, vec!["x"]);
    let mut numbers: MemoryLineStorage<u32> = MemoryLineStorage::new();
    assert_eq!(*numbers.active_line_mut(), 0);
}

#[test]
fn view_hands_out_the_lines_of_a_range() {
    let storage = storage_of(&["a", "b", "c", "d"]);
    assert_eq!(
        forwards(&storage, Bound::Inclusive(LineIndex(1)), Bound::Exclusive(LineIndex(3))),
        vec![(1, String::from("b")), (2, String::from("c"))]
    );
    assert_eq!(
        forwards(&storage, Bound::Exclusive(LineIndex(1)), Bound::Inclusive(LineIndex(3))),
        vec![(2, String::from("c")), (3, String::from("d"))]
    );
    assert_eq!(
        forwards(&storage, Bound::Unbound, Bound::Exclusive(LineIndex(1))),
        vec![(0, String::from("a"))]
    );
    assert_eq!(
        backwards(&storage, Bound::Unbound, Bound::Inclusive(LineIndex(2))),
        vec![(2, String::from("c")), (1, String::from("b")), (0, String::from("a"))]
    );
    assert_eq!(
        forwards(&storage, Bound::Inclusive(LineIndex(3)), Bound::Exclusive(LineIndex(3))),
        vec![]
    );
}

#[test]
fn view_without_end_reaches_one_line_beyond_the_last() {
    let storage = storage_of(&["a", "b", "c"]);
    let lines = storage.view(Bound::Inclusive(LineIndex(1)), Bound::Unbound);
    assert_eq!((lines.start, lines.end), (1, 4));
    assert_eq!(
        forwards(&storage, Bound::Inclusive(LineIndex(1)), Bound::Unbound),
        vec![(1, String::from("b")), (2, String::from("c"))]
    );
    assert_eq!(backwards(&storage, Bound::Unbound, Bound::Unbound), vec![]);
    let lines = storage.view(Bound::Inclusive(LineIndex(7)), Bound::Unbound);
    assert_eq!((lines.start, lines.end), (7, 8));
}

#[test]
fn view_stops_at_a_line_that_is_missing() {
    let storage = storage_of(&["a", "b"]);
    let mut lines = storage.view(Bound::Inclusive(LineIndex(1)), Bound::Exclusive(LineIndex(4)));
    assert_eq!(lines.next(), Some((LineIndex(1), String::from("b"))));
    assert_eq!(lines.next(), None);
    assert_eq!((lines.start, lines.end), (3, 4));
    assert_eq!(lines.next_back(), None);
    assert_eq!((lines.start, lines.end), (3, 3));
    assert_eq!(lines.next(), None);
    assert_eq!(lines.next_back(), None);
    assert_eq!((lines.start, lines.end), (3, 3));
}

#[test]
fn write_str_begins_a_line_at_every_line_feed() {
    let mut storage: StringLineStorage = MemoryLineStorage::new();
    storage.write_str("");
    assert_eq!(storage.lines, vec![""]);
    storage.write_str("ab");
    assert_eq!(storage.lines, vec!["ab"]);
    storage.write_str("c\nde\n\nf");
    assert_eq!(storage.lines, vec!["abc", "de", "", "f"]);
    storage.write_str("\n");
    assert_eq!(storage.lines, vec!["abc", "de", "", "f", ""]);
    storage.write_str("\u{4e16}e\u{301}");
    assert_eq!(storage.lines, vec!["abc", "de", "", "f", "\u{4e16}e\u{301}"]);
}

#[test]
fn strip_line_end_takes_one_line_feed_off() {
    assert_eq!(strip_line_end("abc\n"), "abc");
    assert_eq!(strip_line_end("abc"), "abc");
    assert_eq!(strip_line_end("abc\n\n"), "abc\n");
    assert_eq!(strip_line_end("\n"), "");
    assert_eq!(strip_line_end(""), "");
    assert_eq!(strip_line_end("a\nb"), "a\nb");
}

#[test]
fn line_seeker_learns_where_lines_begin() {
    // A stream of the lines "ab\n", "c\n" and "def".
    let mut seeker = LineSeeker::new();
    assert_eq!(seeker.line_seek_positions, vec![0]);
    assert_eq!(seeker.seek_position(0), 0);
    assert_eq!(seeker.seek_position(2), 0);
    assert_eq!(seeker.record(2, 3), SeekStep::Further);
    assert_eq!(seeker.line_seek_positions, vec![0, 3]);
    assert_eq!(seeker.seek_position(2), 3);
    assert_eq!(seeker.record(2, 2), SeekStep::Further);
    assert_eq!(seeker.line_seek_positions, vec![0, 3, 5]);
    assert_eq!(seeker.seek_position(2), 5);
    assert_eq!(seeker.record(2, 3), SeekStep::Found);
    assert_eq!(seeker.line_seek_positions, vec![0, 3, 5]);
    assert_eq!(seeker.seek_position(1), 3);
    assert_eq!(seeker.record(1, 2), SeekStep::Found);
    assert_eq!(seeker.seek_position(3), 5);
    assert_eq!(seeker.record(3, 3), SeekStep::Further);
    assert_eq!(seeker.line_seek_positions, vec![0, 3, 5, 8]);
    assert_eq!(seeker.seek_position(3), 8);
    assert_eq!(seeker.record(3, 0), SeekStep::Missing);
    assert_eq!(seeker.line_seek_positions, vec![0, 3, 5, 8]);
}

#[test]
fn lines_are_counted_in_decimal_notation() {
    assert_eq!(LineIndex(0).to_string(), "0");
    assert_eq!(LineIndex(7).to_string(), "7");
    assert_eq!(LineIndex(10).to_string(), "10");
    assert_eq!(LineIndex(1234567890).to_string(), "1234567890");
    assert_eq!(LineNumber(1).to_string(), "1");
    assert_eq!(LineNumber(42).to_string(), "42");
    assert_eq!(LineNumber(9001).to_string(), "9001");
}

#[test]
fn decimal_text_of_numbers() {
    assert_eq!(decimal_text(0), "0");
    assert_eq!(decimal_text(9), "9");
    assert_eq!(decimal_text(100), "100");
    assert_eq!(decimal_text(305), "305");
    assert_eq!(decimal_text(usize::MAX), format!("{}", usize::MAX));
    for number in 0..2000usize {
        assert_eq!(decimal_text(number), format!("{}", number));
    }
}
