use readdir::entry::{
    classify, style_of, Category, Color, DisplayFlags, Entry, EntryKind, EntryMeta, ListError,
    Style,
};
use readdir::layout::{
    column_width, entries_per_row, list_dirs_first, plan_layout, print_entries,
    write_dir_contents, write_str_to_buffer, Piece,
};
use readdir::order::{
    bytes_le, filter_hidden, is_hidden_name, order_entries, reverse_entries, sort_entries,
};
use readdir::size::{human_readable_filesize, raw_filesize};
use readdir::text::right_pad;

fn file(name: &str, mode: u32, size: u64) -> Entry {
    Entry {
        path: format!("/d/{}", name),
        name: name.to_string(),
        exists: true,
        meta: Some(EntryMeta { kind: EntryKind::File, mode, size }),
    }
}

fn dir(name: &str) -> Entry {
    Entry {
        path: format!("/d/{}", name),
        name: name.to_string(),
        exists: true,
        meta: Some(EntryMeta { kind: EntryKind::Directory, mode: 0o755, size: 4096 }),
    }
}

fn missing(name: &str) -> Entry {
    Entry { path: format!("/d/{}", name), name: name.to_string(), exists: false, meta: None }
}

fn flags() -> DisplayFlags {
    DisplayFlags {
        all: false,
        reverse: false,
        unsorted: false,
        case_sensitive: false,
        show_size: false,
        human_readable: false,
        base_1000: false,
    }
}

fn names(v: &[Entry]) -> Vec<String> {
    v.iter().map(|e| e.name.clone()).collect()
}

fn text(s: &str) -> Piece {
    Piece::Text(s.to_string())
}

const WHITE: Style = Style { fg: Color::White, bold: false };
const RED: Style = Style { fg: Color::Red, bold: true };
const BLUE: Style = Style { fg: Color::Blue, bold: true };

#[test]
fn right_pad_fills_to_width() {
    assert_eq!(right_pad("ab", 5), "ab   ");
    assert_eq!(right_pad("abcdef", 3), "abcdef");
    assert_eq!(right_pad("", 0), "");
}

#[test]
fn right_pad_counts_bytes() {
    assert_eq!(right_pad("é", 4), "é  ");
}

#[test]
fn size_zero_base_1000() {
    assert_eq!(human_readable_filesize(0, true), "0.00 B");
}

#[test]
fn size_one_kilobyte_base_1000() {
    assert_eq!(human_readable_filesize(1000, true), "1.00 kB");
}

#[test]
fn size_one_kilobyte_base_1024() {
    assert_eq!(human_readable_filesize(1024, false), "1.00 kB");
}

#[test]
fn size_one_and_a_half_megabytes() {
    assert_eq!(human_readable_filesize(1500000, true), "1.50 MB");
}

#[test]
fn size_rounds_to_two_decimals() {
    assert_eq!(human_readable_filesize(4140, true), "4.14 kB");
    assert_eq!(human_readable_filesize(999, true), "999.00 B");
    assert_eq!(human_readable_filesize(1536, false), "1.50 kB");
    assert_eq!(human_readable_filesize(1005, true), "1.01 kB");
}

#[test]
fn size_largest_values() {
    assert_eq!(human_readable_filesize(u64::MAX, true), "18.45 EB");
    assert_eq!(human_readable_filesize(u64::MAX, false), "16.00 EB");
}

#[test]
fn raw_size_prints_bytes() {
    assert_eq!(raw_filesize(0), "0 B");
    assert_eq!(raw_filesize(1234567), "1234567 B");
}

#[test]
fn classify_each_category() {
    assert_eq!(classify(&missing("gone")), Ok(Category::Missing));
    assert_eq!(classify(&dir("d")), Ok(Category::Directory));
    assert_eq!(classify(&file("x", 0o700, 1)), Ok(Category::Executable));
    assert_eq!(classify(&file("x", 0o001, 1)), Ok(Category::Executable));
    assert_eq!(classify(&file("r", 0o644, 1)), Ok(Category::Regular));
    let link = Entry {
        path: "/d/l".to_string(),
        name: "l".to_string(),
        exists: true,
        meta: Some(EntryMeta { kind: EntryKind::Symlink, mode: 0o777, size: 3 }),
    };
    assert_eq!(classify(&link), Ok(Category::Symlink));
}

#[test]
fn classify_without_metadata_fails() {
    let e = Entry { path: "/d/x".to_string(), name: "x".to_string(), exists: true, meta: None };
    assert_eq!(classify(&e), Err(ListError::Metadata));
}

#[test]
fn styles_by_category() {
    assert_eq!(style_of(Category::Directory), BLUE);
    assert_eq!(style_of(Category::Symlink), Style { fg: Color::Cyan, bold: false });
    assert_eq!(style_of(Category::Executable), Style { fg: Color::Green, bold: false });
    assert_eq!(style_of(Category::Regular), WHITE);
    assert_eq!(style_of(Category::Missing), RED);
}

#[test]
fn hidden_names() {
    assert!(is_hidden_name(".git"));
    assert!(!is_hidden_name("a.txt"));
    assert!(!is_hidden_name(""));
}

#[test]
fn filter_is_idempotent() {
    let v = vec![file(".a", 0, 0), file("b", 0, 0), file(".c", 0, 0), file("d", 0, 0)];
    let once = filter_hidden(v, false);
    assert_eq!(names(&once), vec!["b", "d"]);
    let twice = filter_hidden(once, false);
    assert_eq!(names(&twice), vec!["b", "d"]);
    let all = filter_hidden(vec![file(".a", 0, 0), file("b", 0, 0)], true);
    assert_eq!(names(&all), vec![".a", "b"]);
}

#[test]
fn reverse_twice_restores_order() {
    let v = vec![file("a", 0, 0), file("b", 0, 0), file("c", 0, 0)];
    let r = reverse_entries(v);
    assert_eq!(names(&r), vec!["c", "b", "a"]);
    let rr = reverse_entries(r);
    assert_eq!(names(&rr), vec!["a", "b", "c"]);
}

#[test]
fn case_insensitive_sort_puts_a_first() {
    let v = vec![file("B.txt", 0, 0), file("a.txt", 0, 0)];
    assert_eq!(names(&sort_entries(v, false)), vec!["a.txt", "B.txt"]);
}

#[test]
fn case_sensitive_sort_puts_upper_first() {
    let v = vec![file("a.txt", 0, 0), file("B.txt", 0, 0)];
    assert_eq!(names(&sort_entries(v, true)), vec!["B.txt", "a.txt"]);
}

#[test]
fn sort_is_stable_for_equal_keys() {
    let mut first = file("x", 0, 1);
    first.path = "/d/Same".to_string();
    let mut second = file("y", 0, 2);
    second.path = "/d/same".to_string();
    let v = vec![file("z", 0, 0), first, second];
    let r = sort_entries(v, false);
    assert_eq!(names(&r), vec!["x", "y", "z"]);
}

#[test]
fn byte_order() {
    assert!(bytes_le(b"abc", b"abd"));
    assert!(bytes_le(b"ab", b"abc"));
    assert!(!bytes_le(b"b", b"abc"));
    assert!(bytes_le(b"", b""));
}

#[test]
fn order_filters_sorts_and_reverses() {
    let v = vec![file("c", 0, 0), file(".h", 0, 0), file("a", 0, 0), file("B", 0, 0)];
    let mut f = flags();
    f.reverse = true;
    assert_eq!(names(&order_entries(v, &f)), vec!["c", "B", "a"]);
}

#[test]
fn order_unsorted_keeps_enumeration_order() {
    let v = vec![file("c", 0, 0), file("a", 0, 0), file("b", 0, 0)];
    let mut f = flags();
    f.unsorted = true;
    f.reverse = true;
    assert_eq!(names(&order_entries(v, &f)), vec!["b", "a", "c"]);
}

#[test]
fn per_row_never_zero() {
    assert_eq!(entries_per_row(5, 7), 1);
    assert_eq!(entries_per_row(0, 0), 1);
    assert_eq!(entries_per_row(20, 7), 2);
    assert_eq!(column_width(10, 4), 4);
    assert_eq!(column_width(5, 20), 7);
}

#[test]
fn three_tokens_on_width_twenty() {
    let v = vec![file("abc", 0o644, 0), file("abcde", 0o644, 0), file("abcd", 0o644, 0)];
    let plan = plan_layout(&v, 20);
    assert_eq!(plan.column_width, 7);
    assert_eq!(plan.per_row, 2);
    assert!(!plan.dense);
    let out = write_dir_contents(&v, &flags(), 20).unwrap();
    assert_eq!(
        out,
        vec![
            Piece::SetStyle(WHITE),
            text("abc    "),
            Piece::SetStyle(WHITE),
            text("abcde  "),
            Piece::Newline,
            Piece::SetStyle(WHITE),
            text("abcd   "),
            Piece::SetStyle(WHITE),
        ]
    );
}

#[test]
fn dense_layout_pads_each_name() {
    let v = vec![file("ab", 0o644, 0), file("abcd", 0o755, 0)];
    let out = write_dir_contents(&v, &flags(), 80).unwrap();
    assert_eq!(
        out,
        vec![
            Piece::SetStyle(WHITE),
            text("ab  "),
            Piece::SetStyle(Style { fg: Color::Green, bold: false }),
            text("abcd  "),
            Piece::SetStyle(WHITE),
        ]
    );
}

#[test]
fn missing_entry_in_grid() {
    let v = vec![missing("gone"), dir("d")];
    let out = write_dir_contents(&v, &flags(), 6).unwrap();
    assert_eq!(
        out,
        vec![
            Piece::SetStyle(RED),
            text("gone  "),
            Piece::Newline,
            Piece::SetStyle(BLUE),
            text("d     "),
            Piece::SetStyle(WHITE),
        ]
    );
}

#[test]
fn missing_entry_in_size_mode_fails() {
    let v = vec![dir("d"), missing("gone")];
    let mut f = flags();
    f.show_size = true;
    assert_eq!(write_dir_contents(&v, &f, 80), Err(ListError::Metadata));
}

#[test]
fn size_mode_one_entry_per_line() {
    let v = vec![file("a", 0o644, 1500), file("bb", 0o644, 7)];
    let mut f = flags();
    f.show_size = true;
    f.human_readable = true;
    f.base_1000 = true;
    let out = write_dir_contents(&v, &f, 1).unwrap();
    assert_eq!(
        out,
        vec![
            Piece::SetStyle(WHITE),
            text("1.50 kB   "),
            text("a"),
            Piece::Newline,
            Piece::SetStyle(WHITE),
            text("7.00 B    "),
            text("bb"),
            Piece::SetStyle(WHITE),
        ]
    );
}

#[test]
fn size_mode_raw_bytes() {
    let v = vec![file("a", 0o644, 1500)];
    let mut f = flags();
    f.show_size = true;
    let out = write_dir_contents(&v, &f, 80).unwrap();
    assert_eq!(out[1], text("1500 B    "));
}

#[test]
fn empty_directory_gives_empty_grid() {
    let out = print_entries(vec![file(".hidden", 0, 0)], &flags(), 80).unwrap();
    assert_eq!(out, vec![Piece::SetStyle(WHITE), Piece::Newline]);
}

#[test]
fn print_entries_orders_then_lays_out() {
    let v = vec![file("b", 0o644, 0), file("A", 0o644, 0)];
    let out = print_entries(v, &flags(), 80).unwrap();
    assert_eq!(
        out,
        vec![
            Piece::SetStyle(WHITE),
            text("A  "),
            Piece::SetStyle(WHITE),
            text("b  "),
            Piece::SetStyle(WHITE),
            Piece::Newline,
        ]
    );
}

#[test]
fn plain_listing_puts_directories_first() {
    let v = vec![file("a", 0o644, 0), dir("z"), file(".h", 0, 0), dir("m")];
    let out = list_dirs_first(v, false, false);
    assert_eq!(
        out,
        vec![
            Piece::SetStyle(BLUE),
            text("m"),
            Piece::Newline,
            Piece::SetStyle(BLUE),
            text("z"),
            Piece::Newline,
            Piece::SetStyle(WHITE),
            text("a"),
            Piece::Newline,
        ]
    );
}

#[test]
fn note_in_yellow() {
    let out = write_str_to_buffer("done");
    assert_eq!(
        out,
        vec![
            Piece::SetStyle(Style { fg: Color::Yellow, bold: false }),
            text("➥ done"),
            Piece::Newline,
        ]
    );
}
