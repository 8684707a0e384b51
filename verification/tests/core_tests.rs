use tabler::cells::responsive_row;
use tabler::cells::trim_text;
use tabler::detect::FileError;
use tabler::detect::FileExtension;
use tabler::detect::FileInfo;
use tabler::layout::compute_layout;
use tabler::layout::Indentation;
use tabler::table::Row;

#[test]
fn works() {}

#[test]
fn detect_supported_extensions() {
    let json = FileInfo::get_file_extension("data/report.json".to_string()).unwrap();
    assert_eq!(json.file_ext, FileExtension::Json);
    assert_eq!(json.file_path, "data/report.json".to_string());

    let csv = FileInfo::get_file_extension("table.csv".to_string()).unwrap();
    assert_eq!(csv.file_ext, FileExtension::Csv);

    let xlsx = FileInfo::get_file_extension("book.xlsx".to_string()).unwrap();
    assert_eq!(xlsx.file_ext, FileExtension::Excel);

    let xls = FileInfo::get_file_extension("old/book.xls".to_string()).unwrap();
    assert_eq!(xls.file_ext, FileExtension::Excel);
}

#[test]
fn detect_is_case_insensitive() {
    let a = FileInfo::get_file_extension("UPPER.CSV".to_string()).unwrap();
    assert_eq!(a.file_ext, FileExtension::Csv);
    let b = FileInfo::get_file_extension("mixed.JsOn".to_string()).unwrap();
    assert_eq!(b.file_ext, FileExtension::Json);
    let c = FileInfo::get_file_extension("wb.XlSx".to_string()).unwrap();
    assert_eq!(c.file_ext, FileExtension::Excel);
}

#[test]
fn detect_unsupported_extension_carries_text() {
    let err = FileInfo::get_file_extension("notes.txt".to_string()).unwrap_err();
    match err {
        FileError::UnsupportedExtension(ext) => assert_eq!(ext, "txt".to_string()),
        other => panic!("expected UnsupportedExtension, got {:?}", other),
    }
}

#[test]
fn detect_absent_extension_carries_empty_text() {
    let err = FileInfo::get_file_extension("noextension".to_string()).unwrap_err();
    match err {
        FileError::UnsupportedExtension(ext) => assert_eq!(ext, "".to_string()),
        other => panic!("expected UnsupportedExtension, got {:?}", other),
    }
    // A leading dot alone does not open an extension.
    let err = FileInfo::get_file_extension("dir/.hidden".to_string()).unwrap_err();
    match err {
        FileError::UnsupportedExtension(ext) => assert_eq!(ext, "".to_string()),
        other => panic!("expected UnsupportedExtension, got {:?}", other),
    }
}

#[test]
fn error_messages() {
    assert_eq!(FileError::EmptyFile.message(), "Error: File is empty!");
    assert_eq!(FileError::FileNotFound.message(), "Error: File not found!");
    assert_eq!(FileError::InvalidFile.message(), "Error: Invalid file!");
    assert_eq!(
        FileError::UnsupportedExtension("txt".to_string()).message(),
        "Error: Unsupported file extension!"
    );
    assert_eq!(FileError::SheetNotFound.message(), "Error: Sheet not found!");
}

#[test]
fn short_cell_is_unchanged() {
    assert_eq!(responsive_row("abcdefghij"), "abcdefghij");
    assert_eq!(responsive_row("  padded  "), "padded");
    assert_eq!(responsive_row(""), "");
}

#[test]
fn short_cell_formatting_is_stable() {
    // Formatting an already formatted short cell changes nothing more.
    let once = responsive_row("  short text ");
    let twice = responsive_row(once.as_str());
    assert_eq!(once, "short text");
    assert_eq!(twice, once);
}

#[test]
fn medium_cell_splits_in_two() {
    // 25 characters: 20 marked characters, a line break, then the 5 others.
    let input = "abcdefghijklmnopqrstuvwxy";
    assert_eq!(input.len(), 25);
    assert_eq!(responsive_row(input), "abcdefghijklmnopqrst-\nuvwxy");

    // Exactly 20 characters: the second slice is empty, and the trailing
    // line break is trimmed away.
    let input = "abcdefghijklmnopqrst";
    assert_eq!(responsive_row(input), "abcdefghijklmnopqrst-");
}

#[test]
fn long_cell_splits_in_three() {
    // 40 characters: 20/20/empty remainder.
    let input = "aaaaaaaaaaaaaaaaaaaabbbbbbbbbbbbbbbbbbbb";
    assert_eq!(input.len(), 40);
    assert_eq!(
        responsive_row(input),
        "aaaaaaaaaaaaaaaaaaaa-\nbbbbbbbbbbbbbbbbbbbb-"
    );

    // 43 characters: 20/20/3.
    let input = "aaaaaaaaaaaaaaaaaaaabbbbbbbbbbbbbbbbbbbbccc";
    assert_eq!(input.len(), 43);
    assert_eq!(
        responsive_row(input),
        "aaaaaaaaaaaaaaaaaaaa-\nbbbbbbbbbbbbbbbbbbbb-\nccc"
    );
}

#[test]
fn trim_text_matches_surrounding_whitespace() {
    assert_eq!(trim_text(" \t a b \n "), "a b");
    assert_eq!(trim_text("\n\r\t "), "");
    assert_eq!(trim_text("solid"), "solid");
}

#[test]
fn flattened_indent_is_zero_for_any_column_count() {
    for n in [0usize, 1, 2, 5, 6, 10, 14, 100] {
        assert_eq!(Indentation::get_indentation(n, true).indent, 0);
    }
}

#[test]
fn fewer_columns_get_a_strictly_wider_indent() {
    let one = Indentation::get_indentation(1, false).indent;
    let ten = Indentation::get_indentation(10, false).indent;
    assert!(one > ten);
    assert_eq!(one, 70);
    assert_eq!(ten, 0);
}

#[test]
fn indent_values_follow_the_piecewise_formula() {
    assert_eq!(Indentation::get_indentation(2, false).indent, 70);
    assert_eq!(Indentation::get_indentation(3, false).indent, 65);
    assert_eq!(Indentation::get_indentation(5, false).indent, 55);
    assert_eq!(Indentation::get_indentation(6, false).indent, 40);
    assert_eq!(Indentation::get_indentation(9, false).indent, 10);
    assert_eq!(Indentation::get_indentation(14, false).indent, 0);
    assert_eq!(Indentation::get_indentation(100, false).indent, 0);
}

#[test]
fn explicit_cap_beyond_table_shows_all_rows_with_diagnostic() {
    let (layout, diagnostic) = compute_layout(3, 50, Some(500), false, false);
    assert_eq!(layout.row_limit, None);
    assert!(diagnostic);
}

#[test]
fn explicit_cap_within_table_wins() {
    let (layout, diagnostic) = compute_layout(3, 50, Some(20), false, false);
    assert_eq!(layout.row_limit, Some(20));
    assert!(!diagnostic);

    // A cap equal to the row count still applies, without a diagnostic.
    let (layout, diagnostic) = compute_layout(3, 50, Some(50), false, false);
    assert_eq!(layout.row_limit, Some(50));
    assert!(!diagnostic);
}

#[test]
fn default_cap_applies_only_from_200_rows() {
    let (layout, diagnostic) = compute_layout(3, 250, None, true, false);
    assert_eq!(layout.row_limit, Some(200));
    assert!(!diagnostic);

    let (layout, diagnostic) = compute_layout(3, 150, None, true, false);
    assert_eq!(layout.row_limit, None);
    assert!(!diagnostic);
}

#[test]
fn no_preference_shows_all_rows() {
    let (layout, diagnostic) = compute_layout(3, 5000, None, false, false);
    assert_eq!(layout.row_limit, None);
    assert!(!diagnostic);
}

#[test]
fn row_stores_and_reads_cells() {
    let mut row = Row::new();
    row.set("a".to_string(), "1".to_string());
    row.set("b".to_string(), "2".to_string());
    assert_eq!(row.get(&"a".to_string()), Some(&"1".to_string()));
    assert_eq!(row.get(&"b".to_string()), Some(&"2".to_string()));
    assert_eq!(row.get(&"c".to_string()), None);

    // A later cell for the same column overwrites the earlier one.
    row.set("a".to_string(), "9".to_string());
    assert_eq!(row.get(&"a".to_string()), Some(&"9".to_string()));
}

#[test]
fn missing_cell_displays_the_sentinel() {
    let mut row = Row::new();
    row.set("a".to_string(), "1".to_string());
    assert_eq!(row.cell_text(&"a".to_string()), "1");
    assert_eq!(row.cell_text(&"missing".to_string()), "NaN");
}
