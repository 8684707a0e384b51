use tabler::detect::FileError;
use tabler::detect::FileInfo;
use tabler::table::DataFrame;
use tabler::tree::tree_table;
use tabler::tree::JsonTree;

fn cell(df: &DataFrame, row: usize, col: &str) -> Option<String> {
    df.rows[row].get(&col.to_string()).cloned()
}

#[test]
fn delimited_two_rows() {
    let df = FileInfo::read_csv("a,b\n1,2\n3,4\n").unwrap();
    assert_eq!(df.columns, vec!["a".to_string(), "b".to_string()]);
    assert_eq!(df.rows.len(), 2);
    assert_eq!(cell(&df, 0, "a"), Some("1".to_string()));
    assert_eq!(cell(&df, 0, "b"), Some("2".to_string()));
    assert_eq!(cell(&df, 1, "a"), Some("3".to_string()));
    assert_eq!(cell(&df, 1, "b"), Some("4".to_string()));
}

#[test]
fn delimited_header_only_is_empty() {
    let err = FileInfo::read_csv("a,b\n").unwrap_err();
    assert!(matches!(err, FileError::EmptyFile));
    let err = FileInfo::read_csv("").unwrap_err();
    assert!(matches!(err, FileError::EmptyFile));
}

#[test]
fn delimited_ragged_row_omits_missing_keys() {
    let df = FileInfo::read_csv("a,b,c\n1\n4,5,6\n").unwrap();
    assert_eq!(df.rows.len(), 2);
    assert_eq!(cell(&df, 0, "a"), Some("1".to_string()));
    assert_eq!(cell(&df, 0, "b"), None);
    assert_eq!(df.rows[0].cell_text(&"b".to_string()), "NaN");
    assert_eq!(cell(&df, 1, "c"), Some("6".to_string()));
}

#[test]
fn delimited_long_record_drops_extra_fields() {
    let df = FileInfo::read_csv("a\n1,2\n").unwrap();
    assert_eq!(df.columns, vec!["a".to_string()]);
    assert_eq!(cell(&df, 0, "a"), Some("1".to_string()));
}

#[test]
fn delimited_headers_are_trimmed_and_deduplicated() {
    let df = FileInfo::read_csv(" a , b \n1,2\n").unwrap();
    assert_eq!(df.columns, vec!["a".to_string(), "b".to_string()]);
    assert_eq!(cell(&df, 0, "a"), Some("1".to_string()));

    // A duplicate header keeps one column; the later field wins the cell.
    let df = FileInfo::read_csv("a,a\n1,2\n").unwrap();
    assert_eq!(df.columns, vec!["a".to_string()]);
    assert_eq!(cell(&df, 0, "a"), Some("2".to_string()));
}

#[test]
fn delimited_stores_cells_unsegmented() {
    let long = "aaaaaaaaaaaaaaaaaaaabbbbbbbbbbbbbbbbbbbbccc";
    let df = FileInfo::read_csv(&format!("a\n{}\n", long)).unwrap();
    // The stored value is the raw text; wrapping happens at display time.
    assert_eq!(cell(&df, 0, "a"), Some(long.to_string()));
    let grid = df.display_rows();
    assert_eq!(
        grid[0][0],
        "aaaaaaaaaaaaaaaaaaaa-\nbbbbbbbbbbbbbbbbbbbb-\nccc"
    );
}

#[test]
fn tree_nested_object_uses_dotted_paths() {
    let df = FileInfo::read_json("{\"a\":{\"b\":1,\"c\":2}}").unwrap();
    assert_eq!(df.rows.len(), 2);
    let mut columns = df.columns.clone();
    columns.sort();
    assert_eq!(columns, vec!["a.b".to_string(), "a.c".to_string()]);
    assert_eq!(cell(&df, 0, "a.b"), Some("1".to_string()));
    assert_eq!(cell(&df, 0, "a.c"), None);
    assert_eq!(cell(&df, 1, "a.c"), Some("2".to_string()));
}

#[test]
fn tree_array_elements_stay_separate_rows() {
    let df = FileInfo::read_json("{\"a\":[{\"x\":1},{\"x\":2}]}").unwrap();
    assert_eq!(df.rows.len(), 2);
    assert_eq!(df.columns, vec!["a.x".to_string()]);
    assert_eq!(cell(&df, 0, "a.x"), Some("1".to_string()));
    assert_eq!(cell(&df, 1, "a.x"), Some("2".to_string()));
}

#[test]
fn tree_scalar_shapes() {
    // Null leaves display as their JSON text; string leaves keep quotes.
    let df = FileInfo::read_json("{\"a\":null,\"b\":\"x\",\"c\":true}").unwrap();
    assert_eq!(df.rows.len(), 3);
    assert_eq!(cell(&df, 0, "a"), Some("null".to_string()));
    assert_eq!(cell(&df, 1, "b"), Some("\"x\"".to_string()));
    assert_eq!(cell(&df, 2, "c"), Some("true".to_string()));
}

#[test]
fn tree_without_leaves_is_empty() {
    assert!(matches!(FileInfo::read_json("{}").unwrap_err(), FileError::EmptyFile));
    assert!(matches!(FileInfo::read_json("[]").unwrap_err(), FileError::EmptyFile));
    assert!(matches!(
        FileInfo::read_json("{\"a\":[[],{}]}").unwrap_err(),
        FileError::EmptyFile
    ));
}

#[test]
fn tree_malformed_is_invalid() {
    assert!(matches!(FileInfo::read_json("{").unwrap_err(), FileError::InvalidFile));
    assert!(matches!(
        FileInfo::read_json("not json").unwrap_err(),
        FileError::InvalidFile
    ));
}

#[test]
fn tree_table_flattens_a_built_tree() {
    // The same shape as {"a":{"b":1,"c":2}}, built directly.
    let t = JsonTree::Obj(vec![(
        "a".to_string(),
        JsonTree::Obj(vec![
            ("b".to_string(), JsonTree::Scalar("1".to_string())),
            ("c".to_string(), JsonTree::Scalar("2".to_string())),
        ]),
    )]);
    let df = tree_table(&t).unwrap();
    assert_eq!(df.columns, vec!["a.b".to_string(), "a.c".to_string()]);
    assert_eq!(df.rows.len(), 2);
    assert_eq!(cell(&df, 0, "a.b"), Some("1".to_string()));
    assert_eq!(cell(&df, 1, "a.c"), Some("2".to_string()));
}

#[test]
fn tree_table_array_keeps_one_cell_rows() {
    // The same shape as {"a":[{"x":1},{"x":2}]}, built directly: the two
    // leaves share a path but never merge into one row.
    let t = JsonTree::Obj(vec![(
        "a".to_string(),
        JsonTree::Arr(vec![
            JsonTree::Obj(vec![("x".to_string(), JsonTree::Scalar("1".to_string()))]),
            JsonTree::Obj(vec![("x".to_string(), JsonTree::Scalar("2".to_string()))]),
        ]),
    )]);
    let df = tree_table(&t).unwrap();
    assert_eq!(df.columns, vec!["a.x".to_string()]);
    assert_eq!(df.rows.len(), 2);
    assert_eq!(cell(&df, 0, "a.x"), Some("1".to_string()));
    assert_eq!(cell(&df, 1, "a.x"), Some("2".to_string()));
}

#[test]
fn filter_to_existing_subset_keeps_cells() {
    let df = FileInfo::read_csv("a,b,c\n1,2,3\n").unwrap();
    let (filtered, missing) =
        df.filter_columns(&vec!["c".to_string(), "a".to_string()]);
    assert_eq!(filtered.columns, vec!["c".to_string(), "a".to_string()]);
    assert!(missing.is_empty());
    // Row content for the retained columns is unchanged.
    assert_eq!(cell(&filtered, 0, "a"), Some("1".to_string()));
    assert_eq!(cell(&filtered, 0, "c"), Some("3".to_string()));
}

#[test]
fn filter_reports_misspelled_names_and_keeps_matches() {
    let df = FileInfo::read_csv("a,b\n1,2\n").unwrap();
    let (filtered, missing) =
        df.filter_columns(&vec!["a".to_string(), "zz".to_string()]);
    assert_eq!(filtered.columns, vec!["a".to_string()]);
    assert_eq!(missing, vec!["zz".to_string()]);
}

#[test]
fn filter_with_no_match_falls_back_to_all_columns() {
    let df = FileInfo::read_csv("a,b\n1,2\n").unwrap();
    let (filtered, missing) =
        df.filter_columns(&vec!["x".to_string(), "y".to_string()]);
    assert_eq!(filtered.columns, vec!["a".to_string(), "b".to_string()]);
    assert_eq!(missing, vec!["x".to_string(), "y".to_string()]);
}

#[test]
fn display_rows_substitutes_and_wraps() {
    let df = FileInfo::read_csv("a,b\n1\n").unwrap();
    let grid = df.display_rows();
    assert_eq!(grid, vec![vec!["1".to_string(), "NaN".to_string()]]);
}

// --- a minimal workbook, written as a stored zip, for the range family ---

fn crc32(data: &[u8]) -> u32 {
    let mut c: u32 = 0xFFFF_FFFF;
    for &b in data {
        c ^= b as u32;
        for _ in 0..8 {
            c = if c & 1 != 0 { (c >> 1) ^ 0xEDB8_8320 } else { c >> 1 };
        }
    }
    !c
}

fn put_u16(out: &mut Vec<u8>, v: u16) {
    out.extend_from_slice(&v.to_le_bytes());
}

fn put_u32(out: &mut Vec<u8>, v: u32) {
    out.extend_from_slice(&v.to_le_bytes());
}

fn stored_zip(files: &[(&str, &str)]) -> Vec<u8> {
    let mut out: Vec<u8> = Vec::new();
    let mut central: Vec<u8> = Vec::new();
    for (name, content) in files {
        let data = content.as_bytes();
        let offset = out.len() as u32;
        let crc = crc32(data);
        put_u32(&mut out, 0x04034b50);
        put_u16(&mut out, 20);
        put_u16(&mut out, 0);
        put_u16(&mut out, 0);
        put_u16(&mut out, 0);
        put_u16(&mut out, 0x21);
        put_u32(&mut out, crc);
        put_u32(&mut out, data.len() as u32);
        put_u32(&mut out, data.len() as u32);
        put_u16(&mut out, name.len() as u16);
        put_u16(&mut out, 0);
        out.extend_from_slice(name.as_bytes());
        out.extend_from_slice(data);

        put_u32(&mut central, 0x02014b50);
        put_u16(&mut central, 20);
        put_u16(&mut central, 20);
        put_u16(&mut central, 0);
        put_u16(&mut central, 0);
        put_u16(&mut central, 0);
        put_u16(&mut central, 0x21);
        put_u32(&mut central, crc);
        put_u32(&mut central, data.len() as u32);
        put_u32(&mut central, data.len() as u32);
        put_u16(&mut central, name.len() as u16);
        put_u16(&mut central, 0);
        put_u16(&mut central, 0);
        put_u16(&mut central, 0);
        put_u16(&mut central, 0);
        put_u32(&mut central, 0);
        put_u32(&mut central, offset);
        central.extend_from_slice(name.as_bytes());
    }
    let cd_offset = out.len() as u32;
    let cd_size = central.len() as u32;
    let entries = files.len() as u16;
    out.extend_from_slice(&central);
    put_u32(&mut out, 0x06054b50);
    put_u16(&mut out, 0);
    put_u16(&mut out, 0);
    put_u16(&mut out, entries);
    put_u16(&mut out, entries);
    put_u32(&mut out, cd_size);
    put_u32(&mut out, cd_offset);
    put_u16(&mut out, 0);
    out
}

fn workbook_bytes(sheet_rows: &[&[&str]]) -> Vec<u8> {
    let rels = "<?xml version=\"1.0\"?><Relationships xmlns=\"http://schemas.openxmlformats.org/package/2006/relationships\"><Relationship Id=\"rId1\" Type=\"http://schemas.openxmlformats.org/officeDocument/2006/relationships/officeDocument\" Target=\"xl/workbook.xml\"/></Relationships>";
    let workbook = "<?xml version=\"1.0\"?><workbook xmlns=\"http://schemas.openxmlformats.org/spreadsheetml/2006/main\" xmlns:r=\"http://schemas.openxmlformats.org/officeDocument/2006/relationships\"><sheets><sheet name=\"Sheet1\" sheetId=\"1\" r:id=\"rId1\"/></sheets></workbook>";
    let workbook_rels = "<?xml version=\"1.0\"?><Relationships xmlns=\"http://schemas.openxmlformats.org/package/2006/relationships\"><Relationship Id=\"rId1\" Type=\"http://schemas.openxmlformats.org/officeDocument/2006/relationships/worksheet\" Target=\"worksheets/sheet1.xml\"/></Relationships>";
    let mut sheet = String::from("<?xml version=\"1.0\"?><worksheet xmlns=\"http://schemas.openxmlformats.org/spreadsheetml/2006/main\"><sheetData>");
    for (r, row) in sheet_rows.iter().enumerate() {
        sheet.push_str(&format!("<row r=\"{}\">", r + 1));
        for (c, value) in row.iter().enumerate() {
            let col = (b'A' + c as u8) as char;
            if value.chars().all(|ch| ch.is_ascii_digit()) && !value.is_empty() {
                sheet.push_str(&format!("<c r=\"{}{}\"><v>{}</v></c>", col, r + 1, value));
            } else {
                sheet.push_str(&format!(
                    "<c r=\"{}{}\" t=\"str\"><v>{}</v></c>",
                    col,
                    r + 1,
                    value
                ));
            }
        }
        sheet.push_str("</row>");
    }
    sheet.push_str("</sheetData></worksheet>");
    stored_zip(&[
        ("_rels/.rels", rels),
        ("xl/workbook.xml", workbook),
        ("xl/_rels/workbook.xml.rels", workbook_rels),
        ("xl/worksheets/sheet1.xml", &sheet),
    ])
}

#[test]
fn range_drops_exactly_the_header_row() {
    let bytes = workbook_bytes(&[&["name", "age"], &["ada", "36"], &["bob", "7"]]);
    let df = FileInfo::read_excel(&bytes, None).unwrap();
    assert_eq!(df.columns, vec!["name".to_string(), "age".to_string()]);
    assert_eq!(df.rows.len(), 2);
    assert_eq!(cell(&df, 0, "name"), Some("ada".to_string()));
    assert_eq!(cell(&df, 0, "age"), Some("36".to_string()));
    assert_eq!(cell(&df, 1, "name"), Some("bob".to_string()));
}

#[test]
fn range_header_only_sheet_is_empty() {
    let bytes = workbook_bytes(&[&["name", "age"]]);
    let err = FileInfo::read_excel(&bytes, None).unwrap_err();
    assert!(matches!(err, FileError::EmptyFile));
}

#[test]
fn range_missing_sheet_is_reported() {
    let bytes = workbook_bytes(&[&["name"], &["ada"]]);
    let err = FileInfo::read_excel(&bytes, Some("Elsewhere".to_string())).unwrap_err();
    assert!(matches!(err, FileError::SheetNotFound));
    // The named sheet works like the default.
    let df = FileInfo::read_excel(&bytes, Some("Sheet1".to_string())).unwrap();
    assert_eq!(df.rows.len(), 1);
}

#[test]
fn range_unreadable_workbook_is_invalid() {
    let err = FileInfo::read_excel(b"this is not a workbook", None).unwrap_err();
    assert!(matches!(err, FileError::InvalidFile));
}

#[test]
fn get_df_dispatches_by_extension() {
    let df = FileInfo::get_df("t.csv".to_string(), b"a,b\n1,2\n", None).unwrap();
    assert_eq!(df.columns, vec!["a".to_string(), "b".to_string()]);

    let df = FileInfo::get_df("t.json".to_string(), b"{\"a\":{\"b\":1}}", None).unwrap();
    assert_eq!(df.columns, vec!["a.b".to_string()]);

    let bytes = workbook_bytes(&[&["h"], &["v"]]);
    let df = FileInfo::get_df("t.xlsx".to_string(), &bytes, None).unwrap();
    assert_eq!(df.columns, vec!["h".to_string()]);
    assert_eq!(cell(&df, 0, "h"), Some("v".to_string()));

    let err = FileInfo::get_df("t.txt".to_string(), b"", None).unwrap_err();
    assert!(matches!(err, FileError::UnsupportedExtension(_)));
}

#[test]
fn get_df_rejects_bytes_that_are_not_text() {
    let err = FileInfo::get_df("t.json".to_string(), &[0xff, 0xfe, 0x00], None).unwrap_err();
    assert!(matches!(err, FileError::InvalidFile));
    let err = FileInfo::get_df("t.csv".to_string(), &[0xff, 0xfe, 0x00], None).unwrap_err();
    assert!(matches!(err, FileError::InvalidFile));
}
