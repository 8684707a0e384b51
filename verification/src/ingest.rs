//! Ingestion entry point: classifies the path, decodes the bytes where the
//! family is textual, and dispatches to that family's normalizer.

use vstd::prelude::*;
use vstd::string::*;
use vstd::utf8::*;
use crate::delimited::csv_split;
use crate::delimited::delimited_ok;
use crate::detect::FileError;
use crate::detect::FileExtension;
use crate::detect::FileInfo;
use crate::detect::extension_of;
use crate::detect::family_of_ext;
use crate::range::range_ok;
use crate::range::xlsx_cells;
use crate::table::DataFrame;
use crate::tree::json_tree_of;
use crate::tree::leaves_of;
use crate::tree::tree_ok;

verus! {

/// The family the path's extension names, if any.
pub open spec fn detected_family(p: Seq<char>) -> Option<FileExtension> {
    match extension_of(p) {
        Some(e) => family_of_ext(e),
        None => None,
    }
}

/// The extension text carried by a rejection: the path's extension, or
/// empty when it has none.
pub open spec fn offending_ext(p: Seq<char>) -> Seq<char> {
    match extension_of(p) {
        Some(e) => e,
        None => Seq::empty(),
    }
}

/// Relies on str::from_utf8 (std): a string exactly when the bytes are
/// valid UTF-8, and then its decoded characters.
#[verifier::external_body]
fn utf8_text(bytes: &[u8]) -> (r: Option<String>)
    ensures
        r matches Some(s) ==> valid_utf8(bytes@) && s@ == decode_utf8(bytes@),
        r is None ==> !valid_utf8(bytes@),
{
    match std::str::from_utf8(bytes) {
        Ok(s) => Some(s.to_string()),
        Err(_) => None,
    }
}

impl FileInfo {
    /// Turns a file's bytes into the common table shape, as the path's
    /// extension decides: delimited for `csv`, tree for `json`, range for
    /// `xlsx`/`xls`. An unrecognized or absent extension is rejected with
    /// its text; bytes that are not UTF-8 are an invalid file for the
    /// textual families.
    pub fn get_df(path: String, content: &[u8], sheet_name: Option<String>) -> (r: Result<
        DataFrame,
        FileError,
    >)
        ensures
            ({
                let text = decode_utf8(content@);
                match detected_family(path@) {
                    None => (r matches Err(e) && e matches FileError::UnsupportedExtension(x) && x@
                        == offending_ext(path@)),
                    Some(FileExtension::Csv) => {
                        &&& (!valid_utf8(content@) ==> (r matches Err(e) && e is InvalidFile))
                        &&& (valid_utf8(content@) ==> ((csv_split(text).1.len() == 0 ==> (r
                            matches Err(e) && e is EmptyFile)) && (csv_split(text).1.len() > 0
                            ==> (r matches Ok(df) && delimited_ok(
                            csv_split(text).0,
                            csv_split(text).1,
                            df,
                        )))))
                    },
                    Some(FileExtension::Json) => {
                        &&& (!valid_utf8(content@) ==> (r matches Err(e) && e is InvalidFile))
                        &&& (valid_utf8(content@) ==> ((json_tree_of(text) is None ==> (r
                            matches Err(e) && e is InvalidFile)) && (json_tree_of(text)
                            matches Some(t) ==> ((leaves_of(t, Seq::<char>::empty()).len() == 0
                            ==> (r matches Err(e) && e is EmptyFile)) && (leaves_of(
                            t,
                            Seq::<char>::empty(),
                        ).len() > 0 ==> (r matches Ok(df) && tree_ok(
                            leaves_of(t, Seq::<char>::empty()),
                            df,
                        )))))))
                    },
                    Some(FileExtension::Excel) => {
                        let sheet = match sheet_name {
                            Some(s) => s@,
                            None => "Sheet1"@,
                        };
                        &&& (xlsx_cells(content@, sheet) matches Some(g) ==> ((g.len() <= 1 ==> (r
                            matches Err(e) && e is EmptyFile)) && (g.len() > 1 ==> (r matches Ok(
                            df,
                        ) && range_ok(g, df)))))
                        &&& (xlsx_cells(content@, sheet) is None ==> (r matches Err(e) && !(e
                            matches FileError::UnsupportedExtension(_))))
                    },
                }
            }),
    {
        let info = match FileInfo::get_file_extension(path) {
            Ok(i) => i,
            Err(e) => {
                return Err(e);
            },
        };
        match info.file_ext {
            FileExtension::Csv => match utf8_text(content) {
                Some(text) => FileInfo::read_csv(text.as_str()),
                None => Err(FileError::InvalidFile),
            },
            FileExtension::Json => match utf8_text(content) {
                Some(text) => FileInfo::read_json(text.as_str()),
                None => Err(FileError::InvalidFile),
            },
            FileExtension::Excel => FileInfo::read_excel(content, sheet_name),
        }
    }
}

} // verus!
