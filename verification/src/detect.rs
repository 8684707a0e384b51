//! Format detector: classifies a file path into one of the supported
//! structural families, from the path's extension alone.
//!
//! The extension is the part of the file name after its last dot, where the
//! file name is the part of the path after its last `/` and a dot that opens
//! the file name does not count as a separator. Matching is ASCII
//! case-insensitive. An unrecognized or absent extension is rejected with
//! the offending extension text (empty when absent). No file is touched.

use vstd::prelude::*;
use vstd::string::*;

verus! {

/// The suffix of `s` after the last occurrence of `c` (all of `s` when `c`
/// does not occur).
pub open spec fn after_last(s: Seq<char>, c: char) -> Seq<char>
    decreases s.len(),
{
    if s.len() == 0 {
        s
    } else if s.last() == c {
        Seq::empty()
    } else {
        after_last(s.drop_last(), c).push(s.last())
    }
}

/// The file name: the part of the path after its last `/`.
pub open spec fn file_name_of(p: Seq<char>) -> Seq<char> {
    after_last(p, '/')
}

/// Whether the file name has an extension separator: a dot after its first
/// character.
pub open spec fn has_ext_dot(name: Seq<char>) -> bool {
    exists|j: int| 1 <= j < name.len() && name[j] == '.'
}

/// The path's extension text, when the file name has one.
pub open spec fn extension_of(p: Seq<char>) -> Option<Seq<char>> {
    let name = file_name_of(p);
    if has_ext_dot(name) {
        Some(after_last(name, '.'))
    } else {
        None
    }
}

proof fn lemma_after_last_at(s: Seq<char>, c: char, k: int)
    requires
        0 <= k <= s.len(),
        forall|i: int| k <= i < s.len() ==> s[i] != c,
        k == 0 || s[k - 1] == c,
    ensures
        after_last(s, c) == s.subrange(k, s.len() as int),
    decreases s.len(),
{
    if s.len() == 0 {
        assert(s.subrange(0, 0) =~= s);
    } else if k == s.len() {
        assert(s.last() == c);
        assert(s.subrange(k, s.len() as int) =~= Seq::<char>::empty());
    } else {
        assert(s.last() != c);
        lemma_after_last_at(s.drop_last(), c, k);
        assert(s.drop_last().subrange(k, s.drop_last().len() as int).push(s.last()) =~= s.subrange(
            k,
            s.len() as int,
        ));
    }
}

/// The three structural families a file can present.
#[derive(Debug, PartialEq, Eq, Structural, Clone, Copy)]
pub enum FileExtension {
    Json,
    Csv,
    Excel,
}

/// The error kinds of the ingestion pipeline, all terminal to the current
/// file.
#[derive(Debug)]
pub enum FileError {
    /// The underlying path does not resolve.
    FileNotFound,
    /// The parse succeeded structurally but produced zero rows.
    EmptyFile,
    /// The content could not be parsed as the detected family.
    InvalidFile,
    /// The path's extension, carried here, is not in the recognized set.
    UnsupportedExtension(String),
    /// The requested sheet name is absent from the workbook.
    SheetNotFound,
}

impl FileError {
    /// The diagnostic line shown for this error.
    pub open spec fn message_spec(&self) -> Seq<char> {
        match self {
            FileError::FileNotFound => "Error: File not found!"@,
            FileError::EmptyFile => "Error: File is empty!"@,
            FileError::InvalidFile => "Error: Invalid file!"@,
            FileError::UnsupportedExtension(_) => "Error: Unsupported file extension!"@,
            FileError::SheetNotFound => "Error: Sheet not found!"@,
        }
    }

    /// The diagnostic line shown for this error.
    pub fn message(&self) -> (r: String)
        ensures
            r@ == self.message_spec(),
    {
        match self {
            FileError::FileNotFound => "Error: File not found!".to_owned(),
            FileError::EmptyFile => "Error: File is empty!".to_owned(),
            FileError::InvalidFile => "Error: Invalid file!".to_owned(),
            FileError::UnsupportedExtension(_) => "Error: Unsupported file extension!".to_owned(),
            FileError::SheetNotFound => "Error: Sheet not found!".to_owned(),
        }
    }
}

/// ASCII case-insensitive equality with the letter given in both cases.
pub open spec fn eqi(c: char, lower: char, upper: char) -> bool {
    c == lower || c == upper
}

pub open spec fn is_json_ext(e: Seq<char>) -> bool {
    e.len() == 4 && eqi(e[0], 'j', 'J') && eqi(e[1], 's', 'S') && eqi(e[2], 'o', 'O') && eqi(
        e[3],
        'n',
        'N',
    )
}

pub open spec fn is_csv_ext(e: Seq<char>) -> bool {
    e.len() == 3 && eqi(e[0], 'c', 'C') && eqi(e[1], 's', 'S') && eqi(e[2], 'v', 'V')
}

pub open spec fn is_xlsx_ext(e: Seq<char>) -> bool {
    e.len() == 4 && eqi(e[0], 'x', 'X') && eqi(e[1], 'l', 'L') && eqi(e[2], 's', 'S') && eqi(
        e[3],
        'x',
        'X',
    )
}

pub open spec fn is_xls_ext(e: Seq<char>) -> bool {
    e.len() == 3 && eqi(e[0], 'x', 'X') && eqi(e[1], 'l', 'L') && eqi(e[2], 's', 'S')
}

/// The family an extension text names, if any.
pub open spec fn family_of_ext(e: Seq<char>) -> Option<FileExtension> {
    if is_json_ext(e) {
        Some(FileExtension::Json)
    } else if is_csv_ext(e) {
        Some(FileExtension::Csv)
    } else if is_xlsx_ext(e) || is_xls_ext(e) {
        Some(FileExtension::Excel)
    } else {
        None
    }
}

fn extension_text(path: &str) -> (r: Option<String>)
    ensures
        r matches Some(e) ==> extension_of(path@) == Some(e@),
        r is None ==> extension_of(path@) is None,
{
    let n = path.unicode_len();
    let mut k1: usize = n;
    while k1 > 0 && path.get_char(k1 - 1) != '/'
        invariant
            k1 <= n,
            n == path@.len(),
            forall|i: int| k1 <= i < n ==> path@[i] != '/',
        decreases k1,
    {
        k1 = k1 - 1;
    }
    proof {
        lemma_after_last_at(path@, '/', k1 as int);
    }
    let ghost name = path@.subrange(k1 as int, n as int);
    if n - k1 <= 1 {
        proof {
            assert(!has_ext_dot(name));
        }
        return None;
    }
    let mut j: usize = n;
    while j > k1 + 1 && path.get_char(j - 1) != '.'
        invariant
            k1 + 1 <= j <= n,
            n == path@.len(),
            forall|i: int| j <= i < n ==> path@[i] != '.',
        decreases j,
    {
        j = j - 1;
    }
    if j > k1 + 1 {
        proof {
            assert(path@[j - 1] == '.');
            assert(name[j - 1 - k1] == '.');
            assert(has_ext_dot(name));
            assert forall|i: int| j - k1 <= i < name.len() implies name[i] != '.' by {
                assert(name[i] == path@[k1 + i]);
            }
            lemma_after_last_at(name, '.', j - k1 as int);
            assert(name.subrange(j - k1 as int, name.len() as int) =~= path@.subrange(
                j as int,
                n as int,
            ));
        }
        Some(path.substring_char(j, n).to_owned())
    } else {
        proof {
            if has_ext_dot(name) {
                let jj = choose|jj: int| 1 <= jj < name.len() && name[jj] == '.';
                assert(name[jj] == path@[k1 + jj]);
            }
        }
        None
    }
}

fn ext_family(e: &str) -> (r: Option<FileExtension>)
    ensures
        r == family_of_ext(e@),
{
    let n = e.unicode_len();
    if n == 4 {
        let c0 = e.get_char(0);
        let c1 = e.get_char(1);
        let c2 = e.get_char(2);
        let c3 = e.get_char(3);
        if (c0 == 'j' || c0 == 'J') && (c1 == 's' || c1 == 'S') && (c2 == 'o' || c2 == 'O') && (c3
            == 'n' || c3 == 'N') {
            Some(FileExtension::Json)
        } else if (c0 == 'x' || c0 == 'X') && (c1 == 'l' || c1 == 'L') && (c2 == 's' || c2 == 'S')
            && (c3 == 'x' || c3 == 'X') {
            Some(FileExtension::Excel)
        } else {
            None
        }
    } else if n == 3 {
        let c0 = e.get_char(0);
        let c1 = e.get_char(1);
        let c2 = e.get_char(2);
        if (c0 == 'c' || c0 == 'C') && (c1 == 's' || c1 == 'S') && (c2 == 'v' || c2 == 'V') {
            Some(FileExtension::Csv)
        } else if (c0 == 'x' || c0 == 'X') && (c1 == 'l' || c1 == 'L') && (c2 == 's' || c2 == 'S') {
            Some(FileExtension::Excel)
        } else {
            None
        }
    } else {
        None
    }
}

/// A classified input file: its path and its structural family.
#[derive(Debug)]
pub struct FileInfo {
    pub file_path: String,
    pub file_ext: FileExtension,
}

impl FileInfo {
    /// Classifies a path by its extension, case-insensitively: `json` is the
    /// tree family, `csv` the delimited family, `xlsx` and `xls` the range
    /// family. Any other extension — or none — is rejected, with the
    /// offending extension text carried in the error (empty when absent).
    pub fn get_file_extension(filename: String) -> (r: Result<FileInfo, FileError>)
        ensures
            match extension_of(filename@) {
                Some(e) => match family_of_ext(e) {
                    Some(fam) => r matches Ok(fi) && fi.file_path@ == filename@ && fi.file_ext
                        == fam,
                    None => r matches Err(er) && er matches FileError::UnsupportedExtension(x)
                        && x@ == e,
                },
                None => r matches Err(er) && er matches FileError::UnsupportedExtension(x) && x@
                    =~= Seq::<char>::empty(),
            },
    {
        match extension_text(filename.as_str()) {
            Some(ext) => match ext_family(ext.as_str()) {
                Some(fam) => Ok(FileInfo { file_path: filename, file_ext: fam }),
                None => Err(FileError::UnsupportedExtension(ext)),
            },
            None => Err(FileError::UnsupportedExtension(String::new())),
        }
    }
}

} // verus!
