//! The data model: discovered file records, search options, and the
//! closed set of sort keys.

use vstd::prelude::*;
use crate::strutil::str_equal;

verus! {

broadcast use vstd::string::group_string_axioms;

/// One entry discovered by the traversal.
///
/// `modified` is the modification time in whole seconds since the Unix
/// epoch; when the filesystem could not report one, the traversal falls
/// back to the epoch itself, `0`. `matches_content` is true only when
/// content search was requested and the file's text matched.
pub struct FileRecord {
    pub path: String,
    pub size: u64,
    pub modified: u64,
    pub matches_content: bool,
}

/// The mathematical content of a [`FileRecord`].
pub ghost struct RecordView {
    pub path: Seq<char>,
    pub size: u64,
    pub modified: u64,
    pub matches_content: bool,
}

impl View for FileRecord {
    type V = RecordView;

    open spec fn view(&self) -> RecordView {
        RecordView {
            path: self.path@,
            size: self.size,
            modified: self.modified,
            matches_content: self.matches_content,
        }
    }
}

impl DeepView for FileRecord {
    type V = RecordView;

    open spec fn deep_view(&self) -> RecordView {
        self.view()
    }
}

/// A key of the closed sorting set.
#[derive(Clone, Copy, PartialEq, Eq, Structural, Debug)]
pub enum SortKey {
    Name,
    Size,
    Date,
}

/// The options that steer a search, mirroring the command line.
#[derive(Clone, Copy)]
pub struct SearchOptions {
    pub date: bool,
    pub size: bool,
    pub human_readable: bool,
    pub sort: Option<SortKey>,
    pub content_search: bool,
}

/// Validates a sort-key argument against the closed set
/// `{name, size, date}`; any other value is rejected.
pub fn sort_key_from_str(s: &str) -> (r: Option<SortKey>)
    ensures
        r == Some(SortKey::Name) <==> s@ == "name"@,
        r == Some(SortKey::Size) <==> s@ == "size"@,
        r == Some(SortKey::Date) <==> s@ == "date"@,
        r is None <==> s@ != "name"@ && s@ != "size"@ && s@ != "date"@,
{
    proof {
        reveal_strlit("name");
        reveal_strlit("size");
        reveal_strlit("date");
        assert("name"@[0] == 'n' && "size"@[0] == 's' && "date"@[0] == 'd');
    }
    if str_equal(s, "name") {
        Some(SortKey::Name)
    } else if str_equal(s, "size") {
        Some(SortKey::Size)
    } else if str_equal(s, "date") {
        Some(SortKey::Date)
    } else {
        None
    }
}

} // verus!
