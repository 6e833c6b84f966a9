//! The traversal engine: a worklist-based directory walk.
//!
//! The engine itself performs no filesystem access. The caller reads one
//! directory at a time, hands the listing in as plain values (entry name,
//! kind, metadata, and — when content search is on — the file's text
//! lines), and the engine decides which entries become results and which
//! directories are visited next. An unreadable directory is reported as
//! `None` and is skipped without disturbing the rest of the walk.

use vstd::prelude::*;
use vstd::string::*;
use crate::pattern::{Pattern, regex_match};
use crate::record::{FileRecord, RecordView, SearchOptions};
use crate::strutil::join_path;

verus! {

/// Metadata of one directory entry, as far as the filesystem reported
/// it: the byte size, and the modification time in seconds since the
/// Unix epoch when one could be obtained.
pub struct EntryMeta {
    pub size: u64,
    pub modified: Option<u64>,
}

/// One entry of a directory listing, as handed to the engine.
///
/// `meta` is `None` when fetching metadata failed (the entry is then
/// skipped); `lines` carries the file's text lines when the caller read
/// them for content search, and `None` when the file could not be read
/// or content search did not apply.
pub struct DirEntryInput {
    pub name: String,
    pub is_file: bool,
    pub is_dir: bool,
    pub meta: Option<EntryMeta>,
    pub lines: Option<Vec<String>>,
}

/// The mathematical content of a [`DirEntryInput`].
pub ghost struct EntryView {
    pub name: Seq<char>,
    pub is_file: bool,
    pub is_dir: bool,
    pub meta: Option<EntryMeta>,
    pub lines: Option<Seq<Seq<char>>>,
}

impl View for DirEntryInput {
    type V = EntryView;

    open spec fn view(&self) -> EntryView {
        EntryView {
            name: self.name@,
            is_file: self.is_file,
            is_dir: self.is_dir,
            meta: self.meta,
            lines: self.lines.deep_view(),
        }
    }
}

impl DeepView for DirEntryInput {
    type V = EntryView;

    open spec fn deep_view(&self) -> EntryView {
        self.view()
    }
}

/// `dir` and `name` joined with a single `/` separator.
pub open spec fn joined(dir: Seq<char>, name: Seq<char>) -> Seq<char> {
    dir + seq!['/'] + name
}

/// Whether the pattern matches on some of the lines.
pub open spec fn lines_hit(pattern: Seq<char>, ls: Seq<Seq<char>>) -> bool {
    exists|i: int| 0 <= i < ls.len() && #[trigger] regex_match(pattern, ls[i])
}

/// Whether the pattern matches on some line of the text, if any text
/// could be read at all.
pub open spec fn content_hit(pattern: Seq<char>, lines: Option<Seq<Seq<char>>>) -> bool {
    match lines {
        Some(ls) => lines_hit(pattern, ls),
        None => false,
    }
}

/// Whether the entry counts as a content match: content search is on,
/// the entry is a regular file, and some line of its text matches.
pub open spec fn entry_content_match(pattern: Seq<char>, content_search: bool, e: EntryView) -> bool {
    content_search && e.is_file && content_hit(pattern, e.lines)
}

/// Whether the entry enters the results: its metadata could be fetched,
/// and its name matches the pattern or its content does.
pub open spec fn entry_included(pattern: Seq<char>, content_search: bool, e: EntryView) -> bool {
    e.meta is Some && (regex_match(pattern, e.name) || entry_content_match(
        pattern,
        content_search,
        e,
    ))
}

/// The record an included entry produces: its joined path, its size, its
/// modification time (the epoch when none was reported), and whether its
/// content matched.
pub open spec fn record_of(
    dir: Seq<char>,
    pattern: Seq<char>,
    content_search: bool,
    e: EntryView,
) -> RecordView
    recommends
        e.meta is Some,
{
    RecordView {
        path: joined(dir, e.name),
        size: match e.meta {
            Some(m) => m.size,
            None => 0,
        },
        modified: match e.meta {
            Some(m) => match m.modified {
                Some(t) => t,
                None => 0,
            },
            None => 0,
        },
        matches_content: entry_content_match(pattern, content_search, e),
    }
}

/// The records a whole listing produces, in listing order.
pub open spec fn records_of(
    dir: Seq<char>,
    pattern: Seq<char>,
    content_search: bool,
    entries: Seq<EntryView>,
) -> Seq<RecordView>
    decreases entries.len(),
{
    if entries.len() == 0 {
        Seq::empty()
    } else {
        records_of(dir, pattern, content_search, entries.drop_last()) + (if entry_included(
            pattern,
            content_search,
            entries.last(),
        ) {
            seq![record_of(dir, pattern, content_search, entries.last())]
        } else {
            Seq::empty()
        })
    }
}

/// The subdirectory paths a listing adds to the worklist, in listing
/// order: one for every directory entry, matching or not.
pub open spec fn subdirs_of(dir: Seq<char>, entries: Seq<EntryView>) -> Seq<Seq<char>>
    decreases entries.len(),
{
    if entries.len() == 0 {
        Seq::empty()
    } else {
        subdirs_of(dir, entries.drop_last()) + (if entries.last().is_dir {
            seq![joined(dir, entries.last().name)]
        } else {
            Seq::empty()
        })
    }
}

/// Directories are always recursed into: every directory entry of a
/// listing puts its path on the worklist, whether or not its own name
/// matches the pattern.
pub proof fn lemma_dirs_always_recursed(dir: Seq<char>, entries: Seq<EntryView>, i: int)
    requires
        0 <= i < entries.len(),
        entries[i].is_dir,
    ensures
        subdirs_of(dir, entries).contains(joined(dir, entries[i].name)),
    decreases entries.len(),
{
    let target = joined(dir, entries[i].name);
    let prefix = subdirs_of(dir, entries.drop_last());
    if i == entries.len() - 1 {
        assert(subdirs_of(dir, entries)[prefix.len() as int] == target);
    } else {
        lemma_dirs_always_recursed(dir, entries.drop_last(), i);
        let j = choose|j: int| 0 <= j < prefix.len() && prefix[j] == target;
        assert(subdirs_of(dir, entries)[j] == target);
    }
}

/// Scans the lines for a pattern match, line by line; missing text (an
/// unreadable file) never matches.
pub fn search_lines(pattern: &Pattern, lines: &Option<Vec<String>>) -> (r: bool)
    ensures
        r == content_hit(pattern@, lines.deep_view()),
{
    match lines {
        None => false,
        Some(ls) => {
            let n = ls.len();
            let mut i: usize = 0;
            while i < n
                invariant
                    n == ls@.len(),
                    i <= n,
                    lines.deep_view() == Some(ls.deep_view()),
                    forall|j: int| 0 <= j < i ==> !regex_match(pattern@, ls@[j]@),
                decreases n - i,
            {
                if pattern.is_match(ls[i].as_str()) {
                    proof {
                        let lsv = ls.deep_view();
                        assert(lsv.len() == ls@.len());
                        assert(lsv[i as int] == ls@[i as int]@);
                        assert(0 <= (i as int) < lsv.len() && regex_match(pattern@, lsv[i as int]));
                        assert(lines_hit(pattern@, lsv));
                        assert(content_hit(pattern@, lines.deep_view()));
                    }
                    return true;
                }
                i += 1;
            }
            proof {
                assert forall|k: int| 0 <= k < ls.deep_view().len() implies !regex_match(
                    pattern@,
                    ls.deep_view()[k],
                ) by {
                    assert(ls.deep_view()[k] == ls@[k]@);
                }
                assert(!lines_hit(pattern@, ls.deep_view()));
            }
            false
        },
    }
}

/// The traversal state: the compiled pattern and options it was started
/// with, the directories still to visit, and the records found so far.
pub struct Finder {
    pub pattern: Pattern,
    pub options: SearchOptions,
    pub pending: Vec<String>,
    pub results: Vec<FileRecord>,
}

impl Finder {
    /// A fresh traversal, with only the start directory pending.
    pub fn new(pattern: Pattern, options: SearchOptions, start_dir: &str) -> (r: Finder)
        ensures
            r.pattern@ == pattern@,
            r.options == options,
            r.pending.deep_view() == seq![start_dir@],
            r.results@.len() == 0,
    {
        let mut pending: Vec<String> = Vec::new();
        pending.push(String::from_str(start_dir));
        proof {
            assert(pending.deep_view() =~= seq![start_dir@]);
        }
        Finder { pattern, options, pending, results: Vec::new() }
    }

    /// Takes the next directory off the worklist, if any is left.
    pub fn next_dir(&mut self) -> (r: Option<String>)
        ensures
            final(self).pattern == old(self).pattern,
            final(self).options == old(self).options,
            final(self).results == old(self).results,
            old(self).pending@.len() == 0 ==> r is None && final(self).pending@ == old(
                self,
            ).pending@,
            old(self).pending@.len() > 0 ==> (r matches Some(d) && d@ == old(
                self,
            ).pending.deep_view().last() && final(self).pending@ == old(self).pending@.drop_last()),
    {
        let r = self.pending.pop();
        proof {
            if old(self).pending@.len() > 0 {
                assert(old(self).pending.deep_view().last() == old(self).pending@.last()@);
            }
        }
        r
    }

    /// Works through one directory's listing.
    ///
    /// A `None` listing — the directory could not be read — changes
    /// nothing: the traversal carries on with whatever else is pending.
    /// Otherwise every included entry appends its record to the results
    /// in listing order, and every subdirectory joins the worklist,
    /// matching or not.
    pub fn process_listing(&mut self, dir: &str, listing: Option<Vec<DirEntryInput>>)
        ensures
            final(self).pattern == old(self).pattern,
            final(self).options == old(self).options,
            match listing {
                None => final(self).results == old(self).results && final(self).pending == old(
                    self,
                ).pending,
                Some(entries) => final(self).results.deep_view() == old(self).results.deep_view()
                    + records_of(
                    dir@,
                    old(self).pattern@,
                    old(self).options.content_search,
                    entries.deep_view(),
                ) && final(self).pending.deep_view() == old(self).pending.deep_view() + subdirs_of(
                    dir@,
                    entries.deep_view(),
                ),
            },
    {
        match listing {
            None => {},
            Some(entries) => {
                let ghost evs = entries.deep_view();
                let n = entries.len();
                let mut idx: usize = 0;
                while idx < n
                    invariant
                        n == entries@.len(),
                        idx <= n,
                        evs == entries.deep_view(),
                        self.pattern == old(self).pattern,
                        self.options == old(self).options,
                        self.results.deep_view() =~= old(self).results.deep_view() + records_of(
                            dir@,
                            old(self).pattern@,
                            old(self).options.content_search,
                            evs.take(idx as int),
                        ),
                        self.pending.deep_view() =~= old(self).pending.deep_view() + subdirs_of(
                            dir@,
                            evs.take(idx as int),
                        ),
                    decreases n - idx,
                {
                    let ghost pat = old(self).pattern@;
                    let ghost cs = old(self).options.content_search;
                    let e = &entries[idx];
                    proof {
                        assert(evs[idx as int] == entries@[idx as int]@);
                        assert(evs.take(idx as int + 1).drop_last() =~= evs.take(idx as int));
                        assert(evs.take(idx as int + 1).last() == evs[idx as int]);
                    }
                    let name_match = self.pattern.is_match(e.name.as_str());
                    let candidate = name_match || (self.options.content_search && e.is_file);
                    if candidate {
                        if let Some(meta) = &e.meta {
                            let matches_content = if self.options.content_search && e.is_file {
                                search_lines(&self.pattern, &e.lines)
                            } else {
                                false
                            };
                            if name_match || matches_content {
                                let path = join_path(dir, e.name.as_str());
                                let modified = match meta.modified {
                                    Some(t) => t,
                                    None => 0,
                                };
                                let rec = FileRecord {
                                    path,
                                    size: meta.size,
                                    modified,
                                    matches_content,
                                };
                                proof {
                                    assert(rec@ == record_of(dir@, pat, cs, evs[idx as int]));
                                    assert(entry_included(pat, cs, evs[idx as int]));
                                }
                                let ghost before = self.results.deep_view();
                                self.results.push(rec);
                                proof {
                                    assert(self.results.deep_view() =~= before.push(rec@));
                                }
                            } else {
                                proof {
                                    assert(!entry_included(pat, cs, evs[idx as int]));
                                }
                            }
                        } else {
                            proof {
                                assert(!entry_included(pat, cs, evs[idx as int]));
                            }
                        }
                    } else {
                        proof {
                            assert(!entry_included(pat, cs, evs[idx as int]));
                        }
                    }
                    if e.is_dir {
                        let sub = join_path(dir, e.name.as_str());
                        let ghost before = self.pending.deep_view();
                        self.pending.push(sub);
                        proof {
                            assert(self.pending.deep_view() =~= before.push(sub@));
                        }
                    }
                    proof {
                        assert(self.results.deep_view() =~= old(self).results.deep_view()
                            + records_of(dir@, pat, cs, evs.take(idx as int + 1)));
                        assert(self.pending.deep_view() =~= old(self).pending.deep_view()
                            + subdirs_of(dir@, evs.take(idx as int + 1)));
                    }
                    idx += 1;
                }
                proof {
                    assert(evs.take(n as int) =~= evs);
                }
            },
        }
    }
}

} // verus!
