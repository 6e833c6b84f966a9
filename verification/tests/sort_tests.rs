use file_finder::record::{FileRecord, SortKey};
use file_finder::record::sort_key_from_str;
use file_finder::sorting::{sort_records, sort_records_opt};

fn rec(path: &str, size: u64, modified: u64) -> FileRecord {
    FileRecord { path: path.to_string(), size, modified, matches_content: false }
}

fn paths(v: &[FileRecord]) -> Vec<&str> {
    v.iter().map(|r| r.path.as_str()).collect()
}

#[test]
fn name_sort_is_ascending_on_the_file_name_component() {
    let mut v = vec![rec("zzz/b.txt", 1, 1), rec("aaa/c.txt", 2, 2), rec("mmm/a.txt", 3, 3)];
    sort_records(&mut v, SortKey::Name);
    // the directory part plays no role; only the names a.txt, b.txt, c.txt do
    assert_eq!(paths(&v), vec!["mmm/a.txt", "zzz/b.txt", "aaa/c.txt"]);
}

#[test]
fn name_sort_is_stable_on_equal_names() {
    let mut v = vec![
        rec("one/dup.txt", 1, 1),
        rec("two/a.txt", 2, 2),
        rec("three/dup.txt", 3, 3),
        rec("four/dup.txt", 4, 4),
    ];
    sort_records(&mut v, SortKey::Name);
    assert_eq!(paths(&v), vec!["two/a.txt", "one/dup.txt", "three/dup.txt", "four/dup.txt"]);
}

#[test]
fn size_sort_is_descending() {
    let mut v = vec![rec("a", 10, 0), rec("b", 30, 0), rec("c", 20, 0)];
    sort_records(&mut v, SortKey::Size);
    assert_eq!(paths(&v), vec!["b", "c", "a"]);
}

#[test]
fn size_sort_is_stable_on_ties() {
    let mut v = vec![rec("a", 10, 0), rec("b", 10, 0), rec("c", 20, 0)];
    sort_records(&mut v, SortKey::Size);
    assert_eq!(paths(&v), vec!["c", "a", "b"]);
}

#[test]
fn date_sort_is_most_recent_first() {
    let mut v = vec![rec("old", 0, 100), rec("new", 0, 300), rec("mid", 0, 200)];
    sort_records(&mut v, SortKey::Date);
    assert_eq!(paths(&v), vec!["new", "mid", "old"]);
}

#[test]
fn no_sort_key_preserves_discovery_order() {
    let mut v = vec![rec("c", 1, 1), rec("a", 2, 2), rec("b", 3, 3)];
    sort_records_opt(&mut v, None);
    assert_eq!(paths(&v), vec!["c", "a", "b"]);
}

#[test]
fn sort_key_parsing_accepts_the_closed_set() {
    assert_eq!(sort_key_from_str("name"), Some(SortKey::Name));
    assert_eq!(sort_key_from_str("size"), Some(SortKey::Size));
    assert_eq!(sort_key_from_str("date"), Some(SortKey::Date));
}

#[test]
fn sort_key_parsing_rejects_everything_else() {
    assert_eq!(sort_key_from_str(""), None);
    assert_eq!(sort_key_from_str("Name"), None);
    assert_eq!(sort_key_from_str("names"), None);
    assert_eq!(sort_key_from_str("path"), None);
}
