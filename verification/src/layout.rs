//! Layout of the data directory.
//!
//! Paths are held as text; joining follows the rules of `Path::join` on Unix: a part
//! that starts with `/` replaces the base, otherwise a `/` is put between a non-empty
//! base that does not already end in one and the part.

use vstd::prelude::*;

use crate::dataset::{dataset_dir, dataset_name, Dataset};
use crate::text::{chars_of, i64_to_decimal, push_char, signed_decimal};

verus! {

/// `part` appended to the path `base`.
pub open spec fn path_join(base: Seq<char>, part: Seq<char>) -> Seq<char> {
    if part.len() > 0 && part[0] == '/' {
        part
    } else if base.len() > 0 && base.last() != '/' {
        base + seq!['/'] + part
    } else {
        base + part
    }
}

/// `part` appended to the path `base`.
pub fn join_path(base: &str, part: &str) -> (joined: String)
    ensures
        joined@ == path_join(base@, part@),
{
    let part_chars = chars_of(part);
    if part_chars.len() > 0 && part_chars[0] == '/' {
        return part.to_string();
    }
    let base_chars = chars_of(base);
    let mut joined = base.to_string();
    if base_chars.len() > 0 && base_chars[base_chars.len() - 1] != '/' {
        push_char(&mut joined, '/');
    }
    joined.append(part);
    joined
}

/// Default data root (overridden by the `MYFIN_DATA` environment variable).
pub const DEFAULT_DATA_DIR: &'static str = "data";

/// The data directory tree.
#[derive(Debug, Clone)]
pub struct Layout {
    pub root: String,
}

impl Default for Layout {
    fn default() -> (layout: Self)
        ensures
            layout.root@ == DEFAULT_DATA_DIR@,
    {
        Layout::new(DEFAULT_DATA_DIR)
    }
}

impl Layout {
    pub fn new(root: &str) -> (layout: Layout)
        ensures
            layout.root@ == root@,
    {
        Layout { root: root.to_string() }
    }

    /// The directory of a dataset.
    pub fn dataset_dir(&self, dataset: Dataset) -> (dir: String)
        ensures
            dir@ == path_join(self.root@, dataset_dir(dataset)),
    {
        join_path(self.root.as_str(), dataset.dir())
    }

    /// The per-year directory of a dataset.
    pub fn dataset_year_dir(&self, dataset: Dataset, year: i32) -> (dir: String)
        ensures
            dir@ == path_join(
                path_join(self.root@, dataset_dir(dataset)),
                signed_decimal(year as int),
            ),
    {
        let dir = self.dataset_dir(dataset);
        let year_text = i64_to_decimal(year as i64);
        join_path(dir.as_str(), year_text.as_str())
    }

    pub fn reports_dir(&self) -> (dir: String)
        ensures
            dir@ == path_join(self.root@, "reports"@),
    {
        join_path(self.root.as_str(), "reports")
    }

    pub fn context_dir(&self) -> (dir: String)
        ensures
            dir@ == path_join(self.root@, "context"@),
    {
        join_path(self.root.as_str(), "context")
    }

    /// Path of a structured environment-scan result.
    pub fn context_path(&self, name: &str) -> (path: String)
        ensures
            path@ == path_join(path_join(self.root@, "context"@), name@),
    {
        let dir = self.context_dir();
        join_path(dir.as_str(), name)
    }

    pub fn sync_dir(&self) -> (dir: String)
        ensures
            dir@ == path_join(self.root@, "sync"@),
    {
        join_path(self.root.as_str(), "sync")
    }

    /// The synchronisation manifest of a dataset: `sync/<dataset>.jsonl`.
    pub fn manifest_path(&self, dataset: Dataset) -> (path: String)
        ensures
            path@ == path_join(path_join(self.root@, "sync"@), dataset_name(dataset) + ".jsonl"@),
    {
        let dir = self.sync_dir();
        let mut name = dataset.as_str().to_string();
        name.append(".jsonl");
        join_path(dir.as_str(), name.as_str())
    }

    /// Path of a report file.
    pub fn report_path(&self, name: &str) -> (path: String)
        ensures
            path@ == path_join(path_join(self.root@, "reports"@), name@),
    {
        let dir = self.reports_dir();
        join_path(dir.as_str(), name)
    }
}

} // verus!
