//! The record of unfinished downloads: for each file, the byte ranges that
//! were still missing when its download was interrupted.
use vstd::prelude::*;
use crate::paths::{join_path, joined_path};

verus! {

/// A byte range still to fetch, both ends inclusive.
#[derive(Clone, Copy, Debug, PartialEq, Eq, Structural)]
pub struct BreakPoint {
    pub start: u64,
    pub end: u64,
}

/// One interrupted download: the file's name, its size, where it is
/// written, and the ranges it still misses.
#[derive(Debug)]
pub struct FileInfo {
    pub name: String,
    pub size: u64,
    pub target: String,
    pub break_point: Vec<BreakPoint>,
}

/// An entry of the record.
#[derive(Debug)]
pub struct UnfinishFile {
    pub file: FileInfo,
}

/// The whole record, in the order the entries were saved.
#[derive(Debug)]
pub struct UnfinishFiles {
    pub files: Vec<UnfinishFile>,
}

/// Where the record is kept.
#[derive(Debug)]
pub struct Json {
    pub path: String,
}

/// Whether some entry of `files` is for the file named `name`.
pub open spec fn has_named(files: Seq<UnfinishFile>, name: Seq<char>) -> bool {
    exists|i: int| 0 <= i < files.len() && #[trigger] files[i].file.name@ == name
}

/// Whether `i` is the first entry of `files` for the file named `name`.
pub open spec fn is_first_named(files: Seq<UnfinishFile>, name: Seq<char>, i: int) -> bool {
    &&& 0 <= i < files.len()
    &&& files[i].file.name@ == name
    &&& forall|j: int| 0 <= j < i ==> #[trigger] files[j].file.name@ != name
}

/// The first entry of `files` for the file named `name`, when there is one.
pub open spec fn first_named(files: Seq<UnfinishFile>, name: Seq<char>) -> int {
    choose|i: int| is_first_named(files, name, i)
}

/// The first entry for a name is the one `first_named` picks.
pub proof fn lemma_first_named(files: Seq<UnfinishFile>, name: Seq<char>, i: int)
    requires
        is_first_named(files, name, i),
    ensures
        first_named(files, name) == i,
{
    let k = first_named(files, name);
    assert(is_first_named(files, name, k));
    if k < i {
        assert(files[k].file.name@ != name);
    } else if i < k {
        assert(files[i].file.name@ != name);
    }
}

/// The entries of a record that may not exist yet.
pub open spec fn entries_of(saved: Option<UnfinishFiles>) -> Seq<UnfinishFile> {
    match saved {
        Some(u) => u.files@,
        None => Seq::empty(),
    }
}

/// The name of the record file within a directory.
pub open spec fn record_file_name() -> Seq<char> {
    seq!['u', 'n', 'f', 'i', 'n', 'i', 's', 'h', '.', 'j', 's', 'o', 'n']
}

impl Json {
    /// The record kept in the directory `path`, in its file `unfinish.json`.
    pub fn new(path: String) -> (r: Json)
        ensures
            r.path@ == joined_path(path@, record_file_name()),
    {
        let name = "unfinish.json";
        proof {
            reveal_strlit("unfinish.json");
        }
        assert(name@ =~= record_file_name());
        Json { path: join_path(path.as_str(), name) }
    }

    /// The first entry of `unfinish_files` for the file named `name`.
    pub fn search(&self, unfinish_files: &UnfinishFiles, name: &str) -> (r: Option<usize>)
        ensures
            match r {
                Some(i) => is_first_named(unfinish_files.files@, name@, i as int),
                None => !has_named(unfinish_files.files@, name@),
            },
    {
        let wanted = name.to_owned();
        let files = &unfinish_files.files;
        assert(files@ == unfinish_files.files@);
        let mut i: usize = 0;
        while i < files.len()
            invariant
                i <= files.len(),
                wanted@ == name@,
                files@ == unfinish_files.files@,
                forall|j: int| 0 <= j < i ==> #[trigger] files@[j].file.name@ != name@,
            decreases files.len() - i,
        {
            let same = files[i].file.name.eq(&wanted);
            if same {
                assert(files@[i as int].file.name@ == name@);
                return Some(i);
            }
            i = i + 1;
        }
        None
    }

    /// The record to keep after saving the ranges `file_info` still misses:
    /// `saved` is the record kept so far (`None` when there is none), and
    /// the new entry comes last. The ranges move out of `file_info`.
    pub fn save_point(&self, saved: Option<UnfinishFiles>, file_info: &mut FileInfo) -> (r: UnfinishFiles)
        ensures
            r.files@ == entries_of(saved).push(UnfinishFile { file: *old(file_info) }),
            saved matches Some(u) ==> r.files@ == u.files@.push(UnfinishFile { file: *old(file_info) }),
            saved is None ==> r.files@ == seq![UnfinishFile { file: *old(file_info) }],
            final(file_info).name == old(file_info).name,
            final(file_info).size == old(file_info).size,
            final(file_info).target == old(file_info).target,
            final(file_info).break_point@ == Seq::<BreakPoint>::empty(),
    {
        let name = file_info.name.clone();
        let size = file_info.size;
        let target = file_info.target.clone();
        let mut break_point: Vec<BreakPoint> = Vec::new();
        std::mem::swap(&mut break_point, &mut file_info.break_point);
        let entry = UnfinishFile { file: FileInfo { name, size, target, break_point } };
        match saved {
            Some(mut unfinish_files) => {
                unfinish_files.files.push(entry);
                unfinish_files
            },
            None => {
                let mut files: Vec<UnfinishFile> = Vec::new();
                files.push(entry);
                UnfinishFiles { files }
            },
        }
    }

    /// The record to keep once the download of the file named `name` is
    /// over: `None` when `unfinish_files` holds a single entry (the record
    /// is then removed), else the record without the first entry for
    /// `name`.
    pub fn delete_earlier(&self, unfinish_files: UnfinishFiles, name: &str) -> (r: Option<UnfinishFiles>)
        requires
            unfinish_files.files@.len() == 1 || has_named(unfinish_files.files@, name@),
        ensures
            unfinish_files.files@.len() == 1 ==> r is None,
            unfinish_files.files@.len() != 1 ==> (r matches Some(u) && u.files@
                == unfinish_files.files@.remove(first_named(unfinish_files.files@, name@))),
    {
        if unfinish_files.files.len() == 1 {
            None
        } else {
            let mut unfinish_files = unfinish_files;
            let found = self.search(&unfinish_files, name);
            match found {
                Some(i) => {
                    let ghost before = unfinish_files.files@;
                    unfinish_files.files.remove(i);
                    assert(is_first_named(before, name@, i as int));
                    proof {
                        lemma_first_named(before, name@, i as int);
                    }
                    Some(unfinish_files)
                },
                None => {
                    assert(false);
                    None
                },
            }
        }
    }
}

impl Json {
    /// Deletes the entry at `id` from `unfinish_files`: gives that entry,
    /// and the record to keep, `None` when no entry is left (the record is
    /// then removed).
    pub fn delete_entry(&self, unfinish_files: UnfinishFiles, id: usize) -> (r: (UnfinishFile, Option<UnfinishFiles>))
        requires
            id < unfinish_files.files@.len(),
        ensures
            r.0 == unfinish_files.files@[id as int],
            r.1 is None <==> unfinish_files.files@.len() == 1,
            r.1 matches Some(u) ==> u.files@ == unfinish_files.files@.remove(id as int),
    {
        let mut unfinish_files = unfinish_files;
        let entry = unfinish_files.remove_entry(id);
        if unfinish_files.files.len() == 0 {
            (entry, None)
        } else {
            (entry, Some(unfinish_files))
        }
    }
}

impl UnfinishFiles {
    /// The first entry for the file written at `target` whose size is
    /// `size`: the download that a new one of the same file resumes.
    pub fn find_resumable(&self, target: &str, size: u64) -> (r: Option<usize>)
        ensures
            match r {
                Some(i) => {
                    &&& i < self.files@.len()
                    &&& self.files@[i as int].file.target@ == target@
                    &&& self.files@[i as int].file.size == size
                    &&& forall|j: int| 0 <= j < i ==> !(#[trigger] self.files@[j].file.target@ == target@
                        && self.files@[j].file.size == size)
                },
                None => forall|j: int| 0 <= j < self.files@.len() ==> !(#[trigger] self.files@[j].file.target@
                    == target@ && self.files@[j].file.size == size),
            },
    {
        let wanted = target.to_owned();
        let mut i: usize = 0;
        while i < self.files.len()
            invariant
                i <= self.files.len(),
                wanted@ == target@,
                forall|j: int| 0 <= j < i ==> !(#[trigger] self.files@[j].file.target@ == target@
                    && self.files@[j].file.size == size),
            decreases self.files.len() - i,
        {
            if self.files[i].file.target == wanted && self.files[i].file.size == size {
                return Some(i);
            }
            i = i + 1;
        }
        None
    }

    /// Takes the entry at `id` out of the record.
    pub fn remove_entry(&mut self, id: usize) -> (r: UnfinishFile)
        requires
            id < old(self).files@.len(),
        ensures
            r == old(self).files@[id as int],
            final(self).files@ == old(self).files@.remove(id as int),
    {
        self.files.remove(id)
    }
}

impl FileInfo {
    /// The entry that a resumed download of this file starts from: the same
    /// name, size and target, and no range missing yet.
    pub fn resume_record(&self) -> (r: FileInfo)
        ensures
            r.name == self.name,
            r.size == self.size,
            r.target == self.target,
            r.break_point@ == Seq::<BreakPoint>::empty(),
    {
        FileInfo {
            name: self.name.clone(),
            size: self.size,
            target: self.target.clone(),
            break_point: Vec::new(),
        }
    }
}

/// Saving an entry keeps every entry the record held, in its place and in
/// order, and adds the new one last; with no record yet, the new entry is
/// the only one.
pub proof fn lemma_save_keeps_entries(saved: Option<UnfinishFiles>, file_info: FileInfo)
    ensures
        ({
            let after = entries_of(saved).push(UnfinishFile { file: file_info });
            &&& saved matches Some(u) ==> {
                &&& after.len() == u.files@.len() + 1
                &&& forall|i: int| 0 <= i < u.files@.len() ==> #[trigger] after[i] == u.files@[i]
                &&& after[u.files@.len() as int] == UnfinishFile { file: file_info }
            }
            &&& saved is None ==> after == seq![UnfinishFile { file: file_info }]
        }),
{
    let after = entries_of(saved).push(UnfinishFile { file: file_info });
    if saved is None {
        assert(after =~= seq![UnfinishFile { file: file_info }]);
    }
}

/// Saving the ranges of a download and then looking its name up finds an
/// entry: the new one when the record had none for that name before, else
/// the one found before.
pub proof fn lemma_saved_is_found(saved: Seq<UnfinishFile>, file_info: FileInfo)
    ensures
        ({
            let after = saved.push(UnfinishFile { file: file_info });
            &&& has_named(after, file_info.name@)
            &&& !has_named(saved, file_info.name@) ==> is_first_named(after, file_info.name@, saved.len() as int)
            &&& forall|i: int| #[trigger] is_first_named(saved, file_info.name@, i) ==> is_first_named(after, file_info.name@, i)
        }),
{
    let after = saved.push(UnfinishFile { file: file_info });
    assert(after[saved.len() as int].file.name@ == file_info.name@);
    assert forall|i: int| #[trigger] is_first_named(saved, file_info.name@, i) implies is_first_named(after, file_info.name@, i) by {
        assert forall|j: int| 0 <= j < i implies #[trigger] after[j].file.name@ != file_info.name@ by {
            assert(after[j] == saved[j]);
        }
    }
    if !has_named(saved, file_info.name@) {
        assert forall|j: int| 0 <= j < saved.len() implies #[trigger] after[j].file.name@ != file_info.name@ by {
            assert(after[j] == saved[j]);
        }
    }
}

/// Deleting the entry of a download just saved, from a record that held
/// other entries but none of that name, gives the earlier record back.
pub proof fn lemma_delete_undoes_save(saved: Seq<UnfinishFile>, file_info: FileInfo, i: int)
    requires
        saved.len() > 0,
        !has_named(saved, file_info.name@),
        is_first_named(saved.push(UnfinishFile { file: file_info }), file_info.name@, i),
    ensures
        saved.push(UnfinishFile { file: file_info }).remove(i) == saved,
{
    lemma_saved_is_found(saved, file_info);
    let after = saved.push(UnfinishFile { file: file_info });
    if i < saved.len() {
        assert(after[i] == saved[i]);
        assert(false);
    }
    assert(after.remove(i) =~= saved);
}

} // verus!
