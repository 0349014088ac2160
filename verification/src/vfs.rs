use vstd::prelude::*;
use vstd::pervasive::VecAdditionalExecFns;
use vstd::string::StringExecFns;

verus! {

/// The name of a file or directory.
#[derive(Clone)]
pub struct NameType {
    pub name: String,
}

impl NameType {
    pub fn new(s: String) -> (r: NameType)
        ensures
            r.name@ == s@,
    {
        NameType { name: s }
    }

    pub fn as_str(&self) -> (r: &str)
        ensures
            r@ == self.name@,
    {
        self.name.as_str()
    }
}

/// A text file held in memory.
pub struct TextFile {
    pub name: NameType,
    pub data: String,
}

impl TextFile {
    /// An empty file; the name must not be empty.
    pub fn new(name: NameType) -> (r: Result<TextFile, String>)
        ensures
            r is Ok <==> name.name@.len() > 0,
            r matches Ok(f) ==> f.name.name@ == name.name@ && f.data@.len() == 0,
    {
        if name.name.as_str().is_empty() {
            Err(String::from_str("Name for Textfile cannot be empty"))
        } else {
            Ok(TextFile { name, data: String::new() })
        }
    }

    /// A file with initial contents; the name must not be empty.
    pub fn with_data(name: NameType, data: &str) -> (r: Result<TextFile, String>)
        ensures
            r is Ok <==> name.name@.len() > 0,
            r matches Ok(f) ==> f.name.name@ == name.name@ && f.data@ == data@,
    {
        if name.name.as_str().is_empty() {
            Err(String::from_str("Name for Textfile cannot be empty"))
        } else {
            Ok(TextFile { name, data: data.to_owned() })
        }
    }

    pub fn get_name(&self) -> (r: String)
        ensures
            r@ == self.name.name@,
    {
        self.name.name.clone()
    }

    pub fn read(&self) -> (r: String)
        ensures
            r@ == self.data@,
    {
        self.data.clone()
    }

    /// Appends text to the file.
    pub fn append(&mut self, data: &str)
        ensures
            final(self).data@ == old(self).data@ + data@,
            final(self).name == old(self).name,
    {
        self.data.append(data);
    }
}

/// True when the directory has a subdirectory with this name.
pub open spec fn dir_has_subdir(fs: VirtualFilesystem, dir: int, name: Seq<char>) -> bool {
    exists|k: int|
        0 <= k < fs.dirs@[dir].subdirs@.len() && fs.dirs@[#[trigger] fs.dirs@[dir].subdirs@[k] as int].name@
            == name
}

/// True when the directory holds a file with this name.
pub open spec fn dir_has_file(fs: VirtualFilesystem, dir: int, name: Seq<char>) -> bool {
    exists|k: int|
        0 <= k < fs.dirs@[dir].files@.len() && (#[trigger] fs.dirs@[dir].files@[k]).name.name@
            == name
}

/// One directory: its name, its parent (none for the root), its files, and
/// the indices of its subdirectories in the filesystem's directory table.
pub struct Directory {
    pub name: String,
    pub parent: Option<usize>,
    pub files: Vec<TextFile>,
    pub subdirs: Vec<usize>,
}

/// An in-memory filesystem: a table of directories linked by index, the
/// root at the first slot, and a current directory for relative paths.
pub struct VirtualFilesystem {
    pub dirs: Vec<Directory>,
    pub cwd: usize,
}

impl VirtualFilesystem {
    /// Every directory link stays inside the table, the root exists, and
    /// the current directory is valid.
    pub open spec fn wf(self) -> bool {
        &&& self.dirs@.len() >= 1
        &&& self.cwd < self.dirs@.len()
        &&& forall|d: int, k: int|
            0 <= d < self.dirs@.len() && 0 <= k < self.dirs@[d].subdirs@.len()
                ==> #[trigger] self.dirs@[d].subdirs@[k] < self.dirs@.len()
        &&& forall|d: int|
            0 <= d < self.dirs@.len() ==> match (#[trigger] self.dirs@[d]).parent {
                Some(p) => p < self.dirs@.len(),
                None => true,
            }
    }

    /// A filesystem holding only an empty root directory.
    pub fn new() -> (r: VirtualFilesystem)
        ensures
            r.wf(),
            r.dirs@.len() == 1,
            r.cwd == 0,
            r.dirs@[0].name@ == "root"@,
            r.dirs@[0].parent is None,
            r.dirs@[0].files@.len() == 0,
            r.dirs@[0].subdirs@.len() == 0,
    {
        let mut dirs: Vec<Directory> = Vec::new();
        dirs.push(
            Directory {
                name: String::from_str("root"),
                parent: None,
                files: Vec::new(),
                subdirs: Vec::new(),
            },
        );
        VirtualFilesystem { dirs, cwd: 0 }
    }

    /// The index of the root directory.
    pub fn root(&self) -> (r: usize)
        ensures
            r == 0,
    {
        0
    }

    /// The name of a directory.
    pub fn get_name(&self, dir: usize) -> (r: String)
        requires
            self.wf(),
            dir < self.dirs@.len(),
        ensures
            r@ == self.dirs@[dir as int].name@,
    {
        self.dirs[dir].name.clone()
    }

    /// The parent of a directory; the root has none.
    pub fn get_parent_directory(&self, dir: usize) -> (r: Option<usize>)
        requires
            self.wf(),
            dir < self.dirs@.len(),
        ensures
            r == self.dirs@[dir as int].parent,
            r matches Some(p) ==> p < self.dirs@.len(),
    {
        self.dirs[dir].parent
    }

    /// Whether `name` is already used by a file or a subdirectory of `dir`.
    fn name_taken(&self, dir: usize, name: &String) -> (r: Option<String>)
        requires
            self.wf(),
            dir < self.dirs@.len(),
        ensures
            r is None <==> (!dir_has_subdir(*self, dir as int, name@) && !dir_has_file(
                *self,
                dir as int,
                name@,
            )),
    {
        let d = &self.dirs[dir];
        let mut k: usize = 0;
        while k < d.subdirs.len()
            invariant
                0 <= k <= d.subdirs@.len(),
                self.wf(),
                dir < self.dirs@.len(),
                d == &self.dirs@[dir as int],
                forall|w: int|
                    0 <= w < k ==> self.dirs@[#[trigger] d.subdirs@[w] as int].name@ != name@,
            decreases d.subdirs@.len() - k,
        {
            let child = d.subdirs[k];
            if self.dirs[child].name == *name {
                proof {
                    assert(dir_has_subdir(*self, dir as int, name@)) by {
                        assert(self.dirs@[self.dirs@[dir as int].subdirs@[k as int] as int].name@
                            == name@);
                    }
                }
                return Some(
                    String::from_str("Directory ").concat(name.as_str()).concat(" already exists"),
                );
            }
            k = k + 1;
        }
        let mut f: usize = 0;
        while f < d.files.len()
            invariant
                0 <= f <= d.files@.len(),
                self.wf(),
                dir < self.dirs@.len(),
                d == &self.dirs@[dir as int],
                !dir_has_subdir(*self, dir as int, name@),
                forall|w: int|
                    0 <= w < f ==> (#[trigger] d.files@[w]).name.name@ != name@,
            decreases d.files@.len() - f,
        {
            if d.files[f].name.name == *name {
                proof {
                    assert(dir_has_file(*self, dir as int, name@)) by {
                        assert(self.dirs@[dir as int].files@[f as int].name.name@ == name@);
                    }
                }
                return Some(
                    String::from_str("File ").concat(name.as_str()).concat(" already exists"),
                );
            }
            f = f + 1;
        }
        proof {
            if dir_has_subdir(*self, dir as int, name@) {
                let w = choose|w: int|
                    0 <= w < self.dirs@[dir as int].subdirs@.len() && self.dirs@[#[trigger] self.dirs@[dir as int].subdirs@[w] as int].name@
                        == name@;
            }
            if dir_has_file(*self, dir as int, name@) {
                let w = choose|w: int|
                    0 <= w < self.dirs@[dir as int].files@.len()
                        && (#[trigger] self.dirs@[dir as int].files@[w]).name.name@ == name@;
            }
        }
        None
    }

    /// Adds an empty file to a directory; fails when the name is taken or
    /// empty.
    pub fn add_file(&mut self, dir: usize, name: String) -> (r: Result<(), String>)
        requires
            old(self).wf(),
            dir < old(self).dirs@.len(),
        ensures
            final(self).wf(),
            final(self).dirs@.len() == old(self).dirs@.len(),
            final(self).cwd == old(self).cwd,
            r is Ok <==> (name@.len() > 0 && !dir_has_subdir(*old(self), dir as int, name@)
                && !dir_has_file(*old(self), dir as int, name@)),
            r is Err ==> *final(self) == *old(self),
            // on success the directory gains one empty file of this name
            r is Ok ==> {
                &&& final(self).dirs@[dir as int].files@.len() == old(self).dirs@[dir as int].files@.len() + 1
                &&& final(self).dirs@[dir as int].files@.last().name.name@ == name@
                &&& final(self).dirs@[dir as int].files@.last().data@.len() == 0
                &&& forall|k: int|
                    0 <= k < old(self).dirs@[dir as int].files@.len() ==> #[trigger] final(self).dirs@[dir as int].files@[k] == old(self).dirs@[dir as int].files@[k]
                &&& final(self).dirs@[dir as int].subdirs == old(self).dirs@[dir as int].subdirs
                &&& forall|k: int|
                    0 <= k < old(self).dirs@.len() && k != dir ==> #[trigger] final(self).dirs@[k]
                        == old(self).dirs@[k]
            },
    {
        if let Some(e) = self.name_taken(dir, &name) {
            return Err(e);
        }
        let file = match TextFile::new(NameType::new(name)) {
            Err(e) => {
                return Err(e);
            },
            Ok(f) => f,
        };
        let ghost dirs0 = self.dirs@;
        let mut d = Directory { name: String::new(), parent: None, files: Vec::new(), subdirs: Vec::new() };
        self.dirs.set_and_swap(dir, &mut d);
        d.files.push(file);
        self.dirs.set(dir, d);
        proof {
            assert forall|dd: int, k: int|
                0 <= dd < self.dirs@.len() && 0 <= k < self.dirs@[dd].subdirs@.len()
                    implies #[trigger] self.dirs@[dd].subdirs@[k] < self.dirs@.len() by {
                if dd != dir {
                    assert(self.dirs@[dd] == dirs0[dd]);
                } else {
                    assert(self.dirs@[dd].subdirs@ == dirs0[dd].subdirs@);
                }
            }
            assert forall|dd: int|
                0 <= dd < self.dirs@.len() implies match (#[trigger] self.dirs@[dd]).parent {
                Some(p) => p < self.dirs@.len(),
                None => true,
            } by {
                if dd != dir {
                    assert(self.dirs@[dd] == dirs0[dd]);
                } else {
                    assert(self.dirs@[dd].parent == dirs0[dd].parent);
                }
            }
        }
        Ok(())
    }

    /// Adds a file that already has contents; fails when the name is taken.
    pub fn add_complete_file(&mut self, dir: usize, file: TextFile) -> (r: Result<(), String>)
        requires
            old(self).wf(),
            dir < old(self).dirs@.len(),
        ensures
            final(self).wf(),
            final(self).dirs@.len() == old(self).dirs@.len(),
            final(self).cwd == old(self).cwd,
    {
        if let Some(e) = self.name_taken(dir, &file.name.name) {
            return Err(e);
        }
        let ghost dirs0 = self.dirs@;
        let mut d = Directory { name: String::new(), parent: None, files: Vec::new(), subdirs: Vec::new() };
        self.dirs.set_and_swap(dir, &mut d);
        d.files.push(file);
        self.dirs.set(dir, d);
        proof {
            lemma_links_preserved(dirs0, self.dirs@, dir as int);
        }
        Ok(())
    }

    /// Adds a subdirectory and returns its index; fails when the name is
    /// taken.
    pub fn add_dir(&mut self, parent: usize, name: String) -> (r: Result<usize, String>)
        requires
            old(self).wf(),
            parent < old(self).dirs@.len(),
        ensures
            final(self).wf(),
            final(self).cwd == old(self).cwd,
            final(self).dirs@.len() >= old(self).dirs@.len(),
            r matches Ok(i) ==> i < final(self).dirs@.len() && final(self).dirs@[i as int].name@
                == name@ && final(self).dirs@[i as int].parent == Some(parent),
    {
        if let Some(e) = self.name_taken(parent, &name) {
            return Err(e);
        }
        let ghost dirs0 = self.dirs@;
        let new_idx = self.dirs.len();
        self.dirs.push(
            Directory { name, parent: Some(parent), files: Vec::new(), subdirs: Vec::new() },
        );
        let ghost dirs1 = self.dirs@;
        let mut d = Directory { name: String::new(), parent: None, files: Vec::new(), subdirs: Vec::new() };
        self.dirs.set_and_swap(parent, &mut d);
        d.subdirs.push(new_idx);
        self.dirs.set(parent, d);
        proof {
            assert forall|dd: int, k: int|
                0 <= dd < self.dirs@.len() && 0 <= k < self.dirs@[dd].subdirs@.len()
                    implies #[trigger] self.dirs@[dd].subdirs@[k] < self.dirs@.len() by {
                if dd != parent {
                    assert(self.dirs@[dd] == dirs1[dd]);
                    if dd < dirs0.len() {
                        assert(dirs1[dd] == dirs0[dd]);
                    }
                } else {
                    if k < self.dirs@[dd].subdirs@.len() - 1 {
                        assert(self.dirs@[dd].subdirs@[k] == dirs0[dd].subdirs@[k]);
                    } else {
                        assert(self.dirs@[dd].subdirs@[k] == new_idx);
                    }
                }
            }
            assert forall|dd: int|
                0 <= dd < self.dirs@.len() implies match (#[trigger] self.dirs@[dd]).parent {
                Some(p) => p < self.dirs@.len(),
                None => true,
            } by {
                if dd != parent && dd < dirs0.len() {
                    assert(self.dirs@[dd] == dirs0[dd]);
                } else if dd == parent {
                    assert(self.dirs@[dd].parent == dirs0[dd].parent);
                }
            }
        }
        Ok(new_idx)
    }

    /// Removes the file or subdirectory link with this name from `dir`;
    /// fails when neither exists. A removed subdirectory's slot stays in
    /// the table but is no longer reachable.
    pub fn remove(&mut self, dir: usize, name: &String) -> (r: Result<(), String>)
        requires
            old(self).wf(),
            dir < old(self).dirs@.len(),
        ensures
            final(self).wf(),
            final(self).dirs@.len() == old(self).dirs@.len(),
            final(self).cwd == old(self).cwd,
    {
        let ghost dirs0 = self.dirs@;
        let mut d = Directory {
            name: String::new(),
            parent: None,
            files: Vec::new(),
            subdirs: Vec::new(),
        };
        self.dirs.set_and_swap(dir, &mut d);
        let ghost d0 = d;
        let mut f: usize = 0;
        let mut removed = false;
        while f < d.files.len() && !removed
            invariant
                0 <= f <= d.files@.len(),
                d.subdirs == d0.subdirs,
                d.parent == d0.parent,
            decreases d.files@.len() - f,
        {
            if d.files[f].name.name == *name {
                d.files.remove(f);
                removed = true;
            } else {
                f = f + 1;
            }
        }
        if !removed {
            let ghost subs0 = d.subdirs@;
            proof {
                assert forall|j: int| 0 <= j < subs0.len() implies #[trigger] subs0[j]
                    < dirs0.len() by {
                    assert(subs0[j] == dirs0[dir as int].subdirs@[j]);
                }
            }
            let mut k: usize = 0;
            while k < d.subdirs.len() && !removed
                invariant
                    0 <= k <= d.subdirs@.len(),
                    self.dirs@.len() == dirs0.len(),
                    d.parent == d0.parent,
                    !removed ==> d.subdirs@ == subs0,
                    removed ==> exists|i: int|
                        0 <= i < subs0.len() && d.subdirs@ == subs0.remove(i),
                    forall|j: int| 0 <= j < subs0.len() ==> #[trigger] subs0[j] < dirs0.len(),
                decreases d.subdirs@.len() - k,
            {
                let child = d.subdirs[k];
                if self.dirs[child].name == *name {
                    d.subdirs.remove(k);
                    removed = true;
                    proof {
                        assert(d.subdirs@ == subs0.remove(k as int));
                    }
                } else {
                    k = k + 1;
                }
            }
        }
        let ghost dsubs = d.subdirs@;
        let ghost dpar = d.parent;
        self.dirs.set(dir, d);
        proof {
            let subs0 = dirs0[dir as int].subdirs@;
            assert forall|dd: int, k: int|
                0 <= dd < self.dirs@.len() && 0 <= k < self.dirs@[dd].subdirs@.len()
                    implies #[trigger] self.dirs@[dd].subdirs@[k] < self.dirs@.len() by {
                if dd != dir {
                    assert(self.dirs@[dd] == dirs0[dd]);
                } else {
                    if dsubs == subs0 {
                        assert(self.dirs@[dd].subdirs@[k] == subs0[k]);
                    } else {
                        let i = choose|i: int| 0 <= i < subs0.len() && dsubs == subs0.remove(i);
                        if k < i {
                            assert(dsubs[k] == subs0[k]);
                        } else {
                            assert(dsubs[k] == subs0[k + 1]);
                        }
                    }
                }
            }
            assert forall|dd: int|
                0 <= dd < self.dirs@.len() implies match (#[trigger] self.dirs@[dd]).parent {
                Some(p) => p < self.dirs@.len(),
                None => true,
            } by {
                if dd != dir {
                    assert(self.dirs@[dd] == dirs0[dd]);
                } else {
                    assert(self.dirs@[dd].parent == dirs0[dd].parent);
                }
            }
        }
        if removed {
            Ok(())
        } else {
            Err(String::from_str("File or directory not found: ").concat(name.as_str()))
        }
    }

    /// The index of the named subdirectory, if one exists.
    pub fn get_directory(&self, dir: usize, name: &String) -> (r: Option<usize>)
        requires
            self.wf(),
            dir < self.dirs@.len(),
        ensures
            r matches Some(i) ==> i < self.dirs@.len(),
    {
        let d = &self.dirs[dir];
        let mut k: usize = 0;
        while k < d.subdirs.len()
            invariant
                0 <= k <= d.subdirs@.len(),
                self.wf(),
                dir < self.dirs@.len(),
                d == &self.dirs@[dir as int],
            decreases d.subdirs@.len() - k,
        {
            let child = d.subdirs[k];
            if self.dirs[child].name == *name {
                return Some(child);
            }
            k = k + 1;
        }
        None
    }

    /// The contents of the named file, if one exists in `dir`.
    pub fn read_file(&self, dir: usize, name: &String) -> (r: Option<String>)
        requires
            self.wf(),
            dir < self.dirs@.len(),
    {
        let d = &self.dirs[dir];
        let mut f: usize = 0;
        while f < d.files.len()
            invariant
                0 <= f <= d.files@.len(),
                d == &self.dirs@[dir as int],
            decreases d.files@.len() - f,
        {
            if d.files[f].name.name == *name {
                return Some(d.files[f].read());
            }
            f = f + 1;
        }
        None
    }

    /// Appends text to the named file in `dir`; reports whether it exists.
    pub fn append_to_file(&mut self, dir: usize, name: &String, data: &str) -> (r: bool)
        requires
            old(self).wf(),
            dir < old(self).dirs@.len(),
        ensures
            final(self).wf(),
            final(self).dirs@.len() == old(self).dirs@.len(),
            final(self).cwd == old(self).cwd,
    {
        let ghost dirs0 = self.dirs@;
        let mut d = Directory { name: String::new(), parent: None, files: Vec::new(), subdirs: Vec::new() };
        self.dirs.set_and_swap(dir, &mut d);
        let ghost d0 = d;
        let mut f: usize = 0;
        let mut found = false;
        while f < d.files.len() && !found
            invariant
                0 <= f <= d.files@.len(),
                d.subdirs == d0.subdirs,
                d.parent == d0.parent,
            decreases d.files@.len() - f, (if found {
                0int
            } else {
                1int
            }),
        {
            if d.files[f].name.name == *name {
                let mut tf = TextFile { name: NameType::new(String::new()), data: String::new() };
                d.files.set_and_swap(f, &mut tf);
                tf.append(data);
                d.files.set(f, tf);
                found = true;
            } else {
                f = f + 1;
            }
        }
        self.dirs.set(dir, d);
        proof {
            lemma_links_preserved(dirs0, self.dirs@, dir as int);
        }
        found
    }

    /// The directory's listing: subdirectory names and file names, each
    /// sorted, as one line.
    pub fn get_contents_string(&self, dir: usize) -> (r: String)
        requires
            self.wf(),
            dir < self.dirs@.len(),
    {
        let d = &self.dirs[dir];
        let mut dir_names: Vec<String> = Vec::new();
        let mut k: usize = 0;
        while k < d.subdirs.len()
            invariant
                0 <= k <= d.subdirs@.len(),
                self.wf(),
                dir < self.dirs@.len(),
                d == &self.dirs@[dir as int],
            decreases d.subdirs@.len() - k,
        {
            let child = d.subdirs[k];
            dir_names.push(self.dirs[child].name.clone());
            k = k + 1;
        }
        let mut file_names: Vec<String> = Vec::new();
        let mut f: usize = 0;
        while f < d.files.len()
            invariant
                0 <= f <= d.files@.len(),
                d == &self.dirs@[dir as int],
            decreases d.files@.len() - f,
        {
            file_names.push(d.files[f].get_name());
            f = f + 1;
        }
        let dir_names = sort_names(dir_names);
        let file_names = sort_names(file_names);
        String::from_str("Directories: [").concat(join_names(&dir_names).as_str()).concat(
            "], Files: [",
        ).concat(join_names(&file_names).as_str()).concat("]")
    }
}

/// Directory links survive an edit of one slot that keeps its subdirectory
/// links and its parent.
proof fn lemma_links_preserved(dirs0: Seq<Directory>, dirs1: Seq<Directory>, dir: int)
    requires
        dirs0.len() == dirs1.len(),
        0 <= dir < dirs0.len(),
        forall|d: int, k: int|
            0 <= d < dirs0.len() && 0 <= k < dirs0[d].subdirs@.len()
                ==> #[trigger] dirs0[d].subdirs@[k] < dirs0.len(),
        forall|d: int|
            0 <= d < dirs0.len() ==> match (#[trigger] dirs0[d]).parent {
                Some(p) => p < dirs0.len(),
                None => true,
            },
        forall|d: int| 0 <= d < dirs1.len() && d != dir ==> #[trigger] dirs1[d] == dirs0[d],
        dirs1[dir].subdirs@ == dirs0[dir].subdirs@,
        dirs1[dir].parent == dirs0[dir].parent,
    ensures
        forall|d: int, k: int|
            0 <= d < dirs1.len() && 0 <= k < dirs1[d].subdirs@.len()
                ==> #[trigger] dirs1[d].subdirs@[k] < dirs1.len(),
        forall|d: int|
            0 <= d < dirs1.len() ==> match (#[trigger] dirs1[d]).parent {
                Some(p) => p < dirs1.len(),
                None => true,
            },
{
    assert forall|d: int, k: int|
        0 <= d < dirs1.len() && 0 <= k < dirs1[d].subdirs@.len() implies #[trigger] dirs1[d].subdirs@[k]
        < dirs1.len() by {
        if d != dir {
            assert(dirs1[d] == dirs0[d]);
        } else {
            assert(dirs1[d].subdirs@[k] == dirs0[dir].subdirs@[k]);
        }
    }
    assert forall|d: int|
        0 <= d < dirs1.len() implies match (#[trigger] dirs1[d]).parent {
        Some(p) => p < dirs1.len(),
        None => true,
    } by {
        if d != dir {
            assert(dirs1[d] == dirs0[d]);
        }
    }
}

/// Sorts names bytewise, smallest first, by insertion.
pub fn sort_names(names: Vec<String>) -> (r: Vec<String>)
    ensures
        r@.len() == names@.len(),
{
    let mut names = names;
    let ghost total = names@.len();
    let mut out: Vec<String> = Vec::new();
    while names.len() > 0
        invariant
            out@.len() + names@.len() == total,
        decreases names@.len(),
    {
        let mut min_at: usize = 0;
        let mut j: usize = 1;
        while j < names.len()
            invariant
                0 < names@.len(),
                min_at < names@.len(),
                1 <= j <= names@.len(),
            decreases names@.len() - j,
        {
            if str_lt(&names[j], &names[min_at]) {
                min_at = j;
            }
            j = j + 1;
        }
        let name = names.remove(min_at);
        out.push(name);
    }
    out
}

/// Whether `a` orders strictly before `b`, comparing byte by byte.
pub fn str_lt(a: &String, b: &String) -> (r: bool)
{
    let ab = a.as_str().as_bytes();
    let bb = b.as_str().as_bytes();
    let mut i: usize = 0;
    while i < ab.len() && i < bb.len()
        invariant
            0 <= i,
        decreases ab@.len() - i,
    {
        if ab[i] < bb[i] {
            return true;
        }
        if ab[i] > bb[i] {
            return false;
        }
        i = i + 1;
    }
    ab.len() < bb.len()
}

/// Joins names with a comma and a space.
pub fn join_names(names: &Vec<String>) -> (r: String)
{
    let mut out = String::new();
    let mut i: usize = 0;
    while i < names.len()
        invariant
            0 <= i <= names@.len(),
        decreases names@.len() - i,
    {
        if i > 0 {
            out.append(", ");
        }
        out.append(names[i].as_str());
        i = i + 1;
    }
    out
}

} // verus!

verus! {

use crate::cli::CommandType;

/// Splits a textual path into its segment strings, separating on the
/// slash; a leading slash yields an empty first segment.
pub fn split_path(path: &String) -> (r: Vec<String>)
{
    let chars = crate::codec::str_chars(path.as_str());
    let mut segments: Vec<String> = Vec::new();
    let mut current: Vec<char> = Vec::new();
    let mut i: usize = 0;
    while i < chars.len()
        invariant
            0 <= i <= chars@.len(),
        decreases chars@.len() - i,
    {
        let c = chars[i];
        if c == '/' {
            segments.push(crate::codec::string_from_chars(&current));
            current = Vec::new();
        } else {
            current.push(c);
        }
        i = i + 1;
    }
    segments.push(crate::codec::string_from_chars(&current));
    segments
}

impl VirtualFilesystem {
    /// Walks a path from `from`: an empty leading segment restarts at the
    /// root, a dot stays, a double dot climbs to the parent, and any other
    /// segment descends into the named subdirectory; a missing directory
    /// ends the walk.
    pub fn resolve(&self, from: usize, path: &String) -> (r: Option<usize>)
        requires
            self.wf(),
            from < self.dirs@.len(),
        ensures
            r matches Some(d) ==> d < self.dirs@.len(),
    {
        let segments = split_path(path);
        let mut cur = from;
        let mut i: usize = 0;
        while i < segments.len()
            invariant
                0 <= i <= segments@.len(),
                cur < self.dirs@.len(),
                self.wf(),
            decreases segments@.len() - i,
        {
            let seg = &segments[i];
            if seg.as_str().is_empty() {
                if i == 0 {
                    cur = self.root();
                }
            } else if *seg == String::from_str(".") {
            } else if *seg == String::from_str("..") {
                match self.get_parent_directory(cur) {
                    Some(p) => {
                        cur = p;
                    },
                    None => {},
                }
            } else {
                match self.get_directory(cur, seg) {
                    Some(d) => {
                        cur = d;
                    },
                    None => {
                        return None;
                    },
                }
            }
            i = i + 1;
        }
        Some(cur)
    }

    /// Like `resolve`, but walks only the directory part and returns it
    /// with the final segment, the name the command acts on.
    fn resolve_parent(&self, from: usize, path: &String) -> (r: Option<(usize, String)>)
        requires
            self.wf(),
            from < self.dirs@.len(),
        ensures
            r matches Some(p) ==> p.0 < self.dirs@.len(),
    {
        let mut segments = split_path(path);
        let leaf = match segments.pop() {
            Some(l) => l,
            None => {
                return None;
            },
        };
        if leaf.as_str().is_empty() {
            return None;
        }
        let mut cur = from;
        let mut i: usize = 0;
        while i < segments.len()
            invariant
                0 <= i <= segments@.len(),
                cur < self.dirs@.len(),
                self.wf(),
            decreases segments@.len() - i,
        {
            let seg = &segments[i];
            if seg.as_str().is_empty() {
                if i == 0 {
                    cur = self.root();
                }
            } else if *seg == String::from_str(".") {
            } else if *seg == String::from_str("..") {
                match self.get_parent_directory(cur) {
                    Some(p) => {
                        cur = p;
                    },
                    None => {},
                }
            } else {
                match self.get_directory(cur, seg) {
                    Some(d) => {
                        cur = d;
                    },
                    None => {
                        return None;
                    },
                }
            }
            i = i + 1;
        }
        Some((cur, leaf))
    }

    /// Runs one filesystem command against the tree and returns its
    /// printable output; commands of the other front ends, and the ones
    /// that need the host filesystem, are refused.
    pub fn handle_command(&mut self, cmd: CommandType) -> (r: Result<String, String>)
        requires
            old(self).wf(),
        ensures
            final(self).wf(),
    {
        match cmd {
            CommandType::Cd(path) => {
                match self.resolve(self.cwd, &path) {
                    Some(d) => {
                        self.cwd = d;
                        Ok(String::new())
                    },
                    None => Err(
                        String::from_str("cd: ").concat(path.as_str()).concat(
                            ": No such directory",
                        ),
                    ),
                }
            },
            CommandType::Ls(paths) => {
                let mut output = String::new();
                if paths.len() == 0 {
                    output = self.get_contents_string(self.cwd);
                    return Ok(output);
                }
                let mut i: usize = 0;
                while i < paths.len()
                    invariant
                        0 <= i <= paths@.len(),
                        self.wf(),
                        self.cwd < self.dirs@.len(),
                    decreases paths@.len() - i,
                {
                    match self.resolve(self.cwd, &paths[i]) {
                        Some(d) => {
                            output = output.concat(self.get_contents_string(d).as_str()).concat(
                                "\n",
                            );
                        },
                        None => {
                            return Err(
                                String::from_str("ls: cannot access '").concat(
                                    paths[i].as_str(),
                                ).concat("': no such directory"),
                            );
                        },
                    }
                    i = i + 1;
                }
                Ok(output)
            },
            CommandType::Touch(paths) => {
                let mut i: usize = 0;
                while i < paths.len()
                    invariant
                        0 <= i <= paths@.len(),
                        self.wf(),
                        self.cwd < self.dirs@.len(),
                    decreases paths@.len() - i,
                {
                    match self.resolve_parent(self.cwd, &paths[i]) {
                        Some((dir, leaf)) => {
                            if let Err(e) = self.add_file(dir, leaf) {
                                return Err(String::from_str("touch: ").concat(e.as_str()));
                            }
                        },
                        None => {
                            return Err(
                                String::from_str("touch: cannot access '").concat(
                                    paths[i].as_str(),
                                ).concat("': no such directory"),
                            );
                        },
                    }
                    i = i + 1;
                }
                Ok(String::new())
            },
            CommandType::Rm(paths) => {
                let mut i: usize = 0;
                while i < paths.len()
                    invariant
                        0 <= i <= paths@.len(),
                        self.wf(),
                        self.cwd < self.dirs@.len(),
                    decreases paths@.len() - i,
                {
                    match self.resolve_parent(self.cwd, &paths[i]) {
                        Some((dir, leaf)) => {
                            if let Err(e) = self.remove(dir, &leaf) {
                                return Err(String::from_str("rm: ").concat(e.as_str()));
                            }
                        },
                        None => {
                            return Err(
                                String::from_str("rm: cannot access '").concat(
                                    paths[i].as_str(),
                                ).concat("': no such directory"),
                            );
                        },
                    }
                    i = i + 1;
                }
                Ok(String::new())
            },
            CommandType::Mkdir(paths) => {
                let mut i: usize = 0;
                while i < paths.len()
                    invariant
                        0 <= i <= paths@.len(),
                        self.wf(),
                        self.cwd < self.dirs@.len(),
                    decreases paths@.len() - i,
                {
                    let segments = split_path(&paths[i]);
                    let mut cur = self.cwd;
                    let mut j: usize = 0;
                    while j < segments.len()
                        invariant
                            0 <= j <= segments@.len(),
                            cur < self.dirs@.len(),
                            self.wf(),
                            self.cwd < self.dirs@.len(),
                        decreases segments@.len() - j,
                    {
                        let seg = &segments[j];
                        if !seg.as_str().is_empty() && *seg != String::from_str(".") && *seg
                            != String::from_str("..") {
                            match self.add_dir(cur, seg.clone()) {
                                Ok(d) => {
                                    cur = d;
                                },
                                Err(e) => {
                                    return Err(String::from_str("mkdir: ").concat(e.as_str()));
                                },
                            }
                        }
                        j = j + 1;
                    }
                    i = i + 1;
                }
                Ok(String::new())
            },
            CommandType::Read(paths) => {
                let mut output = String::new();
                let mut i: usize = 0;
                while i < paths.len()
                    invariant
                        0 <= i <= paths@.len(),
                        self.wf(),
                        self.cwd < self.dirs@.len(),
                    decreases paths@.len() - i,
                {
                    match self.resolve_parent(self.cwd, &paths[i]) {
                        Some((dir, leaf)) => {
                            match self.read_file(dir, &leaf) {
                                Some(text) => {
                                    output = output.concat(text.as_str()).concat("\n");
                                },
                                None => {
                                    return Err(
                                        String::from_str("read: file ").concat(
                                            leaf.as_str(),
                                        ).concat(" not found"),
                                    );
                                },
                            }
                        },
                        None => {
                            return Err(
                                String::from_str("read: cannot access '").concat(
                                    paths[i].as_str(),
                                ).concat("': no such directory"),
                            );
                        },
                    }
                    i = i + 1;
                }
                Ok(output)
            },
            CommandType::Write(path, data) => {
                match self.resolve_parent(self.cwd, &path) {
                    Some((dir, leaf)) => {
                        if self.append_to_file(dir, &leaf, data.as_str()) {
                            Ok(String::new())
                        } else {
                            Err(
                                String::from_str("write: file ").concat(leaf.as_str()).concat(
                                    " not found",
                                ),
                            )
                        }
                    },
                    None => Err(
                        String::from_str("write: cannot access '").concat(path.as_str()).concat(
                            "': no such directory",
                        ),
                    ),
                }
            },
            CommandType::Save(_) | CommandType::Load(_) => Err(
                String::from_str(
                    "saving and loading need the host filesystem and are done by the shell",
                ),
            ),
            _ => Err(
                String::from_str("Command type not supported by virtual filesystem module"),
            ),
        }
    }
}

} // verus!
