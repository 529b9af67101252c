//! A directory tree rebuilt from a recorded shell session, and the
//! smallest directory whose removal frees enough disk space.
//!
//! The tree lives in an arena: directories are created in session
//! order, so every child has a larger index than its parent, which is
//! what makes the recursive size computation terminate.

use vstd::prelude::*;
use vstd::string::StrSliceExecFns;
use vstd::string::StringExecFns;

use crate::parsing::digits_val;
use crate::parsing::is_digit;
use crate::parsing::parse_u64;

verus! {

/// The space the update needs.
pub const UPDATE_REQUIRED_SPACE: u64 = 30000000;

/// The size of the whole disk.
pub const DISK_SIZE: u64 = 70000000;

/// Whether two string slices hold the same characters.
pub fn str_eq(a: &str, b: &str) -> (r: bool)
    ensures
        r == (a@ == b@),
{
    let n = a.unicode_len();
    if n != b.unicode_len() {
        proof {
            assert(a@ != b@);
        }
        return false;
    }
    let mut i: usize = 0;
    while i < n
        invariant
            n == a@.len(),
            n == b@.len(),
            0 <= i <= n,
            forall|j: int| 0 <= j < i ==> a@[j] == b@[j],
        decreases n - i,
    {
        if a.get_char(i) != b.get_char(i) {
            proof {
                assert(a@ != b@);
            }
            return false;
        }
        i = i + 1;
    }
    proof {
        assert(a@ =~= b@);
    }
    true
}

/// Where a `cd` command goes.
pub enum DirectoryMove {
    Out,
    In(String),
    Root,
}

impl DirectoryMove {
    /// Read a `cd` destination word.
    pub fn from_str(word: &str) -> (r: DirectoryMove)
        requires
            word@.len() >= 1,
        ensures
            word@ =~= ".."@ ==> r is Out,
            word@ =~= "/"@ ==> r is Root,
            (!(word@ =~= ".."@) && !(word@ =~= "/"@)) ==> (r matches DirectoryMove::In(name) && name@
                == word@),
    {
        proof {
            reveal_strlit("..");
            reveal_strlit("/");
        }
        if str_eq(word, "..") {
            DirectoryMove::Out
        } else if str_eq(word, "/") {
            DirectoryMove::Root
        } else {
            DirectoryMove::In(String::from_str(word))
        }
    }
}

/// A command of the session.
pub enum Command {
    CD(DirectoryMove),
    LS,
}

/// A line shaped like "$ ls".
pub open spec fn is_ls_line(s: Seq<char>) -> bool {
    s.len() == 4 && s[0] == '$' && s[1] == ' ' && s[2] == 'l' && s[3] == 's'
}

/// A line shaped like "$ cd DEST".
pub open spec fn is_cd_line(s: Seq<char>) -> bool {
    s.len() >= 6 && s[0] == '$' && s[1] == ' ' && s[2] == 'c' && s[3] == 'd' && s[4] == ' '
}

impl Command {
    /// Read a command line.
    pub fn from_str(line_str: &str) -> (r: Command)
        requires
            is_ls_line(line_str@) || is_cd_line(line_str@),
        ensures
            is_ls_line(line_str@) ==> r is LS,
            is_cd_line(line_str@) ==> (r matches Command::CD(mv) && {
                let dest = line_str@.subrange(5, line_str@.len() as int);
                &&& (dest =~= ".."@ ==> mv is Out)
                &&& (dest =~= "/"@ ==> mv is Root)
                &&& ((!(dest =~= ".."@) && !(dest =~= "/"@)) ==> (mv matches DirectoryMove::In(name)
                    && name@ == dest))
            }),
    {
        let second = line_str.get_char(2);
        if second == 'l' {
            return Command::LS;
        }
        let len = line_str.unicode_len();
        let word = line_str.substring_char(5, len);
        Command::CD(DirectoryMove::from_str(word))
    }
}

/// A recorded file: its name and size.
pub struct FileContent {
    pub name: String,
    pub size: u64,
}

/// One listed entry: a directory name or a file.
pub enum Entry {
    DIRECTORY(String),
    FILE(FileContent),
}

/// A line shaped like "dir NAME".
pub open spec fn is_dir_line(s: Seq<char>) -> bool {
    s.len() >= 5 && s[0] == 'd' && s[1] == 'i' && s[2] == 'r' && s[3] == ' '
}

/// A line shaped like "SIZE NAME", split at position `q`.
pub open spec fn is_file_line_at(s: Seq<char>, q: int) -> bool {
    &&& 1 <= q < s.len() - 1
    &&& s[q] == ' '
    &&& (forall|k: int| 0 <= k < q ==> is_digit(#[trigger] s[k]))
    &&& digits_val(s.subrange(0, q)) <= u64::MAX
}

impl Entry {
    /// Read one listed entry.
    pub fn from_str(line_str: &str) -> (r: Entry)
        requires
            is_dir_line(line_str@) || exists|q: int| is_file_line_at(line_str@, q),
        ensures
            is_dir_line(line_str@) ==> (r matches Entry::DIRECTORY(name) && name@ == line_str@.subrange(
                4,
                line_str@.len() as int,
            )),
            !is_dir_line(line_str@) ==> (r matches Entry::FILE(file) && exists|q: int|
                {
                    &&& #[trigger] is_file_line_at(line_str@, q)
                    &&& file.size == digits_val(line_str@.subrange(0, q))
                    &&& file.name@ == line_str@.subrange(q + 1, line_str@.len() as int)
                }),
    {
        let len = line_str.unicode_len();
        let first = line_str.get_char(0);
        if first == 'd' {
            proof {
                if !is_dir_line(line_str@) {
                    let q = choose|q: int| is_file_line_at(line_str@, q);
                    assert(is_digit(line_str@[0]));
                }
            }
            let name = line_str.substring_char(4, len);
            return Entry::DIRECTORY(String::from_str(name));
        }
        let ghost q0 = choose|q: int| is_file_line_at(line_str@, q);
        let mut q: usize = 0;
        while q < len && line_str.get_char(q) != ' '
            invariant
                len == line_str@.len(),
                0 <= q <= len,
                forall|j: int| 0 <= j < q ==> line_str@[j] != ' ',
                is_file_line_at(line_str@, q0),
            decreases len - q,
        {
            q = q + 1;
        }
        proof {
            // the scan stops exactly at the recorded split position
            if q < q0 {
                assert(is_digit(line_str@[q as int]));
            }
            assert(q == q0);
        }
        let size = parse_u64(line_str, 0, q);
        let name = line_str.substring_char(q + 1, len);
        Entry::FILE(FileContent { name: String::from_str(name), size })
    }
}

/// One line of the session.
pub enum Line {
    COMMAND(Command),
    ENTRY(Entry),
}

impl Line {
    /// Read one session line: commands start with a dollar sign.
    pub fn from_str(line_str: &str) -> (r: Line)
        requires
            line_str@.len() >= 1,
            line_str@[0] == '$' ==> is_ls_line(line_str@) || is_cd_line(line_str@),
            line_str@[0] != '$' ==> is_dir_line(line_str@) || exists|q: int|
                is_file_line_at(line_str@, q),
        ensures
            line_str@[0] == '$' ==> r is COMMAND,
            line_str@[0] != '$' ==> r is ENTRY,
    {
        let first = line_str.get_char(0);
        if first == '$' {
            Line::COMMAND(Command::from_str(line_str))
        } else {
            proof {
                if is_dir_line(line_str@) {
                } else {
                    let q = choose|q: int| is_file_line_at(line_str@, q);
                    assert(is_digit(line_str@[0]));
                }
            }
            Line::ENTRY(Entry::from_str(line_str))
        }
    }
}

/// One directory of the tree: its children are indices into the arena,
/// and every child index is larger than its own.
pub struct Directory {
    pub name: String,
    pub parent: Option<usize>,
    pub sub_dirs: Vec<usize>,
    pub files: Vec<FileContent>,
}

impl Directory {
    /// A fresh, empty directory.
    pub fn new(name: String, parent: Option<usize>) -> (d: Directory)
        ensures
            d.name == name,
            d.parent == parent,
            d.sub_dirs@.len() == 0,
            d.files@.len() == 0,
    {
        Directory { name, parent, sub_dirs: Vec::new(), files: Vec::new() }
    }
}

/// The sum of the listed file sizes.
pub open spec fn files_total(files: Seq<FileContent>) -> int
    decreases files.len(),
{
    if files.len() == 0 {
        0
    } else {
        files_total(files.drop_last()) + files.last().size
    }
}

/// The total size of directory `i`: its own files plus its subtrees.
pub open spec fn dir_total(dirs: Seq<Directory>, i: int) -> int
    decreases dirs.len() - i, 1 + dirs[i].sub_dirs@.len() when 0 <= i < dirs.len()
{
    files_total(dirs[i].files@) + children_total(dirs, i, 0)
}

/// The summed sizes of the subtrees of directory `i`, from child `k` on.
pub open spec fn children_total(dirs: Seq<Directory>, i: int, k: int) -> int
    decreases dirs.len() - i, dirs[i].sub_dirs@.len() - k when 0 <= i < dirs.len()
{
    if k < 0 || k >= dirs[i].sub_dirs@.len() {
        0
    } else {
        let c = dirs[i].sub_dirs@[k] as int;
        (if i < c < dirs.len() {
            dir_total(dirs, c)
        } else {
            0
        }) + children_total(dirs, i, k + 1)
    }
}

/// The rebuilt tree and the directory the session stands in.
pub struct FileSystem {
    pub dirs: Vec<Directory>,
    pub cwd: usize,
}

impl FileSystem {
    /// The arena is a tree hanging off its first entry: parent and
    /// child links agree, and children come after their parents.
    pub open spec fn wf(self) -> bool {
        let dirs = self.dirs@;
        &&& dirs.len() >= 1
    &&& self.cwd < dirs.len()
    &&& dirs[0].parent is None
    &&& (forall|i: int|
        1 <= i < dirs.len() ==> ((#[trigger] dirs[i].parent) matches Some(p) && p < i))
    &&& (forall|i: int, k: int|
        0 <= i < dirs.len() && 0 <= k < dirs[i].sub_dirs@.len() ==> {
            let c = (#[trigger] dirs[i].sub_dirs@[k]) as int;
            i < c < dirs.len() && dirs[c].parent == Some(i as usize)
        })
    &&& (forall|i: int|
        1 <= i < dirs.len() ==> {
            let p = (#[trigger] dirs[i].parent)->0 as int;
            exists|k: int| 0 <= k < dirs[p].sub_dirs@.len() && (#[trigger] dirs[p].sub_dirs@[k])
                == i
        })
    }

    /// A tree holding only the root directory, which is current.
    pub fn new() -> (fs: FileSystem)
        ensures
            fs.wf(),
            fs.dirs@.len() == 1,
            fs.cwd == 0,
            fs.dirs@[0].files@.len() == 0,
            fs.dirs@[0].sub_dirs@.len() == 0,
    {
        let root = Directory::new(String::from_str("/"), None);
        let mut dirs: Vec<Directory> = Vec::new();
        dirs.push(root);
        FileSystem { dirs, cwd: 0 }
    }
}

/// Whether the directory has a child directory with this name.
pub open spec fn has_child_named(dirs: Seq<Directory>, i: int, name: Seq<char>) -> bool {
    exists|k: int|
        0 <= k < dirs[i].sub_dirs@.len() && dirs[(#[trigger] dirs[i].sub_dirs@[k]) as int].name@
            == name
}

/// Whether the directory holds a file with this name.
pub open spec fn has_file_named(dirs: Seq<Directory>, i: int, name: Seq<char>) -> bool {
    exists|k: int| 0 <= k < dirs[i].files@.len() && (#[trigger] dirs[i].files@[k]).name@ == name
}

/// Whether the directory has any entry with this name.
pub open spec fn has_entry_named(dirs: Seq<Directory>, i: int, name: Seq<char>) -> bool {
    has_child_named(dirs, i, name) || has_file_named(dirs, i, name)
}

impl FileSystem {
    /// Whether the current directory already has an entry of this name.
    pub fn check_duplicate(&self, name: &str) -> (r: bool)
        requires
            self.wf(),
        ensures
            r == has_entry_named(self.dirs@, self.cwd as int, name@),
    {
        let dir = &self.dirs[self.cwd];
        let nf = dir.files.len();
        let mut k: usize = 0;
        while k < nf
            invariant
                self.wf(),
                self.cwd < self.dirs@.len(),
                nf == self.dirs@[self.cwd as int].files@.len(),
                0 <= k <= nf,
                dir == &self.dirs[self.cwd as int],
                forall|j: int|
                    0 <= j < k ==> (#[trigger] self.dirs@[self.cwd as int].files@[j]).name@
                        != name@,
            decreases nf - k,
        {
            if str_eq(dir.files[k].name.as_str(), name) {
                proof {
                    assert(has_file_named(self.dirs@, self.cwd as int, name@));
                }
                return true;
            }
            k = k + 1;
        }
        let nd = dir.sub_dirs.len();
        let mut k: usize = 0;
        while k < nd
            invariant
                self.wf(),
                self.cwd < self.dirs@.len(),
                nd == self.dirs@[self.cwd as int].sub_dirs@.len(),
                0 <= k <= nd,
                dir == &self.dirs[self.cwd as int],
                forall|j: int|
                    0 <= j < k ==> self.dirs@[(#[trigger] self.dirs@[self.cwd as int].sub_dirs@[j])
                        as int].name@ != name@,
            decreases nd - k,
        {
            let child = dir.sub_dirs[k];
            if str_eq(self.dirs[child].name.as_str(), name) {
                proof {
                    assert(has_child_named(self.dirs@, self.cwd as int, name@));
                }
                return true;
            }
            k = k + 1;
        }
        proof {
            if has_file_named(self.dirs@, self.cwd as int, name@) {
                let j = choose|j: int|
                    0 <= j < self.dirs@[self.cwd as int].files@.len() && (
                    #[trigger] self.dirs@[self.cwd as int].files@[j]).name@ == name@;
                assert(false);
            }
            if has_child_named(self.dirs@, self.cwd as int, name@) {
                let j = choose|j: int|
                    0 <= j < self.dirs@[self.cwd as int].sub_dirs@.len() && self.dirs@[(
                    #[trigger] self.dirs@[self.cwd as int].sub_dirs@[j]) as int].name@ == name@;
                assert(false);
            }
        }
        false
    }

    /// Record a file in the current directory.
    pub fn add_file(&mut self, file: FileContent)
        requires
            old(self).wf(),
            !has_entry_named(old(self).dirs@, old(self).cwd as int, file.name@),
        ensures
            final(self).wf(),
            final(self).cwd == old(self).cwd,
            final(self).dirs@.len() == old(self).dirs@.len(),
            final(self).dirs@[old(self).cwd as int].files@ == old(self).dirs@[old(
                self,
            ).cwd as int].files@.push(file),
            final(self).dirs@[old(self).cwd as int].sub_dirs == old(self).dirs@[old(
                self,
            ).cwd as int].sub_dirs,
            final(self).dirs@[old(self).cwd as int].name == old(self).dirs@[old(
                self,
            ).cwd as int].name,
            final(self).dirs@[old(self).cwd as int].parent == old(self).dirs@[old(
                self,
            ).cwd as int].parent,
            forall|j: int|
                0 <= j < old(self).dirs@.len() && j != old(self).cwd ==> final(self).dirs@[j]
                    == old(self).dirs@[j],
    {
        let cwd = self.cwd;
        self.dirs[cwd].files.push(file);
        proof {
            let fin = self.dirs@;
            let o = old(self).dirs@;
            assert forall|i: int| 1 <= i < fin.len() implies ((#[trigger] fin[i].parent) matches
            Some(p) && p < i) by {
                assert(fin[i].parent == o[i].parent);
            }
            assert forall|i: int, k: int|
                0 <= i < fin.len() && 0 <= k < fin[i].sub_dirs@.len() implies {
                let c = (#[trigger] fin[i].sub_dirs@[k]) as int;
                i < c < fin.len() && fin[c].parent == Some(i as usize)
            } by {
                assert(fin[i].sub_dirs == o[i].sub_dirs);
                let c = fin[i].sub_dirs@[k] as int;
                assert(o[i].sub_dirs@[k] as int == c);
                assert(fin[c].parent == o[c].parent);
            }
            assert forall|i: int| 1 <= i < fin.len() implies {
                let p = (#[trigger] fin[i].parent)->0 as int;
                exists|k: int|
                    0 <= k < fin[p].sub_dirs@.len() && (#[trigger] fin[p].sub_dirs@[k]) == i
            } by {
                let p = o[i].parent->0 as int;
                assert(fin[i].parent == o[i].parent);
                let k = choose|k: int|
                    0 <= k < o[p].sub_dirs@.len() && (#[trigger] o[p].sub_dirs@[k]) == i;
                assert(fin[p].sub_dirs == o[p].sub_dirs);
                assert(fin[p].sub_dirs@[k] == i);
            }
        }
    }

    /// Record a child directory of the current directory.
    pub fn add_directory(&mut self, name: String)
        requires
            old(self).wf(),
            !has_entry_named(old(self).dirs@, old(self).cwd as int, name@),
        ensures
            final(self).wf(),
            final(self).cwd == old(self).cwd,
            final(self).dirs@.len() == old(self).dirs@.len() + 1,
            final(self).dirs@.last().name == name,
            final(self).dirs@.last().parent == Some(old(self).cwd),
            final(self).dirs@.last().sub_dirs@.len() == 0,
            final(self).dirs@.last().files@.len() == 0,
            final(self).dirs@[old(self).cwd as int].sub_dirs@ == old(self).dirs@[old(
                self,
            ).cwd as int].sub_dirs@.push(old(self).dirs@.len() as usize),
            final(self).dirs@[old(self).cwd as int].files == old(self).dirs@[old(
                self,
            ).cwd as int].files,
            forall|j: int|
                0 <= j < old(self).dirs@.len() && j != old(self).cwd ==> final(self).dirs@[j]
                    == old(self).dirs@[j],
    {
        let cwd = self.cwd;
        let new_idx = self.dirs.len();
        let directory = Directory::new(name, Some(cwd));
        self.dirs.push(directory);
        self.dirs[cwd].sub_dirs.push(new_idx);
        proof {
            let fin = self.dirs@;
            let n0 = old(self).dirs@.len() as int;
            assert forall|i: int| 1 <= i < fin.len() implies ((#[trigger] fin[i].parent) matches
            Some(p) && p < i) by {
                if i < n0 && i != old(self).cwd {
                    assert(fin[i] == old(self).dirs@[i]);
                }
            }
            assert forall|i: int, k: int|
                0 <= i < fin.len() && 0 <= k < fin[i].sub_dirs@.len() implies {
                let c = (#[trigger] fin[i].sub_dirs@[k]) as int;
                i < c < fin.len() && fin[c].parent == Some(i as usize)
            } by {
                if i != old(self).cwd && i < n0 {
                    assert(fin[i] == old(self).dirs@[i]);
                    let c = fin[i].sub_dirs@[k] as int;
                    assert(old(self).dirs@[i].sub_dirs@[k] == fin[i].sub_dirs@[k]);
                    assert(c < n0);
                    assert(fin[c].parent == old(self).dirs@[c].parent || c == old(self).cwd);
                }
                if i == old(self).cwd {
                    if k < fin[i].sub_dirs@.len() - 1 {
                        assert(fin[i].sub_dirs@[k] == old(self).dirs@[i].sub_dirs@[k]);
                    }
                }
            }
            assert forall|i: int| 1 <= i < fin.len() implies {
                let p = (#[trigger] fin[i].parent)->0 as int;
                exists|k: int|
                    0 <= k < fin[p].sub_dirs@.len() && (#[trigger] fin[p].sub_dirs@[k]) == i
            } by {
                if i < n0 {
                    let p = old(self).dirs@[i].parent->0 as int;
                    let k = choose|k: int|
                        0 <= k < old(self).dirs@[p].sub_dirs@.len() && (#[trigger] old(
                            self,
                        ).dirs@[p].sub_dirs@[k]) == i;
                    assert(fin[p].sub_dirs@[k] == i);
                } else {
                    let p = old(self).cwd as int;
                    assert(fin[p].sub_dirs@.last() == i);
                    assert(fin[p].sub_dirs@[fin[p].sub_dirs@.len() - 1] == i);
                }
            }
        }
    }

    /// Record one listed entry in the current directory.
    pub fn add_entry(&mut self, entry: Entry)
        requires
            old(self).wf(),
            entry matches Entry::FILE(file) ==> !has_entry_named(
                old(self).dirs@,
                old(self).cwd as int,
                file.name@,
            ),
            entry matches Entry::DIRECTORY(name) ==> !has_entry_named(
                old(self).dirs@,
                old(self).cwd as int,
                name@,
            ),
        ensures
            final(self).wf(),
            final(self).cwd == old(self).cwd,
    {
        match entry {
            Entry::FILE(file) => self.add_file(file),
            Entry::DIRECTORY(name) => self.add_directory(name),
        }
    }

    /// Step into the named child of the current directory.
    pub fn cd_in(&mut self, name: &str)
        requires
            old(self).wf(),
            has_child_named(old(self).dirs@, old(self).cwd as int, name@),
        ensures
            final(self).wf(),
            final(self).dirs == old(self).dirs,
            final(self).dirs@[final(self).cwd as int].name@ == name@,
            final(self).dirs@[final(self).cwd as int].parent == Some(old(self).cwd),
    {
        let cwd = self.cwd;
        let nd = self.dirs[cwd].sub_dirs.len();
        let mut k: usize = 0;
        while k < nd
            invariant
                self.wf(),
                self.cwd == old(self).cwd,
                cwd == self.cwd,
                self.dirs == old(self).dirs,
                nd == self.dirs@[self.cwd as int].sub_dirs@.len(),
                0 <= k <= nd,
                has_child_named(self.dirs@, self.cwd as int, name@),
                forall|j: int|
                    0 <= j < k ==> self.dirs@[(#[trigger] self.dirs@[self.cwd as int].sub_dirs@[j])
                        as int].name@ != name@,
            decreases nd - k,
        {
            let child = self.dirs[cwd].sub_dirs[k];
            proof {
                assert(self.dirs@[cwd as int].sub_dirs@[k as int] == child);
                assert((cwd as int) < child < self.dirs@.len());
            }
            if str_eq(self.dirs[child].name.as_str(), name) {
                self.cwd = child;
                return ;
            }
            k = k + 1;
        }
        proof {
            let j = choose|j: int|
                0 <= j < self.dirs@[self.cwd as int].sub_dirs@.len() && self.dirs@[(
                #[trigger] self.dirs@[self.cwd as int].sub_dirs@[j]) as int].name@ == name@;
            assert(false);
        }
    }

    /// Step back to the root.
    pub fn cd_root(&mut self)
        requires
            old(self).wf(),
        ensures
            final(self).wf(),
            final(self).dirs == old(self).dirs,
            final(self).cwd == 0,
    {
        self.cwd = 0;
    }

    /// Step out to the parent of the current directory.
    pub fn cd_out(&mut self)
        requires
            old(self).wf(),
            old(self).cwd != 0,
        ensures
            final(self).wf(),
            final(self).dirs == old(self).dirs,
            Some(final(self).cwd) == old(self).dirs@[old(self).cwd as int].parent,
    {
        let cwd = self.cwd;
        match self.dirs[cwd].parent {
            Some(parent) => {
                self.cwd = parent;
            },
            None => {
                proof {
                    assert(false);
                }
            },
        }
    }

    /// Follow one `cd` destination.
    pub fn process_cd(&mut self, directory_target: &DirectoryMove)
        requires
            old(self).wf(),
            directory_target matches DirectoryMove::In(name) ==> has_child_named(
                old(self).dirs@,
                old(self).cwd as int,
                name@,
            ),
            directory_target is Out ==> old(self).cwd != 0,
        ensures
            final(self).wf(),
            final(self).dirs == old(self).dirs,
    {
        match directory_target {
            DirectoryMove::In(name) => self.cd_in(name.as_str()),
            DirectoryMove::Out => self.cd_out(),
            DirectoryMove::Root => self.cd_root(),
        }
    }

    /// Follow one command; a listing itself changes nothing.
    pub fn process_command(&mut self, command: &Command)
        requires
            old(self).wf(),
            command matches Command::CD(mv) ==> ((mv matches DirectoryMove::In(name)
                ==> has_child_named(old(self).dirs@, old(self).cwd as int, name@)) && (mv is Out
                ==> old(self).cwd != 0)),
        ensures
            final(self).wf(),
            final(self).dirs == old(self).dirs,
    {
        match command {
            Command::LS => {},
            Command::CD(directory_target) => self.process_cd(directory_target),
        }
    }

    /// Feed one session line into the tree.
    pub fn process_line(&mut self, line: Line)
        requires
            old(self).wf(),
            line matches Line::ENTRY(entry) ==> ((entry matches Entry::FILE(file)
                ==> !has_entry_named(old(self).dirs@, old(self).cwd as int, file.name@)) && (
            entry matches Entry::DIRECTORY(name) ==> !has_entry_named(
                old(self).dirs@,
                old(self).cwd as int,
                name@,
            ))),
            line matches Line::COMMAND(command) ==> (command matches Command::CD(mv) ==> ((
            mv matches DirectoryMove::In(name) ==> has_child_named(
                old(self).dirs@,
                old(self).cwd as int,
                name@,
            )) && (mv is Out ==> old(self).cwd != 0))),
        ensures
            final(self).wf(),
    {
        match line {
            Line::ENTRY(entry) => self.add_entry(entry),
            Line::COMMAND(command) => self.process_command(&command),
        }
    }
}

/// File size sums never go negative.
proof fn lemma_files_total_nonneg(files: Seq<FileContent>)
    ensures
        files_total(files) >= 0,
    decreases files.len(),
{
    if files.len() > 0 {
        lemma_files_total_nonneg(files.drop_last());
    }
}

/// A prefix of the file list weighs no more than the whole list.
proof fn lemma_files_total_prefix(files: Seq<FileContent>, i: int)
    requires
        0 <= i <= files.len(),
    ensures
        files_total(files.subrange(0, i)) <= files_total(files),
    decreases files.len() - i,
{
    if i == files.len() {
        assert(files.subrange(0, i) =~= files);
    } else {
        assert(files.subrange(0, i + 1).drop_last() =~= files.subrange(0, i));
        lemma_files_total_prefix(files, i + 1);
    }
}

/// Directory totals never go negative.
proof fn lemma_dir_total_nonneg(dirs: Seq<Directory>, i: int)
    requires
        0 <= i < dirs.len(),
    ensures
        dir_total(dirs, i) >= 0,
    decreases dirs.len() - i, 1 + dirs[i].sub_dirs@.len(),
{
    lemma_files_total_nonneg(dirs[i].files@);
    lemma_children_total_nonneg(dirs, i, 0);
}

/// Summed subtree sizes never go negative.
proof fn lemma_children_total_nonneg(dirs: Seq<Directory>, i: int, k: int)
    requires
        0 <= i < dirs.len(),
    ensures
        children_total(dirs, i, k) >= 0,
    decreases dirs.len() - i, dirs[i].sub_dirs@.len() - k,
{
    if 0 <= k < dirs[i].sub_dirs@.len() {
        let c = dirs[i].sub_dirs@[k] as int;
        if i < c < dirs.len() {
            lemma_dir_total_nonneg(dirs, c);
        }
        lemma_children_total_nonneg(dirs, i, k + 1);
    }
}

/// Each subtree of a directory weighs no more than all its subtrees
/// from an earlier child on.
proof fn lemma_children_total_ge_member(dirs: Seq<Directory>, i: int, k: int, t: int)
    requires
        0 <= i < dirs.len(),
        0 <= k <= t < dirs[i].sub_dirs@.len(),
        i < dirs[i].sub_dirs@[t] < dirs.len(),
    ensures
        children_total(dirs, i, k) >= dir_total(dirs, dirs[i].sub_dirs@[t] as int),
    decreases t - k,
{
    let c = dirs[i].sub_dirs@[k] as int;
    if k == t {
        lemma_children_total_nonneg(dirs, i, k + 1);
    } else {
        lemma_children_total_ge_member(dirs, i, k + 1, t);
        if i < c < dirs.len() {
            lemma_dir_total_nonneg(dirs, c);
        }
    }
}

/// No directory weighs more than the root: walking up the parent chain
/// only grows the total.
proof fn lemma_total_le_root(fs: FileSystem, i: int)
    requires
        fs.wf(),
        0 <= i < fs.dirs@.len(),
    ensures
        dir_total(fs.dirs@, i) <= dir_total(fs.dirs@, 0),
    decreases i,
{
    let dirs = fs.dirs@;
    if i > 0 {
        let p = dirs[i].parent->0 as int;
        let k = choose|k: int|
            0 <= k < dirs[p].sub_dirs@.len() && (#[trigger] dirs[p].sub_dirs@[k]) == i;
        lemma_children_total_ge_member(dirs, p, 0, k);
        lemma_files_total_nonneg(dirs[p].files@);
        lemma_total_le_root(fs, p);
    }
}

impl FileSystem {
    /// The total size of the subtree rooted at a directory, computed
    /// file by file and child by child.
    pub fn compute_size(&self, idx: usize) -> (r: u64)
        requires
            self.wf(),
            idx < self.dirs@.len(),
            dir_total(self.dirs@, idx as int) <= u64::MAX,
        ensures
            r == dir_total(self.dirs@, idx as int),
        decreases self.dirs@.len() - idx,
    {
        let dirs_len = self.dirs.len();
        let nf = self.dirs[idx].files.len();
        let ghost files = self.dirs@[idx as int].files@;
        let mut total: u64 = 0;
        let mut k: usize = 0;
        proof {
            assert(files.subrange(0, 0) =~= Seq::<FileContent>::empty());
            lemma_children_total_nonneg(self.dirs@, idx as int, 0);
        }
        while k < nf
            invariant
                self.wf(),
                idx < self.dirs@.len(),
                files == self.dirs@[idx as int].files@,
                nf == files.len(),
                0 <= k <= nf,
                dir_total(self.dirs@, idx as int) <= u64::MAX,
                total == files_total(files.subrange(0, k as int)),
            decreases nf - k,
        {
            proof {
                assert(files.subrange(0, k + 1).drop_last() =~= files.subrange(0, k as int));
                assert(files.subrange(0, k + 1).last() == files[k as int]);
                lemma_files_total_prefix(files, k + 1);
                lemma_children_total_nonneg(self.dirs@, idx as int, 0);
            }
            total = total + self.dirs[idx].files[k].size;
            k = k + 1;
        }
        proof {
            assert(files.subrange(0, nf as int) =~= files);
        }
        let nd = self.dirs[idx].sub_dirs.len();
        let mut k: usize = 0;
        while k < nd
            invariant
                self.wf(),
                idx < self.dirs@.len(),
                dirs_len == self.dirs@.len(),
                nd == self.dirs@[idx as int].sub_dirs@.len(),
                0 <= k <= nd,
                dir_total(self.dirs@, idx as int) <= u64::MAX,
                total + children_total(self.dirs@, idx as int, k as int) == dir_total(
                    self.dirs@,
                    idx as int,
                ),
                total >= 0,
            decreases nd - k,
        {
            let child = self.dirs[idx].sub_dirs[k];
            proof {
                assert(self.dirs@[idx as int].sub_dirs@[k as int] == child);
                assert((idx as int) < child < self.dirs@.len());
                lemma_children_total_nonneg(self.dirs@, idx as int, k + 1);
                lemma_dir_total_nonneg(self.dirs@, child as int);
            }
            let child_size = self.compute_size(child);
            total = total + child_size;
            k = k + 1;
        }
        total
    }

    /// The total size of the subtree rooted at a directory.
    pub fn get_size(&self, idx: usize) -> (r: u64)
        requires
            self.wf(),
            idx < self.dirs@.len(),
            dir_total(self.dirs@, idx as int) <= u64::MAX,
        ensures
            r == dir_total(self.dirs@, idx as int),
    {
        self.compute_size(idx)
    }

    /// The smallest directory whose removal leaves enough free space
    /// for the update.
    pub fn get_smallest_fitting_directory(&self) -> (r: usize)
        requires
            self.wf(),
            dir_total(self.dirs@, 0) <= DISK_SIZE,
            DISK_SIZE - dir_total(self.dirs@, 0) <= UPDATE_REQUIRED_SPACE,
            exists|j: int|
                0 <= j < self.dirs@.len() && #[trigger] dir_total(self.dirs@, j)
                    >= UPDATE_REQUIRED_SPACE - (DISK_SIZE - dir_total(self.dirs@, 0)),
        ensures
            r < self.dirs@.len(),
            dir_total(self.dirs@, r as int) >= UPDATE_REQUIRED_SPACE - (DISK_SIZE - dir_total(
                self.dirs@,
                0,
            )),
            forall|j: int|
                0 <= j < self.dirs@.len() && #[trigger] dir_total(self.dirs@, j)
                    >= UPDATE_REQUIRED_SPACE - (DISK_SIZE - dir_total(self.dirs@, 0))
                    ==> dir_total(self.dirs@, r as int) <= dir_total(self.dirs@, j),
    {
        proof {
            lemma_dir_total_nonneg(self.dirs@, 0);
        }
        let file_system_size = self.compute_size(0);
        let available_space = DISK_SIZE - file_system_size;
        let missing_space = UPDATE_REQUIRED_SPACE - available_space;
        let n = self.dirs.len();
        let mut best: usize = 0;
        let mut best_size: u64 = 0;
        let mut found = false;
        let mut j: usize = 0;
        while j < n
            invariant
                self.wf(),
                n == self.dirs@.len(),
                0 <= j <= n,
                dir_total(self.dirs@, 0) <= DISK_SIZE,
                missing_space == UPDATE_REQUIRED_SPACE - (DISK_SIZE - dir_total(self.dirs@, 0)),
                found ==> best < n && best_size == dir_total(self.dirs@, best as int) && best_size
                    >= missing_space,
                forall|t: int|
                    0 <= t < j && #[trigger] dir_total(self.dirs@, t) >= missing_space ==> found
                        && best_size <= dir_total(self.dirs@, t),
            decreases n - j,
        {
            proof {
                lemma_total_le_root(*self, j as int);
                lemma_dir_total_nonneg(self.dirs@, j as int);
            }
            let size = self.compute_size(j);
            if size >= missing_space && (!found || size < best_size) {
                best = j;
                best_size = size;
                found = true;
            }
            j = j + 1;
        }
        proof {
            let w = choose|t: int|
                0 <= t < self.dirs@.len() && #[trigger] dir_total(self.dirs@, t)
                    >= UPDATE_REQUIRED_SPACE - (DISK_SIZE - dir_total(self.dirs@, 0));
            assert(found);
        }
        best
    }
}

} // verus!
