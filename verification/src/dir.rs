use vstd::prelude::*;

use crate::cache::{
    find_matches, key_matches, lemma_filter_push, views, FileCache,
};
use crate::data::{parse_type, CurrentDirError, EntryV, FileData, FileType, FolderData};
use crate::sort::{sort_entries, sorted};

verus! {

/// The characters of each path component.
pub open spec fn part_views(s: Seq<String>) -> Seq<Seq<char>> {
    s.map_values(|p: String| p@)
}

/// The rendered form of a component sequence: one slash before each
/// component; empty for no components.
pub open spec fn joined(parts: Seq<Seq<char>>) -> Seq<char>
    decreases parts.len(),
{
    if parts.len() == 0 {
        Seq::empty()
    } else {
        seq!['/'] + parts[0] + joined(parts.drop_first())
    }
}

/// The absolute path a component sequence stands for; the empty sequence
/// is the filesystem root.
pub open spec fn path_of(parts: Seq<Seq<char>>) -> Seq<char> {
    if parts.len() == 0 {
        seq!['/']
    } else {
        joined(parts)
    }
}

proof fn lemma_joined_push(parts: Seq<Seq<char>>, p: Seq<char>)
    ensures
        joined(parts.push(p)) == joined(parts) + seq!['/'] + p,
    decreases parts.len(),
{
    if parts.len() == 0 {
        assert(parts.push(p)[0] == p);
        assert(parts.push(p).drop_first() =~= Seq::<Seq<char>>::empty());
        assert(joined(parts.push(p)) == seq!['/'] + p + joined(Seq::<Seq<char>>::empty()));
        assert(joined(Seq::<Seq<char>>::empty()) == Seq::<char>::empty());
        assert(joined(parts) == Seq::<char>::empty());
        assert(joined(parts.push(p)) =~= joined(parts) + seq!['/'] + p);
    } else {
        let tail = parts.drop_first();
        assert(parts.push(p)[0] == parts[0]);
        assert(parts.push(p).drop_first() =~= tail.push(p));
        lemma_joined_push(tail, p);
        assert(joined(parts.push(p)) == seq!['/'] + parts[0] + joined(tail.push(p)));
        assert(joined(parts) == seq!['/'] + parts[0] + joined(tail));
        assert(seq!['/'] + parts[0] + (joined(tail) + seq!['/'] + p) =~= (seq!['/'] + parts[0]
            + joined(tail)) + seq!['/'] + p);
    }
}

/// Whether a lookup result of the given type is kept under the search's
/// type switches.
pub open spec fn type_enabled(t: FileType, files: bool, folders: bool, links: bool) -> bool {
    match t {
        FileType::File => files,
        FileType::Folder => folders,
        FileType::Link => links,
    }
}

/// One filesystem change the directory asks its caller to carry out.
#[derive(Debug)]
pub enum FsAction {
    MakeFolder { path: String },
    MakeFile { path: String },
    RemoveFolder { path: String },
    RemoveFile { path: String },
}

/// The mathematical value of the directory state: the current path's
/// components, and the index its cache holds.
pub struct DirV {
    pub parts: Seq<Seq<char>>,
    pub index: Seq<EntryV>,
}

/// The current working directory, with the name cache it searches
/// through. The path is kept as its components under the root.
#[derive(Debug)]
pub struct CurrentDir {
    parts: Vec<String>,
    file_cache: FileCache,
}

impl View for CurrentDir {
    type V = DirV;

    closed spec fn view(&self) -> DirV {
        DirV { parts: part_views(self.parts@), index: self.file_cache@ }
    }
}

impl CurrentDir {
    /// A directory at the given components, owning the given cache.
    pub fn new(parts: Vec<String>, file_cache: FileCache) -> (r: CurrentDir)
        ensures
            r@.parts == part_views(parts@),
            r@.index == file_cache@,
    {
        CurrentDir { parts, file_cache }
    }

    /// The rendered current path without the root fallback: empty for the
    /// root itself.
    fn render_joined(&self) -> (r: String)
        ensures
            r@ == joined(self@.parts),
    {
        let ghost pv = part_views(self.parts@);
        let mut s = String::new();
        let n = self.parts.len();
        let mut i: usize = 0;
        while i < n
            invariant
                i <= n,
                n == self.parts@.len(),
                pv == part_views(self.parts@),
                s@ == joined(pv.take(i as int)),
            decreases n - i,
        {
            proof {
                reveal_strlit("/");
                assert("/"@ =~= seq!['/']);
                assert(pv.take(i + 1) =~= pv.take(i as int).push(pv[i as int]));
                lemma_joined_push(pv.take(i as int), pv[i as int]);
            }
            s.append("/");
            s.append(self.parts[i].as_str());
            proof {
                assert(s@ =~= joined(pv.take(i + 1)));
            }
            i = i + 1;
        }
        proof {
            assert(pv.take(n as int) =~= pv);
        }
        s
    }

    /// The absolute path of the current directory.
    pub fn path_string(&self) -> (r: String)
        ensures
            r@ == path_of(self@.parts),
    {
        if self.parts.len() == 0 {
            proof {
                reveal_strlit("/");
                assert("/"@ =~= seq!['/']);
            }
            "/".to_owned()
        } else {
            self.render_joined()
        }
    }

    /// The absolute path of an entry named `filename` inside the current
    /// directory.
    fn child_path_string(&self, filename: &str) -> (r: String)
        ensures
            r@ == path_of(self@.parts.push(filename@)),
    {
        proof {
            reveal_strlit("/");
            assert("/"@ =~= seq!['/']);
            lemma_joined_push(self@.parts, filename@);
        }
        let mut s = self.render_joined();
        s.append("/");
        s.append(filename);
        proof {
            assert(s@ =~= joined(self@.parts.push(filename@)));
        }
        s
    }

    /// Steps up to the parent directory and returns the path that was
    /// left; at the root there is no parent and the state is unchanged.
    pub fn move_to_parent_dir(&mut self) -> (r: Result<String, CurrentDirError>)
        ensures
            old(self)@.parts.len() == 0 ==> (r matches Err(e) && e is AlreadyAtRoot && final(self)@
                == old(self)@),
            old(self)@.parts.len() > 0 ==> (r matches Ok(s) && s@ == path_of(old(self)@.parts)
                && final(self)@.parts == old(self)@.parts.drop_last() && final(self)@.index == old(self)@.index),
    {
        if self.parts.len() == 0 {
            return Err(CurrentDirError::AlreadyAtRoot);
        }
        let old_path = self.path_string();
        self.parts.pop();
        proof {
            assert(part_views(self.parts@) =~= old(self)@.parts.drop_last());
        }
        Ok(old_path)
    }

    /// Moves to the given parsed absolute path — or, with `to_parent` set,
    /// to its parent. A path that is no folder can only be left through
    /// its parent; and the root has no parent to step up to, though the
    /// move itself still happens.
    pub fn move_to_dir(&mut self, parts: Vec<String>, is_dir: bool, to_parent: bool) -> (r: Result<
        (),
        CurrentDirError,
    >)
        ensures
            !is_dir && !to_parent ==> (r matches Err(e) && e is CannotMoveToFile && final(self)@
                == old(self)@),
            (is_dir || to_parent) && !to_parent ==> r is Ok && final(self)@.parts == part_views(
                parts@,
            ) && final(self)@.index == old(self)@.index,
            (is_dir || to_parent) && to_parent && part_views(parts@).len() == 0 ==> (r matches Err(e)
                && e is AlreadyAtRoot && final(self)@.parts == part_views(parts@) && final(self)@.index == old(self)@.index),
            (is_dir || to_parent) && to_parent && part_views(parts@).len() > 0 ==> r is Ok && final(self)@.parts == part_views(parts@).drop_last() && final(self)@.index == old(self)@.index,
    {
        if !is_dir && !to_parent {
            let shown = render_parts(&parts);
            return Err(CurrentDirError::CannotMoveToFile { file_name: shown });
        }
        self.parts = parts;
        if to_parent {
            match self.move_to_parent_dir() {
                Ok(_) => Ok(()),
                Err(e) => Err(e),
            }
        } else {
            Ok(())
        }
    }

    /// The name of the current directory: its last component, or the root
    /// itself.
    pub fn get_current_folder_name(&self) -> (r: Result<String, CurrentDirError>)
        ensures
            r matches Ok(s) && s@ == (if self@.parts.len() == 0 {
                seq!['/']
            } else {
                self@.parts.last()
            }),
    {
        if self.parts.len() == 0 {
            proof {
                reveal_strlit("/");
                assert("/"@ =~= seq!['/']);
            }
            Ok("/".to_owned())
        } else {
            Ok(self.parts[self.parts.len() - 1].clone())
        }
    }

    /// Whether the current directory is the filesystem root.
    pub fn current_dir_is_root(&self) -> (r: bool)
        ensures
            r == (self@.parts.len() == 0),
    {
        self.parts.len() == 0
    }

    /// Assembles the listing of the current folder from the entries read
    /// beside it: the folder's name, those entries, and the root flag.
    pub fn get_folder_data(&self, siblings: Vec<FileData>) -> (r: Result<
        FolderData,
        CurrentDirError,
    >)
        ensures
            r matches Ok(fd) && fd.name@ == (if self@.parts.len() == 0 {
                seq!['/']
            } else {
                self@.parts.last()
            }) && fd.files == siblings && fd.is_at_root == (self@.parts.len() == 0),
    {
        let name = match self.get_current_folder_name() {
            Ok(n) => n,
            Err(e) => {
                return Err(e);
            },
        };
        let is_at_root = self.current_dir_is_root();
        Ok(FolderData { name, files: siblings, is_at_root })
    }

    /// Searches the name cache: a two-stage match on the name (see the
    /// cache's lookup), the hits narrowed to the enabled entry types and
    /// sorted into display order. "Not found" is an error here, reported
    /// exactly when no cached entry shares the name's lookup key.
    pub fn search_files(
        &self,
        name: String,
        search_files: bool,
        search_folders: bool,
        search_links: bool,
        exact: bool,
    ) -> (r: Result<Vec<FileData>, CurrentDirError>)
        ensures
            match r {
                Err(e) => e is SearchedFileNotFound && key_matches(self@.index, name@).len() == 0,
                Ok(v) => key_matches(self@.index, name@).len() > 0 && sorted(views(v@)) && views(
                    v@,
                ).to_multiset() == find_matches(self@.index, name@, exact).filter(
                    |e: EntryV| type_enabled(e.filetype, search_files, search_folders, search_links),
                ).to_multiset(),
            },
    {
        let ghost flag_pred = |e: EntryV|
            type_enabled(e.filetype, search_files, search_folders, search_links);
        let data = match self.file_cache.find_file(name.as_str(), exact) {
            Some(d) => d,
            None => {
                return Err(CurrentDirError::SearchedFileNotFound);
            },
        };
        let ghost dv = views(data@);
        let mut kept: Vec<FileData> = Vec::new();
        let n = data.len();
        let mut i: usize = 0;
        while i < n
            invariant
                i <= n,
                n == data@.len(),
                dv == views(data@),
                flag_pred == (|e: EntryV|
                    type_enabled(e.filetype, search_files, search_folders, search_links)),
                views(kept@) == dv.take(i as int).filter(flag_pred),
            decreases n - i,
        {
            let entry = &data[i];
            proof {
                assert(dv.take(i + 1) =~= dv.take(i as int).push(dv[i as int]));
                lemma_filter_push(dv.take(i as int), dv[i as int], flag_pred);
                assert(entry@ == dv[i as int]);
            }
            let keep = match entry.filetype() {
                FileType::File => search_files,
                FileType::Folder => search_folders,
                FileType::Link => search_links,
            };
            if keep {
                kept.push(entry.clone());
                proof {
                    assert(views(kept@) =~= dv.take(i + 1).filter(flag_pred));
                }
            }
            i = i + 1;
        }
        proof {
            assert(dv.take(n as int) =~= dv);
        }
        sort_entries(&mut kept);
        Ok(kept)
    }

    /// Decides a create command: an unknown type name is a serialization
    /// error, links cannot be created, and a file or folder becomes the
    /// change to make at the name's path inside the current directory.
    pub fn plan_create_file(&self, filename: &str, filetype: &str) -> (r: Result<
        FsAction,
        CurrentDirError,
    >)
        ensures
            match parse_type(filetype@) {
                None => r matches Err(e) && e is CannotSerialize,
                Some(FileType::Link) => r matches Err(e) && e is CannotCreateFile,
                Some(FileType::Folder) => r matches Ok(a) && a matches FsAction::MakeFolder {
                    path,
                } && path@ == path_of(self@.parts.push(filename@)),
                Some(FileType::File) => r matches Ok(a) && a matches FsAction::MakeFile { path }
                    && path@ == path_of(self@.parts.push(filename@)),
            },
    {
        let parsed = match FileType::parse(filetype) {
            Ok(t) => t,
            Err(e) => {
                return Err(e);
            },
        };
        match parsed {
            FileType::Link => Err(CurrentDirError::CannotCreateFile {
                reason: "Links aren't supported yet!".to_owned(),
            }),
            FileType::Folder => Ok(FsAction::MakeFolder { path: self.child_path_string(filename) }),
            FileType::File => Ok(FsAction::MakeFile { path: self.child_path_string(filename) }),
        }
    }

    /// Decides a delete command: an unknown type name is a serialization
    /// error; a folder is removed as a folder, anything else as a file.
    pub fn plan_delete_file(&self, filename: &str, filetype: &str) -> (r: Result<
        FsAction,
        CurrentDirError,
    >)
        ensures
            match parse_type(filetype@) {
                None => r matches Err(e) && e is CannotSerialize,
                Some(FileType::Folder) => r matches Ok(a) && a matches FsAction::RemoveFolder {
                    path,
                } && path@ == path_of(self@.parts.push(filename@)),
                Some(t) => r matches Ok(a) && a matches FsAction::RemoveFile { path } && path@
                    == path_of(self@.parts.push(filename@)),
            },
    {
        let parsed = match FileType::parse(filetype) {
            Ok(t) => t,
            Err(e) => {
                return Err(e);
            },
        };
        match parsed {
            FileType::Folder => Ok(FsAction::RemoveFolder {
                path: self.child_path_string(filename),
            }),
            _ => Ok(FsAction::RemoveFile { path: self.child_path_string(filename) }),
        }
    }

    /// A view of the cache, for the refresh driver.
    pub fn cache(&self) -> (r: &FileCache)
        ensures
            r@ == self@.index,
    {
        &self.file_cache
    }

    /// Installs a freshly scanned generation of entries in the cache; the
    /// current path is untouched.
    pub fn refresh_cache(&mut self, entries: Vec<FileData>)
        ensures
            final(self)@.index == views(entries@),
            final(self)@.parts == old(self)@.parts,
    {
        self.file_cache.refresh(entries);
    }
}

/// The rendered absolute path of a parsed component sequence.
pub fn render_parts(parts: &Vec<String>) -> (r: String)
    ensures
        r@ == path_of(part_views(parts@)),
{
    let ghost pv = part_views(parts@);
    if parts.len() == 0 {
        proof {
            reveal_strlit("/");
            assert("/"@ =~= seq!['/']);
        }
        return "/".to_owned();
    }
    let mut s = String::new();
    let n = parts.len();
    let mut i: usize = 0;
    while i < n
        invariant
            i <= n,
            n == parts@.len(),
            pv == part_views(parts@),
            s@ == joined(pv.take(i as int)),
        decreases n - i,
    {
        proof {
            reveal_strlit("/");
            assert("/"@ =~= seq!['/']);
            assert(pv.take(i + 1) =~= pv.take(i as int).push(pv[i as int]));
            lemma_joined_push(pv.take(i as int), pv[i as int]);
        }
        s.append("/");
        s.append(parts[i].as_str());
        proof {
            assert(s@ =~= joined(pv.take(i + 1)));
        }
        i = i + 1;
    }
    proof {
        assert(pv.take(n as int) =~= pv);
    }
    s
}

} // verus!
