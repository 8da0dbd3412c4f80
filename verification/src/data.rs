use vstd::prelude::*;

use crate::chars::{fold_eq, lower};

verus! {

/// The three-way classification of a filesystem object.
#[derive(Debug, Clone, Copy, PartialEq, Eq, PartialOrd, Ord, Structural)]
pub enum FileType {
    Folder,
    File,
    Link,
}

/// The errors the directory and cache operations report.
#[derive(Debug, Clone)]
pub enum CurrentDirError {
    AlreadyAtRoot,
    PathCannotBeMadeAbsolute,
    CannotGetFileType,
    CannotReadDir { dir_name: String },
    CannotMoveToFile { file_name: String },
    IsntUTF8,
    CannotSerialize,
    CannotCreateFile { reason: String },
    CannotDeleteFile { reason: String },
    CannotWriteToFile,
    SearchedFileNotFound,
}

/// The display name of a file type, as it is persisted.
pub open spec fn type_label(t: FileType) -> Seq<char> {
    match t {
        FileType::Folder => "Folder"@,
        FileType::File => "File"@,
        FileType::Link => "Link"@,
    }
}

/// Parsing of a persisted type name back to a file type; the comparison is
/// case-insensitive, and unknown names are rejected.
pub open spec fn parse_type(s: Seq<char>) -> Option<FileType> {
    if lower(s) == "folder"@ {
        Some(FileType::Folder)
    } else if lower(s) == "file"@ {
        Some(FileType::File)
    } else if lower(s) == "link"@ {
        Some(FileType::Link)
    } else {
        None
    }
}

impl FileType {
    /// The position of this type in the sort order: folders first, then
    /// files, then links.
    pub open spec fn rank(self) -> int {
        match self {
            FileType::Folder => 0,
            FileType::File => 1,
            FileType::Link => 2,
        }
    }

    /// The sort position as a machine integer.
    pub fn order_rank(&self) -> (r: u8)
        ensures
            r as int == self.rank(),
    {
        match self {
            FileType::Folder => 0,
            FileType::File => 1,
            FileType::Link => 2,
        }
    }

    /// The display name of this type, the form stored in a record.
    pub fn name_string(&self) -> (r: String)
        ensures
            r@ == type_label(*self),
    {
        match self {
            FileType::Folder => "Folder".to_owned(),
            FileType::File => "File".to_owned(),
            FileType::Link => "Link".to_owned(),
        }
    }

    /// Parses a type name, case-insensitively; an unknown name is a
    /// serialization error.
    pub fn parse(s: &str) -> (r: Result<FileType, CurrentDirError>)
        ensures
            match parse_type(s@) {
                Some(t) => r == Ok::<FileType, CurrentDirError>(t),
                None => r matches Err(e) && e is CannotSerialize,
            },
    {
        proof {
            lemma_keyword_views();
        }
        if fold_eq(s, "folder") {
            proof {
                assert(lower(s@) =~= lower("folder"@));
            }
            Ok(FileType::Folder)
        } else if fold_eq(s, "file") {
            proof {
                assert(lower(s@) =~= lower("file"@));
            }
            Ok(FileType::File)
        } else if fold_eq(s, "link") {
            proof {
                assert(lower(s@) =~= lower("link"@));
            }
            Ok(FileType::Link)
        } else {
            Err(CurrentDirError::CannotSerialize)
        }
    }
}

/// The lower-cased type names are already in normal form.
proof fn lemma_keyword_views()
    ensures
        lower("folder"@) == "folder"@,
        lower("file"@) == "file"@,
        lower("link"@) == "link"@,
{
    reveal_strlit("folder");
    reveal_strlit("file");
    reveal_strlit("link");
    assert(lower("folder"@) =~= "folder"@);
    assert(lower("file"@) =~= "file"@);
    assert(lower("link"@) =~= "link"@);
}

/// Each persisted type name parses back to the type it was written for.
pub proof fn lemma_type_label_round_trip(t: FileType)
    ensures
        parse_type(type_label(t)) == Some(t),
{
    reveal_strlit("Folder");
    reveal_strlit("File");
    reveal_strlit("Link");
    lemma_keyword_views();
    reveal_strlit("folder");
    reveal_strlit("file");
    reveal_strlit("link");
    match t {
        FileType::Folder => {
            assert(lower("Folder"@) =~= "folder"@);
        },
        FileType::File => {
            assert(lower("File"@) =~= "file"@);
            assert(lower("File"@) != "folder"@);
        },
        FileType::Link => {
            assert(lower("Link"@) =~= "link"@);
            assert(lower("Link"@) != "folder"@);
            assert("link"@[0] != "file"@[0]);
        },
    }
}

/// The mathematical value of one filesystem entry.
pub struct EntryV {
    pub name: Seq<char>,
    pub path: Seq<char>,
    pub filetype: FileType,
}

/// One filesystem object: its base name, its absolute path, and its type.
#[derive(Debug)]
pub struct FileData {
    name: String,
    path: String,
    filetype: FileType,
}

impl View for FileData {
    type V = EntryV;

    closed spec fn view(&self) -> EntryV {
        EntryV { name: self.name@, path: self.path@, filetype: self.filetype }
    }
}

impl FileData {
    pub fn new(name: &str, path: &str, filetype: FileType) -> (r: FileData)
        ensures
            r@ == (EntryV { name: name@, path: path@, filetype }),
    {
        FileData { name: name.to_owned(), path: path.to_owned(), filetype }
    }

    /// The base name of the entry.
    pub fn name(&self) -> (r: &String)
        ensures
            r@ == self@.name,
    {
        &self.name
    }

    /// The absolute path of the entry.
    pub fn path(&self) -> (r: &String)
        ensures
            r@ == self@.path,
    {
        &self.path
    }

    /// The type of the entry.
    pub fn filetype(&self) -> (r: FileType)
        ensures
            r == self@.filetype,
    {
        self.filetype
    }

    /// Reconstructs an entry from a persisted record; fails exactly when the
    /// record's type name does not parse.
    pub fn try_from_cached(value: &CachedFile) -> (r: Result<FileData, CurrentDirError>)
        ensures
            match parse_type(value@.filetype) {
                Some(t) => r matches Ok(fd) && fd@ == (EntryV {
                    name: value@.name,
                    path: value@.path,
                    filetype: t,
                }),
                None => r matches Err(e) && e is CannotSerialize,
            },
    {
        let filetype = FileType::parse(value.filetype.as_str())?;
        Ok(FileData {
            name: value.name.clone(),
            path: value.path.clone(),
            filetype,
        })
    }
}

impl PartialEq for FileData {
    fn eq(&self, other: &Self) -> (r: bool) {
        self.name == other.name && self.path == other.path && self.filetype == other.filetype
    }
}

impl vstd::std_specs::cmp::PartialEqSpecImpl for FileData {
    open spec fn obeys_eq_spec() -> bool {
        true
    }

    open spec fn eq_spec(&self, other: &Self) -> bool {
        self@ == other@
    }
}

impl Clone for FileData {
    fn clone(&self) -> (r: Self)
        ensures
            r@ == self@,
    {
        FileData {
            name: self.name.clone(),
            path: self.path.clone(),
            filetype: self.filetype,
        }
    }
}

/// The mathematical value of a persisted record with its id stripped: the
/// (name, path, type name) triple that the store artifact actually carries.
pub struct TripleV {
    pub name: Seq<char>,
    pub path: Seq<char>,
    pub filetype: Seq<char>,
}

/// The mathematical value of one persisted record.
pub struct RecordV {
    pub id: int,
    pub name: Seq<char>,
    pub path: Seq<char>,
    pub filetype: Seq<char>,
}

/// One row of the persisted record set: an entry with its type flattened to
/// a name, plus the position it was written at.
#[derive(Debug, Clone, PartialEq, Eq)]
pub struct CachedFile {
    pub id: i32,
    pub name: String,
    pub path: String,
    pub filetype: String,
}

impl View for CachedFile {
    type V = RecordV;

    open spec fn view(&self) -> RecordV {
        RecordV {
            id: self.id as int,
            name: self.name@,
            path: self.path@,
            filetype: self.filetype@,
        }
    }
}

impl CachedFile {
    pub fn from_filedata(value: FileData, id: i32) -> (r: CachedFile)
        ensures
            r@ == (RecordV {
                id: id as int,
                name: value@.name,
                path: value@.path,
                filetype: type_label(value@.filetype),
            }),
    {
        let FileData { name, path, filetype } = value;
        let type_string = filetype.name_string();
        CachedFile { id, name, path, filetype: type_string }
    }
}

/// The listing of one folder: its name, its entries, and whether it is the
/// filesystem root.
#[derive(Debug)]
pub struct FolderData {
    pub name: String,
    pub files: Vec<FileData>,
    pub is_at_root: bool,
}

} // verus!
