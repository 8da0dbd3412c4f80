use vstd::prelude::*;

use crate::chars::{fold_eq, lower, str_eq};
use crate::data::{
    parse_type, type_label, CachedFile, CurrentDirError, EntryV, FileData, RecordV,
};

verus! {

/// The abstract values of a sequence of entries.
pub open spec fn views(s: Seq<FileData>) -> Seq<EntryV> {
    s.map_values(|e: FileData| e@)
}

/// The abstract values of a sequence of records.
pub open spec fn record_views(s: Seq<CachedFile>) -> Seq<RecordV> {
    s.map_values(|c: CachedFile| c@)
}

/// Whether a lookup returns an entry, per the two-stage match: the lookup
/// key is the lower-cased name, and an exact query further requires the
/// original name to equal the query exactly.
pub open spec fn entry_matches(e: EntryV, name: Seq<char>, exact: bool) -> bool {
    lower(e.name) == lower(name) && (exact ==> e.name == name)
}

/// The entries of the index that share the query's lookup key.
pub open spec fn key_matches(index: Seq<EntryV>, name: Seq<char>) -> Seq<EntryV> {
    index.filter(|e: EntryV| lower(e.name) == lower(name))
}

/// The result set of a lookup, in index order.
pub open spec fn find_matches(index: Seq<EntryV>, name: Seq<char>, exact: bool) -> Seq<EntryV> {
    index.filter(|e: EntryV| entry_matches(e, name, exact))
}

/// The relation between a lookup's inputs and its result: "not found" comes
/// back exactly when no entry shares the lookup key; otherwise the result
/// lists the matching entries in index order.
pub open spec fn find_post(
    index: Seq<EntryV>,
    name: Seq<char>,
    exact: bool,
    r: Option<Seq<EntryV>>,
) -> bool {
    match r {
        Some(found) => key_matches(index, name).len() > 0 && found == find_matches(
            index,
            name,
            exact,
        ),
        None => key_matches(index, name).len() == 0,
    }
}

/// The abstract result of a concrete lookup.
pub open spec fn opt_views(r: Option<Vec<FileData>>) -> Option<Seq<EntryV>> {
    match r {
        Some(v) => Some(views(v@)),
        None => None,
    }
}

/// The record written for an entry stored at a given position.
pub open spec fn record_of(e: EntryV, i: int) -> RecordV {
    RecordV { id: i, name: e.name, path: e.path, filetype: type_label(e.filetype) }
}

/// The record set written for an index.
pub open spec fn records_of(index: Seq<EntryV>) -> Seq<RecordV> {
    Seq::new(index.len(), |i: int| record_of(index[i], i))
}

/// The entry a valid record reconstructs.
pub open spec fn entry_of_record(r: RecordV) -> EntryV {
    EntryV { name: r.name, path: r.path, filetype: parse_type(r.filetype)->0 }
}

/// Whether every record of a set parses back to an entry.
pub open spec fn all_records_valid(rs: Seq<RecordV>) -> bool {
    forall|i: int| 0 <= i < rs.len() ==> #[trigger] parse_type(rs[i].filetype) is Some
}

/// The index a valid record set reconstructs.
pub open spec fn load_records(rs: Seq<RecordV>) -> Seq<EntryV> {
    rs.map_values(|r: RecordV| entry_of_record(r))
}

proof fn lemma_filter_none<A>(s: Seq<A>, pred: spec_fn(A) -> bool)
    requires
        forall|i: int| 0 <= i < s.len() ==> !#[trigger] pred(s[i]),
    ensures
        s.filter(pred).len() == 0,
    decreases s.len(),
{
    reveal(Seq::filter);
    if s.len() > 0 {
        lemma_filter_none(s.drop_last(), pred);
    }
}

pub(crate) proof fn lemma_filter_push<A>(s: Seq<A>, x: A, pred: spec_fn(A) -> bool)
    ensures
        pred(x) ==> s.push(x).filter(pred) == s.filter(pred).push(x),
        !pred(x) ==> s.push(x).filter(pred) == s.filter(pred),
{
    reveal(Seq::filter);
    assert(s.push(x).drop_last() =~= s);
    assert(s.push(x).last() == x);
}

/// The in-memory name index: it owns the current generation of scanned
/// entries and serves lookups from them.
#[derive(Debug)]
pub struct FileCache {
    entries: Vec<FileData>,
}

impl View for FileCache {
    type V = Seq<EntryV>;

    closed spec fn view(&self) -> Seq<EntryV> {
        views(self.entries@)
    }
}

impl FileCache {
    /// Builds the index from one scan generation (a cold start, or the
    /// build-aside half of a refresh).
    pub fn from_entries(entries: Vec<FileData>) -> (r: FileCache)
        ensures
            r@ == views(entries@),
    {
        FileCache { entries }
    }

    /// Loads the index from a persisted record set, validating every record
    /// eagerly; one bad record makes the whole store unusable.
    pub fn from_records(records: &Vec<CachedFile>) -> (r: Result<FileCache, CurrentDirError>)
        ensures
            r is Ok <==> all_records_valid(record_views(records@)),
            r matches Ok(c) ==> c@ == load_records(record_views(records@)),
            r matches Err(e) ==> e is CannotSerialize,
    {
        let mut entries: Vec<FileData> = Vec::new();
        let n = records.len();
        let mut i: usize = 0;
        while i < n
            invariant
                i <= n,
                n == records@.len(),
                entries@.len() == i,
                forall|j: int|
                    0 <= j < i ==> #[trigger] parse_type(records@[j]@.filetype) is Some,
                forall|j: int|
                    0 <= j < i ==> #[trigger] entries@[j]@ == entry_of_record(records@[j]@),
            decreases n - i,
        {
            match FileData::try_from_cached(&records[i]) {
                Ok(fd) => {
                    entries.push(fd);
                },
                Err(_) => {
                    assert(parse_type(record_views(records@)[i as int].filetype) is None);
                    return Err(CurrentDirError::CannotSerialize);
                },
            }
            i = i + 1;
        }
        proof {
            assert(views(entries@) =~= load_records(record_views(records@)));
        }
        Ok(FileCache { entries })
    }

    /// Writes the index out as a record set; the record at each position
    /// carries that position as its id.
    pub fn to_records(&self) -> (r: Vec<CachedFile>)
        requires
            self@.len() <= 0x7fff_ffff,
        ensures
            record_views(r@) == records_of(self@),
    {
        let mut out: Vec<CachedFile> = Vec::new();
        let n = self.entries.len();
        let mut i: usize = 0;
        while i < n
            invariant
                i <= n,
                n == self.entries@.len(),
                n <= 0x7fff_ffff,
                out@.len() == i,
                forall|j: int|
                    0 <= j < i ==> #[trigger] out@[j]@ == record_of(views(self.entries@)[j], j),
            decreases n - i,
        {
            let entry = self.entries[i].clone();
            out.push(CachedFile::from_filedata(entry, i as i32));
            i = i + 1;
        }
        proof {
            assert(record_views(out@) =~= records_of(self@));
        }
        out
    }

    /// Serves one lookup from the current index. "Not found" is returned
    /// exactly when no entry shares the query's lookup key; an exact query
    /// then filters the key matches by literal name equality.
    pub fn find_file(&self, name: &str, exact: bool) -> (r: Option<Vec<FileData>>)
        ensures
            find_post(self@, name@, exact, opt_views(r)),
    {
        let ghost iv = views(self.entries@);
        let ghost key_pred = |e: EntryV| lower(e.name) == lower(name@);
        let ghost match_pred = |e: EntryV| entry_matches(e, name@, exact);
        let mut found: Vec<FileData> = Vec::new();
        let mut any_key: bool = false;
        let n = self.entries.len();
        let mut i: usize = 0;
        while i < n
            invariant
                i <= n,
                n == self.entries@.len(),
                iv == views(self.entries@),
                key_pred == (|e: EntryV| lower(e.name) == lower(name@)),
                match_pred == (|e: EntryV| entry_matches(e, name@, exact)),
                any_key == (iv.take(i as int).filter(key_pred).len() > 0),
                views(found@) == iv.take(i as int).filter(match_pred),
            decreases n - i,
        {
            let entry = &self.entries[i];
            proof {
                assert(iv.take(i + 1) =~= iv.take(i as int).push(iv[i as int]));
                lemma_filter_push(iv.take(i as int), iv[i as int], key_pred);
                lemma_filter_push(iv.take(i as int), iv[i as int], match_pred);
                assert(entry@ == iv[i as int]);
            }
            if fold_eq(entry.name().as_str(), name) {
                any_key = true;
                if !exact || str_eq(entry.name().as_str(), name) {
                    found.push(entry.clone());
                    proof {
                        assert(views(found@) =~= iv.take(i + 1).filter(match_pred));
                    }
                }
            }
            i = i + 1;
        }
        proof {
            assert(iv.take(n as int) =~= iv);
        }
        if any_key {
            Some(found)
        } else {
            None
        }
    }

    /// How many entries the current index holds.
    pub fn len(&self) -> (r: usize)
        ensures
            r == self@.len(),
    {
        self.entries.len()
    }

    /// Installs a freshly scanned generation of entries as the whole index,
    /// discarding the previous one.
    pub fn refresh(&mut self, entries: Vec<FileData>)
        ensures
            final(self)@ == views(entries@),
    {
        self.entries = entries;
    }
}

proof fn lemma_filter_equiv<A>(s: Seq<A>, p: spec_fn(A) -> bool, q: spec_fn(A) -> bool)
    requires
        forall|x: A| #[trigger] p(x) == q(x),
    ensures
        s.filter(p) == s.filter(q),
    decreases s.len(),
{
    reveal(Seq::filter);
    if s.len() > 0 {
        lemma_filter_equiv(s.drop_last(), p, q);
    }
}

/// Law: case-insensitive recall, case-sensitive precision. A loose lookup
/// returns every entry whose lower-cased name equals the query's — entries
/// differing from the query only in case among them; an exact lookup
/// returns, of those, exactly the entries literally named as the query.
pub proof fn lemma_recall_precision(index: Seq<EntryV>, name: Seq<char>)
    ensures
        find_matches(index, name, false) == key_matches(index, name),
        forall|i: int|
            0 <= i < find_matches(index, name, true).len() ==> (#[trigger] find_matches(
                index,
                name,
                true,
            )[i]).name == name,
        forall|i: int|
            0 <= i < index.len() && lower(#[trigger] index[i].name) == lower(name)
                && index[i].name == name ==> find_matches(index, name, true).contains(index[i]),
{
    broadcast use Seq::lemma_filter_pred, Seq::lemma_filter_contains;

    lemma_filter_equiv(
        index,
        |e: EntryV| entry_matches(e, name, false),
        |e: EntryV| lower(e.name) == lower(name),
    );
}

/// Law: with the index state fixed, the lookup is deterministic — any two
/// results the lookup relation allows for the same query are equal, so
/// calling `find_file` twice without an intervening refresh yields
/// identical results.
pub proof fn lemma_find_idempotent(
    index: Seq<EntryV>,
    name: Seq<char>,
    exact: bool,
    r1: Option<Seq<EntryV>>,
    r2: Option<Seq<EntryV>>,
)
    requires
        find_post(index, name, exact, r1),
        find_post(index, name, exact, r2),
    ensures
        r1 == r2,
{
}

/// Law: a refresh replaces the index outright, never merging with the old
/// one — a name that the new scan no longer contains finds nothing after
/// the refresh, whatever the previous index held.
pub proof fn lemma_refresh_supersedes(index: Seq<EntryV>, name: Seq<char>, exact: bool)
    requires
        forall|i: int| 0 <= i < index.len() ==> lower(#[trigger] index[i].name) != lower(name),
    ensures
        find_post(index, name, exact, None),
{
    lemma_filter_none(index, |e: EntryV| lower(e.name) == lower(name));
}

} // verus!
