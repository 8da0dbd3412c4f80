use vstd::prelude::*;
use vstd::seq_lib::lemma_multiset_commutative;

use crate::cache::views;
use crate::chars::{
    lemma_seq_le_antisym, lemma_seq_le_total, lemma_seq_le_trans, seq_le, str_eq, str_le,
};
use crate::data::{EntryV, FileData};

verus! {

/// The display order of entries: by type (folders, then files, then
/// links), then by name, then by path, names and paths ordered
/// lexicographically by code point.
pub open spec fn entry_le(x: EntryV, y: EntryV) -> bool {
    if x.filetype.rank() != y.filetype.rank() {
        x.filetype.rank() < y.filetype.rank()
    } else if x.name != y.name {
        seq_le(x.name, y.name)
    } else {
        seq_le(x.path, y.path)
    }
}

/// Any two entries are ordered one way or the other.
pub proof fn lemma_entry_le_total(x: EntryV, y: EntryV)
    ensures
        entry_le(x, y) || entry_le(y, x),
{
    lemma_seq_le_total(x.name, y.name);
    lemma_seq_le_total(x.path, y.path);
}

/// The entry order is transitive.
pub proof fn lemma_entry_le_trans(x: EntryV, y: EntryV, z: EntryV)
    requires
        entry_le(x, y),
        entry_le(y, z),
    ensures
        entry_le(x, z),
{
    if x.filetype.rank() == y.filetype.rank() && y.filetype.rank() == z.filetype.rank() {
        if x.name != y.name && y.name != z.name {
            lemma_seq_le_trans(x.name, y.name, z.name);
            if x.name == z.name {
                lemma_seq_le_antisym(x.name, y.name);
            }
        } else if x.name == y.name && y.name == z.name {
            lemma_seq_le_trans(x.path, y.path, z.path);
        }
    }
}

/// Whether a sequence of entries is in display order.
pub open spec fn sorted(s: Seq<EntryV>) -> bool {
    forall|i: int, j: int| 0 <= i < j < s.len() ==> entry_le(#[trigger] s[i], #[trigger] s[j])
}

/// Compares two entries in display order.
pub fn entry_le_exec(x: &FileData, y: &FileData) -> (r: bool)
    ensures
        r == entry_le(x@, y@),
{
    let xr = x.filetype().order_rank();
    let yr = y.filetype().order_rank();
    if xr != yr {
        return xr < yr;
    }
    if !str_eq(x.name().as_str(), y.name().as_str()) {
        return str_le(x.name().as_str(), y.name().as_str());
    }
    str_le(x.path().as_str(), y.path().as_str())
}

proof fn lemma_insert_multiset<A>(s: Seq<A>, i: int, x: A)
    requires
        0 <= i <= s.len(),
    ensures
        s.insert(i, x).to_multiset() == s.to_multiset().insert(x),
{
    broadcast use vstd::seq_lib::group_to_multiset_ensures;

    assert(s.insert(i, x) =~= s.take(i).push(x) + s.skip(i));
    assert(s =~= s.take(i) + s.skip(i));
    lemma_multiset_commutative(s.take(i).push(x), s.skip(i));
    lemma_multiset_commutative(s.take(i), s.skip(i));
    assert(s.take(i).push(x).to_multiset() =~= s.take(i).to_multiset().insert(x));
    assert(s.take(i).to_multiset().insert(x).add(s.skip(i).to_multiset()) =~= s.take(
        i,
    ).to_multiset().add(s.skip(i).to_multiset()).insert(x));
}

/// Sorts entries into display order; the result holds exactly the entries
/// given, reordered.
pub fn sort_entries(v: &mut Vec<FileData>)
    ensures
        sorted(views(final(v)@)),
        views(final(v)@).to_multiset() == views(old(v)@).to_multiset(),
{
    broadcast use vstd::seq_lib::group_to_multiset_ensures;

    let n = v.len();
    let mut out: Vec<FileData> = Vec::new();
    let mut i: usize = 0;
    while i < n
        invariant
            i <= n,
            n == v@.len(),
            sorted(views(out@)),
            views(out@).to_multiset() == views(v@.take(i as int)).to_multiset(),
        decreases n - i,
    {
        let x = v[i].clone();
        let m = out.len();
        let mut j: usize = 0;
        while j < m && entry_le_exec(&out[j], &x)
            invariant
                j <= m,
                m == out@.len(),
                forall|k: int| 0 <= k < j ==> entry_le(#[trigger] views(out@)[k], x@),
            decreases m - j,
        {
            proof {
                assert(views(out@)[j as int] == out@[j as int]@);
            }
            j = j + 1;
        }
        let ghost prev = views(out@);
        proof {
            if j < m {
                lemma_entry_le_total(prev[j as int], x@);
            }
            assert forall|k: int| j <= k < m implies entry_le(x@, #[trigger] prev[k]) by {
                if j < k {
                    lemma_entry_le_trans(x@, prev[j as int], prev[k]);
                }
            }
        }
        out.insert(j, x);
        proof {
            assert(views(out@) =~= prev.insert(j as int, x@));
            lemma_insert_multiset(prev, j as int, x@);
            assert(views(v@.take(i + 1)) =~= views(v@.take(i as int)).push(v@[i as int]@));
            views(v@.take(i as int)).to_multiset_ensures();
            assert(views(v@.take(i as int)).push(x@).to_multiset() =~= views(
                v@.take(i as int),
            ).to_multiset().insert(x@));
            assert forall|p: int, q: int|
                0 <= p < q < views(out@).len() implies entry_le(
                #[trigger] views(out@)[p],
                #[trigger] views(out@)[q],
            ) by {
                let s = prev.insert(j as int, x@);
                assert(s[j as int] == x@);
                if p < j && q == j {
                    assert(s[p] == prev[p]);
                } else if p == j && q > j {
                    assert(s[q] == prev[q - 1]);
                } else if p < j && q > j {
                    assert(s[p] == prev[p] && s[q] == prev[q - 1]);
                    if p == q - 1 {
                    } else {
                        assert(entry_le(prev[p], prev[q - 1]));
                    }
                } else if p > j && q > j {
                    assert(s[p] == prev[p - 1] && s[q] == prev[q - 1]);
                } else if p < j && q < j {
                    assert(s[p] == prev[p] && s[q] == prev[q]);
                }
            }
        }
        i = i + 1;
    }
    proof {
        assert(v@.take(n as int) =~= v@);
    }
    *v = out;
}

} // verus!
