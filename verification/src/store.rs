use vstd::prelude::*;

use crate::cache::{all_records_valid, load_records, record_views, records_of};
use crate::chars::to_chars;
use crate::data::{lemma_type_label_round_trip, parse_type, CachedFile, EntryV, RecordV, TripleV};

verus! {

/// The triples a record set writes out: the records in order, ids
/// stripped.
pub open spec fn triples_of(rs: Seq<RecordV>) -> Seq<TripleV> {
    rs.map_values(|r: RecordV| TripleV { name: r.name, path: r.path, filetype: r.filetype })
}

/// The escaped form of one character in the persisted artifact: the two
/// separators and the escape character itself are written as two-character
/// escape sequences, every other character stands for itself.
pub open spec fn esc_char(c: char) -> Seq<char> {
    if c == '\\' {
        seq!['\\', '\\']
    } else if c == '\t' {
        seq!['\\', 't']
    } else if c == '\n' {
        seq!['\\', 'n']
    } else {
        seq![c]
    }
}

/// The escaped form of a field.
pub open spec fn esc(s: Seq<char>) -> Seq<char>
    decreases s.len(),
{
    if s.len() == 0 {
        Seq::empty()
    } else {
        esc_char(s[0]) + esc(s.drop_first())
    }
}

/// The character an escape code stands for, if it is a valid code.
pub open spec fn unesc_code(c: char) -> Option<char> {
    if c == '\\' {
        Some('\\')
    } else if c == 't' {
        Some('\t')
    } else if c == 'n' {
        Some('\n')
    } else {
        None
    }
}

/// The encoded form of one record: its three fields escaped, the first two
/// ended by a tab, the last by a newline.
pub open spec fn enc_triple(t: TripleV) -> Seq<char> {
    esc(t.name) + seq!['\t'] + esc(t.path) + seq!['\t'] + esc(t.filetype) + seq!['\n']
}

/// The encoded form of a record set: its records' encodings, in order.
pub open spec fn enc_all(ts: Seq<TripleV>) -> Seq<char>
    decreases ts.len(),
{
    if ts.len() == 0 {
        Seq::empty()
    } else {
        enc_triple(ts[0]) + enc_all(ts.drop_first())
    }
}

/// Parsing one field off the front of the artifact: the field's characters
/// up to its unescaped terminator, the terminator, and how many characters
/// were consumed. Rejected: a truncated input, a dangling escape, and an
/// unknown escape code.
pub open spec fn parse_field(a: Seq<char>) -> Option<(Seq<char>, char, int)>
    decreases a.len(),
{
    if a.len() == 0 {
        None
    } else if a[0] == '\t' || a[0] == '\n' {
        Some((Seq::empty(), a[0], 1))
    } else if a[0] == '\\' {
        if a.len() < 2 {
            None
        } else {
            match unesc_code(a[1]) {
                None => None,
                Some(c) => match parse_field(a.skip(2)) {
                    None => None,
                    Some((f, t, n)) => Some((seq![c] + f, t, n + 2)),
                },
            }
        }
    } else {
        match parse_field(a.skip(1)) {
            None => None,
            Some((f, t, n)) => Some((seq![a[0]] + f, t, n + 1)),
        }
    }
}

/// Parsing one record off the front of the artifact: three fields, the
/// first two ended by a tab and the third by a newline.
pub open spec fn parse3(a: Seq<char>) -> Option<(TripleV, int)> {
    match parse_field(a) {
        None => None,
        Some((f1, t1, n1)) => if t1 != '\t' {
            None
        } else {
            match parse_field(a.skip(n1)) {
                None => None,
                Some((f2, t2, n2)) => if t2 != '\t' {
                    None
                } else {
                    match parse_field(a.skip(n1).skip(n2)) {
                        None => None,
                        Some((f3, t3, n3)) => if t3 != '\n' {
                            None
                        } else {
                            Some((TripleV { name: f1, path: f2, filetype: f3 }, n1 + n2 + n3))
                        },
                    }
                },
            }
        },
    }
}

/// Parsing the whole artifact into a record set; any malformed remainder
/// rejects the whole artifact.
pub open spec fn parse_records(a: Seq<char>) -> Option<Seq<TripleV>>
    decreases a.len(),
{
    if a.len() == 0 {
        Some(Seq::empty())
    } else {
        match parse3(a) {
            None => None,
            Some((t, n)) => if n < 1 || n > a.len() {
                None
            } else {
                match parse_records(a.skip(n)) {
                    None => None,
                    Some(ts) => Some(seq![t] + ts),
                }
            },
        }
    }
}

/// The record set a parsed artifact reconstructs: each parsed triple with
/// its position as its id.
pub open spec fn records_from_triples(ts: Seq<TripleV>) -> Seq<RecordV> {
    Seq::new(
        ts.len(),
        |i: int| RecordV { id: i, name: ts[i].name, path: ts[i].path, filetype: ts[i].filetype },
    )
}

pub proof fn lemma_parse_field_bounds(a: Seq<char>)
    ensures
        parse_field(a) matches Some((f, t, n)) ==> 1 <= n <= a.len() && (t == '\t' || t == '\n'),
    decreases a.len(),
{
    if a.len() == 0 {
    } else if a[0] == '\t' || a[0] == '\n' {
    } else if a[0] == '\\' {
        if a.len() >= 2 {
            lemma_parse_field_bounds(a.skip(2));
        }
    } else {
        lemma_parse_field_bounds(a.skip(1));
    }
}

/// An escaped field followed by a terminator parses back to exactly that
/// field, whatever follows the terminator.
proof fn lemma_parse_field_esc(s: Seq<char>, d: char, rest: Seq<char>)
    requires
        d == '\t' || d == '\n',
    ensures
        parse_field(esc(s) + seq![d] + rest) == Some((s, d, esc(s).len() as int + 1)),
    decreases s.len(),
{
    let a = esc(s) + seq![d] + rest;
    if s.len() == 0 {
        assert(a =~= seq![d] + rest);
        assert(s =~= Seq::<char>::empty());
    } else {
        let c = s[0];
        let tail = s.drop_first();
        lemma_parse_field_esc(tail, d, rest);
        let suffix = esc(tail) + seq![d] + rest;
        if c == '\\' || c == '\t' || c == '\n' {
            assert(esc_char(c).len() == 2);
            assert(a =~= esc_char(c) + suffix);
            assert(a[0] == '\\');
            assert(a.len() >= 2);
            assert(unesc_code(a[1]) == Some(c));
            assert(a.skip(2) =~= suffix);
            assert(seq![c] + tail =~= s);
        } else {
            assert(a =~= seq![c] + suffix);
            assert(a[0] == c);
            assert(a.skip(1) =~= suffix);
            assert(seq![c] + tail =~= s);
        }
    }
}

/// An encoded record followed by anything parses back to exactly that
/// record.
proof fn lemma_parse3_enc(t: TripleV, rest: Seq<char>)
    ensures
        parse3(enc_triple(t) + rest) == Some((t, enc_triple(t).len() as int)),
{
    let a = enc_triple(t) + rest;
    let r2 = esc(t.path) + seq!['\t'] + (esc(t.filetype) + seq!['\n'] + rest);
    let r3 = esc(t.filetype) + seq!['\n'] + rest;
    assert(a =~= esc(t.name) + seq!['\t'] + r2);
    lemma_parse_field_esc(t.name, '\t', r2);
    let n1: int = esc(t.name).len() as int + 1;
    assert(a.skip(n1) =~= r2);
    lemma_parse_field_esc(t.path, '\t', r3);
    let n2: int = esc(t.path).len() as int + 1;
    assert(a.skip(n1).skip(n2) =~= r3);
    lemma_parse_field_esc(t.filetype, '\n', rest);
    let n3: int = esc(t.filetype).len() as int + 1;
    assert(parse3(a) == Some(
        (TripleV { name: t.name, path: t.path, filetype: t.filetype }, n1 + n2 + n3),
    ));
    assert(TripleV { name: t.name, path: t.path, filetype: t.filetype } == t);
    assert(n1 + n2 + n3 == enc_triple(t).len());
}

/// An encoded record set parses back to exactly the record set.
pub proof fn lemma_parse_records_enc(ts: Seq<TripleV>)
    ensures
        parse_records(enc_all(ts)) == Some(ts),
    decreases ts.len(),
{
    if ts.len() == 0 {
        assert(enc_all(ts).len() == 0);
        assert(ts =~= Seq::<TripleV>::empty());
    } else {
        let a = enc_all(ts);
        let head = ts[0];
        let tail = ts.drop_first();
        lemma_parse3_enc(head, enc_all(tail));
        let n = enc_triple(head).len() as int;
        assert(a.len() == n + enc_all(tail).len());
        assert(n >= 3);
        assert(a.skip(n) =~= enc_all(tail));
        lemma_parse_records_enc(tail);
        assert(a.len() > 0);
        assert(seq![head] + tail =~= ts);
    }
}

proof fn lemma_esc_push(s: Seq<char>, c: char)
    ensures
        esc(s.push(c)) == esc(s) + esc_char(c),
    decreases s.len(),
{
    if s.len() == 0 {
        assert(s.push(c)[0] == c);
        assert(s.push(c).drop_first() =~= Seq::<char>::empty());
        assert(esc(s.push(c)) == esc_char(c) + esc(Seq::<char>::empty()));
        assert(esc(Seq::<char>::empty()) == Seq::<char>::empty());
        assert(esc(s) == Seq::<char>::empty());
        assert(esc(s.push(c)) =~= esc(s) + esc_char(c));
    } else {
        let s0 = s.drop_first();
        assert(s.push(c)[0] == s[0]);
        assert(s.push(c).drop_first() =~= s0.push(c));
        lemma_esc_push(s0, c);
        assert(esc(s.push(c)) == esc_char(s[0]) + esc(s0.push(c)));
        assert(esc(s) == esc_char(s[0]) + esc(s0));
        assert(esc_char(s[0]) + (esc(s0) + esc_char(c)) =~= (esc_char(s[0]) + esc(s0)) + esc_char(
            c,
        ));
    }
}

proof fn lemma_enc_all_push(ts: Seq<TripleV>, t: TripleV)
    ensures
        enc_all(ts.push(t)) == enc_all(ts) + enc_triple(t),
    decreases ts.len(),
{
    if ts.len() == 0 {
        assert(ts.push(t)[0] == t);
        assert(ts.push(t).drop_first() =~= Seq::<TripleV>::empty());
        assert(enc_all(ts.push(t)) == enc_triple(t) + enc_all(Seq::<TripleV>::empty()));
        assert(enc_all(Seq::<TripleV>::empty()) == Seq::<char>::empty());
        assert(enc_all(ts) == Seq::<char>::empty());
        assert(enc_all(ts.push(t)) =~= enc_all(ts) + enc_triple(t));
    } else {
        let ts0 = ts.drop_first();
        assert(ts.push(t)[0] == ts[0]);
        assert(ts.push(t).drop_first() =~= ts0.push(t));
        lemma_enc_all_push(ts0, t);
        assert(enc_all(ts.push(t)) == enc_triple(ts[0]) + enc_all(ts0.push(t)));
        assert(enc_all(ts) == enc_triple(ts[0]) + enc_all(ts0));
        assert(enc_triple(ts[0]) + (enc_all(ts0) + enc_triple(t)) =~= (enc_triple(ts[0]) + enc_all(
            ts0,
        )) + enc_triple(t));
    }
}

/// Appends the escaped form of one field to the artifact being written.
fn append_escaped(out: &mut Vec<char>, s: &String)
    ensures
        final(out)@ == old(out)@ + esc(s@),
{
    let cs = to_chars(s.as_str());
    let n = cs.len();
    let mut j: usize = 0;
    while j < n
        invariant
            j <= n,
            n == s@.len(),
            cs@ == s@,
            out@ == old(out)@ + esc(s@.take(j as int)),
        decreases n - j,
    {
        let c = cs[j];
        proof {
            assert(s@.take(j + 1) =~= s@.take(j as int).push(s@[j as int]));
            lemma_esc_push(s@.take(j as int), s@[j as int]);
        }
        if c == '\\' {
            out.push('\\');
            out.push('\\');
        } else if c == '\t' {
            out.push('\\');
            out.push('t');
        } else if c == '\n' {
            out.push('\\');
            out.push('n');
        } else {
            out.push(c);
        }
        proof {
            assert(out@ =~= old(out)@ + esc(s@.take(j + 1)));
        }
        j = j + 1;
    }
    proof {
        assert(s@.take(n as int) =~= s@);
    }
}

/// Serializes a record set into the store artifact: per record, its three
/// fields escaped and terminated. The record ids are not persisted; a
/// record's position in the artifact stands for them.
pub fn encode_records(records: &Vec<CachedFile>) -> (r: Vec<char>)
    ensures
        r@ == enc_all(triples_of(record_views(records@))),
{
    let ghost ts = triples_of(record_views(records@));
    let mut out: Vec<char> = Vec::new();
    let n = records.len();
    let mut i: usize = 0;
    while i < n
        invariant
            i <= n,
            n == records@.len(),
            ts == triples_of(record_views(records@)),
            out@ == enc_all(ts.take(i as int)),
        decreases n - i,
    {
        let rec = &records[i];
        proof {
            assert(ts.take(i + 1) =~= ts.take(i as int).push(ts[i as int]));
            lemma_enc_all_push(ts.take(i as int), ts[i as int]);
            assert(ts[i as int].name == rec@.name);
            assert(ts[i as int].path == rec@.path);
            assert(ts[i as int].filetype == rec@.filetype);
        }
        append_escaped(&mut out, &rec.name);
        out.push('\t');
        append_escaped(&mut out, &rec.path);
        out.push('\t');
        append_escaped(&mut out, &rec.filetype);
        out.push('\n');
        proof {
            assert(out@ =~= enc_all(ts.take(i as int)) + enc_triple(ts[i as int]));
        }
        i = i + 1;
    }
    proof {
        assert(ts.take(n as int) =~= ts);
    }
    out
}

/// Relies on String's FromIterator implementation for characters:
/// collecting characters yields the string of exactly those characters, in
/// order.
#[verifier::external_body]
fn string_from_chars(v: &Vec<char>) -> (r: String)
    ensures
        r@ == v@,
{
    v.iter().collect()
}

/// Parses one field of the artifact, starting at the given position.
fn parse_field_at(a: &Vec<char>, start: usize) -> (r: Option<(Vec<char>, char, usize)>)
    requires
        start <= a@.len(),
    ensures
        match parse_field(a@.skip(start as int)) {
            None => r is None,
            Some((f, t, n)) => r matches Some(p) && p.0@ == f && p.1 == t && p.2 as int == n
                && start as int + n <= a@.len(),
        },
{
    let len = a.len();
    let mut field: Vec<char> = Vec::new();
    let mut cur = start;
    loop
        invariant
            start <= cur <= len,
            len == a@.len(),
            match parse_field(a@.skip(cur as int)) {
                None => parse_field(a@.skip(start as int)) is None,
                Some((f, t, n)) => parse_field(a@.skip(start as int)) == Some(
                    (field@ + f, t, cur - start + n),
                ),
            },
        decreases len - cur,
    {
        if cur == len {
            proof {
                assert(a@.skip(cur as int).len() == 0);
            }
            return None;
        }
        let c = a[cur];
        proof {
            assert(a@.skip(cur as int)[0] == a@[cur as int]);
        }
        if c == '\t' || c == '\n' {
            proof {
                assert(parse_field(a@.skip(cur as int)) == Some(
                    (Seq::<char>::empty(), c, 1int),
                ));
                assert(field@ + Seq::<char>::empty() =~= field@);
            }
            return Some((field, c, cur - start + 1));
        } else if c == '\\' {
            if cur + 1 == len {
                proof {
                    assert(a@.skip(cur as int).len() < 2);
                }
                return None;
            }
            let c2 = a[cur + 1];
            proof {
                assert(a@.skip(cur as int)[1] == a@[cur as int + 1]);
            }
            let u: char;
            if c2 == '\\' {
                u = '\\';
            } else if c2 == 't' {
                u = '\t';
            } else if c2 == 'n' {
                u = '\n';
            } else {
                proof {
                    assert(unesc_code(a@[cur as int + 1]) is None);
                }
                return None;
            }
            let ghost prev = field@;
            field.push(u);
            proof {
                assert(unesc_code(a@[cur as int + 1]) == Some(u));
                assert(a@.skip(cur as int).skip(2) =~= a@.skip(cur as int + 2));
                match parse_field(a@.skip(cur as int + 2)) {
                    Some((f, t, n)) => {
                        assert(parse_field(a@.skip(cur as int)) == Some((seq![u] + f, t, n + 2)));
                        assert(prev + (seq![u] + f) =~= field@ + f);
                    },
                    None => {
                        assert(parse_field(a@.skip(cur as int)) is None);
                    },
                }
            }
            cur = cur + 2;
        } else {
            let ghost prev = field@;
            field.push(c);
            proof {
                assert(a@.skip(cur as int).skip(1) =~= a@.skip(cur as int + 1));
                match parse_field(a@.skip(cur as int + 1)) {
                    Some((f, t, n)) => {
                        assert(parse_field(a@.skip(cur as int)) == Some((seq![c] + f, t, n + 1)));
                        assert(prev + (seq![c] + f) =~= field@ + f);
                    },
                    None => {
                        assert(parse_field(a@.skip(cur as int)) is None);
                    },
                }
            }
            cur = cur + 1;
        }
    }
}

/// Deserializes a store artifact back into a record set, validating its
/// framing; a malformed artifact is rejected as a whole. Each record gets
/// its position as its id.
pub fn decode_records(a: &Vec<char>) -> (r: Option<Vec<CachedFile>>)
    ensures
        match parse_records(a@) {
            None => r is None,
            Some(ts) => if ts.len() <= 0x7fff_ffff {
                r matches Some(v) && record_views(v@) == records_from_triples(ts)
            } else {
                r is None
            },
        },
{
    let len = a.len();
    let mut out: Vec<CachedFile> = Vec::new();
    let mut pos: usize = 0;
    proof {
        assert(a@.skip(0) =~= a@);
        assert(triples_of(record_views(out@)) =~= Seq::<TripleV>::empty());
        match parse_records(a@) {
            Some(all) => {
                assert(triples_of(record_views(out@)) + all =~= all);
            },
            None => {},
        }
    }
    while pos < len
        invariant
            pos <= len,
            len == a@.len(),
            out@.len() <= 0x7fff_ffff,
            forall|j: int| 0 <= j < out@.len() ==> (#[trigger] out@[j]@).id == j,
            match parse_records(a@.skip(pos as int)) {
                None => parse_records(a@) is None,
                Some(tail) => parse_records(a@) matches Some(all) && all == triples_of(
                    record_views(out@),
                ) + tail,
            },
        decreases len - pos,
    {
        let ghost suffix = a@.skip(pos as int);
        proof {
            assert(suffix.len() > 0);
        }
        let r1 = parse_field_at(a, pos);
        proof {
            lemma_parse_field_bounds(suffix);
        }
        let (f1, t1, n1) = match r1 {
            Some(p) => p,
            None => {
                return None;
            },
        };
        if t1 != '\t' {
            return None;
        }
        proof {
            assert(suffix.skip(n1 as int) =~= a@.skip(pos as int + n1 as int));
        }
        let r2 = parse_field_at(a, pos + n1);
        proof {
            lemma_parse_field_bounds(suffix.skip(n1 as int));
        }
        let (f2, t2, n2) = match r2 {
            Some(p) => p,
            None => {
                return None;
            },
        };
        if t2 != '\t' {
            return None;
        }
        proof {
            assert(suffix.skip(n1 as int).skip(n2 as int) =~= a@.skip(
                pos as int + n1 as int + n2 as int,
            ));
        }
        let r3 = parse_field_at(a, pos + n1 + n2);
        proof {
            lemma_parse_field_bounds(suffix.skip(n1 as int).skip(n2 as int));
        }
        let (f3, t3, n3) = match r3 {
            Some(p) => p,
            None => {
                return None;
            },
        };
        if t3 != '\n' {
            return None;
        }
        let ghost t = TripleV { name: f1@, path: f2@, filetype: f3@ };
        let ghost consumed = n1 as int + n2 as int + n3 as int;
        proof {
            assert(parse3(suffix) == Some((t, consumed)));
            assert(1 <= consumed <= suffix.len());
            assert(suffix.skip(consumed) =~= a@.skip(pos as int + consumed));
            match parse_records(a@.skip(pos as int + consumed)) {
                Some(tail) => {
                    assert(parse_records(suffix) == Some(seq![t] + tail));
                },
                None => {
                    assert(parse_records(suffix) is None);
                },
            }
        }
        if out.len() >= 0x7fff_ffff {
            proof {
                match parse_records(a@.skip(pos as int)) {
                    Some(tail) => {
                        assert(tail.len() >= 1);
                    },
                    None => {},
                }
            }
            return None;
        }
        let id = out.len() as i32;
        let name = string_from_chars(&f1);
        let path = string_from_chars(&f2);
        let filetype = string_from_chars(&f3);
        let ghost prev = out@;
        out.push(CachedFile { id, name, path, filetype });
        proof {
            assert(triples_of(record_views(out@)) =~= triples_of(record_views(prev)).push(t));
            match parse_records(a@.skip(pos as int + consumed)) {
                Some(tail) => {
                    assert(triples_of(record_views(prev)) + (seq![t] + tail) =~= triples_of(
                        record_views(out@),
                    ) + tail);
                },
                None => {},
            }
        }
        pos = pos + n1 + n2 + n3;
    }
    proof {
        assert(a@.skip(pos as int).len() == 0);
        assert(parse_records(a@.skip(pos as int)) == Some(Seq::<TripleV>::empty()));
        match parse_records(a@) {
            Some(all) => {
                assert(all =~= triples_of(record_views(out@)));
                assert(record_views(out@) =~= records_from_triples(all));
            },
            None => {},
        }
    }
    Some(out)
}


/// The durable state at the store location, as the replace protocol sees
/// it: the committed artifact a reader finds, and the scratch artifact a
/// writer may have staged beside it.
pub struct StoreV {
    pub committed: Option<Seq<char>>,
    pub scratch: Option<Seq<char>>,
}

/// A staged write: the committed artifact is untouched.
pub open spec fn step_begin_write(s: StoreV, artifact: Seq<char>) -> StoreV {
    StoreV { committed: s.committed, scratch: Some(artifact) }
}

/// The atomic replace: the staged artifact becomes the committed one in
/// one step.
pub open spec fn step_commit(s: StoreV) -> StoreV {
    StoreV { committed: s.scratch, scratch: None }
}

/// A crash between the two: whatever was staged is abandoned, the
/// committed artifact stays.
pub open spec fn step_crash(s: StoreV) -> StoreV {
    StoreV { committed: s.committed, scratch: None }
}

/// What a reader sees: only ever the committed artifact.
pub open spec fn read_of(s: StoreV) -> Option<Seq<char>> {
    s.committed
}

spec fn opt_chars_view(o: Option<Vec<char>>) -> Option<Seq<char>> {
    match o {
        Some(v) => Some(v@),
        None => None,
    }
}

/// The persistent store's replace protocol. Code at the process edge binds
/// `committed` to the store file and `scratch` to the temporary written
/// beside it; the commit step is the atomic rename over the store file.
#[derive(Debug)]
pub struct StoreState {
    committed: Option<Vec<char>>,
    scratch: Option<Vec<char>>,
}

impl View for StoreState {
    type V = StoreV;

    closed spec fn view(&self) -> StoreV {
        StoreV {
            committed: opt_chars_view(self.committed),
            scratch: opt_chars_view(self.scratch),
        }
    }
}

impl StoreState {
    /// A location with nothing committed and nothing staged.
    pub fn new() -> (r: StoreState)
        ensures
            r@ == (StoreV { committed: None, scratch: None }),
    {
        StoreState { committed: None, scratch: None }
    }

    /// Stages an artifact at the scratch location; the committed artifact
    /// is not touched.
    pub fn begin_write(&mut self, artifact: Vec<char>)
        ensures
            final(self)@ == step_begin_write(old(self)@, artifact@),
    {
        self.scratch = Some(artifact);
    }

    /// Atomically replaces the committed artifact with the staged one.
    pub fn commit(&mut self)
        requires
            old(self)@.scratch is Some,
        ensures
            final(self)@ == step_commit(old(self)@),
    {
        self.committed = self.scratch.take();
    }

    /// A simulated crash between staging and commit: the staged artifact
    /// is lost, the committed one survives.
    pub fn crash(&mut self)
        ensures
            final(self)@ == step_crash(old(self)@),
    {
        self.scratch = None;
    }

    /// Reads the committed artifact, if one has ever been committed.
    pub fn read(&self) -> (r: Option<&Vec<char>>)
        ensures
            match read_of(self@) {
                Some(x) => r matches Some(v) && v@ == x,
                None => r is None,
            },
    {
        self.committed.as_ref()
    }
}

/// Law: the replace protocol is atomic under a crash. Staging never
/// touches the committed artifact, so if the writer dies after the
/// scratch artifact is written but before the commit, the next reader
/// sees exactly what was committed before the write began — or finds the
/// store absent if nothing ever was — never a mixture; and a completed
/// commit publishes exactly the staged artifact.
pub proof fn lemma_atomic_replace(s: StoreV, artifact: Seq<char>)
    ensures
        read_of(step_crash(step_begin_write(s, artifact))) == read_of(s),
        read_of(step_commit(step_begin_write(s, artifact))) == Some(artifact),
{
}

/// Law: persistence round-trips. Writing an index out as records,
/// encoding them, then decoding and reloading what was stored
/// reconstructs, entry for entry, the index that was persisted — for any
/// index, the empty one as well.
pub proof fn lemma_persist_round_trip(index: Seq<EntryV>)
    ensures
        parse_records(enc_all(triples_of(records_of(index)))) matches Some(ts)
            && all_records_valid(records_from_triples(ts)) && load_records(
            records_from_triples(ts),
        ) == index,
{
    let ts0 = triples_of(records_of(index));
    lemma_parse_records_enc(ts0);
    let rs = records_from_triples(ts0);
    assert forall|i: int| 0 <= i < rs.len() implies #[trigger] parse_type(rs[i].filetype)
        is Some by {
        lemma_type_label_round_trip(index[i].filetype);
    }
    assert forall|i: int| 0 <= i < index.len() implies load_records(rs)[i] == index[i] by {
        lemma_type_label_round_trip(index[i].filetype);
    }
    assert(load_records(rs) =~= index);
}

} // verus!
