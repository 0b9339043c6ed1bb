//! The multi-file archive codec.
//!
//! An archive is an ordered list of (name, content) records framed as one
//! plaintext: an 8-byte little-endian entry count, then for each entry its
//! name length, name bytes, content length and content bytes. The whole
//! plaintext is handed to the LZMA engine as a single stream. Order is
//! significant and duplicate names are kept: encode and decode walk the
//! records in the same order.

use crate::lzma::{lzma_of, xz_compress, xz_decompress};
use crate::wire::{copy_range, push_bytes, push_u64_le, read_u64_le};
use crate::RszError;
use vstd::bytes::{lemma_auto_spec_u64_to_from_le_bytes, spec_u64_from_le_bytes, spec_u64_to_le_bytes};
use vstd::prelude::*;

verus! {

/// One file record: the path bytes it was archived under and its exact
/// content bytes. Names are carried as raw bytes; turning them into text
/// is the caller's (lossy) concern.
#[derive(Debug, PartialEq, Eq)]
pub struct ArchiveEntry {
    pub name: Vec<u8>,
    pub content: Vec<u8>,
}

/// The mathematical model of one record.
#[verifier::ext_equal]
pub ghost struct EntryModel {
    pub name: Seq<u8>,
    pub content: Seq<u8>,
}

impl View for ArchiveEntry {
    type V = EntryModel;

    open spec fn view(&self) -> EntryModel {
        EntryModel { name: self.name@, content: self.content@ }
    }
}

/// The models of a sequence of records.
pub open spec fn models(s: Seq<ArchiveEntry>) -> Seq<EntryModel> {
    s.map_values(|e: ArchiveEntry| e@)
}

/// Every length of the record sequence fits the u64 fields of the frame.
pub open spec fn wf_entries(es: Seq<EntryModel>) -> bool {
    &&& es.len() <= u64::MAX
    &&& forall|i: int|
        0 <= i < es.len() ==> (#[trigger] es[i]).name.len() <= u64::MAX && es[i].content.len()
            <= u64::MAX
}

/// The frame of one record: name length, name, content length, content.
pub open spec fn spec_entry_bytes(e: EntryModel) -> Seq<u8> {
    spec_u64_to_le_bytes(e.name.len() as u64) + e.name + spec_u64_to_le_bytes(
        e.content.len() as u64,
    ) + e.content
}

/// The frames of a record sequence, concatenated in order.
pub open spec fn spec_entries_bytes(es: Seq<EntryModel>) -> Seq<u8>
    decreases es.len(),
{
    if es.len() == 0 {
        Seq::empty()
    } else {
        spec_entry_bytes(es[0]) + spec_entries_bytes(es.drop_first())
    }
}

/// The whole archive plaintext: the entry count, then the framed records.
pub open spec fn spec_archive_bytes(es: Seq<EntryModel>) -> Seq<u8> {
    spec_u64_to_le_bytes(es.len() as u64) + spec_entries_bytes(es)
}

proof fn lemma_entries_bytes_push(es: Seq<EntryModel>, e: EntryModel)
    ensures
        spec_entries_bytes(es.push(e)) == spec_entries_bytes(es) + spec_entry_bytes(e),
    decreases es.len(),
{
    if es.len() == 0 {
        assert(es.push(e)[0] == e);
        assert(es.push(e).drop_first() =~= Seq::<EntryModel>::empty());
        assert(spec_entries_bytes(Seq::<EntryModel>::empty()) == Seq::<u8>::empty());
        assert(es =~= Seq::<EntryModel>::empty());
        assert(spec_entries_bytes(es.push(e)) == spec_entry_bytes(e) + Seq::<u8>::empty());
        assert(spec_entries_bytes(es.push(e)) =~= spec_entries_bytes(es) + spec_entry_bytes(e));
    } else {
        assert(es.push(e)[0] == es[0]);
        assert(es.push(e).drop_first() =~= es.drop_first().push(e));
        lemma_entries_bytes_push(es.drop_first(), e);
        assert(spec_entries_bytes(es.push(e)) =~= spec_entries_bytes(es) + spec_entry_bytes(e));
    }
}

/// Serialize the records into the archive plaintext, exactly as the wire
/// format lays them out.
pub fn serialize_archive(entries: &Vec<ArchiveEntry>) -> (out: Vec<u8>)
    ensures
        out@ == spec_archive_bytes(models(entries@)),
{
    let mut out: Vec<u8> = Vec::new();
    push_u64_le(&mut out, entries.len() as u64);
    let ghost header = spec_u64_to_le_bytes(entries@.len() as u64);
    proof {
        assert(models(entries@.take(0)) =~= Seq::<EntryModel>::empty());
        assert(out@ =~= header + spec_entries_bytes(models(entries@.take(0))));
    }
    let mut i: usize = 0;
    while i < entries.len()
        invariant
            i <= entries@.len(),
            header == spec_u64_to_le_bytes(entries@.len() as u64),
            out@ == header + spec_entries_bytes(models(entries@.take(i as int))),
        decreases entries@.len() - i,
    {
        let e = &entries[i];
        push_u64_le(&mut out, e.name.len() as u64);
        push_bytes(&mut out, e.name.as_slice());
        push_u64_le(&mut out, e.content.len() as u64);
        push_bytes(&mut out, e.content.as_slice());
        proof {
            lemma_entries_bytes_push(models(entries@.take(i as int)), entries@[i as int]@);
            assert(models(entries@.take(i + 1)) =~= models(entries@.take(i as int)).push(
                entries@[i as int]@,
            ));
            assert(out@ =~= header + spec_entries_bytes(models(entries@.take(i + 1))));
        }
        i = i + 1;
    }
    proof {
        assert(entries@.take(entries@.len() as int) =~= entries@);
    }
    out
}

/// What the sequential reader yields from `n` record frames: exactly `n`
/// records in order, or `TruncatedArchive` where the stream ends early.
/// Bytes after the last record are never looked at.
pub open spec fn spec_parse_entries(s: Seq<u8>, n: nat) -> Result<Seq<EntryModel>, RszError>
    decreases n,
{
    if n == 0 {
        Ok(Seq::empty())
    } else if s.len() < 8 {
        Err(RszError::TruncatedArchive)
    } else {
        let name_len = spec_u64_from_le_bytes(s.take(8)) as int;
        if s.len() < 8 + name_len {
            Err(RszError::TruncatedArchive)
        } else {
            let name = s.subrange(8, 8 + name_len);
            let s2 = s.skip(8 + name_len);
            if s2.len() < 8 {
                Err(RszError::TruncatedArchive)
            } else {
                let size = spec_u64_from_le_bytes(s2.take(8)) as int;
                if s2.len() < 8 + size {
                    Err(RszError::TruncatedArchive)
                } else {
                    let content = s2.subrange(8, 8 + size);
                    let rest = s2.skip(8 + size);
                    match spec_parse_entries(rest, (n - 1) as nat) {
                        Ok(tail) => Ok(seq![EntryModel { name, content }] + tail),
                        Err(e) => Err(e),
                    }
                }
            }
        }
    }
}

/// What the whole archive plaintext parses to: the entry count from the
/// first 8 bytes, then that many record frames.
pub open spec fn spec_parse_archive(s: Seq<u8>) -> Result<Seq<EntryModel>, RszError> {
    if s.len() < 8 {
        Err(RszError::TruncatedHeader)
    } else {
        spec_parse_entries(s.skip(8), spec_u64_from_le_bytes(s.take(8)) as nat)
    }
}

/// Parsing a stream that begins with one well-formed record frame reads
/// exactly that record, then continues in the remainder.
proof fn lemma_parse_step(e: EntryModel, rest: Seq<u8>, n: nat)
    requires
        n > 0,
        e.name.len() <= u64::MAX,
        e.content.len() <= u64::MAX,
    ensures
        spec_parse_entries(spec_entry_bytes(e) + rest, n) == (match spec_parse_entries(
            rest,
            (n - 1) as nat,
        ) {
            Ok(tail) => Ok::<Seq<EntryModel>, RszError>(seq![e] + tail),
            Err(err) => Err::<Seq<EntryModel>, RszError>(err),
        }),
{
    lemma_auto_spec_u64_to_from_le_bytes();
    let s = spec_entry_bytes(e) + rest;
    let nl = e.name.len() as int;
    let cl = e.content.len() as int;
    assert(s.take(8) =~= spec_u64_to_le_bytes(e.name.len() as u64));
    assert(spec_u64_from_le_bytes(s.take(8)) == e.name.len() as u64);
    assert(s.len() == 16 + nl + cl + rest.len());
    assert(s.subrange(8, 8 + nl) =~= e.name);
    let s2 = s.skip(8 + nl);
    assert(s2 =~= spec_u64_to_le_bytes(e.content.len() as u64) + e.content + rest);
    assert(s2.take(8) =~= spec_u64_to_le_bytes(e.content.len() as u64));
    assert(spec_u64_from_le_bytes(s2.take(8)) == e.content.len() as u64);
    assert(s2.subrange(8, 8 + cl) =~= e.content);
    assert(s2.skip(8 + cl) =~= rest);
    assert(EntryModel { name: s.subrange(8, 8 + nl), content: s2.subrange(8, 8 + cl) } =~= e);
}

proof fn lemma_parse_entries_of_serialized(es: Seq<EntryModel>)
    requires
        forall|i: int|
            0 <= i < es.len() ==> (#[trigger] es[i]).name.len() <= u64::MAX
                && es[i].content.len() <= u64::MAX,
    ensures
        spec_parse_entries(spec_entries_bytes(es), es.len()) == Ok::<Seq<EntryModel>, RszError>(es),
    decreases es.len(),
{
    if es.len() == 0 {
        assert(es =~= Seq::<EntryModel>::empty());
    } else {
        let tail = es.drop_first();
        lemma_parse_step(es[0], spec_entries_bytes(tail), es.len());
        lemma_parse_entries_of_serialized(tail);
        assert(seq![es[0]] + tail =~= es);
    }
}

/// Decoding inverts encoding: the serialized archive of any well-formed
/// record sequence parses back to exactly those records, in order —
/// duplicate names included, nothing reordered or dropped.
pub proof fn lemma_archive_round_trip(es: Seq<EntryModel>)
    requires
        wf_entries(es),
    ensures
        spec_parse_archive(spec_archive_bytes(es)) == Ok::<Seq<EntryModel>, RszError>(es),
{
    lemma_auto_spec_u64_to_from_le_bytes();
    let s = spec_archive_bytes(es);
    assert(s.take(8) =~= spec_u64_to_le_bytes(es.len() as u64));
    assert(s.skip(8) =~= spec_entries_bytes(es));
    lemma_parse_entries_of_serialized(es);
}

proof fn lemma_parse_entries_missing(es: Seq<EntryModel>, n: nat)
    requires
        n > es.len(),
        forall|i: int|
            0 <= i < es.len() ==> (#[trigger] es[i]).name.len() <= u64::MAX
                && es[i].content.len() <= u64::MAX,
    ensures
        spec_parse_entries(spec_entries_bytes(es), n) == Err::<Seq<EntryModel>, RszError>(
            RszError::TruncatedArchive,
        ),
    decreases es.len(),
{
    if es.len() == 0 {
        assert(spec_entries_bytes(es).len() == 0);
    } else {
        let tail = es.drop_first();
        lemma_parse_step(es[0], spec_entries_bytes(tail), n);
        lemma_parse_entries_missing(tail, (n - 1) as nat);
    }
}

/// Cutting an archive plaintext at any record boundary, while the header
/// still promises more records, parses to `TruncatedArchive` — never to a
/// silently shorter archive.
pub proof fn lemma_archive_truncation_detected(es: Seq<EntryModel>, k: int)
    requires
        wf_entries(es),
        0 <= k < es.len(),
    ensures
        spec_parse_archive(
            spec_u64_to_le_bytes(es.len() as u64) + spec_entries_bytes(es.take(k)),
        ) == Err::<Seq<EntryModel>, RszError>(RszError::TruncatedArchive),
{
    lemma_auto_spec_u64_to_from_le_bytes();
    let cut = es.take(k);
    let s = spec_u64_to_le_bytes(es.len() as u64) + spec_entries_bytes(cut);
    assert(s.take(8) =~= spec_u64_to_le_bytes(es.len() as u64));
    assert(s.skip(8) =~= spec_entries_bytes(cut));
    assert(forall|i: int|
        0 <= i < cut.len() ==> (#[trigger] cut[i]).name.len() <= u64::MAX && cut[i].content.len()
            <= u64::MAX);
    lemma_parse_entries_missing(cut, es.len());
}

proof fn lemma_parse_entries_err_kind(s: Seq<u8>, n: nat)
    ensures
        spec_parse_entries(s, n) is Err ==> spec_parse_entries(s, n)->Err_0
            == RszError::TruncatedArchive,
    decreases n,
{
    if n > 0 && s.len() >= 8 {
        let name_len = spec_u64_from_le_bytes(s.take(8)) as int;
        if s.len() >= 8 + name_len {
            let s2 = s.skip(8 + name_len);
            if s2.len() >= 8 {
                let size = spec_u64_from_le_bytes(s2.take(8)) as int;
                if s2.len() >= 8 + size {
                    lemma_parse_entries_err_kind(s2.skip(8 + size), (n - 1) as nat);
                }
            }
        }
    }
}

/// The overall parse once `prefix` has been read and `rest` is what the
/// reader still yields.
spec fn spec_compose(
    prefix: Seq<EntryModel>,
    rest: Result<Seq<EntryModel>, RszError>,
) -> Result<Seq<EntryModel>, RszError> {
    match rest {
        Ok(tail) => Ok(prefix + tail),
        Err(e) => Err(e),
    }
}

/// Parse a whole archive plaintext, walking the record frames in order.
///
/// The result is exactly what `spec_parse_archive` says of the bytes: the
/// records on success, `TruncatedHeader` when even the count is missing,
/// `TruncatedArchive` when a frame runs past the end.
pub fn parse_archive(plain: &[u8]) -> (r: Result<Vec<ArchiveEntry>, RszError>)
    ensures
        spec_parse_archive(plain@) is Ok ==> r is Ok && models(r->Ok_0@) == spec_parse_archive(
            plain@,
        )->Ok_0,
        spec_parse_archive(plain@) is Err ==> r is Err && r->Err_0 == spec_parse_archive(
            plain@,
        )->Err_0,
{
    proof {
        lemma_auto_spec_u64_to_from_le_bytes();
    }
    let total = plain.len();
    if total < 8 {
        return Err(RszError::TruncatedHeader);
    }
    let count = read_u64_le(plain, 0);
    proof {
        assert(plain@.subrange(0, 8) =~= plain@.take(8));
    }
    let mut pos: usize = 8;
    let mut k: u64 = 0;
    let mut acc: Vec<ArchiveEntry> = Vec::new();
    proof {
        assert(models(acc@) =~= Seq::<EntryModel>::empty());
        let rest0 = spec_parse_entries(plain@.skip(8), count as nat);
        if rest0 is Ok {
            assert(models(acc@) + rest0->Ok_0 =~= rest0->Ok_0);
        }
    }
    while k < count
        invariant
            8 <= pos <= plain@.len(),
            plain@.len() >= 8,
            k <= count,
            total == plain@.len(),
            count == spec_u64_from_le_bytes(plain@.take(8)),
            spec_parse_archive(plain@) == spec_compose(
                models(acc@),
                spec_parse_entries(plain@.skip(pos as int), (count - k) as nat),
            ),
        decreases count - k,
    {
        let ghost s_rem = plain@.skip(pos as int);
        let ghost m = (count - k) as nat;
        if total - pos < 8 {
            proof {
                assert(s_rem.len() < 8);
            }
            return Err(RszError::TruncatedArchive);
        }
        let name_len64 = read_u64_le(plain, pos);
        proof {
            assert(plain@.subrange(pos as int, pos + 8) =~= s_rem.take(8));
        }
        let avail_name = total - pos - 8;
        if (avail_name as u64) < name_len64 {
            proof {
                assert(s_rem.len() < 8 + name_len64);
            }
            return Err(RszError::TruncatedArchive);
        }
        let name_len = name_len64 as usize;
        let name = copy_range(plain, pos + 8, pos + 8 + name_len);
        let pos2 = pos + 8 + name_len;
        let ghost s2 = plain@.skip(pos2 as int);
        proof {
            assert(s2 =~= s_rem.skip(8 + name_len as int));
            assert(name@ =~= s_rem.subrange(8, 8 + name_len as int));
        }
        if total - pos2 < 8 {
            proof {
                assert(s2.len() < 8);
            }
            return Err(RszError::TruncatedArchive);
        }
        let size64 = read_u64_le(plain, pos2);
        proof {
            assert(plain@.subrange(pos2 as int, pos2 + 8) =~= s2.take(8));
        }
        let avail_content = total - pos2 - 8;
        if (avail_content as u64) < size64 {
            proof {
                assert(s2.len() < 8 + size64);
            }
            return Err(RszError::TruncatedArchive);
        }
        let size = size64 as usize;
        let content = copy_range(plain, pos2 + 8, pos2 + 8 + size);
        let pos3 = pos2 + 8 + size;
        proof {
            assert(content@ =~= s2.subrange(8, 8 + size as int));
            assert(plain@.skip(pos3 as int) =~= s2.skip(8 + size as int));
        }
        let entry = ArchiveEntry { name, content };
        let ghost old_models = models(acc@);
        acc.push(entry);
        pos = pos3;
        k = k + 1;
        proof {
            assert(models(acc@) =~= old_models.push(entry@));
            let rest_new = spec_parse_entries(plain@.skip(pos as int), (count - k) as nat);
            assert(EntryModel {
                name: s_rem.subrange(8, 8 + name_len as int),
                content: s2.subrange(8, 8 + size as int),
            } =~= entry@);
            assert(spec_parse_entries(s_rem, m) == spec_compose(seq![entry@], rest_new));
            if rest_new is Ok {
                assert(old_models + (seq![entry@] + rest_new->Ok_0) =~= old_models.push(entry@)
                    + rest_new->Ok_0);
            }
        }
    }
    proof {
        assert(models(acc@) + Seq::<EntryModel>::empty() =~= models(acc@));
    }
    Ok(acc)
}

/// Encode the records into one compressed archive stream.
///
/// A level above 9 is rejected; every valid level succeeds, and the
/// output is exactly the compressed serialized plaintext.
pub fn encode_archive(entries: &Vec<ArchiveEntry>, level: u32) -> (r: Result<Vec<u8>, RszError>)
    ensures
        level > 9 ==> r == Err::<Vec<u8>, RszError>(RszError::InvalidArgument),
        level <= 9 ==> r is Ok && r->Ok_0@ == lzma_of(
            spec_archive_bytes(models(entries@)),
            level,
        ),
{
    if level > 9 {
        return Err(RszError::InvalidArgument);
    }
    let plain = serialize_archive(entries);
    Ok(xz_compress(plain.as_slice(), level))
}

/// Decode one compressed archive stream back into its records.
///
/// A stream that `encode_archive` produced for some well-formed record
/// sequence decodes to exactly those records, in order; every failure is
/// one of `TruncatedHeader`, `TruncatedArchive` or `Io`.
pub fn decode_archive(stream: &[u8]) -> (r: Result<Vec<ArchiveEntry>, RszError>)
    ensures
        forall|es: Seq<EntryModel>, p: u32|
            p <= 9 && wf_entries(es) && stream@ == #[trigger] lzma_of(spec_archive_bytes(es), p)
                ==> r is Ok && models(r->Ok_0@) == es,
        r is Err ==> (r->Err_0 == RszError::TruncatedHeader || r->Err_0
            == RszError::TruncatedArchive || r->Err_0 == RszError::Io),
{
    let plain = match xz_decompress(stream) {
        Ok(p) => p,
        Err(e) => {
            return Err(e);
        },
    };
    let ghost plain_view = plain@;
    let r = parse_archive(plain.as_slice());
    proof {
        assert forall|es: Seq<EntryModel>, p: u32|
            p <= 9 && wf_entries(es) && stream@ == #[trigger] lzma_of(spec_archive_bytes(es), p)
            implies r is Ok && models(r->Ok_0@) == es by {
            assert(plain_view == spec_archive_bytes(es));
            lemma_archive_round_trip(es);
        }
        if r is Err {
            if plain_view.len() >= 8 {
                lemma_parse_entries_err_kind(
                    plain_view.skip(8),
                    spec_u64_from_le_bytes(plain_view.take(8)) as nat,
                );
            }
        }
    }
    r
}

} // verus!
