//! Stable values stored behind the provider contract.
//!
//! An envelope is `RGFC`, a version byte, a kind byte, the path, the generation snapshots and
//! the payload behind its length. Texts and lists stand behind their lengths; all numbers are
//! big-endian.

use crate::big_endian;
use crate::error;
use crate::error::{CacheError, CacheResult, Failure};
use crate::file_info;
use crate::file_info::{FileInfo, FileInfoView};
use crate::outside;
use crate::reader;
use crate::reader::BinaryReader;
use crate::text;
use bytes::Bytes;
use std::ops::Range;
use vstd::prelude::*;

verus! {

/// The version that is written and the only one that is read.
pub const CACHE_ENVELOPE_VERSION: u8 = 2;

/// The kind byte of a file envelope.
pub const KIND_FILE: u8 = 1;

/// The kind byte of a directory envelope.
pub const KIND_DIRECTORY: u8 = 2;

/// The kind byte of a stat envelope.
pub const KIND_STAT: u8 = 3;

/// What an envelope holds.
#[derive(Debug, Clone, Copy, PartialEq, Eq, Structural)]
pub enum CacheObjectKind {
    File,
    Directory,
    Stat,
}

/// The value that a generation counter had when an envelope was made.
#[derive(Debug, Clone)]
pub struct GenerationSnapshot {
    pub key: String,
    pub value: u64,
}

/// The content of a `GenerationSnapshot`.
pub struct SnapshotView {
    pub key: Seq<char>,
    pub value: u64,
}

impl View for GenerationSnapshot {
    type V = SnapshotView;

    open spec fn view(&self) -> SnapshotView {
        SnapshotView { key: self.key@, value: self.value }
    }
}

/// The contents of a list of snapshots.
pub open spec fn snapshot_views(snapshots: Seq<GenerationSnapshot>) -> Seq<SnapshotView> {
    Seq::new(snapshots.len(), |i: int| snapshots[i]@)
}

#[derive(Debug, Clone)]
enum CachePayload {
    File(Vec<u8>),
    Directory(Vec<FileInfo>),
    Stat(FileInfo),
}

/// The payload of an envelope.
pub enum PayloadView {
    File(Seq<u8>),
    Directory(Seq<FileInfoView>),
    Stat(FileInfoView),
}

/// A cached file, directory listing or stat result.
#[derive(Debug, Clone)]
pub struct CacheEnvelope {
    version: u8,
    kind: CacheObjectKind,
    path: String,
    generations: Vec<GenerationSnapshot>,
    payload: CachePayload,
}

/// The content of a `CacheEnvelope`.
pub struct EnvelopeView {
    pub version: u8,
    pub kind: CacheObjectKind,
    pub path: Seq<char>,
    pub generations: Seq<SnapshotView>,
    pub payload: PayloadView,
}

impl EnvelopeView {
    /// What holds of every envelope that is built or decoded: it has the current version, and
    /// its kind is that of its payload.
    pub open spec fn well_formed(self) -> bool {
        &&& self.version == CACHE_ENVELOPE_VERSION
        &&& match self.payload {
            PayloadView::File(_) => self.kind == CacheObjectKind::File,
            PayloadView::Directory(_) => self.kind == CacheObjectKind::Directory,
            PayloadView::Stat(_) => self.kind == CacheObjectKind::Stat,
        }
    }

    /// Whether every text and every list fits its length field.
    pub open spec fn fits(self) -> bool {
        &&& file_info::text_fits(self.path)
        &&& self.generations.len() <= u32::MAX
        &&& forall|i: int|
            0 <= i < self.generations.len() ==> file_info::text_fits(
                #[trigger] self.generations[i].key,
            )
        &&& match self.payload {
            PayloadView::File(_) => true,
            PayloadView::Directory(entries) => file_info::directory_fits(entries),
            PayloadView::Stat(info) => file_info::text_fits(info.name),
        }
    }
}

impl View for CacheEnvelope {
    type V = EnvelopeView;

    closed spec fn view(&self) -> EnvelopeView {
        EnvelopeView {
            version: self.version,
            kind: self.kind,
            path: self.path@,
            generations: snapshot_views(self.generations@),
            payload: match self.payload {
                CachePayload::File(data) => PayloadView::File(data@),
                CachePayload::Directory(entries) => PayloadView::Directory(
                    file_info::info_views(entries@),
                ),
                CachePayload::Stat(info) => PayloadView::Stat(info@),
            },
        }
    }
}

/// A decoded file envelope whose payload stays in the encoded bytes.
#[derive(Debug)]
pub struct FileEnvelopeView<'a> {
    path: String,
    generations: Vec<GenerationSnapshot>,
    payload: &'a [u8],
}

/// A decoded file envelope with the place of its payload in the encoded bytes.
#[derive(Debug)]
pub struct FileEnvelopeParts {
    path: String,
    generations: Vec<GenerationSnapshot>,
    payload_range: Range<usize>,
}

/// What stands around the payload of an envelope, and where the payload lies.
pub struct LayoutView {
    pub path: Seq<char>,
    pub generations: Seq<SnapshotView>,
    pub payload_start: int,
    pub payload_end: int,
}

impl<'a> FileEnvelopeView<'a> {
    /// The path in the envelope.
    pub closed spec fn path_view(self) -> Seq<char> {
        self.path@
    }

    /// The snapshots in the envelope.
    pub closed spec fn snapshots(self) -> Seq<GenerationSnapshot> {
        self.generations@
    }

    /// The file's bytes.
    pub closed spec fn data(self) -> Seq<u8> {
        self.payload@
    }

    pub fn path(&self) -> (path: &str)
        ensures
            path@ == self.path_view(),
    {
        self.path.as_str()
    }

    pub fn generations(&self) -> (generations: &[GenerationSnapshot])
        ensures
            generations@ == self.snapshots(),
    {
        self.generations.as_slice()
    }

    pub fn payload(&self) -> (payload: &'a [u8])
        ensures
            payload@ == self.data(),
    {
        self.payload
    }
}

impl View for FileEnvelopeParts {
    type V = LayoutView;

    closed spec fn view(&self) -> LayoutView {
        LayoutView {
            path: self.path@,
            generations: snapshot_views(self.generations@),
            payload_start: self.payload_range.start as int,
            payload_end: self.payload_range.end as int,
        }
    }
}

impl FileEnvelopeParts {
    pub fn path(&self) -> (path: &str)
        ensures
            path@ == self@.path,
    {
        self.path.as_str()
    }

    pub fn into_generations(self) -> (generations: Vec<GenerationSnapshot>)
        ensures
            snapshot_views(generations@) == self@.generations,
    {
        self.generations
    }

    pub fn payload_range(&self) -> (range: Range<usize>)
        ensures
            range.start == self@.payload_start,
            range.end == self@.payload_end,
    {
        self.payload_range.start..self.payload_range.end
    }
}

// Encoding.

/// `RGFC`.
pub open spec fn magic() -> Seq<u8> {
    seq![0x52u8, 0x47u8, 0x46u8, 0x43u8]
}

/// The byte that stands for a kind.
pub open spec fn kind_byte(kind: CacheObjectKind) -> u8 {
    match kind {
        CacheObjectKind::File => KIND_FILE,
        CacheObjectKind::Directory => KIND_DIRECTORY,
        CacheObjectKind::Stat => KIND_STAT,
    }
}

/// The encoding of one snapshot.
pub open spec fn snapshot_bytes(snapshot: SnapshotView) -> Seq<u8> {
    file_info::text_bytes(snapshot.key) + big_endian::digits(snapshot.value as nat, 8)
}

/// The encodings of a list of snapshots, one behind the other.
pub open spec fn snapshots_bytes(snapshots: Seq<SnapshotView>) -> Seq<u8>
    decreases snapshots.len(),
{
    if snapshots.len() == 0 {
        Seq::empty()
    } else {
        snapshots_bytes(snapshots.drop_last()) + snapshot_bytes(snapshots.last())
    }
}

/// The payload as it stands in the envelope, without its length.
pub open spec fn payload_bytes(payload: PayloadView) -> Seq<u8> {
    match payload {
        PayloadView::File(data) => data,
        PayloadView::Directory(entries) => file_info::directory_bytes(entries),
        PayloadView::Stat(info) => file_info::info_bytes(info),
    }
}

/// Magic, version and kind.
pub open spec fn preamble_bytes(kind: CacheObjectKind) -> Seq<u8> {
    magic().push(CACHE_ENVELOPE_VERSION).push(kind_byte(kind))
}

/// Everything between the kind byte and the payload.
pub open spec fn middle_bytes(
    path: Seq<char>,
    generations: Seq<SnapshotView>,
    payload_length: nat,
) -> Seq<u8> {
    file_info::text_bytes(path) + (big_endian::digits(generations.len(), 4) + (snapshots_bytes(
        generations,
    ) + big_endian::digits(payload_length, 8)))
}

/// The encoding of an envelope.
pub open spec fn envelope_bytes(envelope: EnvelopeView) -> Seq<u8> {
    let payload = payload_bytes(envelope.payload);
    preamble_bytes(envelope.kind) + (middle_bytes(
        envelope.path,
        envelope.generations,
        payload.len(),
    ) + payload)
}

/// Appends the snapshots behind their number, if every length fits.
fn write_generations(encoded: &mut Vec<u8>, generations: &[GenerationSnapshot]) -> (written:
    CacheResult<()>)
    ensures
        ({
            let views = snapshot_views(generations@);
            if views.len() <= u32::MAX && (forall|i: int|
                0 <= i < views.len() ==> file_info::text_fits(#[trigger] views[i].key)) {
                &&& written is Ok
                &&& final(encoded)@ == old(encoded)@ + big_endian::digits(views.len(), 4)
                    + snapshots_bytes(views)
            } else {
                error::settled(written) == Err::<(), Failure>(file_info::field_too_large())
            }
        }),
{
    let ghost views = snapshot_views(generations@);
    let ghost start = encoded@ + big_endian::digits(views.len(), 4);
    match file_info::write_u32(encoded, generations.len()) {
        Ok(_) => {},
        Err(error) => return Err(error),
    }
    let mut index: usize = 0;
    assert(encoded@ =~= start + snapshots_bytes(views.take(0)));
    while index < generations.len()
        invariant
            index <= generations@.len(),
            generations@.len() <= u32::MAX,
            views == snapshot_views(generations@),
            forall|i: int| 0 <= i < index ==> file_info::text_fits(#[trigger] views[i].key),
            encoded@ == start + snapshots_bytes(views.take(index as int)),
        decreases generations@.len() - index,
    {
        assert(views[index as int] == generations@[index as int]@);
        match file_info::write_string(encoded, generations[index].key.as_str()) {
            Ok(_) => {},
            Err(error) => {
                assert(!file_info::text_fits(views[index as int].key));
                return Err(error);
            },
        }
        big_endian::push_u64(encoded, generations[index].value);
        assert(views.take(index + 1).drop_last() =~= views.take(index as int));
        index = index + 1;
        assert(encoded@ =~= start + snapshots_bytes(views.take(index as int)));
    }
    assert(views.take(index as int) =~= views);
    Ok(())
}

// Decoding.

/// The kind that the first six bytes announce.
pub open spec fn preamble_of(input: Seq<u8>) -> Result<CacheObjectKind, Failure> {
    match reader::chunk(input, 0, 4) {
        Err(failure) => Err(failure),
        Ok(found) => if found != magic() {
            Err(reader::malformed("invalid envelope magic"@))
        } else {
            match reader::chunk(input, 4, 1) {
                Err(failure) => Err(failure),
                Ok(version) => if version[0] != CACHE_ENVELOPE_VERSION {
                    Err(
                        reader::malformed(
                            "unsupported envelope version "@ + text::decimal(version[0] as nat),
                        ),
                    )
                } else {
                    match reader::chunk(input, 5, 1) {
                        Err(failure) => Err(failure),
                        Ok(kind) => if kind[0] == KIND_FILE {
                            Ok(CacheObjectKind::File)
                        } else if kind[0] == KIND_DIRECTORY {
                            Ok(CacheObjectKind::Directory)
                        } else if kind[0] == KIND_STAT {
                            Ok(CacheObjectKind::Stat)
                        } else {
                            Err(
                                reader::malformed(
                                    "unsupported envelope kind "@ + text::decimal(kind[0] as nat),
                                ),
                            )
                        },
                    }
                },
            }
        },
    }
}

/// The snapshot encoded at `at`, and where it ends.
pub open spec fn snapshot_at(input: Seq<u8>, at: int) -> Result<(SnapshotView, int), Failure> {
    match reader::string(input, at) {
        Err(failure) => Err(failure),
        Ok((key, next)) => match reader::number(input, next, 8) {
            Err(failure) => Err(failure),
            Ok(value) => Ok((SnapshotView { key, value: value as u64 }, next + 8)),
        },
    }
}

/// The `count` snapshots encoded one behind the other at `at`, and where they end.
pub open spec fn snapshots_at(input: Seq<u8>, at: int, count: nat) -> Result<
    (Seq<SnapshotView>, int),
    Failure,
>
    decreases count,
{
    if count == 0 {
        Ok((Seq::empty(), at))
    } else {
        match snapshot_at(input, at) {
            Err(failure) => Err(failure),
            Ok((first, next)) => match snapshots_at(input, next, (count - 1) as nat) {
                Err(failure) => Err(failure),
                Ok((rest, end)) => Ok((seq![first] + rest, end)),
            },
        }
    }
}

/// What stands behind the kind byte: path, snapshots, and a payload that ends the input.
pub open spec fn layout_of(input: Seq<u8>) -> Result<LayoutView, Failure> {
    match reader::string(input, 6) {
        Err(failure) => Err(failure),
        Ok((path, counted)) => match reader::number(input, counted, 4) {
            Err(failure) => Err(failure),
            Ok(count) => match snapshots_at(input, counted + 4, count) {
                Err(failure) => Err(failure),
                Ok((generations, sized)) => match reader::number(input, sized, 8) {
                    Err(failure) => Err(failure),
                    Ok(length) => {
                        let kept = ((length as u64) as usize) as int;
                        match reader::chunk(input, sized + 8, kept) {
                            Err(failure) => Err(failure),
                            Ok(_) => if sized + 8 + kept != input.len() {
                                Err(reader::malformed("trailing bytes in cache envelope"@))
                            } else {
                                Ok(
                                    LayoutView {
                                        path,
                                        generations,
                                        payload_start: sized + 8,
                                        payload_end: sized + 8 + kept,
                                    },
                                )
                            },
                        }
                    },
                },
            },
        },
    }
}

/// What a payload of the given kind encodes.
pub open spec fn payload_of(kind: CacheObjectKind, payload: Seq<u8>) -> Result<
    PayloadView,
    Failure,
> {
    match kind {
        CacheObjectKind::File => Ok(PayloadView::File(payload)),
        CacheObjectKind::Directory => match file_info::directory_of(payload) {
            Ok(entries) => Ok(PayloadView::Directory(entries)),
            Err(failure) => Err(failure),
        },
        CacheObjectKind::Stat => match file_info::stat_of(payload) {
            Ok(info) => Ok(PayloadView::Stat(info)),
            Err(failure) => Err(failure),
        },
    }
}

/// The envelope that `input` encodes.
pub open spec fn envelope_of(input: Seq<u8>) -> Result<EnvelopeView, Failure> {
    match preamble_of(input) {
        Err(failure) => Err(failure),
        Ok(kind) => match layout_of(input) {
            Err(failure) => Err(failure),
            Ok(layout) => match payload_of(
                kind,
                input.subrange(layout.payload_start, layout.payload_end),
            ) {
                Err(failure) => Err(failure),
                Ok(payload) => Ok(
                    EnvelopeView {
                        version: CACHE_ENVELOPE_VERSION,
                        kind,
                        path: layout.path,
                        generations: layout.generations,
                        payload,
                    },
                ),
            },
        },
    }
}

/// The layout of the file envelope that `input` encodes.
pub open spec fn file_layout_of(input: Seq<u8>) -> Result<LayoutView, Failure> {
    match preamble_of(input) {
        Err(failure) => Err(failure),
        Ok(kind) => if kind != CacheObjectKind::File {
            Err(reader::malformed("expected file envelope"@))
        } else {
            layout_of(input)
        },
    }
}

/// Reads magic, version and kind from the front of `value`.
fn read_preamble(reader: &mut BinaryReader<'_>) -> (kind: CacheResult<CacheObjectKind>)
    requires
        old(reader).at() == 0,
    ensures
        error::settled(kind) == preamble_of(old(reader).input()),
        final(reader).input() == old(reader).input(),
        kind is Ok ==> final(reader).at() == 6,
{
    let found = match reader.read_bytes(4) {
        Ok(found) => found,
        Err(error) => return Err(error),
    };
    if !(found[0] == 0x52 && found[1] == 0x47 && found[2] == 0x46 && found[3] == 0x43) {
        return Err(CacheError::InvalidData("invalid envelope magic".to_owned()));
    }
    assert(found@ =~= magic());
    let version: u8 = match reader.read_u8() {
        Ok(version) => version,
        Err(error) => return Err(error),
    };
    if version != CACHE_ENVELOPE_VERSION {
        let mut message = "unsupported envelope version ".to_owned();
        text::push_decimal(&mut message, version as u64);
        return Err(CacheError::InvalidData(message));
    }
    let kind: u8 = match reader.read_u8() {
        Ok(kind) => kind,
        Err(error) => return Err(error),
    };
    if kind == KIND_FILE {
        Ok(CacheObjectKind::File)
    } else if kind == KIND_DIRECTORY {
        Ok(CacheObjectKind::Directory)
    } else if kind == KIND_STAT {
        Ok(CacheObjectKind::Stat)
    } else {
        let mut message = "unsupported envelope kind ".to_owned();
        text::push_decimal(&mut message, kind as u64);
        Err(CacheError::InvalidData(message))
    }
}

/// Snapshots already read, in front of what the rest of the input gives.
spec fn behind(done: Seq<SnapshotView>, rest: Result<(Seq<SnapshotView>, int), Failure>) -> Result<
    (Seq<SnapshotView>, int),
    Failure,
> {
    match rest {
        Ok((snapshots, end)) => Ok((done + snapshots, end)),
        Err(failure) => Err(failure),
    }
}

/// Reads `count` snapshots.
fn read_generations(reader: &mut BinaryReader<'_>, count: u32) -> (generations: CacheResult<
    Vec<GenerationSnapshot>,
>)
    ensures
        final(reader).input() == old(reader).input(),
        match snapshots_at(old(reader).input(), old(reader).at(), count as nat) {
            Ok((expected, end)) => {
                &&& generations matches Ok(got)
                &&& snapshot_views(got@) == expected
                &&& final(reader).at() == end
            },
            Err(failure) => generations matches Err(error) && error@ == failure,
        },
{
    let ghost input = reader.input();
    let ghost total = snapshots_at(input, reader.at(), count as nat);
    let mut generations: Vec<GenerationSnapshot> = Vec::new();
    let mut index: u32 = 0;
    proof {
        assert(snapshot_views(generations@) =~= Seq::empty());
        if let Ok((rest, end)) = total {
            assert(Seq::empty() + rest =~= rest);
        }
    }
    while index < count
        invariant
            index <= count,
            reader.input() == input,
            input == old(reader).input(),
            total == snapshots_at(input, old(reader).at(), count as nat),
            total == behind(
                snapshot_views(generations@),
                snapshots_at(input, reader.at(), (count - index) as nat),
            ),
        decreases count - index,
    {
        let ghost done = snapshot_views(generations@);
        let key = match reader.read_string() {
            Ok(key) => key,
            Err(error) => return Err(error),
        };
        let value: u64 = match reader.read_u64() {
            Ok(value) => value,
            Err(error) => return Err(error),
        };
        let snapshot = GenerationSnapshot { key, value };
        proof {
            let rest = snapshots_at(input, reader.at(), (count - index - 1) as nat);
            if let Ok((later, end)) = rest {
                assert(done + (seq![snapshot@] + later) =~= done.push(snapshot@) + later);
            }
        }
        generations.push(snapshot);
        index = index + 1;
        assert(snapshot_views(generations@) =~= done.push(snapshot@));
    }
    assert(snapshot_views(generations@) + Seq::empty() =~= snapshot_views(generations@));
    Ok(generations)
}

/// Reads everything behind the kind byte.
fn read_layout(reader: &mut BinaryReader<'_>) -> (parts: CacheResult<FileEnvelopeParts>)
    requires
        old(reader).at() == 6,
    ensures
        error::outcome(parts) == layout_of(old(reader).input()),
        final(reader).input() == old(reader).input(),
{
    let path = match reader.read_string() {
        Ok(path) => path,
        Err(error) => return Err(error),
    };
    let generation_count: u32 = match reader.read_u32() {
        Ok(count) => count,
        Err(error) => return Err(error),
    };
    let generations = match read_generations(reader, generation_count) {
        Ok(generations) => generations,
        Err(error) => return Err(error),
    };
    let payload_len: usize = match reader.read_u64() {
        Ok(length) => length as usize,
        Err(error) => return Err(error),
    };
    let payload_start: usize = reader.position();
    match reader.read_bytes(payload_len) {
        Ok(_) => {},
        Err(error) => return Err(error),
    }
    let payload_end: usize = reader.position();
    if !reader.is_finished() {
        return Err(CacheError::InvalidData("trailing bytes in cache envelope".to_owned()));
    }
    Ok(FileEnvelopeParts { path, generations, payload_range: payload_start..payload_end })
}

impl CacheEnvelope {
    /// An envelope around the bytes of a file.
    pub fn file(path: String, data: Vec<u8>, generations: Vec<GenerationSnapshot>) -> (envelope:
        Self)
        ensures
            envelope@.well_formed(),
            envelope@.path == path@,
            envelope@.generations == snapshot_views(generations@),
            envelope@.payload == PayloadView::File(data@),
    {
        CacheEnvelope {
            version: CACHE_ENVELOPE_VERSION,
            kind: CacheObjectKind::File,
            path,
            generations,
            payload: CachePayload::File(data),
        }
    }

    /// An envelope around a directory listing.
    pub fn directory(
        path: String,
        entries: Vec<FileInfo>,
        generations: Vec<GenerationSnapshot>,
    ) -> (envelope: Self)
        ensures
            envelope@.well_formed(),
            envelope@.path == path@,
            envelope@.generations == snapshot_views(generations@),
            envelope@.payload == PayloadView::Directory(file_info::info_views(entries@)),
    {
        CacheEnvelope {
            version: CACHE_ENVELOPE_VERSION,
            kind: CacheObjectKind::Directory,
            path,
            generations,
            payload: CachePayload::Directory(entries),
        }
    }

    /// An envelope around a stat result.
    pub fn stat(path: String, info: FileInfo, generations: Vec<GenerationSnapshot>) -> (envelope:
        Self)
        ensures
            envelope@.well_formed(),
            envelope@.path == path@,
            envelope@.generations == snapshot_views(generations@),
            envelope@.payload == PayloadView::Stat(info@),
    {
        CacheEnvelope {
            version: CACHE_ENVELOPE_VERSION,
            kind: CacheObjectKind::Stat,
            path,
            generations,
            payload: CachePayload::Stat(info),
        }
    }

    /// The encoded envelope. Fails exactly where a length does not fit its field.
    pub fn encode(&self) -> (encoded: CacheResult<Bytes>)
        ensures
            match encoded {
                Ok(buffer) => self@.fits() && outside::content(buffer) == envelope_bytes(self@),
                Err(error) => !self@.fits() && error@ == file_info::field_too_large(),
            },
    {
        let mut encoded: Vec<u8> = Vec::new();
        encoded.push(0x52);
        encoded.push(0x47);
        encoded.push(0x46);
        encoded.push(0x43);
        encoded.push(CACHE_ENVELOPE_VERSION);
        encoded.push(
            match self.kind {
                CacheObjectKind::File => KIND_FILE,
                CacheObjectKind::Directory => KIND_DIRECTORY,
                CacheObjectKind::Stat => KIND_STAT,
            },
        );
        assert(encoded@ =~= preamble_bytes(self@.kind));
        match file_info::write_string(&mut encoded, self.path.as_str()) {
            Ok(_) => {},
            Err(error) => return Err(error),
        }
        match write_generations(&mut encoded, self.generations.as_slice()) {
            Ok(_) => {},
            Err(error) => return Err(error),
        }
        match &self.payload {
            CachePayload::File(data) => {
                let _ = file_info::write_u64(&mut encoded, data.len());
                text::push_bytes(&mut encoded, data.as_slice());
            },
            CachePayload::Directory(entries) => {
                let payload = match file_info::encode_directory_payload(entries.as_slice()) {
                    Ok(payload) => payload,
                    Err(error) => return Err(error),
                };
                let _ = file_info::write_u64(&mut encoded, payload.len());
                text::push_bytes(&mut encoded, payload.as_slice());
            },
            CachePayload::Stat(info) => {
                let payload = match file_info::encode_file_info_payload(info) {
                    Ok(payload) => payload,
                    Err(error) => return Err(error),
                };
                let _ = file_info::write_u64(&mut encoded, payload.len());
                text::push_bytes(&mut encoded, payload.as_slice());
            },
        }
        assert(encoded@ =~= envelope_bytes(self@));
        Ok(outside::bytes_from_vec(encoded))
    }

    /// The envelope that `value` encodes.
    pub fn decode(value: &[u8]) -> (envelope: CacheResult<Self>)
        ensures
            error::outcome(envelope) == envelope_of(value@),
            envelope matches Ok(decoded) ==> decoded@.well_formed(),
    {
        let mut reader = BinaryReader::new(value);
        let kind = match read_preamble(&mut reader) {
            Ok(kind) => kind,
            Err(error) => return Err(error),
        };
        let parts = match read_layout(&mut reader) {
            Ok(parts) => parts,
            Err(error) => return Err(error),
        };
        let payload_bytes = &value[parts.payload_range.start..parts.payload_range.end];
        let payload = match kind {
            CacheObjectKind::File => CachePayload::File(vstd::slice::slice_to_vec(payload_bytes)),
            CacheObjectKind::Directory => match file_info::decode_directory_payload(payload_bytes) {
                Ok(entries) => CachePayload::Directory(entries),
                Err(error) => return Err(error),
            },
            CacheObjectKind::Stat => match file_info::decode_file_info_payload(payload_bytes) {
                Ok(info) => CachePayload::Stat(info),
                Err(error) => return Err(error),
            },
        };
        Ok(
            CacheEnvelope {
                version: CACHE_ENVELOPE_VERSION,
                kind,
                path: parts.path,
                generations: parts.generations,
                payload,
            },
        )
    }

    /// The file envelope that `value` encodes, with the payload borrowed from `value`.
    pub fn decode_file_view(value: &[u8]) -> (view: CacheResult<FileEnvelopeView<'_>>)
        ensures
            match file_layout_of(value@) {
                Ok(layout) => {
                    &&& view matches Ok(got)
                    &&& got.path_view() == layout.path
                    &&& snapshot_views(got.snapshots()) == layout.generations
                    &&& got.data() == value@.subrange(layout.payload_start, layout.payload_end)
                },
                Err(failure) => view matches Err(error) && error@ == failure,
            },
    {
        let parts = match Self::decode_file_parts(value) {
            Ok(parts) => parts,
            Err(error) => return Err(error),
        };
        Ok(
            FileEnvelopeView {
                path: parts.path,
                generations: parts.generations,
                payload: &value[parts.payload_range.start..parts.payload_range.end],
            },
        )
    }

    /// The file envelope that `value` encodes, with the place of the payload in `value`.
    pub fn decode_file_parts(value: &[u8]) -> (parts: CacheResult<FileEnvelopeParts>)
        ensures
            error::outcome(parts) == file_layout_of(value@),
            parts matches Ok(found) ==> 0 <= found@.payload_start <= found@.payload_end
                <= value@.len(),
    {
        let mut reader = BinaryReader::new(value);
        let kind = match read_preamble(&mut reader) {
            Ok(kind) => kind,
            Err(error) => return Err(error),
        };
        if kind != CacheObjectKind::File {
            return Err(CacheError::InvalidData("expected file envelope".to_owned()));
        }
        read_layout(&mut reader)
    }

    /// Whether the envelope is of this kind and for this path.
    pub fn matches(&self, kind: CacheObjectKind, path: &str) -> (same: bool)
        ensures
            same == (self@.kind == kind && self@.path == path@),
    {
        self.kind == kind && text::same_text(self.path.as_str(), path)
    }

    pub fn generations(&self) -> (generations: &[GenerationSnapshot])
        ensures
            snapshot_views(generations@) == self@.generations,
    {
        self.generations.as_slice()
    }

    /// The bytes of a file envelope.
    pub fn into_file(self) -> (data: CacheResult<Vec<u8>>)
        ensures
            error::outcome(data) == (match self@.payload {
                PayloadView::File(data) => Ok(data),
                _ => Err(reader::malformed("expected file payload"@)),
            }),
    {
        match self.payload {
            CachePayload::File(data) => Ok(data),
            CachePayload::Directory(_) | CachePayload::Stat(_) => Err(
                CacheError::InvalidData("expected file payload".to_owned()),
            ),
        }
    }

    /// The entries of a directory envelope.
    pub fn into_directory(self) -> (entries: CacheResult<Vec<FileInfo>>)
        ensures
            match self@.payload {
                PayloadView::Directory(expected) => entries matches Ok(got)
                    && file_info::info_views(got@) == expected,
                _ => entries matches Err(error) && error@ == reader::malformed(
                    "expected directory payload"@,
                ),
            },
    {
        match self.payload {
            CachePayload::Directory(entries) => Ok(entries),
            CachePayload::File(_) | CachePayload::Stat(_) => Err(
                CacheError::InvalidData("expected directory payload".to_owned()),
            ),
        }
    }

    /// The metadata of a stat envelope.
    pub fn into_stat(self) -> (info: CacheResult<FileInfo>)
        ensures
            error::outcome(info) == (match self@.payload {
                PayloadView::Stat(info) => Ok(info),
                _ => Err(reader::malformed("expected stat payload"@)),
            }),
    {
        match self.payload {
            CachePayload::Stat(info) => Ok(info),
            CachePayload::File(_) | CachePayload::Directory(_) => Err(
                CacheError::InvalidData("expected stat payload".to_owned()),
            ),
        }
    }
}

// Laws.

/// Snapshots are seen as they are, one by one.
pub proof fn snapshots_are_seen_whole(snapshots: Seq<GenerationSnapshot>, index: int)
    requires
        0 <= index < snapshots.len(),
    ensures
        snapshot_views(snapshots).len() == snapshots.len(),
        snapshot_views(snapshots)[index].key == snapshots[index].key@,
        snapshot_views(snapshots)[index].value == snapshots[index].value,
{
}

} // verus!
