//! File metadata and its encoding inside directory and stat envelopes.

use crate::big_endian;
use crate::error;
use crate::error::{CacheError, CacheResult, ErrorKind, Failure};
use crate::reader;
use crate::reader::BinaryReader;
use crate::text;
use vstd::prelude::*;
use vstd::utf8;

verus! {

/// A point in time, given by its distance from the Unix epoch.
#[derive(Debug, Clone, Copy, PartialEq, Eq, Structural)]
pub struct ModTime {
    /// Whether the point lies before the epoch.
    pub before_epoch: bool,
    /// The whole seconds of the distance.
    pub secs: u64,
    /// The nanoseconds beyond the whole seconds.
    pub nanos: u32,
}

impl ModTime {
    /// Whether the encoding keeps the point: it drops the sign of a distance below one second
    /// and clamps the seconds to the signed range.
    pub open spec fn encodable(self) -> bool {
        &&& self.nanos < 1_000_000_000
        &&& self.secs <= i64::MAX
        &&& self.before_epoch ==> self.secs > 0
    }
}

/// Metadata of one file.
#[derive(Debug, Clone)]
pub struct FileInfo {
    pub name: String,
    pub size: u64,
    pub mode: u32,
    pub mod_time: ModTime,
    pub is_dir: bool,
}

/// The content of a `FileInfo`.
pub struct FileInfoView {
    pub name: Seq<char>,
    pub size: u64,
    pub mode: u32,
    pub mod_time: ModTime,
    pub is_dir: bool,
}

impl View for FileInfo {
    type V = FileInfoView;

    open spec fn view(&self) -> FileInfoView {
        FileInfoView {
            name: self.name@,
            size: self.size,
            mode: self.mode,
            mod_time: self.mod_time,
            is_dir: self.is_dir,
        }
    }
}

/// The contents of a list of `FileInfo` values.
pub open spec fn info_views(entries: Seq<FileInfo>) -> Seq<FileInfoView> {
    Seq::new(entries.len(), |i: int| entries[i]@)
}

impl FileInfo {
    pub fn new(name: String, size: u64, mode: u32, mod_time: ModTime, is_dir: bool) -> (info: Self)
        ensures
            info@ == (FileInfoView { name: name@, size, mode, mod_time, is_dir }),
    {
        FileInfo { name, size, mode, mod_time, is_dir }
    }
}

// Encoding.

/// Whether the length of a text in UTF-8 fits its length field.
pub open spec fn text_fits(value: Seq<char>) -> bool {
    utf8::encode_utf8(value).len() <= u32::MAX
}

/// A text in UTF-8 behind its length.
pub open spec fn text_bytes(value: Seq<char>) -> Seq<u8> {
    big_endian::digits(utf8::encode_utf8(value).len(), 4) + utf8::encode_utf8(value)
}

/// The signed seconds that stand for a point in time.
pub open spec fn signed_secs(value: ModTime) -> int {
    let clamped = if value.secs > i64::MAX {
        i64::MAX as int
    } else {
        value.secs as int
    };
    if value.before_epoch {
        -clamped
    } else {
        clamped
    }
}

/// The point in time that signed seconds and nanoseconds stand for.
pub open spec fn time_of(secs: int, nanos: u32) -> ModTime {
    ModTime {
        before_epoch: secs < 0,
        secs: if secs < 0 {
            (-secs) as u64
        } else {
            secs as u64
        },
        nanos,
    }
}

/// The fields behind the name: size, mode, time and directory flag.
pub open spec fn info_tail(info: FileInfoView) -> Seq<u8> {
    big_endian::digits(info.size as nat, 8) + (big_endian::digits(info.mode as nat, 4) + (
    big_endian::digits(big_endian::pattern(signed_secs(info.mod_time) as i64), 8) + (
    big_endian::digits(info.mod_time.nanos as nat, 4) + seq![
        if info.is_dir {
            1u8
        } else {
            0u8
        },
    ])))
}

/// The encoding of one file's metadata.
pub open spec fn info_bytes(info: FileInfoView) -> Seq<u8> {
    text_bytes(info.name) + info_tail(info)
}

/// The encodings of a list of files, one behind the other.
pub open spec fn infos_bytes(entries: Seq<FileInfoView>) -> Seq<u8>
    decreases entries.len(),
{
    if entries.len() == 0 {
        Seq::empty()
    } else {
        infos_bytes(entries.drop_last()) + info_bytes(entries.last())
    }
}

/// The payload of a directory envelope.
pub open spec fn directory_bytes(entries: Seq<FileInfoView>) -> Seq<u8> {
    big_endian::digits(entries.len(), 4) + infos_bytes(entries)
}

/// Whether the number of entries and every name fit their length fields.
pub open spec fn directory_fits(entries: Seq<FileInfoView>) -> bool {
    &&& entries.len() <= u32::MAX
    &&& forall|i: int| 0 <= i < entries.len() ==> text_fits(#[trigger] entries[i].name)
}

/// The answer to a length that does not fit its field.
pub open spec fn field_too_large() -> Failure {
    error::failure(ErrorKind::InvalidData, "cache envelope field too large"@)
}

/// Appends `value` as four bytes, if it fits.
pub fn write_u32(buffer: &mut Vec<u8>, value: usize) -> (written: CacheResult<()>)
    ensures
        value <= u32::MAX ==> written is Ok && final(buffer)@ == old(buffer)@ + big_endian::digits(
            value as nat,
            4,
        ),
        value > u32::MAX ==> error::settled(written) == Err::<(), Failure>(field_too_large())
            && final(buffer)@ == old(buffer)@,
{
    if value > u32::MAX as usize {
        return Err(CacheError::InvalidData("cache envelope field too large".to_owned()));
    }
    big_endian::push_u32(buffer, value as u32);
    Ok(())
}

/// Appends `value` as eight bytes.
pub fn write_u64(buffer: &mut Vec<u8>, value: usize) -> (written: CacheResult<()>)
    ensures
        written is Ok,
        final(buffer)@ == old(buffer)@ + big_endian::digits(value as nat, 8),
{
    big_endian::push_u64(buffer, value as u64);
    Ok(())
}

/// Appends a text behind its length, if the length fits.
pub fn write_string(buffer: &mut Vec<u8>, value: &str) -> (written: CacheResult<()>)
    ensures
        text_fits(value@) ==> written is Ok && final(buffer)@ == old(buffer)@ + text_bytes(value@),
        !text_fits(value@) ==> error::settled(written) == Err::<(), Failure>(field_too_large())
            && final(buffer)@ == old(buffer)@,
{
    let bytes = value.as_bytes();
    match write_u32(buffer, bytes.len()) {
        Ok(_) => {},
        Err(error) => return Err(error),
    }
    text::push_bytes(buffer, bytes);
    assert(buffer@ =~= old(buffer)@ + text_bytes(value@));
    Ok(())
}

/// The signed seconds and the nanoseconds of a point in time.
pub fn system_time_to_parts(value: ModTime) -> (parts: (i64, u32))
    ensures
        parts.0 == signed_secs(value),
        parts.1 == value.nanos,
{
    let secs: i64 = if value.secs > i64::MAX as u64 {
        i64::MAX
    } else {
        value.secs as i64
    };
    if value.before_epoch {
        (-secs, value.nanos)
    } else {
        (secs, value.nanos)
    }
}

/// The point in time that signed seconds and nanoseconds stand for.
pub fn parts_to_system_time(secs: i64, nanos: u32) -> (value: ModTime)
    ensures
        value == time_of(secs as int, nanos),
{
    let distance: u64 = if secs >= 0 {
        secs as u64
    } else {
        (-(secs + 1)) as u64 + 1
    };
    ModTime { before_epoch: secs < 0, secs: distance, nanos }
}

/// Appends the encoding of one file's metadata.
pub fn encode_file_info(encoded: &mut Vec<u8>, info: &FileInfo) -> (written: CacheResult<()>)
    ensures
        text_fits(info@.name) ==> written is Ok && final(encoded)@ == old(encoded)@ + info_bytes(
            info@,
        ),
        !text_fits(info@.name) ==> error::settled(written) == Err::<(), Failure>(field_too_large())
            && final(encoded)@ == old(encoded)@,
{
    match write_string(encoded, info.name.as_str()) {
        Ok(_) => {},
        Err(error) => return Err(error),
    }
    big_endian::push_u64(encoded, info.size);
    big_endian::push_u32(encoded, info.mode);
    let (secs, nanos) = system_time_to_parts(info.mod_time);
    big_endian::push_i64(encoded, secs);
    big_endian::push_u32(encoded, nanos);
    encoded.push(
        if info.is_dir {
            1
        } else {
            0
        },
    );
    assert(encoded@ =~= old(encoded)@ + info_bytes(info@));
    Ok(())
}

/// The payload of a stat envelope.
pub fn encode_file_info_payload(info: &FileInfo) -> (encoded: CacheResult<Vec<u8>>)
    ensures
        error::outcome(encoded) == if text_fits(info@.name) {
            Ok::<Seq<u8>, Failure>(info_bytes(info@))
        } else {
            Err(field_too_large())
        },
{
    let mut encoded: Vec<u8> = Vec::new();
    match encode_file_info(&mut encoded, info) {
        Ok(_) => {
            assert(encoded@ =~= info_bytes(info@));
            Ok(encoded)
        },
        Err(error) => Err(error),
    }
}

/// The payload of a directory envelope.
pub fn encode_directory_payload(entries: &[FileInfo]) -> (encoded: CacheResult<Vec<u8>>)
    ensures
        error::outcome(encoded) == if directory_fits(info_views(entries@)) {
            Ok::<Seq<u8>, Failure>(directory_bytes(info_views(entries@)))
        } else {
            Err(field_too_large())
        },
        encoded is Ok <==> entries@.len() <= 4294967295 && forall|i: int|
            0 <= i < entries@.len() ==> utf8::encode_utf8((#[trigger] entries@[i]).name@).len()
                <= 4294967295,
{
    let ghost views = info_views(entries@);
    let mut encoded: Vec<u8> = Vec::new();
    match write_u32(&mut encoded, entries.len()) {
        Ok(_) => {},
        Err(error) => return Err(error),
    }
    let mut index: usize = 0;
    assert(encoded@ =~= big_endian::digits(views.len(), 4) + infos_bytes(views.take(0)));
    while index < entries.len()
        invariant
            index <= entries@.len(),
            entries@.len() <= u32::MAX,
            views == info_views(entries@),
            forall|i: int| 0 <= i < index ==> text_fits(#[trigger] views[i].name),
            encoded@ == big_endian::digits(views.len(), 4) + infos_bytes(views.take(index as int)),
        decreases entries@.len() - index,
    {
        assert(views[index as int] == entries@[index as int]@);
        match encode_file_info(&mut encoded, &entries[index]) {
            Ok(_) => {},
            Err(error) => {
                assert(!text_fits(views[index as int].name));
                return Err(error);
            },
        }
        assert(views.take(index + 1).drop_last() =~= views.take(index as int));
        index = index + 1;
        assert(encoded@ =~= big_endian::digits(views.len(), 4) + infos_bytes(
            views.take(index as int),
        ));
    }
    assert(views.take(index as int) =~= views);
    assert forall|i: int| 0 <= i < entries@.len() implies utf8::encode_utf8(
        (#[trigger] entries@[i]).name@,
    ).len() <= 4294967295 by {
        assert(text_fits(views[i].name));
    }
    Ok(encoded)
}

// Decoding.

/// The metadata encoded at `at`, and where it ends.
pub open spec fn info_at(input: Seq<u8>, at: int) -> Result<(FileInfoView, int), Failure> {
    match reader::string(input, at) {
        Err(failure) => Err(failure),
        Ok((name, next)) => match reader::number(input, next, 8) {
            Err(failure) => Err(failure),
            Ok(size) => match reader::number(input, next + 8, 4) {
                Err(failure) => Err(failure),
                Ok(mode) => match reader::number(input, next + 12, 8) {
                    Err(failure) => Err(failure),
                    Ok(secs) => match reader::number(input, next + 20, 4) {
                        Err(failure) => Err(failure),
                        Ok(nanos) => if nanos >= 1_000_000_000 {
                            Err(reader::malformed("invalid FileInfo timestamp nanos"@))
                        } else {
                            match reader::chunk(input, next + 24, 1) {
                                Err(failure) => Err(failure),
                                Ok(flag) => if flag[0] > 1 {
                                    Err(reader::malformed("invalid FileInfo directory flag"@))
                                } else {
                                    Ok(
                                        (
                                            FileInfoView {
                                                name,
                                                size: size as u64,
                                                mode: mode as u32,
                                                mod_time: time_of(
                                                    big_endian::signed(secs),
                                                    nanos as u32,
                                                ),
                                                is_dir: flag[0] == 1,
                                            },
                                            next + 25,
                                        ),
                                    )
                                },
                            }
                        },
                    },
                },
            },
        },
    }
}

/// The metadata of `count` files encoded one behind the other at `at`, and where they end.
pub open spec fn infos_at(input: Seq<u8>, at: int, count: nat) -> Result<
    (Seq<FileInfoView>, int),
    Failure,
>
    decreases count,
{
    if count == 0 {
        Ok((Seq::empty(), at))
    } else {
        match info_at(input, at) {
            Err(failure) => Err(failure),
            Ok((first, next)) => match infos_at(input, next, (count - 1) as nat) {
                Err(failure) => Err(failure),
                Ok((rest, end)) => Ok((seq![first] + rest, end)),
            },
        }
    }
}

/// The entries that a directory payload encodes.
pub open spec fn directory_of(payload: Seq<u8>) -> Result<Seq<FileInfoView>, Failure> {
    match reader::number(payload, 0, 4) {
        Err(failure) => Err(failure),
        Ok(count) => match infos_at(payload, 4, count) {
            Err(failure) => Err(failure),
            Ok((entries, end)) => if end != payload.len() {
                Err(reader::malformed("trailing bytes in directory payload"@))
            } else {
                Ok(entries)
            },
        },
    }
}

/// The metadata that a stat payload encodes.
pub open spec fn stat_of(payload: Seq<u8>) -> Result<FileInfoView, Failure> {
    match info_at(payload, 0) {
        Err(failure) => Err(failure),
        Ok((info, end)) => if end != payload.len() {
            Err(reader::malformed("trailing bytes in stat payload"@))
        } else {
            Ok(info)
        },
    }
}

/// Where a reader stands after it has tried to read the metadata of one file at `at`.
pub open spec fn info_stop(input: Seq<u8>, at: int) -> int {
    match reader::string(input, at) {
        Err(_) => reader::string_stop(input, at),
        Ok((_, next)) => if reader::chunk(input, next, 8) is Err {
            next
        } else if reader::chunk(input, next + 8, 4) is Err {
            next + 8
        } else if reader::chunk(input, next + 12, 8) is Err {
            next + 12
        } else if reader::chunk(input, next + 20, 4) is Err {
            next + 20
        } else if reader::number(input, next + 20, 4)->Ok_0 >= 1_000_000_000 {
            next + 24
        } else if reader::chunk(input, next + 24, 1) is Err {
            next + 24
        } else {
            next + 25
        },
    }
}

/// Reads the metadata of one file.
pub fn decode_file_info(reader: &mut BinaryReader<'_>) -> (info: CacheResult<FileInfo>)
    ensures
        match info_at(old(reader).input(), old(reader).at()) {
            Ok((value, end)) => info matches Ok(got) && got@ == value && final(reader).at() == end,
            Err(failure) => info matches Err(error) && error@ == failure,
        },
        final(reader).input() == old(reader).input(),
        final(reader).at() == info_stop(old(reader).input(), old(reader).at()),
{
    let name = match reader.read_string() {
        Ok(name) => name,
        Err(error) => return Err(error),
    };
    let size: u64 = match reader.read_u64() {
        Ok(size) => size,
        Err(error) => return Err(error),
    };
    let mode: u32 = match reader.read_u32() {
        Ok(mode) => mode,
        Err(error) => return Err(error),
    };
    let secs: i64 = match reader.read_i64() {
        Ok(secs) => secs,
        Err(error) => return Err(error),
    };
    let nanos: u32 = match reader.read_u32() {
        Ok(nanos) => nanos,
        Err(error) => return Err(error),
    };
    if nanos >= 1_000_000_000 {
        return Err(CacheError::InvalidData("invalid FileInfo timestamp nanos".to_owned()));
    }
    let is_dir = match reader.read_u8() {
        Ok(0) => false,
        Ok(1) => true,
        Ok(_) => {
            return Err(CacheError::InvalidData("invalid FileInfo directory flag".to_owned()));
        },
        Err(error) => return Err(error),
    };
    Ok(FileInfo { name, size, mode, mod_time: parts_to_system_time(secs, nanos), is_dir })
}

/// Decodes the payload of a stat envelope.
pub fn decode_file_info_payload(value: &[u8]) -> (info: CacheResult<FileInfo>)
    ensures
        error::outcome(info) == stat_of(value@),
{
    let mut reader = BinaryReader::new(value);
    let info = match decode_file_info(&mut reader) {
        Ok(info) => info,
        Err(error) => return Err(error),
    };
    if !reader.is_finished() {
        return Err(CacheError::InvalidData("trailing bytes in stat payload".to_owned()));
    }
    Ok(info)
}

/// Entries already read, in front of what the rest of the input gives.
spec fn behind(done: Seq<FileInfoView>, rest: Result<(Seq<FileInfoView>, int), Failure>) -> Result<
    (Seq<FileInfoView>, int),
    Failure,
> {
    match rest {
        Ok((entries, end)) => Ok((done + entries, end)),
        Err(failure) => Err(failure),
    }
}

/// Decodes the payload of a directory envelope.
pub fn decode_directory_payload(value: &[u8]) -> (entries: CacheResult<Vec<FileInfo>>)
    ensures
        match directory_of(value@) {
            Ok(expected) => entries matches Ok(got) && info_views(got@) == expected,
            Err(failure) => entries matches Err(error) && error@ == failure,
        },
{
    let mut reader = BinaryReader::new(value);
    let entry_count: u32 = match reader.read_u32() {
        Ok(count) => count,
        Err(error) => return Err(error),
    };
    let mut entries: Vec<FileInfo> = Vec::new();
    let mut index: u32 = 0;
    let ghost total = infos_at(value@, 4, entry_count as nat);
    proof {
        assert(info_views(entries@) =~= Seq::empty());
        if let Ok((rest, end)) = total {
            assert(Seq::empty() + rest =~= rest);
        }
    }
    while index < entry_count
        invariant
            index <= entry_count,
            reader.input() == value@,
            reader::number(value@, 0, 4) == Ok::<nat, Failure>(entry_count as nat),
            total == infos_at(value@, 4, entry_count as nat),
            total == behind(
                info_views(entries@),
                infos_at(value@, reader.at(), (entry_count - index) as nat),
            ),
        decreases entry_count - index,
    {
        let ghost done = info_views(entries@);
        let ghost at = reader.at();
        let info = match decode_file_info(&mut reader) {
            Ok(info) => info,
            Err(error) => {
                assert(total == Err::<(Seq<FileInfoView>, int), Failure>(error@));
                return Err(error);
            },
        };
        proof {
            let rest = infos_at(value@, reader.at(), (entry_count - index - 1) as nat);
            if let Ok((later, end)) = rest {
                assert(done + (seq![info@] + later) =~= done.push(info@) + later);
            }
        }
        entries.push(info);
        index = index + 1;
        assert(info_views(entries@) =~= done.push(info@));
    }
    proof {
        assert(info_views(entries@) + Seq::empty() =~= info_views(entries@));
    }
    if !reader.is_finished() {
        return Err(CacheError::InvalidData("trailing bytes in directory payload".to_owned()));
    }
    Ok(entries)
}

// Laws.

/// Metadata is seen as it is, and a list of it entry by entry.
pub proof fn metadata_is_seen_whole(entries: Seq<FileInfo>, index: int)
    requires
        0 <= index < entries.len(),
    ensures
        info_views(entries).len() == entries.len(),
        info_views(entries)[index].name == entries[index].name@,
        info_views(entries)[index].size == entries[index].size,
        info_views(entries)[index].mode == entries[index].mode,
        info_views(entries)[index].mod_time == entries[index].mod_time,
        info_views(entries)[index].is_dir == entries[index].is_dir,
{
}

} // verus!
