//! Where everything stands in an encoded cache envelope, byte by byte.

use crate::big_endian;
use crate::envelope;
use crate::envelope::{CacheObjectKind, EnvelopeView, PayloadView, SnapshotView};
use crate::file_info;
use crate::file_info::{FileInfoView, ModTime};
use crate::outcome_laws;
use vstd::prelude::*;
use vstd::utf8;

verus! {

/// The eight bytes from `at` on as one number, the first byte the most significant.
pub open spec fn eight_bytes(data: Seq<u8>, at: int) -> int {
    outcome_laws::four_bytes(data, at) * 4294967296 + outcome_laws::four_bytes(data, at + 4)
}

proof fn four_at(data: Seq<u8>, at: int, number: nat)
    requires
        0 <= at,
        at + 4 <= data.len(),
        data.subrange(at, at + 4) == big_endian::digits(number, 4),
        number <= 4294967295,
    ensures
        outcome_laws::four_bytes(data, at) == number,
{
    let digits = data.subrange(at, at + 4);
    big_endian::powers();
    big_endian::value_of_digits(number, 4);
    big_endian::four_digits(digits);
    assert(digits[0] == data[at]);
    assert(digits[1] == data[at + 1]);
    assert(digits[2] == data[at + 2]);
    assert(digits[3] == data[at + 3]);
}

proof fn eight_at(data: Seq<u8>, at: int, number: nat)
    requires
        0 <= at,
        at + 8 <= data.len(),
        data.subrange(at, at + 8) == big_endian::digits(number, 8),
        number <= 18446744073709551615,
    ensures
        eight_bytes(data, at) == number,
{
    let digits = data.subrange(at, at + 8);
    big_endian::powers();
    big_endian::value_of_digits(number, 8);
    big_endian::eight_digits(digits);
    assert(digits[0] == data[at]);
    assert(digits[1] == data[at + 1]);
    assert(digits[2] == data[at + 2]);
    assert(digits[3] == data[at + 3]);
    assert(digits[4] == data[at + 4]);
    assert(digits[5] == data[at + 5]);
    assert(digits[6] == data[at + 6]);
    assert(digits[7] == data[at + 7]);
}

/// An envelope is `RGFC`, version 2, 1 for a file, 2 for a directory and 3 for a stat result, the
/// path behind its length in four bytes, the snapshots behind their number in four bytes, and the
/// payload behind its length in eight bytes.
pub proof fn an_envelope_is_laid_out(envelope: EnvelopeView)
    requires
        utf8::encode_utf8(envelope.path).len() <= 4294967295,
        envelope.generations.len() <= 4294967295,
        envelope::payload_bytes(envelope.payload).len() <= 18446744073709551615,
    ensures
        ({
            let bytes = envelope::envelope_bytes(envelope);
            let path = utf8::encode_utf8(envelope.path);
            let list = envelope::snapshots_bytes(envelope.generations);
            let payload = envelope::payload_bytes(envelope.payload);
            let counted = 10int + path.len();
            let sized = counted + 4 + list.len();
            &&& bytes.len() == sized + 8 + payload.len()
            &&& bytes[0] == 0x52 && bytes[1] == 0x47 && bytes[2] == 0x46 && bytes[3] == 0x43
            &&& bytes[4] == 2
            &&& bytes[5] == match envelope.kind {
                CacheObjectKind::File => 1u8,
                CacheObjectKind::Directory => 2u8,
                CacheObjectKind::Stat => 3u8,
            }
            &&& outcome_laws::four_bytes(bytes, 6) == path.len()
            &&& bytes.subrange(10, counted) == path
            &&& outcome_laws::four_bytes(bytes, counted) == envelope.generations.len()
            &&& bytes.subrange(counted + 4, sized) == list
            &&& eight_bytes(bytes, sized) == payload.len()
            &&& bytes.skip(sized + 8) == payload
        }),
{
    let bytes = envelope::envelope_bytes(envelope);
    let path = utf8::encode_utf8(envelope.path);
    let list = envelope::snapshots_bytes(envelope.generations);
    let payload = envelope::payload_bytes(envelope.payload);
    let counted = 10int + path.len();
    let sized = counted + 4 + list.len();
    let count = big_endian::digits(envelope.generations.len(), 4);
    let size = big_endian::digits(payload.len(), 8);
    big_endian::digits_length(path.len(), 4);
    big_endian::digits_length(envelope.generations.len(), 4);
    big_endian::digits_length(payload.len(), 8);
    assert(bytes.subrange(6, 10) =~= big_endian::digits(path.len(), 4));
    assert(bytes.subrange(10, counted) =~= path);
    assert(bytes.subrange(counted, counted + 4) =~= count);
    assert(bytes.subrange(counted + 4, sized) =~= list);
    assert(bytes.subrange(sized, sized + 8) =~= size);
    assert(bytes.skip(sized + 8) =~= payload);
    four_at(bytes, 6, path.len());
    four_at(bytes, counted, envelope.generations.len());
    eight_at(bytes, sized, payload.len());
}

/// The payload of a file envelope is the file. That of a directory envelope is the number of its
/// entries in four bytes and the entries. That of a stat envelope is the one entry.
pub proof fn a_payload_is_laid_out(data: Seq<u8>, entries: Seq<FileInfoView>, info: FileInfoView)
    requires
        entries.len() <= 4294967295,
    ensures
        envelope::payload_bytes(PayloadView::File(data)) == data,
        envelope::payload_bytes(PayloadView::Stat(info)) == file_info::info_bytes(info),
        ({
            let listing = envelope::payload_bytes(PayloadView::Directory(entries));
            &&& outcome_laws::four_bytes(listing, 0) == entries.len()
            &&& listing.skip(4) == file_info::infos_bytes(entries)
        }),
{
    let listing = envelope::payload_bytes(PayloadView::Directory(entries));
    big_endian::digits_length(entries.len(), 4);
    assert(listing.subrange(0, 4) =~= big_endian::digits(entries.len(), 4));
    assert(listing.skip(4) =~= file_info::infos_bytes(entries));
    four_at(listing, 0, entries.len());
}

/// Entries stand one behind the other, each with nothing between it and the next: its name behind
/// its length in four bytes, its size in eight, its mode in four, its time as signed seconds in
/// eight and nanoseconds in four, and 1 for a directory and 0 for anything else.
pub proof fn entries_are_laid_out(before: Seq<FileInfoView>, info: FileInfoView)
    requires
        utf8::encode_utf8(info.name).len() <= 4294967295,
    ensures
        file_info::infos_bytes(Seq::empty()) == Seq::<u8>::empty(),
        file_info::infos_bytes(before.push(info)) == file_info::infos_bytes(before)
            + file_info::info_bytes(info),
        ({
            let bytes = file_info::info_bytes(info);
            let name = utf8::encode_utf8(info.name);
            let at = 4int + name.len();
            let distance = if info.mod_time.secs > 9223372036854775807 {
                9223372036854775807
            } else {
                info.mod_time.secs as int
            };
            &&& bytes.len() == at + 25
            &&& outcome_laws::four_bytes(bytes, 0) == name.len()
            &&& bytes.subrange(4, at) == name
            &&& eight_bytes(bytes, at) == info.size
            &&& outcome_laws::four_bytes(bytes, at + 8) == info.mode
            &&& eight_bytes(bytes, at + 12) == if info.mod_time.before_epoch && distance > 0 {
                18446744073709551616 - distance
            } else {
                distance
            }
            &&& outcome_laws::four_bytes(bytes, at + 20) == info.mod_time.nanos
            &&& bytes[at + 24] == if info.is_dir {
                1u8
            } else {
                0u8
            }
        }),
{
    let bytes = file_info::info_bytes(info);
    let name = utf8::encode_utf8(info.name);
    let at = 4int + name.len();
    let secs = big_endian::pattern(file_info::signed_secs(info.mod_time) as i64);
    assert(before.push(info).drop_last() =~= before);
    big_endian::digits_length(name.len(), 4);
    big_endian::digits_length(info.size as nat, 8);
    big_endian::digits_length(info.mode as nat, 4);
    big_endian::digits_length(secs, 8);
    big_endian::digits_length(info.mod_time.nanos as nat, 4);
    assert(bytes.subrange(0, 4) =~= big_endian::digits(name.len(), 4));
    assert(bytes.subrange(4, at) =~= name);
    assert(bytes.subrange(at, at + 8) =~= big_endian::digits(info.size as nat, 8));
    assert(bytes.subrange(at + 8, at + 12) =~= big_endian::digits(info.mode as nat, 4));
    assert(bytes.subrange(at + 12, at + 20) =~= big_endian::digits(secs, 8));
    assert(bytes.subrange(at + 20, at + 24) =~= big_endian::digits(
        info.mod_time.nanos as nat,
        4,
    ));
    four_at(bytes, 0, name.len());
    eight_at(bytes, at, info.size as nat);
    four_at(bytes, at + 8, info.mode as nat);
    eight_at(bytes, at + 12, secs);
    four_at(bytes, at + 20, info.mod_time.nanos as nat);
}

/// Snapshots stand one behind the other: the key behind its length in four bytes, and the value in
/// eight.
pub proof fn snapshots_are_laid_out(before: Seq<SnapshotView>, snapshot: SnapshotView)
    requires
        utf8::encode_utf8(snapshot.key).len() <= 4294967295,
    ensures
        envelope::snapshots_bytes(Seq::empty()) == Seq::<u8>::empty(),
        envelope::snapshots_bytes(before.push(snapshot)) == envelope::snapshots_bytes(before)
            + envelope::snapshot_bytes(snapshot),
        ({
            let bytes = envelope::snapshot_bytes(snapshot);
            let key = utf8::encode_utf8(snapshot.key);
            let at = 4int + key.len();
            &&& bytes.len() == at + 8
            &&& outcome_laws::four_bytes(bytes, 0) == key.len()
            &&& bytes.subrange(4, at) == key
            &&& eight_bytes(bytes, at) == snapshot.value
        }),
{
    let bytes = envelope::snapshot_bytes(snapshot);
    let key = utf8::encode_utf8(snapshot.key);
    let at = 4int + key.len();
    assert(before.push(snapshot).drop_last() =~= before);
    big_endian::digits_length(key.len(), 4);
    big_endian::digits_length(snapshot.value as nat, 8);
    assert(bytes.subrange(0, 4) =~= big_endian::digits(key.len(), 4));
    assert(bytes.subrange(4, at) =~= key);
    assert(bytes.subrange(at, at + 8) =~= big_endian::digits(snapshot.value as nat, 8));
    four_at(bytes, 0, key.len());
    eight_at(bytes, at, snapshot.value as nat);
}

/// A point in time comes back with its nanoseconds, with its distance in seconds up to the largest
/// signed number, and with its side of the epoch where that distance is not zero.
pub proof fn times_come_back(time: ModTime)
    ensures
        ({
            let back = file_info::time_of(file_info::signed_secs(time), time.nanos);
            &&& back.nanos == time.nanos
            &&& back.secs == if time.secs > 9223372036854775807 {
                9223372036854775807
            } else {
                time.secs as int
            }
            &&& back.before_epoch <==> time.before_epoch && time.secs > 0
        }),
{
}

} // verus!
