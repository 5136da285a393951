//! How encoding and decoding of cache envelopes fit together.

use crate::big_endian;
use crate::envelope;
use crate::envelope::{CacheObjectKind, EnvelopeView, PayloadView, SnapshotView};
use crate::error::{ErrorKind, Failure};
use crate::file_info;
use crate::file_info::FileInfoView;
use crate::reader;
use vstd::prelude::*;
use vstd::utf8;

verus! {

/// Whether the encoding keeps every point in time in a payload.
pub open spec fn times_encodable(payload: PayloadView) -> bool {
    match payload {
        PayloadView::File(_) => true,
        PayloadView::Directory(entries) => forall|i: int|
            0 <= i < entries.len() ==> (#[trigger] entries[i]).mod_time.encodable(),
        PayloadView::Stat(info) => info.mod_time.encodable(),
    }
}

/// Whether no decoded point in time lies the full 2^63 seconds before the epoch, which the
/// encoder clamps.
pub open spec fn times_in_range(payload: PayloadView) -> bool {
    match payload {
        PayloadView::File(_) => true,
        PayloadView::Directory(entries) => forall|i: int|
            0 <= i < entries.len() ==> (#[trigger] entries[i]).mod_time.secs <= i64::MAX,
        PayloadView::Stat(info) => info.mod_time.secs <= i64::MAX,
    }
}

/// Whether the length in front of the payload survives the conversion to `usize`.
pub open spec fn length_kept(input: Seq<u8>) -> bool {
    envelope::layout_of(input) matches Ok(layout) ==> reader::number(
        input,
        layout.payload_start - 8,
        8,
    ) == Ok::<nat, Failure>((layout.payload_end - layout.payload_start) as nat)
}

/// Decoding an encoded envelope gives the envelope back.
pub proof fn decode_undoes_encode(envelope: EnvelopeView)
    requires
        envelope.well_formed(),
        envelope.fits(),
        times_encodable(envelope.payload),
        envelope::envelope_bytes(envelope).len() <= usize::MAX,
    ensures
        envelope::envelope_of(envelope::envelope_bytes(envelope)) == Ok::<EnvelopeView, Failure>(
            envelope,
        ),
{
    let input = envelope::envelope_bytes(envelope);
    let payload = envelope::payload_bytes(envelope.payload);
    let preamble = envelope::preamble_bytes(envelope.kind);
    let middle = envelope::middle_bytes(envelope.path, envelope.generations, payload.len());
    assert(sits(input, 0, input)) by {
        assert(input.subrange(0, input.len() as int) =~= input);
    }
    split(input, 0, preamble, middle + payload);
    preamble_reads(input, envelope.kind);
    layout_reads(input, envelope.path, envelope.generations, payload);
    assert(input.subrange(6int + middle.len(), input.len() as int) == payload) by {
        split(input, 6, middle, payload);
    }
    payload_reads(envelope.payload);
}

/// An envelope is encoded exactly where its path and every other text has at most 4294967295 bytes
/// in UTF-8 and every list has at most 4294967295 items. In particular every directory listing
/// with up to that many entries of such names is.
pub proof fn every_envelope_that_can_be_counted_is_encoded(envelope: EnvelopeView)
    ensures
        envelope.fits() <==> {
            &&& utf8::encode_utf8(envelope.path).len() <= 4294967295
            &&& envelope.generations.len() <= 4294967295
            &&& forall|i: int|
                0 <= i < envelope.generations.len() ==> utf8::encode_utf8(
                    #[trigger] envelope.generations[i].key,
                ).len() <= 4294967295
            &&& match envelope.payload {
                PayloadView::File(_) => true,
                PayloadView::Directory(entries) => entries.len() <= 4294967295 && forall|i: int|
                    0 <= i < entries.len() ==> utf8::encode_utf8(#[trigger] entries[i].name).len()
                        <= 4294967295,
                PayloadView::Stat(info) => utf8::encode_utf8(info.name).len() <= 4294967295,
            }
        },
{
}

/// Every directory listing of up to 4294967295 entries comes back from its payload, entry by entry
/// and in its order, where its names have at most 4294967295 bytes in UTF-8 and its times can be
/// told apart.
pub proof fn every_listing_comes_back(entries: Seq<FileInfoView>)
    requires
        entries.len() <= 4294967295,
        forall|i: int|
            0 <= i < entries.len() ==> utf8::encode_utf8(#[trigger] entries[i].name).len()
                <= 4294967295,
        forall|i: int|
            0 <= i < entries.len() ==> {
                &&& (#[trigger] entries[i]).mod_time.nanos < 1_000_000_000
                &&& entries[i].mod_time.secs <= 9223372036854775807
                &&& entries[i].mod_time.before_epoch ==> entries[i].mod_time.secs > 0
            },
        file_info::directory_bytes(entries).len() <= usize::MAX,
    ensures
        file_info::directory_fits(entries),
        file_info::directory_of(file_info::directory_bytes(entries)) == Ok::<
            Seq<FileInfoView>,
            Failure,
        >(entries),
{
    payload_reads(PayloadView::Directory(entries));
}

/// Every envelope comes back from its encoding, where its texts have at most 4294967295 bytes in
/// UTF-8, its lists have at most 4294967295 items, and its times can be told apart.
pub proof fn every_envelope_that_can_be_counted_comes_back(envelope: EnvelopeView)
    requires
        envelope.version == 2,
        match envelope.payload {
            PayloadView::File(_) => envelope.kind == CacheObjectKind::File,
            PayloadView::Directory(_) => envelope.kind == CacheObjectKind::Directory,
            PayloadView::Stat(_) => envelope.kind == CacheObjectKind::Stat,
        },
        utf8::encode_utf8(envelope.path).len() <= 4294967295,
        envelope.generations.len() <= 4294967295,
        forall|i: int|
            0 <= i < envelope.generations.len() ==> utf8::encode_utf8(
                #[trigger] envelope.generations[i].key,
            ).len() <= 4294967295,
        match envelope.payload {
            PayloadView::File(_) => true,
            PayloadView::Directory(entries) => entries.len() <= 4294967295 && forall|i: int|
                0 <= i < entries.len() ==> {
                    &&& utf8::encode_utf8((#[trigger] entries[i]).name).len() <= 4294967295
                    &&& entries[i].mod_time.nanos < 1_000_000_000
                    &&& entries[i].mod_time.secs <= 9223372036854775807
                    &&& entries[i].mod_time.before_epoch ==> entries[i].mod_time.secs > 0
                },
            PayloadView::Stat(info) => {
                &&& utf8::encode_utf8(info.name).len() <= 4294967295
                &&& info.mod_time.nanos < 1_000_000_000
                &&& info.mod_time.secs <= 9223372036854775807
                &&& info.mod_time.before_epoch ==> info.mod_time.secs > 0
            },
        },
        envelope::envelope_bytes(envelope).len() <= usize::MAX,
    ensures
        envelope::envelope_of(envelope::envelope_bytes(envelope)) == Ok::<EnvelopeView, Failure>(
            envelope,
        ),
{
    if let PayloadView::Directory(entries) = envelope.payload {
        assert forall|i: int| 0 <= i < entries.len() implies file_info::text_fits(
            #[trigger] entries[i].name,
        ) by {
            assert(utf8::encode_utf8(entries[i].name).len() <= 4294967295);
        }
    }
    decode_undoes_encode(envelope);
}

/// Whatever is refused when it is decoded is refused as invalid data.
pub proof fn what_does_not_decode_is_invalid_data(input: Seq<u8>)
    ensures
        envelope::envelope_of(input) matches Err(failure) ==> failure.kind
            == ErrorKind::InvalidData,
        envelope::file_layout_of(input) matches Err(failure) ==> failure.kind
            == ErrorKind::InvalidData,
{
    snapshot_failures(input);
    info_failures(input);
    if envelope::layout_of(input) is Ok {
        let layout = envelope::layout_of(input)->Ok_0;
        info_failures(input.subrange(layout.payload_start, layout.payload_end));
    }
}

proof fn snapshot_failures(input: Seq<u8>)
    ensures
        forall|at: int, count: nat|
            (#[trigger] envelope::snapshots_at(input, at, count)) matches Err(failure)
                ==> failure.kind == ErrorKind::InvalidData,
{
    assert forall|at: int, count: nat|
        (#[trigger] envelope::snapshots_at(input, at, count)) matches Err(
        failure,
    ) implies envelope::snapshots_at(input, at, count)->Err_0.kind == ErrorKind::InvalidData by {
        snapshots_fail(input, at, count);
    }
}

proof fn snapshots_fail(input: Seq<u8>, at: int, count: nat)
    ensures
        envelope::snapshots_at(input, at, count) matches Err(failure) ==> failure.kind
            == ErrorKind::InvalidData,
    decreases count,
{
    if count > 0 {
        if let Ok((first, next)) = envelope::snapshot_at(input, at) {
            snapshots_fail(input, next, (count - 1) as nat);
        }
    }
}

proof fn info_failures(input: Seq<u8>)
    ensures
        forall|at: int, count: nat|
            (#[trigger] file_info::infos_at(input, at, count)) matches Err(failure)
                ==> failure.kind == ErrorKind::InvalidData,
{
    assert forall|at: int, count: nat|
        (#[trigger] file_info::infos_at(input, at, count)) matches Err(
        failure,
    ) implies file_info::infos_at(input, at, count)->Err_0.kind == ErrorKind::InvalidData by {
        infos_fail(input, at, count);
    }
}

proof fn infos_fail(input: Seq<u8>, at: int, count: nat)
    ensures
        file_info::infos_at(input, at, count) matches Err(failure) ==> failure.kind
            == ErrorKind::InvalidData,
    decreases count,
{
    if count > 0 {
        if let Ok((first, next)) = file_info::info_at(input, at) {
            infos_fail(input, next, (count - 1) as nat);
        }
    }
}

/// Only an encoding decodes: what decodes to an envelope is the encoding of that envelope.
pub proof fn encode_undoes_decode(input: Seq<u8>)
    requires
        envelope::envelope_of(input) is Ok,
        length_kept(input),
        times_in_range(envelope::envelope_of(input)->Ok_0.payload),
    ensures
        envelope::envelope_bytes(envelope::envelope_of(input)->Ok_0) == input,
        envelope::envelope_of(input)->Ok_0.fits(),
{
    let decoded = envelope::envelope_of(input)->Ok_0;
    let layout = envelope::layout_of(input)->Ok_0;
    let payload = input.subrange(layout.payload_start, layout.payload_end);
    preamble_written(input);
    layout_written(input);
    payload_written(decoded.kind, payload);
    assert(input =~= input.subrange(0, 6) + (input.subrange(6, layout.payload_start) + payload));
}

/// Where `usize` is as wide as the length field, no length is cut.
pub proof fn length_kept_on_wide_machines(input: Seq<u8>)
    requires
        usize::MAX == u64::MAX,
    ensures
        length_kept(input),
{
    if envelope::layout_of(input) is Ok {
        let (path, counted) = reader::string(input, 6)->Ok_0;
        let count = reader::number(input, counted, 4)->Ok_0;
        let (generations, sized) = envelope::snapshots_at(input, counted + 4, count)->Ok_0;
        let length = reader::number(input, sized, 8)->Ok_0;
        big_endian::powers();
        string_written(input, 6);
        number_written(input, counted, 4);
        snapshots_written(input, counted + 4, count);
        number_written(input, sized, 8);
        assert(((length as u64) as usize) as int == length);
    }
}

/// Decoding only the parts of a file envelope sees what full decoding sees: both accept the
/// same bytes, and the range holds the file.
pub proof fn file_parts_agree_with_decode(input: Seq<u8>)
    ensures
        envelope::file_layout_of(input) is Ok <==> (envelope::envelope_of(input) matches Ok(
            decoded,
        ) && decoded.kind == CacheObjectKind::File),
        envelope::file_layout_of(input) matches Ok(layout) ==> {
            let decoded = envelope::envelope_of(input)->Ok_0;
            &&& decoded.path == layout.path
            &&& decoded.generations == layout.generations
            &&& decoded.payload == PayloadView::File(
                input.subrange(layout.payload_start, layout.payload_end),
            )
        },
{
}

// Reading what was written.

/// Whether `part` stands in `input` at `at`, and no offset in `input` overflows.
spec fn sits(input: Seq<u8>, at: int, part: Seq<u8>) -> bool {
    &&& 0 <= at
    &&& at + part.len() <= input.len() <= usize::MAX
    &&& input.subrange(at, at + part.len()) == part
}

proof fn split(input: Seq<u8>, at: int, left: Seq<u8>, right: Seq<u8>)
    requires
        sits(input, at, left + right),
    ensures
        sits(input, at, left),
        sits(input, at + left.len(), right),
{
    let whole = input.subrange(at, at + left.len() + right.len());
    assert(whole.take(left.len() as int) =~= left);
    assert(whole.skip(left.len() as int) =~= right);
    assert(input.subrange(at, at + left.len()) =~= whole.take(left.len() as int));
    assert(input.subrange(at + left.len(), at + left.len() + right.len()) =~= whole.skip(
        left.len() as int,
    ));
}

proof fn number_reads(input: Seq<u8>, at: int, number: nat, width: nat)
    requires
        sits(input, at, big_endian::digits(number, width)),
        number < vstd::arithmetic::power::pow(256, width),
    ensures
        reader::number(input, at, width as int) == Ok::<nat, Failure>(number),
{
    big_endian::digits_length(number, width);
    big_endian::value_of_digits(number, width);
}

proof fn string_reads(input: Seq<u8>, at: int, value: Seq<char>)
    requires
        sits(input, at, file_info::text_bytes(value)),
        file_info::text_fits(value),
    ensures
        reader::string(input, at) == Ok::<(Seq<char>, int), Failure>(
            (value, at + file_info::text_bytes(value).len()),
        ),
{
    let bytes = utf8::encode_utf8(value);
    big_endian::powers();
    big_endian::digits_length(bytes.len(), 4);
    split(input, at, big_endian::digits(bytes.len(), 4), bytes);
    number_reads(input, at, bytes.len(), 4);
    utf8::encode_utf8_valid_utf8(value);
    utf8::encode_utf8_decode_utf8(value);
}

proof fn time_kept(time: file_info::ModTime)
    requires
        time.encodable(),
    ensures
        file_info::time_of(
            big_endian::signed(big_endian::pattern(file_info::signed_secs(time) as i64)),
            time.nanos,
        ) == time,
{
}

proof fn info_reads(input: Seq<u8>, at: int, info: FileInfoView)
    requires
        sits(input, at, file_info::info_bytes(info)),
        file_info::text_fits(info.name),
        info.mod_time.encodable(),
    ensures
        file_info::info_at(input, at) == Ok::<(FileInfoView, int), Failure>(
            (info, at + file_info::info_bytes(info).len()),
        ),
{
    let size = big_endian::digits(info.size as nat, 8);
    let mode = big_endian::digits(info.mode as nat, 4);
    let pattern = big_endian::pattern(file_info::signed_secs(info.mod_time) as i64);
    let secs = big_endian::digits(pattern, 8);
    let nanos = big_endian::digits(info.mod_time.nanos as nat, 4);
    let flag = seq![
        if info.is_dir {
            1u8
        } else {
            0u8
        },
    ];
    let next = at + file_info::text_bytes(info.name).len();
    big_endian::powers();
    big_endian::digits_length(info.size as nat, 8);
    big_endian::digits_length(info.mode as nat, 4);
    big_endian::digits_length(pattern, 8);
    big_endian::digits_length(info.mod_time.nanos as nat, 4);
    split(input, at, file_info::text_bytes(info.name), file_info::info_tail(info));
    split(input, next, size, mode + (secs + (nanos + flag)));
    split(input, next + 8, mode, secs + (nanos + flag));
    split(input, next + 12, secs, nanos + flag);
    split(input, next + 20, nanos, flag);
    string_reads(input, at, info.name);
    number_reads(input, next, info.size as nat, 8);
    number_reads(input, next + 8, info.mode as nat, 4);
    number_reads(input, next + 12, pattern, 8);
    number_reads(input, next + 20, info.mod_time.nanos as nat, 4);
    time_kept(info.mod_time);
    assert(reader::chunk(input, next + 24, 1) == Ok::<Seq<u8>, Failure>(flag));
}

proof fn infos_from_front(entries: Seq<FileInfoView>)
    requires
        entries.len() > 0,
    ensures
        file_info::infos_bytes(entries) == file_info::info_bytes(entries[0])
            + file_info::infos_bytes(entries.drop_first()),
    decreases entries.len(),
{
    if entries.len() == 1 {
        assert(entries.drop_last() =~= Seq::empty());
        assert(entries.drop_first() =~= Seq::empty());
        assert(file_info::infos_bytes(entries) =~= file_info::info_bytes(entries[0])
            + file_info::infos_bytes(entries.drop_first()));
    } else {
        infos_from_front(entries.drop_last());
        assert(entries.drop_last().drop_first() =~= entries.drop_first().drop_last());
        assert(file_info::infos_bytes(entries) =~= file_info::info_bytes(entries[0])
            + file_info::infos_bytes(entries.drop_first()));
    }
}

proof fn infos_read(input: Seq<u8>, at: int, entries: Seq<FileInfoView>)
    requires
        sits(input, at, file_info::infos_bytes(entries)),
        forall|i: int| 0 <= i < entries.len() ==> file_info::text_fits(#[trigger] entries[i].name),
        forall|i: int| 0 <= i < entries.len() ==> (#[trigger] entries[i]).mod_time.encodable(),
    ensures
        file_info::infos_at(input, at, entries.len()) == Ok::<(Seq<FileInfoView>, int), Failure>(
            (entries, at + file_info::infos_bytes(entries).len()),
        ),
    decreases entries.len(),
{
    if entries.len() == 0 {
        assert(entries =~= Seq::empty());
    } else {
        let rest = entries.drop_first();
        infos_from_front(entries);
        split(input, at, file_info::info_bytes(entries[0]), file_info::infos_bytes(rest));
        info_reads(input, at, entries[0]);
        assert forall|i: int| 0 <= i < rest.len() implies file_info::text_fits(
            #[trigger] rest[i].name,
        ) by {
            assert(rest[i] == entries[i + 1]);
        }
        assert forall|i: int| 0 <= i < rest.len() implies (
        #[trigger] rest[i]).mod_time.encodable() by {
            assert(rest[i] == entries[i + 1]);
        }
        infos_read(input, at + file_info::info_bytes(entries[0]).len(), rest);
        assert(entries =~= seq![entries[0]] + rest);
    }
}

proof fn snapshots_from_front(snapshots: Seq<SnapshotView>)
    requires
        snapshots.len() > 0,
    ensures
        envelope::snapshots_bytes(snapshots) == envelope::snapshot_bytes(snapshots[0])
            + envelope::snapshots_bytes(snapshots.drop_first()),
    decreases snapshots.len(),
{
    if snapshots.len() == 1 {
        assert(snapshots.drop_last() =~= Seq::empty());
        assert(snapshots.drop_first() =~= Seq::empty());
        assert(envelope::snapshots_bytes(snapshots) =~= envelope::snapshot_bytes(snapshots[0])
            + envelope::snapshots_bytes(snapshots.drop_first()));
    } else {
        snapshots_from_front(snapshots.drop_last());
        assert(snapshots.drop_last().drop_first() =~= snapshots.drop_first().drop_last());
        assert(envelope::snapshots_bytes(snapshots) =~= envelope::snapshot_bytes(snapshots[0])
            + envelope::snapshots_bytes(snapshots.drop_first()));
    }
}

proof fn snapshots_read(input: Seq<u8>, at: int, snapshots: Seq<SnapshotView>)
    requires
        sits(input, at, envelope::snapshots_bytes(snapshots)),
        forall|i: int|
            0 <= i < snapshots.len() ==> file_info::text_fits(#[trigger] snapshots[i].key),
    ensures
        envelope::snapshots_at(input, at, snapshots.len()) == Ok::<
            (Seq<SnapshotView>, int),
            Failure,
        >((snapshots, at + envelope::snapshots_bytes(snapshots).len())),
    decreases snapshots.len(),
{
    if snapshots.len() == 0 {
        assert(snapshots =~= Seq::empty());
    } else {
        let first = snapshots[0];
        let rest = snapshots.drop_first();
        let key = file_info::text_bytes(first.key);
        let value = big_endian::digits(first.value as nat, 8);
        snapshots_from_front(snapshots);
        split(input, at, envelope::snapshot_bytes(first), envelope::snapshots_bytes(rest));
        split(input, at, key, value);
        big_endian::powers();
        big_endian::digits_length(first.value as nat, 8);
        string_reads(input, at, first.key);
        number_reads(input, at + key.len(), first.value as nat, 8);
        assert forall|i: int| 0 <= i < rest.len() implies file_info::text_fits(
            #[trigger] rest[i].key,
        ) by {
            assert(rest[i] == snapshots[i + 1]);
        }
        snapshots_read(input, at + envelope::snapshot_bytes(first).len(), rest);
        assert(snapshots =~= seq![first] + rest);
    }
}

proof fn preamble_reads(input: Seq<u8>, kind: CacheObjectKind)
    requires
        sits(input, 0, envelope::preamble_bytes(kind)),
    ensures
        envelope::preamble_of(input) == Ok::<CacheObjectKind, Failure>(kind),
{
    let preamble = envelope::preamble_bytes(kind);
    assert(input.subrange(0, 6) == preamble);
    assert(input.subrange(0, 4) =~= preamble.take(4));
    assert(preamble.take(4) =~= envelope::magic());
    assert(input.subrange(4, 5)[0] == input.subrange(0, 6)[4]);
    assert(input.subrange(5, 6)[0] == input.subrange(0, 6)[5]);
}

proof fn layout_reads(
    input: Seq<u8>,
    path: Seq<char>,
    generations: Seq<SnapshotView>,
    payload: Seq<u8>,
)
    requires
        sits(input, 6, envelope::middle_bytes(path, generations, payload.len()) + payload),
        input.len() == 6 + envelope::middle_bytes(path, generations, payload.len()).len()
            + payload.len(),
        file_info::text_fits(path),
        generations.len() <= u32::MAX,
        forall|i: int|
            0 <= i < generations.len() ==> file_info::text_fits(#[trigger] generations[i].key),
    ensures
        ({
            let start = 6int + envelope::middle_bytes(path, generations, payload.len()).len();
            envelope::layout_of(input) == Ok::<envelope::LayoutView, Failure>(
                envelope::LayoutView {
                    path,
                    generations,
                    payload_start: start,
                    payload_end: start + payload.len(),
                },
            )
        }),
{
    let name = file_info::text_bytes(path);
    let count = big_endian::digits(generations.len(), 4);
    let list = envelope::snapshots_bytes(generations);
    let size = big_endian::digits(payload.len(), 8);
    big_endian::powers();
    big_endian::digits_length(generations.len(), 4);
    big_endian::digits_length(payload.len(), 8);
    split(input, 6, envelope::middle_bytes(path, generations, payload.len()), payload);
    split(input, 6, name, count + (list + size));
    split(input, 6int + name.len(), count, list + size);
    split(input, 6int + name.len() + 4, list, size);
    string_reads(input, 6, path);
    number_reads(input, 6int + name.len(), generations.len(), 4);
    snapshots_read(input, 6int + name.len() + 4, generations);
    number_reads(input, 6int + name.len() + 4 + list.len(), payload.len(), 8);
    assert(((payload.len() as u64) as usize) as int == payload.len());
}

proof fn payload_reads(payload: PayloadView)
    requires
        envelope::payload_bytes(payload).len() <= usize::MAX,
        times_encodable(payload),
        match payload {
            PayloadView::File(_) => true,
            PayloadView::Directory(entries) => file_info::directory_fits(entries),
            PayloadView::Stat(info) => file_info::text_fits(info.name),
        },
    ensures
        ({
            let kind = match payload {
                PayloadView::File(_) => CacheObjectKind::File,
                PayloadView::Directory(_) => CacheObjectKind::Directory,
                PayloadView::Stat(_) => CacheObjectKind::Stat,
            };
            envelope::payload_of(kind, envelope::payload_bytes(payload)) == Ok::<
                PayloadView,
                Failure,
            >(payload)
        }),
{
    let bytes = envelope::payload_bytes(payload);
    assert(bytes.subrange(0, bytes.len() as int) =~= bytes);
    match payload {
        PayloadView::File(_) => {},
        PayloadView::Directory(entries) => {
            big_endian::powers();
            big_endian::digits_length(entries.len(), 4);
            split(bytes, 0, big_endian::digits(entries.len(), 4), file_info::infos_bytes(entries));
            number_reads(bytes, 0, entries.len(), 4);
            infos_read(bytes, 4, entries);
        },
        PayloadView::Stat(info) => {
            info_reads(bytes, 0, info);
        },
    }
}

// Writing what was read.

proof fn number_written(input: Seq<u8>, at: int, width: nat)
    requires
        0 <= at,
        reader::number(input, at, width as int) is Ok,
    ensures
        ({
            let number = reader::number(input, at, width as int)->Ok_0;
            &&& at + width <= input.len()
            &&& input.subrange(at, at + width) == big_endian::digits(number, width)
            &&& number < vstd::arithmetic::power::pow(256, width)
        }),
{
    let bytes = input.subrange(at, at + width);
    big_endian::digits_of_value(bytes);
    big_endian::value_bound(bytes);
}

proof fn string_written(input: Seq<u8>, at: int)
    requires
        0 <= at,
        reader::string(input, at) is Ok,
    ensures
        ({
            let (value, end) = reader::string(input, at)->Ok_0;
            &&& at <= end <= input.len()
            &&& input.subrange(at, end) == file_info::text_bytes(value)
            &&& file_info::text_fits(value)
        }),
{
    let (value, end) = reader::string(input, at)->Ok_0;
    let length = reader::number(input, at, 4)->Ok_0;
    let bytes = input.subrange(at + 4, end);
    number_written(input, at, 4);
    big_endian::powers();
    utf8::decode_utf8_encode_utf8(bytes);
    assert(input.subrange(at, end) =~= input.subrange(at, at + 4) + bytes);
}

proof fn info_written(input: Seq<u8>, at: int)
    requires
        0 <= at,
        file_info::info_at(input, at) is Ok,
        file_info::info_at(input, at)->Ok_0.0.mod_time.secs <= i64::MAX,
    ensures
        ({
            let (info, end) = file_info::info_at(input, at)->Ok_0;
            &&& at <= end <= input.len()
            &&& input.subrange(at, end) == file_info::info_bytes(info)
            &&& file_info::text_fits(info.name)
        }),
{
    let (info, end) = file_info::info_at(input, at)->Ok_0;
    let (name, next) = reader::string(input, at)->Ok_0;
    let secs = reader::number(input, next + 12, 8)->Ok_0;
    string_written(input, at);
    number_written(input, next, 8);
    number_written(input, next + 8, 4);
    number_written(input, next + 12, 8);
    number_written(input, next + 20, 4);
    big_endian::powers();
    assert(file_info::signed_secs(info.mod_time) == big_endian::signed(secs));
    assert(big_endian::pattern(file_info::signed_secs(info.mod_time) as i64) == secs);
    let flag = input.subrange(next + 24, next + 25);
    assert(flag[0] == 0 || flag[0] == 1);
    assert(input.subrange(at, end) =~= input.subrange(at, next) + (input.subrange(next, next + 8)
        + (input.subrange(next + 8, next + 12) + (input.subrange(next + 12, next + 20) + (
    input.subrange(next + 20, next + 24) + flag)))));
    assert(flag =~= seq![
        if info.is_dir {
            1u8
        } else {
            0u8
        },
    ]);
}

proof fn infos_written(input: Seq<u8>, at: int, count: nat)
    requires
        0 <= at <= input.len(),
        file_info::infos_at(input, at, count) is Ok,
        forall|i: int|
            0 <= i < file_info::infos_at(input, at, count)->Ok_0.0.len() ==> (
            #[trigger] file_info::infos_at(input, at, count)->Ok_0.0[i]).mod_time.secs <= i64::MAX,
    ensures
        ({
            let (entries, end) = file_info::infos_at(input, at, count)->Ok_0;
            &&& at <= end <= input.len()
            &&& entries.len() == count
            &&& input.subrange(at, end) == file_info::infos_bytes(entries)
            &&& forall|i: int|
                0 <= i < entries.len() ==> file_info::text_fits(#[trigger] entries[i].name)
        }),
    decreases count,
{
    let (entries, end) = file_info::infos_at(input, at, count)->Ok_0;
    if count == 0 {
        assert(input.subrange(at, end) =~= Seq::empty());
    } else {
        let (first, next) = file_info::info_at(input, at)->Ok_0;
        let (rest, _) = file_info::infos_at(input, next, (count - 1) as nat)->Ok_0;
        assert(entries == seq![first] + rest);
        assert(entries[0] == first);
        info_written(input, at);
        assert forall|i: int| 0 <= i < rest.len() implies (#[trigger] rest[i]).mod_time.secs
            <= i64::MAX by {
            assert(rest[i] == entries[i + 1]);
        }
        infos_written(input, next, (count - 1) as nat);
        infos_from_front(entries);
        assert(entries.drop_first() =~= rest);
        assert(input.subrange(at, end) =~= input.subrange(at, next) + input.subrange(next, end));
        assert forall|i: int| 0 <= i < entries.len() implies file_info::text_fits(
            #[trigger] entries[i].name,
        ) by {
            if i > 0 {
                assert(entries[i] == rest[i - 1]);
            }
        }
    }
}

proof fn snapshots_written(input: Seq<u8>, at: int, count: nat)
    requires
        0 <= at <= input.len(),
        envelope::snapshots_at(input, at, count) is Ok,
    ensures
        ({
            let (snapshots, end) = envelope::snapshots_at(input, at, count)->Ok_0;
            &&& at <= end <= input.len()
            &&& snapshots.len() == count
            &&& input.subrange(at, end) == envelope::snapshots_bytes(snapshots)
            &&& forall|i: int|
                0 <= i < snapshots.len() ==> file_info::text_fits(#[trigger] snapshots[i].key)
        }),
    decreases count,
{
    let (snapshots, end) = envelope::snapshots_at(input, at, count)->Ok_0;
    if count == 0 {
        assert(input.subrange(at, end) =~= Seq::empty());
    } else {
        let (key, valued) = reader::string(input, at)->Ok_0;
        let (first, next) = envelope::snapshot_at(input, at)->Ok_0;
        let (rest, _) = envelope::snapshots_at(input, next, (count - 1) as nat)->Ok_0;
        string_written(input, at);
        number_written(input, valued, 8);
        big_endian::powers();
        assert(input.subrange(at, next) =~= input.subrange(at, valued) + input.subrange(
            valued,
            valued + 8,
        ));
        snapshots_written(input, next, (count - 1) as nat);
        snapshots_from_front(snapshots);
        assert(snapshots.drop_first() =~= rest);
        assert(input.subrange(at, end) =~= input.subrange(at, next) + input.subrange(next, end));
        assert forall|i: int| 0 <= i < snapshots.len() implies file_info::text_fits(
            #[trigger] snapshots[i].key,
        ) by {
            if i > 0 {
                assert(snapshots[i] == rest[i - 1]);
            }
        }
    }
}

proof fn preamble_written(input: Seq<u8>)
    requires
        envelope::preamble_of(input) is Ok,
    ensures
        input.len() >= 6,
        input.subrange(0, 6) == envelope::preamble_bytes(envelope::preamble_of(input)->Ok_0),
{
    assert(input.subrange(0, 4)[0] == input[0]);
    assert(input.subrange(0, 4)[1] == input[1]);
    assert(input.subrange(0, 4)[2] == input[2]);
    assert(input.subrange(0, 4)[3] == input[3]);
    assert(input.subrange(4, 5)[0] == input[4]);
    assert(input.subrange(5, 6)[0] == input[5]);
    assert(input.subrange(0, 6) =~= envelope::preamble_bytes(envelope::preamble_of(input)->Ok_0));
}

proof fn layout_written(input: Seq<u8>)
    requires
        envelope::layout_of(input) is Ok,
        length_kept(input),
    ensures
        ({
            let layout = envelope::layout_of(input)->Ok_0;
            let length = layout.payload_end - layout.payload_start;
            &&& 6 <= layout.payload_start <= layout.payload_end == input.len()
            &&& input.subrange(6, layout.payload_start) == envelope::middle_bytes(
                layout.path,
                layout.generations,
                length as nat,
            )
            &&& file_info::text_fits(layout.path)
            &&& layout.generations.len() <= u32::MAX
            &&& forall|i: int|
                0 <= i < layout.generations.len() ==> file_info::text_fits(
                    #[trigger] layout.generations[i].key,
                )
        }),
{
    let (path, counted) = reader::string(input, 6)->Ok_0;
    let count = reader::number(input, counted, 4)->Ok_0;
    let (generations, sized) = envelope::snapshots_at(input, counted + 4, count)->Ok_0;
    big_endian::powers();
    string_written(input, 6);
    number_written(input, counted, 4);
    snapshots_written(input, counted + 4, count);
    number_written(input, sized, 8);
    assert(input.subrange(6, sized + 8) =~= input.subrange(6, counted) + (input.subrange(
        counted,
        counted + 4,
    ) + (input.subrange(counted + 4, sized) + input.subrange(sized, sized + 8))));
}

proof fn payload_written(kind: CacheObjectKind, bytes: Seq<u8>)
    requires
        envelope::payload_of(kind, bytes) is Ok,
        times_in_range(envelope::payload_of(kind, bytes)->Ok_0),
    ensures
        envelope::payload_bytes(envelope::payload_of(kind, bytes)->Ok_0) == bytes,
        match envelope::payload_of(kind, bytes)->Ok_0 {
            PayloadView::File(_) => true,
            PayloadView::Directory(entries) => file_info::directory_fits(entries),
            PayloadView::Stat(info) => file_info::text_fits(info.name),
        },
{
    match envelope::payload_of(kind, bytes)->Ok_0 {
        PayloadView::File(_) => {},
        PayloadView::Directory(entries) => {
            big_endian::powers();
            number_written(bytes, 0, 4);
            infos_written(bytes, 4, reader::number(bytes, 0, 4)->Ok_0);
            assert(bytes =~= bytes.subrange(0, 4) + bytes.subrange(4, bytes.len() as int));
        },
        PayloadView::Stat(_) => {
            info_written(bytes, 0);
            assert(bytes =~= bytes.subrange(0, bytes.len() as int));
        },
    }
}

} // verus!
