//! What the statuses of native calls and the bytes of native reads mean to the caller, in numbers.

use crate::big_endian;
use crate::error::{ErrorKind, Failure};
use crate::frame;
use crate::mutation;
use crate::mutation::DeleteVerdict;
use crate::read_session;
use crate::read_session::{RawReadView, Verdict};
use crate::status;
use crate::status::CResult;
use vstd::prelude::*;

verus! {

/// Whether `code` is the status that counts for an item with the status `item` in a call with the
/// status `overall`: its own, or, where it has none, that of a call that failed.
pub open spec fn counts(item: CResult, overall: CResult, code: CResult) -> bool {
    ||| item != -2147483648 && code == item
    ||| item == -2147483648 && overall != 0 && code == overall
}

/// The status that counts is found exactly where there is one, and an item without any is
/// answered with an internal error.
pub proof fn the_status_that_counts_is_found(
    item: CResult,
    overall: CResult,
    operation: Seq<char>,
    code: CResult,
)
    ensures
        status::effective(item, overall, operation) == Ok::<CResult, Failure>(code) <==> counts(
            item,
            overall,
            code,
        ),
        item == -2147483648 && overall == 0 ==> (status::effective(item, overall, operation)
            matches Err(failure) && failure.kind == ErrorKind::Internal),
{
}

/// The class of error of every status: seven say that the service cannot serve the call now, two
/// that the call was wrong, and all others are internal.
pub proof fn every_status_has_its_class(code: CResult, operation: Seq<char>, serviceable: bool)
    ensures
        ({
            let kind = status::status_failure(code, operation, serviceable).kind;
            &&& kind == ErrorKind::Unavailable <==> 4 <= code <= 6 || 10 <= code <= 13
            &&& kind == ErrorKind::InvalidArgument <==> code == 3 || code == 14
            &&& kind == ErrorKind::Internal <==> !(3 <= code <= 6 || 10 <= code <= 14)
        }),
{
}

/// The message of a status failure tells the operation, the status and the state of the service
/// apart.
pub proof fn failures_name_their_status(code: CResult, operation: Seq<char>, serviceable: bool)
    ensures
        operation.is_prefix_of(status::status_failure(code, operation, serviceable).message),
        status::status_failure(code, operation, serviceable).message == operation
            + " returned MemStore status "@ + crate::text::signed_decimal(code as int)
            + " (serviceable="@ + (if serviceable {
            "true"@
        } else {
            "false"@
        }) + ")"@,
{
    let message = status::status_failure(code, operation, serviceable).message;
    assert(message.take(operation.len() as int) =~= operation);
}

// Reads.

/// A key is answered with no value exactly where the status that counts is 7 or 9. Every status
/// but these, 0 and 14 is answered with its own failure.
pub proof fn only_a_miss_is_answered_with_no_value(
    read: RawReadView,
    overall: CResult,
    code: CResult,
    buffer_size: nat,
    attempts: nat,
    limit: nat,
    serviceable: bool,
)
    requires
        counts(read.result, overall, code),
    ensures
        ({
            let verdict = read_session::judge(
                read,
                overall,
                buffer_size,
                attempts,
                limit,
                serviceable,
            );
            &&& verdict == Verdict::Settled(Ok(None)) <==> code == 7 || code == 9
            &&& code != 0 && code != 7 && code != 9 && code != 14 ==> {
                &&& verdict == Verdict::Settled(
                    Err(status::status_failure(code, "get"@, serviceable)),
                )
                &&& verdict matches Verdict::Settled(Err(failure))
                &&& failure.kind == if 4 <= code <= 6 || 10 <= code <= 13 {
                    ErrorKind::Unavailable
                } else if code == 3 {
                    ErrorKind::InvalidArgument
                } else {
                    ErrorKind::Internal
                }
            }
        }),
{
}

/// A key of which neither the item nor the call has a status is answered with an internal error.
pub proof fn a_read_without_a_status_is_an_error(
    read: RawReadView,
    buffer_size: nat,
    attempts: nat,
    limit: nat,
    serviceable: bool,
)
    requires
        read.result == -2147483648,
    ensures
        read_session::judge(read, 0, buffer_size, attempts, limit, serviceable)
            matches Verdict::Settled(Err(failure)) && failure.kind == ErrorKind::Internal,
{
}

/// The four bytes from `at` on as one number, the first byte the most significant.
pub open spec fn four_bytes(data: Seq<u8>, at: int) -> int {
    data[at] * 16777216 + data[at + 1] * 65536 + data[at + 2] * 256 + data[at + 3]
}

/// Whether `data` starts with the nine bytes that announce a payload of `length` bytes: `OVMS`,
/// version 1, and the length.
pub open spec fn announces(data: Seq<u8>, length: int) -> bool {
    &&& data.len() >= 9
    &&& data[0] == 0x4f && data[1] == 0x56 && data[2] == 0x4d && data[3] == 0x53
    &&& data[4] == 1
    &&& four_bytes(data, 5) == length
}

/// Where a read brought a value, the header decides what becomes of it. A frame that is larger
/// than the buffer is read again at exactly its size, three times at most. One that the read
/// covers is answered with its payload, and one that it does not cover is refused. A header that
/// is none, or that announces more than the limit, is refused.
pub proof fn what_a_read_holds_decides(
    read: RawReadView,
    overall: CResult,
    code: CResult,
    buffer_size: nat,
    attempts: nat,
    limit: nat,
    serviceable: bool,
    length: int,
)
    requires
        counts(read.result, overall, code),
        code == 0 || code == 14,
        limit + 9 <= usize::MAX,
        length == four_bytes(read.data, 5),
    ensures
        ({
            let verdict = read_session::judge(
                read,
                overall,
                buffer_size,
                attempts,
                limit,
                serviceable,
            );
            if !read.preserved {
                verdict matches Verdict::Settled(Err(failure)) && failure.kind
                    == ErrorKind::Internal
            } else if !announces(read.data, length) || length > limit {
                verdict matches Verdict::Settled(Err(failure)) && failure.kind
                    == ErrorKind::InvalidData
            } else if length + 9 > buffer_size && attempts < 3 {
                verdict == Verdict::Again((length + 9) as nat)
            } else if length + 9 > buffer_size {
                verdict matches Verdict::Settled(Err(failure)) && failure.kind
                    == ErrorKind::Unavailable
            } else if length + 9 > read.real_length || length + 9 > read.data.len() {
                verdict matches Verdict::Settled(Err(failure)) && failure.kind
                    == ErrorKind::InvalidData
            } else {
                verdict == Verdict::Settled(Ok(Some(read.data.subrange(9, length + 9))))
            }
        }),
{
    if read.data.len() >= 9 {
        header_in_numbers(read.data, limit);
    }
}

proof fn header_in_numbers(data: Seq<u8>, limit: nat)
    requires
        data.len() >= 9,
    ensures
        frame::announced_length(data, limit) is Ok <==> announces(data, four_bytes(data, 5))
            && four_bytes(data, 5) <= limit,
        frame::announced_length(data, limit) matches Ok(length) ==> length == four_bytes(data, 5),
        frame::announced_length(data, limit) matches Err(failure) ==> failure.kind
            == ErrorKind::InvalidData,
{
    let head = data.subrange(0, 4);
    assert(head[0] == data[0]);
    assert(head[1] == data[1]);
    assert(head[2] == data[2]);
    assert(head[3] == data[3]);
    if data[0] == 0x4f && data[1] == 0x56 && data[2] == 0x4d && data[3] == 0x53 {
        assert(head =~= frame::magic());
    }
    big_endian::four_digits(data.subrange(5, 9));
}

// Frames.

/// A payload is framed exactly where it has no more bytes than the limit and than four bytes
/// count. The frame is the nine header bytes and the payload.
pub proof fn every_payload_within_the_limit_is_framed(payload: Seq<u8>, limit: nat)
    ensures
        ({
            let framed = frame::encoded_value(payload, limit);
            &&& framed is Ok <==> payload.len() <= limit && payload.len() <= 4294967295
            &&& framed matches Ok(bytes) ==> {
                &&& bytes.len() == payload.len() + 9
                &&& announces(bytes, payload.len() as int)
                &&& bytes.skip(9) == payload
            }
            &&& framed matches Err(failure) ==> failure.kind == ErrorKind::InvalidArgument
        }),
{
    if payload.len() <= limit && payload.len() <= 4294967295 {
        let bytes = frame::frame_bytes(payload);
        big_endian::digits_length(payload.len(), 4);
        big_endian::powers();
        big_endian::value_of_digits(payload.len(), 4);
        big_endian::four_digits(big_endian::digits(payload.len(), 4));
        assert(bytes.skip(9) =~= payload);
        assert(bytes[5] == big_endian::digits(payload.len(), 4)[0]);
        assert(bytes[6] == big_endian::digits(payload.len(), 4)[1]);
        assert(bytes[7] == big_endian::digits(payload.len(), 4)[2]);
        assert(bytes[8] == big_endian::digits(payload.len(), 4)[3]);
    }
}

/// A stored value is accepted exactly where it starts with a header that announces no more than
/// the limit and has as many bytes as the header announces behind it. Those are the payload.
pub proof fn every_framed_payload_is_found(framed: Seq<u8>, limit: nat, length: int)
    requires
        limit + 9 <= usize::MAX,
        length == four_bytes(framed, 5),
    ensures
        ({
            let payload = frame::payload_of(framed, limit);
            &&& payload is Ok <==> announces(framed, length) && length <= limit && length + 9
                <= framed.len()
            &&& payload matches Ok(found) ==> found == framed.subrange(9, length + 9)
            &&& payload matches Err(failure) ==> failure.kind == ErrorKind::InvalidData
        }),
{
    if framed.len() >= 9 {
        header_in_numbers(framed, limit);
    }
}

// Writes.

/// A write is answered with success exactly where the status that counts is 0, and with the
/// failure of its own status otherwise.
pub proof fn only_status_zero_is_a_write(
    item: CResult,
    overall: CResult,
    code: CResult,
    serviceable: bool,
)
    requires
        counts(item, overall, code),
    ensures
        ({
            let answer = mutation::replace_answer(item, overall, serviceable);
            &&& answer is Ok <==> code == 0
            &&& code != 0 ==> {
                &&& answer == Err::<(), Failure>(
                    status::status_failure(code, "replace"@, serviceable),
                )
                &&& answer matches Err(failure)
                &&& failure.kind == if 4 <= code <= 6 || 10 <= code <= 13 {
                    ErrorKind::Unavailable
                } else if code == 3 || code == 14 {
                    ErrorKind::InvalidArgument
                } else {
                    ErrorKind::Internal
                }
            }
        }),
{
}

/// A write of which neither the item nor the call has a status has failed.
pub proof fn a_write_without_a_status_has_failed(serviceable: bool)
    ensures
        mutation::replace_answer(i32::MIN, 0, serviceable) matches Err(failure) && failure.kind
            == ErrorKind::Internal,
{
}

/// A write call is made exactly for 1 to 4294967295 entries with keys that are not empty and with
/// payloads that can be framed. It gets the stored name of each key and the frame of each payload,
/// in their order.
pub proof fn every_entry_is_written_under_its_name(
    keys: Seq<Seq<char>>,
    payloads: Seq<Seq<u8>>,
    limit: nat,
)
    requires
        keys.len() == payloads.len(),
    ensures
        ({
            let plan = mutation::replace_plan(keys, payloads, limit);
            &&& plan == Ok::<Option<(Seq<Seq<char>>, Seq<Seq<u8>>)>, Failure>(None) <==> keys.len()
                == 0
            &&& keys.len() > 0 ==> (plan is Ok <==> keys.len() <= 4294967295 && (forall|i: int|
                0 <= i < keys.len() ==> (#[trigger] keys[i]).len() > 0) && (forall|i: int|
                0 <= i < payloads.len() ==> (#[trigger] payloads[i]).len() <= limit
                    && payloads[i].len() <= 4294967295))
            &&& plan matches Ok(Some((names, frames))) ==> {
                &&& names.len() == keys.len()
                &&& frames.len() == payloads.len()
                &&& forall|i: int|
                    #![trigger names[i]]
                    #![trigger keys[i]]
                    0 <= i < keys.len() ==> frame::native_key_of(keys[i]) == Ok::<
                        Seq<char>,
                        Failure,
                    >(names[i])
                &&& forall|i: int|
                    #![trigger frames[i]]
                    #![trigger payloads[i]]
                    0 <= i < payloads.len() ==> {
                        &&& frames[i].len() == payloads[i].len() + 9
                        &&& announces(frames[i], payloads[i].len() as int)
                        &&& frames[i].skip(9) == payloads[i]
                    }
            }
            &&& plan matches Err(failure) ==> failure.kind == ErrorKind::InvalidArgument
        }),
{
    mutation::frames_one_by_one(payloads, limit);
    assert forall|i: int| 0 <= i < payloads.len() implies ({
        let framed = #[trigger] frame::encoded_value(payloads[i], limit);
        &&& framed is Ok <==> payloads[i].len() <= limit && payloads[i].len() <= 4294967295
        &&& framed matches Ok(bytes) ==> {
            &&& bytes.len() == payloads[i].len() + 9
            &&& announces(bytes, payloads[i].len() as int)
            &&& bytes.skip(9) == payloads[i]
        }
    }) by {
        every_payload_within_the_limit_is_framed(payloads[i], limit);
    }
    if mutation::frames_of(payloads, limit) is Ok {
        assert forall|i: int| 0 <= i < payloads.len() implies (#[trigger] payloads[i]).len()
            <= limit && payloads[i].len() <= 4294967295 by {
            assert(frame::encoded_value(payloads[i], limit) is Ok);
        }
        let frames = mutation::frames_of(payloads, limit)->Ok_0;
        assert forall|i: int| 0 <= i < payloads.len() implies {
            &&& (#[trigger] frames[i]).len() == payloads[i].len() + 9
            &&& announces(frames[i], payloads[i].len() as int)
            &&& frames[i].skip(9) == payloads[i]
        } by {
            assert(frame::encoded_value(payloads[i], limit) == Ok::<Seq<u8>, Failure>(frames[i]));
        }
    } else {
        let failure = mutation::frames_of(payloads, limit)->Err_0;
        let i = choose|i: int|
            0 <= i < payloads.len() && (#[trigger] frame::encoded_value(payloads[i], limit))
                == Err::<Seq<u8>, Failure>(failure);
        assert(!(payloads[i].len() <= limit && payloads[i].len() <= 4294967295));
        every_payload_within_the_limit_is_framed(payloads[i], limit);
    }
}

// Deletes.

/// A delete is answered with success without a probe exactly where the status that counts is 0,
/// 7 or 9, and probed exactly where it is 5. Every other status is answered with its own failure.
pub proof fn only_a_deleted_or_missing_key_is_gone(
    item: CResult,
    overall: CResult,
    code: CResult,
    serviceable: bool,
)
    requires
        counts(item, overall, code),
    ensures
        ({
            let verdict = mutation::delete_verdict(item, overall, serviceable);
            &&& verdict == DeleteVerdict::Done(Ok(())) <==> code == 0 || code == 7 || code == 9
            &&& verdict == DeleteVerdict::Probe <==> code == 5
            &&& code != 0 && code != 5 && code != 7 && code != 9 ==> {
                &&& verdict == DeleteVerdict::Done(
                    Err(status::status_failure(code, "delete"@, serviceable)),
                )
                &&& verdict matches DeleteVerdict::Done(Err(failure))
                &&& failure.kind == if code == 4 || code == 6 || 10 <= code <= 13 {
                    ErrorKind::Unavailable
                } else if code == 3 || code == 14 {
                    ErrorKind::InvalidArgument
                } else {
                    ErrorKind::Internal
                }
            }
        }),
{
}

/// A delete of which neither the item nor the call has a status has failed.
pub proof fn a_delete_without_a_status_has_failed(serviceable: bool)
    ensures
        mutation::delete_verdict(i32::MIN, 0, serviceable) matches DeleteVerdict::Done(
            Err(failure),
        ) && failure.kind == ErrorKind::Internal,
{
}

/// A delete call is made exactly for 1 to 4294967295 keys that are not empty, and gets the stored
/// name of each, in their order.
pub proof fn every_key_is_deleted_under_its_name(keys: Seq<Seq<char>>)
    ensures
        ({
            let plan = mutation::delete_plan(keys);
            &&& plan == Ok::<Option<Seq<Seq<char>>>, Failure>(None) <==> keys.len() == 0
            &&& keys.len() > 0 ==> (plan is Ok <==> keys.len() <= 4294967295 && (forall|i: int|
                0 <= i < keys.len() ==> (#[trigger] keys[i]).len() > 0))
            &&& plan matches Ok(Some(names)) ==> {
                &&& names.len() == keys.len()
                &&& forall|i: int|
                    #![trigger names[i]]
                    #![trigger keys[i]]
                    0 <= i < keys.len() ==> frame::native_key_of(keys[i]) == Ok::<
                        Seq<char>,
                        Failure,
                    >(names[i])
            }
            &&& plan matches Err(failure) ==> failure.kind == ErrorKind::InvalidArgument
        }),
{
}

/// A delete that was probed has succeeded where the key is gone. Where the key is still there it
/// is unavailable, and where the probe failed it has failed in the same way.
pub proof fn a_probe_decides_a_delete(probe: Result<bool, Failure>)
    ensures
        probe matches Ok(found) ==> (mutation::probed_answer(probe) is Ok <==> !found),
        probe == Ok::<bool, Failure>(true) ==> (mutation::probed_answer(probe) matches Err(failure)
            && failure.kind == ErrorKind::Unavailable),
        probe matches Err(failure) ==> mutation::probed_answer(probe) == Err::<(), Failure>(
            failure,
        ),
{
}

// Probes.

/// A probe finds a key exactly where the status that counts is 0 or 14 and the caller's buffer is
/// in place, and finds it gone exactly where that status is 7 or 9. Every other status is answered
/// with its own failure.
pub proof fn the_status_decides_a_probe(
    read: RawReadView,
    overall: CResult,
    code: CResult,
    operation: Seq<char>,
    serviceable: bool,
)
    requires
        counts(read.result, overall, code),
    ensures
        ({
            let answer = mutation::probe_answer(read, overall, operation, serviceable);
            &&& answer == Ok::<bool, Failure>(true) <==> (code == 0 || code == 14)
                && read.preserved
            &&& answer == Ok::<bool, Failure>(false) <==> code == 7 || code == 9
            &&& (code == 0 || code == 14) && !read.preserved ==> (answer matches Err(failure)
                && failure.kind == ErrorKind::Internal)
            &&& code != 0 && code != 7 && code != 9 && code != 14 ==> {
                &&& answer == Err::<bool, Failure>(
                    status::status_failure(code, operation, serviceable),
                )
                &&& answer matches Err(failure)
                &&& failure.kind == if 4 <= code <= 6 || 10 <= code <= 13 {
                    ErrorKind::Unavailable
                } else if code == 3 {
                    ErrorKind::InvalidArgument
                } else {
                    ErrorKind::Internal
                }
            }
        }),
{
}

/// A probe of which neither the item nor the call has a status has failed.
pub proof fn a_probe_without_a_status_has_failed(
    read: RawReadView,
    operation: Seq<char>,
    serviceable: bool,
)
    requires
        read.result == -2147483648,
    ensures
        mutation::probe_answer(read, 0, operation, serviceable) matches Err(failure)
            && failure.kind == ErrorKind::Internal,
{
}

} // verus!
