//! The dispatch of a DLT/645 frame by its control code, and the decoding of
//! a whole frame: head, data field, end.

use crate::annotated::{field, models, AnnotatedField, FieldModel};
use crate::error::{FrameError};
use crate::frame_645::{fits_at, 
    address_field, baud_rate_field, broadcast_time_field, end_fields, event_reset_field,
    frozen_time_field, head_fields, head_with_wake, invalid_field, is_frame,
    maximum_demand_reset_field, meter_reset_field, password_field, password_response_field,
    read_err_field, wake_field, Frame645,
};
use crate::frame_645_items::{
    item_query, read_request_field, read_response_field, read_subsequent_field,
    read_subsequent_response_field, write_field,
};
use crate::frame_fun::{
    byte_sum, checksum, leading_count, lemma_leading_count, lemma_leading_count_is,
};
use crate::schema_find::{find_step, QframeConfig, RepositoryModel};

use crate::text::hex_text_spaced;
use vstd::prelude::*;
use vstd::slice::slice_subrange;

verus! {

/// The layouts of the data field, one for each group of control codes.
#[derive(Debug, Clone, Copy, PartialEq, Eq, Structural)]
pub enum Layout {
    ReadRequest,
    ReadResponse,
    ErrorResponse,
    ReadSubsequent,
    ReadSubsequentResponse,
    Write,
    ReadAddressResponse,
    WriteAddress,
    BroadcastTime,
    Freeze,
    BaudRate,
    Password,
    PasswordResponse,
    MaximumDemandReset,
    MeterReset,
    EventReset,
    Unparsed,
}

/// The layout that a control code selects.
pub open spec fn layout_of(control: u8) -> Layout {
    if control == 0x11 {
        Layout::ReadRequest
    } else if control == 0x91 || control == 0xB1 {
        Layout::ReadResponse
    } else if control == 0xD1 || control == 0xD2 || control == 0xD4 || control == 0xD6 || control
        == 0xD7 || control == 0xD9 || control == 0xDA || control == 0xDB {
        Layout::ErrorResponse
    } else if control == 0x12 {
        Layout::ReadSubsequent
    } else if control == 0x92 || control == 0xB2 {
        Layout::ReadSubsequentResponse
    } else if control == 0x14 {
        Layout::Write
    } else if control == 0x93 {
        Layout::ReadAddressResponse
    } else if control == 0x15 {
        Layout::WriteAddress
    } else if control == 0x08 {
        Layout::BroadcastTime
    } else if control == 0x16 {
        Layout::Freeze
    } else if control == 0x17 || control == 0x97 {
        Layout::BaudRate
    } else if control == 0x18 {
        Layout::Password
    } else if control == 0x98 {
        Layout::PasswordResponse
    } else if control == 0x19 {
        Layout::MaximumDemandReset
    } else if control == 0x1A {
        Layout::MeterReset
    } else if control == 0x1B {
        Layout::EventReset
    } else {
        Layout::Unparsed
    }
}

/// The number of bytes that a frame needs, from its start marker on, to
/// hold the fixed fields of a layout.
pub open spec fn least_length(layout: Layout) -> int {
    match layout {
        Layout::ReadRequest => 16,
        Layout::ReadResponse => 16,
        Layout::ErrorResponse => 13,
        Layout::ReadSubsequent => 17,
        Layout::ReadSubsequentResponse => 17,
        Layout::Write => 24,
        Layout::ReadAddressResponse => 18,
        Layout::WriteAddress => 18,
        Layout::BroadcastTime => 18,
        Layout::Freeze => 16,
        Layout::BaudRate => 13,
        Layout::Password => 24,
        Layout::PasswordResponse => 16,
        Layout::MaximumDemandReset => 20,
        Layout::MeterReset => 20,
        Layout::EventReset => 24,
        Layout::Unparsed => 12,
    }
}

/// The field of the data field of a frame that starts at its start marker,
/// and the repository after the lookups made for it. The control code
/// selects the layout; a frame too short for the fixed fields of its layout,
/// and one whose control code selects none, show their data uninterpreted.
#[verifier::opaque]
pub open spec fn data_field_of(s: RepositoryModel, body: Seq<u8>, at: int, region: Seq<char>) -> (
    FieldModel,
    RepositoryModel,
) {
    let layout = layout_of(body[8]);
    let found = find_step(s, item_query(body.subrange(10, 14), region));
    if body.len() < least_length(layout) {
        (invalid_field(body, at), s)
    } else {
        match layout {
            Layout::ReadRequest => (read_request_field(body, at, found.0), found.1),
            Layout::ReadResponse => read_response_field(s, body, at, region),
            Layout::ErrorResponse => (read_err_field(body, at), s),
            Layout::ReadSubsequent => (read_subsequent_field(body, at, found.0), found.1),
            Layout::ReadSubsequentResponse => read_subsequent_response_field(s, body, at, region),
            Layout::Write => write_field(s, body, at, region),
            Layout::ReadAddressResponse => (address_field(body, at, "通信地址："@), s),
            Layout::WriteAddress => (address_field(body, at, "写通信地址："@), s),
            Layout::BroadcastTime => (broadcast_time_field(body, at), s),
            Layout::Freeze => (frozen_time_field(body, at), s),
            Layout::BaudRate => (baud_rate_field(body, at), s),
            Layout::Password => (password_field(body, at), s),
            Layout::PasswordResponse => (password_response_field(body, at), s),
            Layout::MaximumDemandReset => (maximum_demand_reset_field(body, at), s),
            Layout::MeterReset => (meter_reset_field(body, at), s),
            Layout::EventReset => (event_reset_field(body, at), s),
            Layout::Unparsed => (invalid_field(body, at), s),
        }
    }
}

/// The fields of a frame whose first byte stands at `index`, and the
/// repository after the lookups made: the head, the data field, the end.
/// The ranges of all fields behind the wake-up bytes start behind them.
pub open spec fn frame_fields(s: RepositoryModel, frame: Seq<u8>, index: int, region: Seq<char>) -> (
    Seq<FieldModel>,
    RepositoryModel,
) {
    let wake = leading_count(frame, 0xFE) as int;
    let body = frame.subrange(wake, frame.len() as int);
    let data = data_field_of(s, body, index + wake, region);
    (head_with_wake(frame, index) + seq![data.0] + end_fields(body, index + wake), data.1)
}

/// `count` wake-up bytes.
pub open spec fn wake_bytes(count: nat) -> Seq<u8> {
    Seq::new(count, |i: int| 0xFEu8)
}

/// The fields of a frame with `count` wake-up bytes before it are the field
/// of the wake-up bytes followed by the fields that the frame alone has when
/// it is decoded `count` bytes further on. The lookups made are the same.
pub proof fn lemma_wake_up_bytes_come_first(
    s: RepositoryModel,
    body: Seq<u8>,
    count: nat,
    index: int,
    region: Seq<char>,
)
    requires
        body.len() > 0,
        body[0] != 0xFE,
        count > 0,
    ensures
        frame_fields(s, wake_bytes(count) + body, index, region).0 == seq![
            wake_field(wake_bytes(count) + body, count as int, index),
        ] + frame_fields(s, body, index + count, region).0,
        frame_fields(s, wake_bytes(count) + body, index, region).1 == frame_fields(
            s,
            body,
            index + count,
            region,
        ).1,
{
    let frame = wake_bytes(count) + body;
    lemma_leading_count_is(frame, 0xFE, count as int);
    lemma_leading_count_is(body, 0xFE, 0);
    assert(frame.subrange(count as int, frame.len() as int) =~= body);
    assert(body.subrange(0, body.len() as int) =~= body);
    let data = data_field_of(s, body, index + count, region);
    let bare = head_fields(body, index + count) + seq![data.0] + end_fields(body, index + count);
    assert(frame_fields(s, frame, index, region).0 =~= seq![
        wake_field(frame, count as int, index),
    ] + bare);
    assert(frame_fields(s, body, index + count, region).0 =~= bare);
}

/// A frame is accepted only where its length is the declared data length
/// plus twelve plus the number of its wake-up bytes.
pub proof fn law_length_before_acceptance(frame: Seq<u8>)
    requires
        is_frame(frame),
    ensures
        frame.len() == frame[leading_count(frame, 0xFE) as int + 9] as int + 12 + leading_count(
            frame,
            0xFE,
        ),
{
}

/// A byte that changes changes the sum of the bytes.
pub proof fn lemma_byte_sum_update(s: Seq<u8>, i: int, b: u8)
    requires
        0 <= i < s.len(),
    ensures
        byte_sum(s.update(i, b)) == byte_sum(s) - s[i] + b,
    decreases s.len(),
{
    let t = s.update(i, b);
    if i == s.len() - 1 {
        assert(t.drop_last() =~= s.drop_last());
    } else {
        lemma_byte_sum_update(s.drop_last(), i, b);
        assert(t.drop_last() =~= s.drop_last().update(i, b));
    }
}

/// A frame in which one byte before the checksum is changed no longer has
/// the checksum it had: the change is reported, whichever byte it is.
pub proof fn law_checksum_detects_change(s: Seq<u8>, i: int, b: u8)
    requires
        0 <= i < s.len(),
        b != s[i],
    ensures
        checksum(s.update(i, b)) != checksum(s),
{
    lemma_byte_sum_update(s, i, b);
    let x = byte_sum(s) as int;
    let d = b as int - s[i] as int;
    assert((x + d) % 256 != x % 256) by (nonlinear_arith)
        requires
            -256 < d < 256,
            d != 0,
            x + d >= 0,
            x >= 0,
    ;
}

/// Whether a frame carries the checksum of the bytes before its checksum.
pub open spec fn checksum_holds(frame: Seq<u8>) -> bool {
    frame.len() >= 2 && checksum(frame.subrange(0, frame.len() - 2)) == frame[frame.len() - 2]
}

/// A frame that carries its checksum and in which one byte before the
/// checksum is changed no longer carries it: the field of the checksum
/// reports the change. The two fields that end the frame keep their
/// ranges.
pub proof fn law_corruption_is_reported(frame: Seq<u8>, i: int, b: u8, at: int)
    requires
        checksum_holds(frame),
        0 <= i < frame.len() - 2,
        b != frame[i],
    ensures
        !checksum_holds(frame.update(i, b)),
        end_fields(frame.update(i, b), at)[0].start == end_fields(frame, at)[0].start,
        end_fields(frame.update(i, b), at)[0].end == end_fields(frame, at)[0].end,
        end_fields(frame.update(i, b), at)[1].start == end_fields(frame, at)[1].start,
        end_fields(frame.update(i, b), at)[1].end == end_fields(frame, at)[1].end,
{
    let counted = frame.subrange(0, frame.len() - 2);
    law_checksum_detects_change(counted, i, b);
    assert(frame.update(i, b).subrange(0, frame.len() - 2) =~= counted.update(i, b));
}

impl Frame645 {
    /// Appends the field of the data field of a frame that starts at its
    /// start marker; see [`data_field_of`].
    pub(crate) fn push_data_field(
        body: &[u8],
        result_list: &mut Vec<AnnotatedField>,
        at: usize,
        repo: &mut QframeConfig,
        region: &str,
    )
        requires
            body@.len() >= 12,
            at + body@.len() <= usize::MAX,
        ensures
            models(final(result_list)@) == models(old(result_list)@).push(
                data_field_of(old(repo)@, body@, at as int, region@).0,
            ),
            final(repo)@ == data_field_of(old(repo)@, body@, at as int, region@).1,
    {
        reveal(data_field_of);
        let afn = body[8];
        let done = if afn == 0x11 {
            Self::funanalysis_read_frame(body, result_list, at, repo, region)
        } else if afn == 0x91 || afn == 0xB1 {
            Self::funanalyze_read_response_frame(body, result_list, at, repo, region)
        } else if afn == 0xD1 || afn == 0xD2 || afn == 0xD4 || afn == 0xD6 || afn == 0xD7 || afn
            == 0xD9 || afn == 0xDA || afn == 0xDB {
            Self::funanalyze_read_err_frame(body, result_list, at)
        } else if afn == 0x12 {
            Self::funanalysis_read_subsequent_frame(body, result_list, at, repo, region)
        } else if afn == 0x92 || afn == 0xB2 {
            Self::funanalyze_read_subsequent_response_frame(body, result_list, at, repo, region)
        } else if afn == 0x14 {
            Self::funanalysis_write_frame(body, result_list, at, repo, region)
        } else if afn == 0x93 {
            Self::funanalysis_read_address_frame(body, result_list, at)
        } else if afn == 0x15 {
            Self::funanalysis_write_address_frame(body, result_list, at)
        } else if afn == 0x08 {
            Self::funanalysis_broadcast_time_frame(body, result_list, at)
        } else if afn == 0x16 {
            Self::funanalysis_write_frozen_time_frame(body, result_list, at)
        } else if afn == 0x17 || afn == 0x97 {
            Self::funanalysis_write_baud_rate_frame(body, result_list, at)
        } else if afn == 0x18 {
            Self::funanalysis_write_password_frame(body, result_list, at)
        } else if afn == 0x98 {
            Self::funanalysis_write_password_response_frame(body, result_list, at)
        } else if afn == 0x19 {
            Self::funanalysis_maximum_demand_reset_frame(body, result_list, at)
        } else if afn == 0x1A {
            Self::funanalysis_meter_reset_frame(body, result_list, at)
        } else if afn == 0x1B {
            Self::funanalysis_event_reset_frame(body, result_list, at)
        } else {
            Self::funanalysis_invalid_frame(body, result_list, at)
        };
        match done {
            Ok(_) => {},
            Err(_) => {
                let _ = Self::funanalysis_invalid_frame(body, result_list, at);
            },
        }
    }

    /// Appends the fields of a whole frame whose first byte stands at
    /// `index`: head, data field by control code, end; see
    /// [`frame_fields`]. Returns the index of the start marker. A buffer that
    /// is no frame, and one that would end beyond the largest index, is
    /// `InvalidFraming` and adds nothing.
    pub fn analysis_645_frame_by_afn(
        frame: &[u8],
        result_list: &mut Vec<AnnotatedField>,
        index: usize,
        region: &str,
        repo: &mut QframeConfig,
    ) -> (r: Result<usize, FrameError>)
        ensures
            !is_frame(frame@) || !fits_at(index, frame@) ==> r == Err::<usize, FrameError>(
                FrameError::InvalidFraming,
            ) && final(result_list)@ == old(result_list)@ && *final(repo) == *old(repo),
            is_frame(frame@) && fits_at(index, frame@) ==> r == Ok::<usize, FrameError>(
                (index + leading_count(frame@, 0xFE)) as usize,
            ) && models(final(result_list)@) == models(old(result_list)@) + frame_fields(
                old(repo)@,
                frame@,
                index as int,
                region@,
            ).0 && final(repo)@ == frame_fields(old(repo)@, frame@, index as int, region@).1,
    {
        if !Self::is_dlt645_frame(frame) || index > usize::MAX - frame.len() {
            return Err(FrameError::InvalidFraming);
        }
        let ghost before = models(result_list@);
        let n = frame.len();
        proof {
            lemma_leading_count(frame@, 0xFE);
        }
        let pos = match Self::analysis_head_frame(frame, result_list, index) {
            Ok(p) => p,
            Err(_) => {
                return Err(FrameError::InvalidFraming);
            },
        };
        let body = slice_subrange(frame, pos, n);
        let at = index + pos;
        Self::push_data_field(body, result_list, at, repo, region);
        let _ = Self::funanalysis_end_frame(body, result_list, at);
        proof {
            let data = data_field_of(old(repo)@, body@, at as int, region@);
            assert(models(result_list@) =~= before + (head_with_wake(frame@, index as int) + seq![
                data.0,
            ] + end_fields(body@, at as int)));
        }
        Ok(at)
    }
}

} // verus!
