//! The layouts of the DLT/645 data field that are fixed by the control code
//! alone, and the head and the end of a frame.

use crate::annotated::{field, leaf, models, AnnotatedField};
use crate::error::DecodeError;
use crate::frame_645::{fits_at, 
    address_field, baud_rate_field, baud_rate_text, broadcast_time_field, control_field,
    control_parts, end_fields, error_word_text, event_reset_field, frozen_time_field,
    function_name, head_fields, head_with_wake, hex_of, intro_and_reversed, invalid_field,
    is_frame, maximum_demand_reset_field, meter_reset_field, no_fields, operator_leaf,
    password_field, password_leaf, password_response_field, push_data_area, push_group, push_leaf,
    read_err_field, reset_leaves, shown_reversed, time_or_nothing, wake_field, write_reply_field,
    Frame645,
};
use crate::frame_fun::{checksum, leading_count, lemma_leading_count, FrameFun};
use crate::text::{
    decimal_text, hex_number, hex_text_spaced, push_decimal, push_hex_number, push_hex_pair,
};
use vstd::prelude::*;
use vstd::slice::slice_subrange;

verus! {

impl Frame645 {
    /// Whether the buffer is one DLT/645 frame; see [`is_frame`]. The length
    /// that the frame declares must account for every byte: data length plus
    /// twelve plus the number of wake-up bytes.
    pub fn is_dlt645_frame(data: &[u8]) -> (valid: bool)
        ensures
            valid == is_frame(data@),
            valid ==> data@.len() == data@[leading_count(data@, 0xFE) as int + 9] as int + 12
                + leading_count(data@, 0xFE),
            fits_at(0, data@),
    {
        let n = data.len();
        if n < 12 {
            return false;
        }
        let position = FrameFun::get_frame_fe_count(data);
        proof {
            lemma_leading_count(data@, 0xFE);
        }
        if position > n - 10 {
            return false;
        }
        if data[position] != 0x68 || data[n - 1] != 0x16 || data[position + 7] != 0x68 {
            return false;
        }
        let data_length = data[position + 9] as usize;
        n - 12 >= position && n - 12 - position == data_length
    }

    /// What an error word says.
    pub fn error_word_name(word: u8) -> (s: &'static str)
        ensures
            s@ == error_word_text(word),
    {
        if (word / 2) % 2 == 1 {
            "无请求数据"
        } else if (word / 4) % 2 == 1 {
            "密码错误/未授权"
        } else if (word / 8) % 2 == 1 {
            "通信速率不能更改"
        } else if (word / 16) % 2 == 1 {
            "年时区数超"
        } else if (word / 32) % 2 == 1 {
            "时段数超"
        } else if (word / 64) % 2 == 1 {
            "费率数超"
        } else if word != 0 {
            "其他错误"
        } else {
            proof {
                reveal_strlit("");
            }
            assert(""@ =~= Seq::<char>::empty());
            ""
        }
    }

    /// The rate that a feature word names; see [`baud_rate_text`].
    pub fn baud_rate_name(word: u8) -> (s: &'static str)
        ensures
            s@ == baud_rate_text(word),
    {
        let count: u8 = word % 2 + (word / 2) % 2 + (word / 4) % 2 + (word / 8) % 2 + (word / 16)
            % 2 + (word / 32) % 2 + (word / 64) % 2 + (word / 128) % 2;
        if count > 1 {
            "特征字错误(多个bit位为1)"
        } else if word % 2 == 1 || (word / 128) % 2 == 1 {
            "保留"
        } else if (word / 2) % 2 == 1 {
            "600bps"
        } else if (word / 4) % 2 == 1 {
            "1200bps"
        } else if (word / 8) % 2 == 1 {
            "2400bps"
        } else if (word / 16) % 2 == 1 {
            "4800bps"
        } else if (word / 32) % 2 == 1 {
            "9600bps"
        } else if (word / 64) % 2 == 1 {
            "19200bps"
        } else {
            proof {
                reveal_strlit("");
            }
            assert(""@ =~= Seq::<char>::empty());
            ""
        }
    }

    /// The name of a function code.
    pub fn function_name_of(code: u8) -> (s: &'static str)
        ensures
            s@ == function_name(code),
    {
        if code == 0x00 {
            "保留"
        } else if code == 0x08 {
            "广播校时"
        } else if code == 0x11 {
            "读数据"
        } else if code == 0x12 {
            "读后续数据"
        } else if code == 0x13 {
            "读通信地址"
        } else if code == 0x14 {
            "写数据"
        } else if code == 0x15 {
            "写通信地址"
        } else if code == 0x16 {
            "冻结命令"
        } else if code == 0x17 {
            "更改通信速率"
        } else if code == 0x18 {
            "修改密码"
        } else if code == 0x19 {
            "最大需量清零"
        } else if code == 0x1A {
            "电表清零"
        } else if code == 0x1B {
            "事件清零"
        } else {
            "未知"
        }
    }

    /// A number in decimal.
    pub fn decimal_of(n: u64) -> (text: String)
        ensures
            text@ == decimal_text(n as nat),
    {
        let mut text = String::new();
        push_decimal(&mut text, n);
        assert(text@ =~= decimal_text(n as nat));
        text
    }

    /// Appends the field of a control code with its parts; see
    /// [`control_field`].
    pub(crate) fn push_control_field(list: &mut Vec<AnnotatedField>, control: u8, at: usize)
        requires
            at + 1 <= usize::MAX,
        ensures
            models(final(list)@) == models(old(list)@).push(control_field(control, at as int)),
    {
        let d7 = control / 128;
        let d6 = (control / 64) % 2;
        let d5 = (control / 32) % 2;
        let code = control % 32;
        let mut parts = no_fields();
        push_leaf(
            &mut parts,
            "D7传送反向",
            Self::decimal_of(d7 as u64),
            String::from_str(
                if d7 == 1 {
                    "主站发出的命令帧"
                } else {
                    "从站发出的应答帧"
                },
            ),
            at,
            at + 1,
        );
        push_leaf(
            &mut parts,
            "D6传送反向",
            Self::decimal_of(d6 as u64),
            String::from_str(
                if d6 == 0 {
                    "从站正常应答"
                } else {
                    "从站异常应答"
                },
            ),
            at,
            at + 1,
        );
        push_leaf(
            &mut parts,
            "D5传送反向",
            Self::decimal_of(d5 as u64),
            String::from_str(
                if d5 == 0 {
                    "无后续数据帧"
                } else {
                    "有后续数据帧"
                },
            ),
            at,
            at + 1,
        );
        let mut code_text = String::new();
        push_hex_number(&mut code_text, code as u64);
        assert(code_text@ =~= hex_number(code as nat));
        push_leaf(
            &mut parts,
            "D0~D4功能码",
            code_text,
            String::from_str(Self::function_name_of(code)),
            at,
            at + 1,
        );
        assert(models(parts@) =~= control_parts(control, at as int));
        let mut control_text = String::from_str(
            if d7 == 1 {
                "主站请求："
            } else {
                "电表返回："
            },
        );
        control_text.append(Self::function_name_of(code));
        push_group(list, "控制码", hex_of(control), control_text, at, at + 1, parts);
    }

    /// Appends the fields of the head of a frame that starts at its start
    /// marker; see [`head_fields`].
    pub(crate) fn push_head_fields(list: &mut Vec<AnnotatedField>, body: &[u8], at: usize)
        requires
            body@.len() >= 10,
            at + 10 <= usize::MAX,
        ensures
            models(final(list)@) == models(old(list)@) + head_fields(body@, at as int),
    {
        let ghost before = models(list@);
        let address = slice_subrange(body, 1, 7);
        let length = body[9];
        push_leaf(
            list,
            "帧起始符",
            hex_of(body[0]),
            String::from_str("电表规约：标识一帧信息的开始"),
            at,
            at + 1,
        );
        let mut address_text = String::from_str("电表通信地址：");
        address_text.append(FrameFun::get_data_str_reverser(address).as_str());
        push_leaf(list, "地址域", FrameFun::get_data_str_with_space(address), address_text, at + 1, at + 7);
        push_leaf(
            list,
            "帧起始符",
            hex_of(body[7]),
            String::from_str("电表规约：标识一帧信息的开始"),
            at + 7,
            at + 8,
        );
        Self::push_control_field(list, body[8], at + 8);
        let mut length_text = String::from_str("长度=");
        push_decimal(&mut length_text, length as u64);
        length_text.append(", 总长度=");
        push_decimal(&mut length_text, length as u64 + 12);
        length_text.append("(总长度=长度+12)");
        push_leaf(list, "数据长度", hex_of(length), length_text, at + 9, at + 10);
        assert(models(list@) =~= before + head_fields(body@, at as int));
    }

    /// Appends the fields of the head of a frame: a field for the wake-up
    /// bytes where there are any, start marker, address, start marker,
    /// control code with its parts, data length. Returns the number of
    /// wake-up bytes. A buffer with fewer than ten bytes behind its wake-up
    /// bytes is `TooShort` and adds nothing.
    pub fn analysis_head_frame(frame: &[u8], result_list: &mut Vec<AnnotatedField>, indx: usize) -> (r:
        Result<usize, DecodeError>)
        ensures
            !fits_at(indx, frame@) ==> r == Err::<usize, DecodeError>(DecodeError::OutOfRange)
                && final(result_list)@ == old(result_list)@,
            fits_at(indx, frame@) && frame@.len() < leading_count(frame@, 0xFE) + 10 ==> r == Err::<usize, DecodeError>(
                DecodeError::TooShort,
            ) && final(result_list)@ == old(result_list)@,
            fits_at(indx, frame@) && frame@.len() >= leading_count(frame@, 0xFE) + 10 ==> r == Ok::<usize, DecodeError>(
                leading_count(frame@, 0xFE) as usize,
            ) && models(final(result_list)@) == models(old(result_list)@) + head_with_wake(
                frame@,
                indx as int,
            ),
    {
        if indx > usize::MAX - frame.len() {
            return Err(DecodeError::OutOfRange);
        }
        let n = frame.len();
        let pos = FrameFun::get_frame_fe_count(frame);
        proof {
            lemma_leading_count(frame@, 0xFE);
        }
        if n - pos < 10 {
            return Err(DecodeError::TooShort);
        }
        let ghost before = models(result_list@);
        let body = slice_subrange(frame, pos, n);
        if pos != 0 {
            push_leaf(
                result_list,
                "唤醒符",
                FrameFun::get_data_str_with_space(slice_subrange(frame, 0, pos)),
                String::from_str("电表规约：电能表唤醒符"),
                indx,
                indx + pos,
            );
        }
        let ghost middle = models(result_list@);
        Self::push_head_fields(result_list, body, indx + pos);
        proof {
            if pos != 0 {
                assert(middle =~= before + seq![wake_field(frame@, pos as int, indx as int)]);
            }
            assert(models(result_list@) =~= before + head_with_wake(frame@, indx as int));
        }
        Ok(pos)
    }

    /// Appends the two fields that end a frame, the checksum and the end
    /// marker; see [`end_fields`]. A frame of fewer than two bytes is
    /// `TooShort` and adds nothing.
    pub fn funanalysis_end_frame(frame: &[u8], result_list: &mut Vec<AnnotatedField>, indx: usize) -> (r:
        Result<(), DecodeError>)
        ensures
            !fits_at(indx, frame@) ==> r == Err::<(), DecodeError>(DecodeError::OutOfRange)
                && final(result_list)@ == old(result_list)@,
            fits_at(indx, frame@) && frame@.len() < 2 ==> r == Err::<(), DecodeError>(DecodeError::TooShort) && final(result_list)@ == old(result_list)@,
            fits_at(indx, frame@) && frame@.len() >= 2 ==> r is Ok && models(final(result_list)@) == models(
                old(result_list)@,
            ) + end_fields(frame@, indx as int),
    {
        if indx > usize::MAX - frame.len() {
            return Err(DecodeError::OutOfRange);
        }
        let length = frame.len();
        if length < 2 {
            return Err(DecodeError::TooShort);
        }
        let ghost before = models(result_list@);
        let cs = FrameFun::calculate_cs(slice_subrange(frame, 0, length - 2));
        let cs_text = if cs == frame[length - 2] {
            String::from_str("电表规约报文校验码正确")
        } else {
            let mut t = String::from_str("电表规约校验码错误，应为：");
            push_hex_pair(&mut t, cs);
            t
        };
        push_leaf(
            result_list,
            "校验码",
            hex_of(frame[length - 2]),
            cs_text,
            indx + length - 2,
            indx + length - 1,
        );
        push_leaf(
            result_list,
            "结束符",
            hex_of(frame[length - 1]),
            String::from_str("电表规约报文结束符"),
            indx + length - 1,
            indx + length,
        );
        assert(models(result_list@) =~= before + end_fields(frame@, indx as int));
        Ok(())
    }

    /// Appends the field of an error response; see [`read_err_field`]. A
    /// frame of fewer than thirteen bytes is `TooShort` and adds nothing.
    pub fn funanalyze_read_err_frame(
        frame: &[u8],
        result_list: &mut Vec<AnnotatedField>,
        indx: usize,
    ) -> (r: Result<(), DecodeError>)
        ensures
            !fits_at(indx, frame@) ==> r == Err::<(), DecodeError>(DecodeError::OutOfRange)
                && final(result_list)@ == old(result_list)@,
            fits_at(indx, frame@) && frame@.len() < 13 ==> r == Err::<(), DecodeError>(DecodeError::TooShort) && final(result_list)@ == old(result_list)@,
            fits_at(indx, frame@) && frame@.len() >= 13 ==> r is Ok && models(final(result_list)@) == models(
                old(result_list)@,
            ).push(read_err_field(frame@, indx as int)),
    {
        if indx > usize::MAX - frame.len() {
            return Err(DecodeError::OutOfRange);
        }
        let length = frame.len();
        if length < 13 {
            return Err(DecodeError::TooShort);
        }
        let err_code = frame[10];
        let mut text = String::from_str("错误类型: ");
        text.append(Self::error_word_name(FrameFun::unbias(err_code)));
        push_leaf(result_list, "错误信息字", hex_of(err_code), text, indx + 10, indx + length - 2);
        Ok(())
    }

    /// Appends the field of the answer to a write; see
    /// [`write_reply_field`]. A frame of fewer than three bytes is `TooShort`
    /// and adds nothing.
    pub fn funanalyze_write_replay_frame(
        frame: &[u8],
        result_list: &mut Vec<AnnotatedField>,
        indx: usize,
    ) -> (r: Result<(), DecodeError>)
        ensures
            !fits_at(indx, frame@) ==> r == Err::<(), DecodeError>(DecodeError::OutOfRange)
                && final(result_list)@ == old(result_list)@,
            fits_at(indx, frame@) && frame@.len() < 3 ==> r == Err::<(), DecodeError>(DecodeError::TooShort) && final(result_list)@ == old(result_list)@,
            fits_at(indx, frame@) && frame@.len() >= 3 ==> r is Ok && models(final(result_list)@) == models(
                old(result_list)@,
            ).push(write_reply_field(frame@, indx as int)),
    {
        if indx > usize::MAX - frame.len() {
            return Err(DecodeError::OutOfRange);
        }
        let length = frame.len();
        if length < 3 {
            return Err(DecodeError::TooShort);
        }
        let err_code = frame[length - 3];
        let text = if err_code != 0 {
            String::from_str("写数据错误")
        } else {
            String::from_str("正常应答")
        };
        push_leaf(
            result_list,
            "写数据应答",
            hex_of(err_code),
            text,
            indx + length - 3,
            indx + length - 2,
        );
        Ok(())
    }

    /// Appends the data field of a frame that carries a communication
    /// address in bytes 10 to 15, introduced by `intro`.
    pub(crate) fn push_address_field(
        frame: &[u8],
        result_list: &mut Vec<AnnotatedField>,
        indx: usize,
        intro: &str,
    ) -> (r: Result<(), DecodeError>)
        requires
            indx + frame@.len() <= usize::MAX,
        ensures
            frame@.len() < 18 ==> r == Err::<(), DecodeError>(DecodeError::TooShort) && final(result_list)@ == old(result_list)@,
            frame@.len() >= 18 ==> r is Ok && models(final(result_list)@) == models(
                old(result_list)@,
            ).push(address_field(frame@, indx as int, intro@)),
    {
        if frame.len() < 18 {
            return Err(DecodeError::TooShort);
        }
        let address = slice_subrange(frame, 10, 16);
        let mut data_list = no_fields();
        push_leaf(
            &mut data_list,
            "数据内容",
            FrameFun::get_data_str_with_space(address),
            intro_and_reversed(intro, address),
            indx + 10,
            indx + 16,
        );
        assert(models(data_list@) =~= seq![
            leaf(
                "数据内容"@,
                hex_text_spaced(address@),
                intro@ + shown_reversed(address@),
                indx + 10,
                indx + 16,
            ),
        ]);
        push_data_area(result_list, indx + 10, indx + 16, data_list);
        Ok(())
    }

    /// Appends the data field of the answer that carries the communication
    /// address. A frame of fewer than eighteen bytes is `TooShort` and adds
    /// nothing.
    pub fn funanalysis_read_address_frame(
        frame: &[u8],
        result_list: &mut Vec<AnnotatedField>,
        indx: usize,
    ) -> (r: Result<(), DecodeError>)
        ensures
            !fits_at(indx, frame@) ==> r == Err::<(), DecodeError>(DecodeError::OutOfRange)
                && final(result_list)@ == old(result_list)@,
            fits_at(indx, frame@) && frame@.len() < 18 ==> r == Err::<(), DecodeError>(DecodeError::TooShort) && final(result_list)@ == old(result_list)@,
            fits_at(indx, frame@) && frame@.len() >= 18 ==> r is Ok && models(final(result_list)@) == models(
                old(result_list)@,
            ).push(address_field(frame@, indx as int, "通信地址："@)),
    {
        if indx > usize::MAX - frame.len() {
            return Err(DecodeError::OutOfRange);
        }
        Self::push_address_field(frame, result_list, indx, "通信地址：")
    }

    /// Appends the data field of the command that sets the communication
    /// address. A frame of fewer than eighteen bytes is `TooShort` and adds
    /// nothing.
    pub fn funanalysis_write_address_frame(
        frame: &[u8],
        result_list: &mut Vec<AnnotatedField>,
        indx: usize,
    ) -> (r: Result<(), DecodeError>)
        ensures
            !fits_at(indx, frame@) ==> r == Err::<(), DecodeError>(DecodeError::OutOfRange)
                && final(result_list)@ == old(result_list)@,
            fits_at(indx, frame@) && frame@.len() < 18 ==> r == Err::<(), DecodeError>(DecodeError::TooShort) && final(result_list)@ == old(result_list)@,
            fits_at(indx, frame@) && frame@.len() >= 18 ==> r is Ok && models(final(result_list)@) == models(
                old(result_list)@,
            ).push(address_field(frame@, indx as int, "写通信地址："@)),
    {
        if indx > usize::MAX - frame.len() {
            return Err(DecodeError::OutOfRange);
        }
        Self::push_address_field(frame, result_list, indx, "写通信地址：")
    }

    /// The text of a time whose bytes carry the bias or not, or nothing
    /// where the layout names a byte that the data lacks.
    pub fn time_text_or_nothing(data: &[u8], layout: &str, need_delete: bool) -> (text: String)
        ensures
            text@ == time_or_nothing(data@, layout@, need_delete),
    {
        match FrameFun::parse_time_data(data, layout, need_delete) {
            Ok(t) => t,
            Err(_) => String::new(),
        }
    }

    /// Appends the data field of a broadcast time frame; see
    /// [`broadcast_time_field`]. A frame of fewer than eighteen bytes is
    /// `TooShort` and adds nothing.
    pub fn funanalysis_broadcast_time_frame(
        frame: &[u8],
        result_list: &mut Vec<AnnotatedField>,
        indx: usize,
    ) -> (r: Result<(), DecodeError>)
        ensures
            !fits_at(indx, frame@) ==> r == Err::<(), DecodeError>(DecodeError::OutOfRange)
                && final(result_list)@ == old(result_list)@,
            fits_at(indx, frame@) && frame@.len() < 18 ==> r == Err::<(), DecodeError>(DecodeError::TooShort) && final(result_list)@ == old(result_list)@,
            fits_at(indx, frame@) && frame@.len() >= 18 ==> r is Ok && models(final(result_list)@) == models(
                old(result_list)@,
            ).push(broadcast_time_field(frame@, indx as int)),
    {
        if indx > usize::MAX - frame.len() {
            return Err(DecodeError::OutOfRange);
        }
        if frame.len() < 18 {
            return Err(DecodeError::TooShort);
        }
        let time = slice_subrange(frame, 10, 16);
        let mut data_list = no_fields();
        let mut text = String::from_str("校时时间：");
        text.append(Self::time_text_or_nothing(time, "ssmmhhDDMMYY", true).as_str());
        push_leaf(
            &mut data_list,
            "数据内容",
            FrameFun::get_data_str_with_space(time),
            text,
            indx + 10,
            indx + 16,
        );
        assert(models(data_list@) =~= seq![
            leaf(
                "数据内容"@,
                hex_text_spaced(time@),
                "校时时间："@ + time_or_nothing(time@, "ssmmhhDDMMYY"@, true),
                indx + 10,
                indx + 16,
            ),
        ]);
        push_data_area(result_list, indx + 10, indx + 16, data_list);
        Ok(())
    }

    /// Appends the data field of a freeze command; see
    /// [`frozen_time_field`]. A frame of fewer than sixteen bytes is
    /// `TooShort` and adds nothing.
    pub fn funanalysis_write_frozen_time_frame(
        frame: &[u8],
        result_list: &mut Vec<AnnotatedField>,
        indx: usize,
    ) -> (r: Result<(), DecodeError>)
        ensures
            !fits_at(indx, frame@) ==> r == Err::<(), DecodeError>(DecodeError::OutOfRange)
                && final(result_list)@ == old(result_list)@,
            fits_at(indx, frame@) && frame@.len() < 16 ==> r == Err::<(), DecodeError>(DecodeError::TooShort) && final(result_list)@ == old(result_list)@,
            fits_at(indx, frame@) && frame@.len() >= 16 ==> r is Ok && models(final(result_list)@) == models(
                old(result_list)@,
            ).push(frozen_time_field(frame@, indx as int)),
    {
        if indx > usize::MAX - frame.len() {
            return Err(DecodeError::OutOfRange);
        }
        let n = frame.len();
        if n < 16 {
            return Err(DecodeError::TooShort);
        }
        let time = slice_subrange(frame, 10, 14);
        let plain = FrameFun::frame_delete_33h(time);
        let form_time = FrameFun::reversed(plain.as_slice());
        let frozen_type = FrameFun::parse_freeze_time(form_time.as_slice());
        let mut text = intro_and_reversed("冻结命令：", time);
        text.append(" 表示冻结时间为：");
        text.append(frozen_type.as_str());
        let mut data_list = no_fields();
        push_leaf(
            &mut data_list,
            "数据内容",
            FrameFun::get_data_str_with_space(time),
            text,
            indx + 10,
            indx + n - 2,
        );
        assert(models(data_list@) =~= frozen_time_field(frame@, indx as int).children);
        push_data_area(result_list, indx + 10, indx + n - 2, data_list);
        Ok(())
    }

    /// Appends the data field of a change of the communication rate; see
    /// [`baud_rate_field`]. A feature word with more than one bit set is
    /// reported as an error in the text. A frame of fewer than thirteen
    /// bytes is `TooShort` and adds nothing.
    pub fn funanalysis_write_baud_rate_frame(
        frame: &[u8],
        result_list: &mut Vec<AnnotatedField>,
        indx: usize,
    ) -> (r: Result<(), DecodeError>)
        ensures
            !fits_at(indx, frame@) ==> r == Err::<(), DecodeError>(DecodeError::OutOfRange)
                && final(result_list)@ == old(result_list)@,
            fits_at(indx, frame@) && frame@.len() < 13 ==> r == Err::<(), DecodeError>(DecodeError::TooShort) && final(result_list)@ == old(result_list)@,
            fits_at(indx, frame@) && frame@.len() >= 13 ==> r is Ok && models(final(result_list)@) == models(
                old(result_list)@,
            ).push(baud_rate_field(frame@, indx as int)),
    {
        if indx > usize::MAX - frame.len() {
            return Err(DecodeError::OutOfRange);
        }
        let n = frame.len();
        if n < 13 {
            return Err(DecodeError::TooShort);
        }
        let word = FrameFun::unbias(frame[10]);
        let mut text = String::from_str("通信速率特征字：");
        push_hex_pair(&mut text, word);
        text.append(" 通信速率：");
        text.append(Self::baud_rate_name(word));
        let mut data_list = no_fields();
        push_leaf(&mut data_list, "数据内容", hex_of(word), text, indx + 10, indx + 11);
        assert(models(data_list@) =~= baud_rate_field(frame@, indx as int).children);
        push_data_area(result_list, indx + 10, indx + n - 2, data_list);
        Ok(())
    }

    /// Appends the field of a password of four bytes.
    pub(crate) fn push_password_leaf(
        list: &mut Vec<AnnotatedField>,
        label: &str,
        permission_intro: &str,
        password_intro: &str,
        bytes: &[u8],
        start: usize,
    )
        requires
            bytes@.len() == 4,
            start + 4 <= usize::MAX,
        ensures
            models(final(list)@) == models(old(list)@).push(
                password_leaf(label@, permission_intro@, password_intro@, bytes@, start as int),
            ),
    {
        let mut text = String::from_str(permission_intro);
        push_hex_pair(&mut text, FrameFun::unbias(bytes[0]));
        text.append(password_intro);
        text.append(FrameFun::get_data_str_delete_33h_reverse(slice_subrange(bytes, 1, 4)).as_str());
        push_leaf(list, label, FrameFun::get_data_str_with_space(bytes), text, start, start + 4);
    }

    /// Appends the field of an operator code of four bytes.
    pub(crate) fn push_operator_leaf(list: &mut Vec<AnnotatedField>, bytes: &[u8], start: usize)
        requires
            bytes@.len() == 4,
            start + 4 <= usize::MAX,
        ensures
            models(final(list)@) == models(old(list)@).push(operator_leaf(bytes@, start as int)),
    {
        push_leaf(
            list,
            "操作者代码",
            FrameFun::get_data_str_with_space(bytes),
            intro_and_reversed("操作者代码：", bytes),
            start,
            start + 4,
        );
    }

    /// The password and the operator with which a reset command starts.
    pub(crate) fn reset_leaves_of(frame: &[u8], indx: usize) -> (list: Vec<AnnotatedField>)
        requires
            frame@.len() >= 18,
            indx + frame@.len() <= usize::MAX,
        ensures
            models(list@) == reset_leaves(frame@, indx as int),
    {
        let mut list = no_fields();
        Self::push_password_leaf(
            &mut list,
            "密码权限",
            "权限：",
            " 密码：",
            slice_subrange(frame, 10, 14),
            indx + 10,
        );
        Self::push_operator_leaf(&mut list, slice_subrange(frame, 14, 18), indx + 14);
        assert(models(list@) =~= reset_leaves(frame@, indx as int));
        list
    }

    /// Appends the data field of a password change; see [`password_field`].
    /// A frame of fewer than twenty-four bytes is `TooShort` and adds
    /// nothing.
    pub fn funanalysis_write_password_frame(
        frame: &[u8],
        result_list: &mut Vec<AnnotatedField>,
        indx: usize,
    ) -> (r: Result<(), DecodeError>)
        ensures
            !fits_at(indx, frame@) ==> r == Err::<(), DecodeError>(DecodeError::OutOfRange)
                && final(result_list)@ == old(result_list)@,
            fits_at(indx, frame@) && frame@.len() < 24 ==> r == Err::<(), DecodeError>(DecodeError::TooShort) && final(result_list)@ == old(result_list)@,
            fits_at(indx, frame@) && frame@.len() >= 24 ==> r is Ok && models(final(result_list)@) == models(
                old(result_list)@,
            ).push(password_field(frame@, indx as int)),
    {
        if indx > usize::MAX - frame.len() {
            return Err(DecodeError::OutOfRange);
        }
        let n = frame.len();
        if n < 24 {
            return Err(DecodeError::TooShort);
        }
        let item = slice_subrange(frame, 10, 14);
        let mut sub_result = no_fields();
        let mut item_text = intro_and_reversed("数据标识[", item);
        item_text.append("]");
        push_leaf(
            &mut sub_result,
            "数据标识编码",
            FrameFun::get_data_str_with_space(item),
            item_text,
            indx + 10,
            indx + 14,
        );
        Self::push_password_leaf(
            &mut sub_result,
            "原密码及权限",
            "原密码权限：",
            " 原密码：",
            slice_subrange(frame, 14, 18),
            indx + 14,
        );
        Self::push_password_leaf(
            &mut sub_result,
            "新密码及权限",
            "新密码权限：",
            " 新密码：",
            slice_subrange(frame, 18, 22),
            indx + 18,
        );
        let ghost want = password_field(frame@, indx as int);
        assert(models(sub_result@) =~= want.children[0].children);
        let mut data_list = no_fields();
        push_group(
            &mut data_list,
            "数据内容",
            FrameFun::get_data_str_with_space(slice_subrange(frame, 10, n - 2)),
            String::from_str("密码设置"),
            indx + 10,
            indx + 22,
            sub_result,
        );
        assert(models(data_list@) =~= want.children);
        push_data_area(result_list, indx + 10, indx + n - 2, data_list);
        Ok(())
    }

    /// Appends the data field of the answer to a password change; see
    /// [`password_response_field`]. A frame of fewer than sixteen bytes is
    /// `TooShort` and adds nothing.
    pub fn funanalysis_write_password_response_frame(
        frame: &[u8],
        result_list: &mut Vec<AnnotatedField>,
        indx: usize,
    ) -> (r: Result<(), DecodeError>)
        ensures
            !fits_at(indx, frame@) ==> r == Err::<(), DecodeError>(DecodeError::OutOfRange)
                && final(result_list)@ == old(result_list)@,
            fits_at(indx, frame@) && frame@.len() < 16 ==> r == Err::<(), DecodeError>(DecodeError::TooShort) && final(result_list)@ == old(result_list)@,
            fits_at(indx, frame@) && frame@.len() >= 16 ==> r is Ok && models(final(result_list)@) == models(
                old(result_list)@,
            ).push(password_response_field(frame@, indx as int)),
    {
        if indx > usize::MAX - frame.len() {
            return Err(DecodeError::OutOfRange);
        }
        let n = frame.len();
        if n < 16 {
            return Err(DecodeError::TooShort);
        }
        let mut sub_result = no_fields();
        Self::push_password_leaf(
            &mut sub_result,
            "新密码及权限",
            "新密码权限：",
            " 新密码：",
            slice_subrange(frame, 10, 14),
            indx + 10,
        );
        let ghost want = password_response_field(frame@, indx as int);
        assert(models(sub_result@) =~= want.children[0].children);
        let mut data_list = no_fields();
        push_group(
            &mut data_list,
            "数据内容",
            FrameFun::get_data_str_with_space(slice_subrange(frame, 10, n - 2)),
            String::from_str("密码设置"),
            indx + 10,
            indx + 14,
            sub_result,
        );
        assert(models(data_list@) =~= want.children);
        push_data_area(result_list, indx + 10, indx + n - 2, data_list);
        Ok(())
    }

    /// Appends the data field of a reset of the maximum demand; see
    /// [`maximum_demand_reset_field`]. A frame of fewer than twenty bytes is
    /// `TooShort` and adds nothing.
    pub fn funanalysis_maximum_demand_reset_frame(
        frame: &[u8],
        result_list: &mut Vec<AnnotatedField>,
        indx: usize,
    ) -> (r: Result<(), DecodeError>)
        ensures
            !fits_at(indx, frame@) ==> r == Err::<(), DecodeError>(DecodeError::OutOfRange)
                && final(result_list)@ == old(result_list)@,
            fits_at(indx, frame@) && frame@.len() < 20 ==> r == Err::<(), DecodeError>(DecodeError::TooShort) && final(result_list)@ == old(result_list)@,
            fits_at(indx, frame@) && frame@.len() >= 20 ==> r is Ok && models(final(result_list)@) == models(
                old(result_list)@,
            ).push(maximum_demand_reset_field(frame@, indx as int)),
    {
        if indx > usize::MAX - frame.len() {
            return Err(DecodeError::OutOfRange);
        }
        let n = frame.len();
        if n < 20 {
            return Err(DecodeError::TooShort);
        }
        let sub_result = Self::reset_leaves_of(frame, indx);
        let mut data_list = no_fields();
        push_group(
            &mut data_list,
            "数据内容",
            FrameFun::get_data_str_with_space(slice_subrange(frame, 10, n - 2)),
            String::from_str("最大需量清零"),
            indx + 10,
            indx + n - 2,
            sub_result,
        );
        assert(models(data_list@) =~= maximum_demand_reset_field(frame@, indx as int).children);
        push_data_area(result_list, indx + 10, indx + n - 2, data_list);
        Ok(())
    }

    /// Appends the data field of a meter reset; see [`meter_reset_field`]. A
    /// frame of fewer than twenty bytes is `TooShort` and adds nothing.
    pub fn funanalysis_meter_reset_frame(
        frame: &[u8],
        result_list: &mut Vec<AnnotatedField>,
        indx: usize,
    ) -> (r: Result<(), DecodeError>)
        ensures
            !fits_at(indx, frame@) ==> r == Err::<(), DecodeError>(DecodeError::OutOfRange)
                && final(result_list)@ == old(result_list)@,
            fits_at(indx, frame@) && frame@.len() < 20 ==> r == Err::<(), DecodeError>(DecodeError::TooShort) && final(result_list)@ == old(result_list)@,
            fits_at(indx, frame@) && frame@.len() >= 20 ==> r is Ok && models(final(result_list)@) == models(
                old(result_list)@,
            ).push(meter_reset_field(frame@, indx as int)),
    {
        if indx > usize::MAX - frame.len() {
            return Err(DecodeError::OutOfRange);
        }
        let n = frame.len();
        if n < 20 {
            return Err(DecodeError::TooShort);
        }
        let sub_result = Self::reset_leaves_of(frame, indx);
        let mut data_list = no_fields();
        push_group(
            &mut data_list,
            "数据内容",
            FrameFun::get_data_str_with_space(slice_subrange(frame, 10, n - 2)),
            String::from_str("电表清零"),
            indx + 10,
            indx + 18,
            sub_result,
        );
        assert(models(data_list@) =~= meter_reset_field(frame@, indx as int).children);
        push_data_area(result_list, indx + 10, indx + 18, data_list);
        Ok(())
    }

    /// Appends the data field of an event reset; see [`event_reset_field`].
    /// A frame of fewer than twenty-four bytes is `TooShort` and adds
    /// nothing.
    pub fn funanalysis_event_reset_frame(
        frame: &[u8],
        result_list: &mut Vec<AnnotatedField>,
        indx: usize,
    ) -> (r: Result<(), DecodeError>)
        ensures
            !fits_at(indx, frame@) ==> r == Err::<(), DecodeError>(DecodeError::OutOfRange)
                && final(result_list)@ == old(result_list)@,
            fits_at(indx, frame@) && frame@.len() < 24 ==> r == Err::<(), DecodeError>(DecodeError::TooShort) && final(result_list)@ == old(result_list)@,
            fits_at(indx, frame@) && frame@.len() >= 24 ==> r is Ok && models(final(result_list)@) == models(
                old(result_list)@,
            ).push(event_reset_field(frame@, indx as int)),
    {
        if indx > usize::MAX - frame.len() {
            return Err(DecodeError::OutOfRange);
        }
        let n = frame.len();
        if n < 24 {
            return Err(DecodeError::TooShort);
        }
        let item = slice_subrange(frame, 18, 22);
        let all = FrameFun::is_all_elements_equal(item, 0x32);
        let mut sub_result = Self::reset_leaves_of(frame, indx);
        let mut text = intro_and_reversed("事件清零：[", item);
        text.append("] - ");
        text.append(
            if all {
                "事件总清零"
            } else {
                "分项事件清零"
            },
        );
        push_leaf(
            &mut sub_result,
            "事件清零类型",
            FrameFun::get_data_str_with_space(item),
            text,
            indx + 18,
            indx + 22,
        );
        let ghost want = event_reset_field(frame@, indx as int);
        assert(models(sub_result@) =~= want.children[0].children);
        let mut data_list = no_fields();
        push_group(
            &mut data_list,
            "数据内容",
            FrameFun::get_data_str_with_space(slice_subrange(frame, 10, n - 2)),
            String::from_str("事件清零"),
            indx + 10,
            indx + 22,
            sub_result,
        );
        assert(models(data_list@) =~= want.children);
        push_data_area(result_list, indx + 10, indx + n - 2, data_list);
        Ok(())
    }

    /// Appends the data field of a frame whose control code names no known
    /// layout: its bytes, uninterpreted; see [`invalid_field`]. A frame of
    /// fewer than twelve bytes is `TooShort` and adds nothing.
    pub fn funanalysis_invalid_frame(
        frame: &[u8],
        result_list: &mut Vec<AnnotatedField>,
        indx: usize,
    ) -> (r: Result<(), DecodeError>)
        ensures
            !fits_at(indx, frame@) ==> r == Err::<(), DecodeError>(DecodeError::OutOfRange)
                && final(result_list)@ == old(result_list)@,
            fits_at(indx, frame@) && frame@.len() < 12 ==> r == Err::<(), DecodeError>(DecodeError::TooShort) && final(result_list)@ == old(result_list)@,
            fits_at(indx, frame@) && frame@.len() >= 12 ==> r is Ok && models(final(result_list)@) == models(
                old(result_list)@,
            ).push(invalid_field(frame@, indx as int)),
    {
        if indx > usize::MAX - frame.len() {
            return Err(DecodeError::OutOfRange);
        }
        let n = frame.len();
        if n < 12 {
            return Err(DecodeError::TooShort);
        }
        let data = slice_subrange(frame, 10, n - 2);
        let mut data_list = no_fields();
        push_leaf(
            &mut data_list,
            "数据内容",
            FrameFun::get_data_str_with_space(data),
            intro_and_reversed("数据域数据：", data),
            indx + 10,
            indx + n - 2,
        );
        assert(models(data_list@) =~= invalid_field(frame@, indx as int).children);
        push_data_area(result_list, indx + 10, indx + n - 2, data_list);
        Ok(())
    }
}

} // verus!
