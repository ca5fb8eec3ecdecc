//! The envelope of DLT/645-2007 frames: validation, the head and the end of a
//! frame, and the layouts of the data field that need no schema.

use crate::annotated::{field, leaf, lemma_models_empty, models, AnnotatedField, FieldModel};
use crate::frame_fun::{bits_set, checksum, leading_count, strip_bias, unbiased, FrameFun};
use crate::frame_values::{freeze_time_text, plain_bytes, time_text};
use crate::text::{decimal_text, hex_number, hex_pair, hex_text, hex_text_spaced, push_hex_pair};
use vstd::prelude::*;
use vstd::slice::slice_subrange;

verus! {

/// The namespace of the DLT/645-2007 frame functions.
pub struct Frame645;

/// The byte that starts a frame and, seven bytes on, its control part.
pub const FRAME_START: u8 = 0x68;

/// The byte that ends a frame.
pub const FRAME_END: u8 = 0x16;

/// Whether the buffer is one DLT/645 frame: any number of wake-up bytes, the
/// start marker, six address bytes, the start marker again, control code,
/// data length, that many data bytes, checksum, end marker. The checksum is
/// not judged here.
pub open spec fn is_frame(s: Seq<u8>) -> bool {
    let wake = leading_count(s, 0xFE) as int;
    &&& s.len() >= 12
    &&& wake + 9 < s.len()
    &&& s[wake] == 0x68
    &&& s[wake + 7] == 0x68
    &&& s[s.len() - 1] == 0x16
    &&& s.len() == s[wake + 9] as int + 12 + wake
}

/// Whether a frame that starts at `indx` ends at an index that can be
/// written down: every range of its fields is then a pair of indices.
pub open spec fn fits_at(indx: usize, frame: Seq<u8>) -> bool {
    indx + frame.len() <= usize::MAX
}

/// The note shown with every data field.
pub open spec fn data_area_note() -> Seq<char> {
    "数据域传输时按字节进行加33H处理，接收后应按字节减33H处理"@
}

/// The field that stands for the data field of a frame.
pub open spec fn data_area(start: int, end: int, children: Seq<FieldModel>) -> FieldModel {
    field("数据域"@, Seq::empty(), data_area_note(), start, end, children)
}

/// Bytes without the bias, last byte first, in hexadecimal: the order in
/// which identifiers, addresses and passwords are read.
pub open spec fn shown_reversed(bytes: Seq<u8>) -> Seq<char> {
    hex_text(strip_bias(bytes).reverse())
}

/// The two fields that end a frame: the checksum, judged against the sum of
/// all bytes before it, and the end marker.
pub open spec fn end_fields(frame: Seq<u8>, indx: int) -> Seq<FieldModel> {
    let n = frame.len() as int;
    let cs = checksum(frame.subrange(0, n - 2));
    seq![
        leaf(
            "校验码"@,
            hex_pair(frame[n - 2]),
            if cs == frame[n - 2] {
                "电表规约报文校验码正确"@
            } else {
                "电表规约校验码错误，应为："@ + hex_pair(cs)
            },
            indx + n - 2,
            indx + n - 1,
        ),
        leaf("结束符"@, hex_pair(frame[n - 1]), "电表规约报文结束符"@, indx + n - 1, indx + n),
    ]
}

/// What an error word says; the lowest set bit among bits 1 to 6 decides.
pub open spec fn error_word_text(word: u8) -> Seq<char> {
    if (word / 2) % 2 == 1 {
        "无请求数据"@
    } else if (word / 4) % 2 == 1 {
        "密码错误/未授权"@
    } else if (word / 8) % 2 == 1 {
        "通信速率不能更改"@
    } else if (word / 16) % 2 == 1 {
        "年时区数超"@
    } else if (word / 32) % 2 == 1 {
        "时段数超"@
    } else if (word / 64) % 2 == 1 {
        "费率数超"@
    } else if word != 0 {
        "其他错误"@
    } else {
        Seq::empty()
    }
}

/// The field of an error response.
pub open spec fn read_err_field(frame: Seq<u8>, indx: int) -> FieldModel {
    leaf(
        "错误信息字"@,
        hex_pair(frame[10]),
        "错误类型: "@ + error_word_text(unbiased(frame[10])),
        indx + 10,
        indx + frame.len() - 2,
    )
}

/// The field of the answer to a write.
pub open spec fn write_reply_field(frame: Seq<u8>, indx: int) -> FieldModel {
    let n = frame.len() as int;
    leaf(
        "写数据应答"@,
        hex_pair(frame[n - 3]),
        if frame[n - 3] != 0 {
            "写数据错误"@
        } else {
            "正常应答"@
        },
        indx + n - 3,
        indx + n - 2,
    )
}

/// The data field of a frame that carries a communication address.
pub open spec fn address_field(frame: Seq<u8>, indx: int, intro: Seq<char>) -> FieldModel {
    let address = frame.subrange(10, 16);
    data_area(
        indx + 10,
        indx + 16,
        seq![
            leaf(
                "数据内容"@,
                hex_text_spaced(address),
                intro + shown_reversed(address),
                indx + 10,
                indx + 16,
            ),
        ],
    )
}

/// The text of a time, or nothing where the layout names a byte that the
/// data lacks.
pub open spec fn time_or_nothing(data: Seq<u8>, layout: Seq<char>, need_delete: bool) -> Seq<
    char,
> {
    match time_text(plain_bytes(data, need_delete), layout, 8) {
        Some(t) => t,
        None => Seq::empty(),
    }
}

/// The data field of a broadcast time frame.
pub open spec fn broadcast_time_field(frame: Seq<u8>, indx: int) -> FieldModel {
    let time = frame.subrange(10, 16);
    data_area(
        indx + 10,
        indx + 16,
        seq![
            leaf(
                "数据内容"@,
                hex_text_spaced(time),
                "校时时间："@ + time_or_nothing(time, "ssmmhhDDMMYY"@, true),
                indx + 10,
                indx + 16,
            ),
        ],
    )
}

/// The data field of a freeze command.
pub open spec fn frozen_time_field(frame: Seq<u8>, indx: int) -> FieldModel {
    let time = frame.subrange(10, 14);
    let end = indx + frame.len() - 2;
    data_area(
        indx + 10,
        end,
        seq![
            leaf(
                "数据内容"@,
                hex_text_spaced(time),
                "冻结命令："@ + shown_reversed(time) + " 表示冻结时间为："@ + freeze_time_text(
                    strip_bias(time).reverse(),
                ),
                indx + 10,
                end,
            ),
        ],
    )
}

/// The rate that a feature word names: one bit for one rate. A word with
/// several bits set names none and is reported as an error; a word with no
/// bit set names none.
pub open spec fn baud_rate_text(word: u8) -> Seq<char> {
    if bits_set(word) > 1 {
        "特征字错误(多个bit位为1)"@
    } else if word % 2 == 1 || (word / 128) % 2 == 1 {
        "保留"@
    } else if (word / 2) % 2 == 1 {
        "600bps"@
    } else if (word / 4) % 2 == 1 {
        "1200bps"@
    } else if (word / 8) % 2 == 1 {
        "2400bps"@
    } else if (word / 16) % 2 == 1 {
        "4800bps"@
    } else if (word / 32) % 2 == 1 {
        "9600bps"@
    } else if (word / 64) % 2 == 1 {
        "19200bps"@
    } else {
        Seq::empty()
    }
}

/// The data field of a change of the communication rate.
pub open spec fn baud_rate_field(frame: Seq<u8>, indx: int) -> FieldModel {
    let word = unbiased(frame[10]);
    data_area(
        indx + 10,
        indx + frame.len() - 2,
        seq![
            leaf(
                "数据内容"@,
                hex_pair(word),
                "通信速率特征字："@ + hex_pair(word) + " 通信速率："@ + baud_rate_text(word),
                indx + 10,
                indx + 11,
            ),
        ],
    )
}

/// The field of a password of four bytes: the permission byte, then three
/// bytes of password.
pub open spec fn password_leaf(
    label: Seq<char>,
    permission_intro: Seq<char>,
    password_intro: Seq<char>,
    bytes: Seq<u8>,
    start: int,
) -> FieldModel {
    leaf(
        label,
        hex_text_spaced(bytes),
        permission_intro + hex_pair(unbiased(bytes[0])) + password_intro + shown_reversed(
            bytes.subrange(1, 4),
        ),
        start,
        start + 4,
    )
}

/// The field of an operator code of four bytes.
pub open spec fn operator_leaf(bytes: Seq<u8>, start: int) -> FieldModel {
    leaf(
        "操作者代码"@,
        hex_text_spaced(bytes),
        "操作者代码："@ + shown_reversed(bytes),
        start,
        start + 4,
    )
}

/// The data field of a password change.
pub open spec fn password_field(frame: Seq<u8>, indx: int) -> FieldModel {
    let n = frame.len() as int;
    let item = frame.subrange(10, 14);
    data_area(
        indx + 10,
        indx + n - 2,
        seq![
            field(
                "数据内容"@,
                hex_text_spaced(frame.subrange(10, n - 2)),
                "密码设置"@,
                indx + 10,
                indx + 22,
                seq![
                    leaf(
                        "数据标识编码"@,
                        hex_text_spaced(item),
                        "数据标识["@ + shown_reversed(item) + "]"@,
                        indx + 10,
                        indx + 14,
                    ),
                    password_leaf(
                        "原密码及权限"@,
                        "原密码权限："@,
                        " 原密码："@,
                        frame.subrange(14, 18),
                        indx + 14,
                    ),
                    password_leaf(
                        "新密码及权限"@,
                        "新密码权限："@,
                        " 新密码："@,
                        frame.subrange(18, 22),
                        indx + 18,
                    ),
                ],
            ),
        ],
    )
}

/// The data field of the answer to a password change.
pub open spec fn password_response_field(frame: Seq<u8>, indx: int) -> FieldModel {
    let n = frame.len() as int;
    data_area(
        indx + 10,
        indx + n - 2,
        seq![
            field(
                "数据内容"@,
                hex_text_spaced(frame.subrange(10, n - 2)),
                "密码设置"@,
                indx + 10,
                indx + 14,
                seq![
                    password_leaf(
                        "新密码及权限"@,
                        "新密码权限："@,
                        " 新密码："@,
                        frame.subrange(10, 14),
                        indx + 10,
                    ),
                ],
            ),
        ],
    )
}

/// The two fields with which a reset command starts: password and operator.
pub open spec fn reset_leaves(frame: Seq<u8>, indx: int) -> Seq<FieldModel> {
    seq![
        password_leaf("密码权限"@, "权限："@, " 密码："@, frame.subrange(10, 14), indx + 10),
        operator_leaf(frame.subrange(14, 18), indx + 14),
    ]
}

/// The data field of a reset of the maximum demand.
pub open spec fn maximum_demand_reset_field(frame: Seq<u8>, indx: int) -> FieldModel {
    let n = frame.len() as int;
    data_area(
        indx + 10,
        indx + n - 2,
        seq![
            field(
                "数据内容"@,
                hex_text_spaced(frame.subrange(10, n - 2)),
                "最大需量清零"@,
                indx + 10,
                indx + n - 2,
                reset_leaves(frame, indx),
            ),
        ],
    )
}

/// The data field of a meter reset.
pub open spec fn meter_reset_field(frame: Seq<u8>, indx: int) -> FieldModel {
    let n = frame.len() as int;
    data_area(
        indx + 10,
        indx + 18,
        seq![
            field(
                "数据内容"@,
                hex_text_spaced(frame.subrange(10, n - 2)),
                "电表清零"@,
                indx + 10,
                indx + 18,
                reset_leaves(frame, indx),
            ),
        ],
    )
}

/// Whether an event reset names every event: the identifier is `FFFFFFFF`,
/// which travels as four bytes `0x32`.
pub open spec fn resets_all_events(item: Seq<u8>) -> bool {
    forall|i: int| 0 <= i < item.len() ==> item[i] == 0x32
}

/// The data field of an event reset.
pub open spec fn event_reset_field(frame: Seq<u8>, indx: int) -> FieldModel {
    let n = frame.len() as int;
    let item = frame.subrange(18, 22);
    data_area(
        indx + 10,
        indx + n - 2,
        seq![
            field(
                "数据内容"@,
                hex_text_spaced(frame.subrange(10, n - 2)),
                "事件清零"@,
                indx + 10,
                indx + 22,
                reset_leaves(frame, indx).push(
                    leaf(
                        "事件清零类型"@,
                        hex_text_spaced(item),
                        "事件清零：["@ + shown_reversed(item) + "] - "@ + (if resets_all_events(
                            item,
                        ) {
                            "事件总清零"@
                        } else {
                            "分项事件清零"@
                        }),
                        indx + 18,
                        indx + 22,
                    ),
                ),
            ),
        ],
    )
}

/// The data field of a frame whose control code names no known layout.
pub open spec fn invalid_field(frame: Seq<u8>, indx: int) -> FieldModel {
    let n = frame.len() as int;
    let data = frame.subrange(10, n - 2);
    data_area(
        indx + 10,
        indx + n - 2,
        seq![
            leaf(
                "数据内容"@,
                hex_text_spaced(data),
                "数据域数据："@ + shown_reversed(data),
                indx + 10,
                indx + n - 2,
            ),
        ],
    )
}

/// The name of a function code, the low five bits of the control code.
pub open spec fn function_name(code: u8) -> Seq<char> {
    if code == 0x00 {
        "保留"@
    } else if code == 0x08 {
        "广播校时"@
    } else if code == 0x11 {
        "读数据"@
    } else if code == 0x12 {
        "读后续数据"@
    } else if code == 0x13 {
        "读通信地址"@
    } else if code == 0x14 {
        "写数据"@
    } else if code == 0x15 {
        "写通信地址"@
    } else if code == 0x16 {
        "冻结命令"@
    } else if code == 0x17 {
        "更改通信速率"@
    } else if code == 0x18 {
        "修改密码"@
    } else if code == 0x19 {
        "最大需量清零"@
    } else if code == 0x1A {
        "电表清零"@
    } else if code == 0x1B {
        "事件清零"@
    } else {
        "未知"@
    }
}

/// The four fields that explain a control code: its three top bits and the
/// function code in its low five bits.
pub open spec fn control_parts(control: u8, at: int) -> Seq<FieldModel> {
    let d7 = control / 128;
    let d6 = (control / 64) % 2;
    let d5 = (control / 32) % 2;
    let code = (control % 32) as u8;
    seq![
        leaf(
            "D7传送反向"@,
            decimal_text(d7 as nat),
            if d7 == 1 {
                "主站发出的命令帧"@
            } else {
                "从站发出的应答帧"@
            },
            at,
            at + 1,
        ),
        leaf(
            "D6传送反向"@,
            decimal_text(d6 as nat),
            if d6 == 0 {
                "从站正常应答"@
            } else {
                "从站异常应答"@
            },
            at,
            at + 1,
        ),
        leaf(
            "D5传送反向"@,
            decimal_text(d5 as nat),
            if d5 == 0 {
                "无后续数据帧"@
            } else {
                "有后续数据帧"@
            },
            at,
            at + 1,
        ),
        leaf("D0~D4功能码"@, hex_number(code as nat), function_name(code), at, at + 1),
    ]
}

/// The field of a control code, with its parts below it.
pub open spec fn control_field(control: u8, at: int) -> FieldModel {
    field(
        "控制码"@,
        hex_pair(control),
        (if control / 128 == 1 {
            "主站请求："@
        } else {
            "电表返回："@
        }) + function_name((control % 32) as u8),
        at,
        at + 1,
        control_parts(control, at),
    )
}

/// The fields of the head of a frame that starts at its start marker: start
/// marker, address, start marker, control code, data length.
pub open spec fn head_fields(body: Seq<u8>, at: int) -> Seq<FieldModel> {
    let address = body.subrange(1, 7);
    let control = body[8];
    let length = body[9];
    seq![
        leaf("帧起始符"@, hex_pair(body[0]), "电表规约：标识一帧信息的开始"@, at, at + 1),
        leaf(
            "地址域"@,
            hex_text_spaced(address),
            "电表通信地址："@ + hex_text(address.reverse()),
            at + 1,
            at + 7,
        ),
        leaf("帧起始符"@, hex_pair(body[7]), "电表规约：标识一帧信息的开始"@, at + 7, at + 8),
        control_field(control, at + 8),
        leaf(
            "数据长度"@,
            hex_pair(length),
            "长度="@ + decimal_text(length as nat) + ", 总长度="@ + decimal_text(
                (length + 12) as nat,
            ) + "(总长度=长度+12)"@,
            at + 9,
            at + 10,
        ),
    ]
}

/// The field of the wake-up bytes before a frame.
pub open spec fn wake_field(frame: Seq<u8>, wake: int, indx: int) -> FieldModel {
    leaf(
        "唤醒符"@,
        hex_text_spaced(frame.subrange(0, wake)),
        "电表规约：电能表唤醒符"@,
        indx,
        indx + wake,
    )
}

/// The fields of the head of a frame with its wake-up bytes: a field for the
/// wake-up bytes where there are any, then the head proper, whose ranges
/// start behind them.
pub open spec fn head_with_wake(frame: Seq<u8>, indx: int) -> Seq<FieldModel> {
    let wake = leading_count(frame, 0xFE) as int;
    let head = head_fields(frame.subrange(wake, frame.len() as int), indx + wake);
    if wake != 0 {
        seq![wake_field(frame, wake, indx)] + head
    } else {
        head
    }
}

/// A leaf appended to a list of fields.
pub fn push_leaf(
    list: &mut Vec<AnnotatedField>,
    label: &str,
    raw_hex: String,
    description: String,
    start: usize,
    end: usize,
)
    ensures
        models(final(list)@) == models(old(list)@).push(
            leaf(label@, raw_hex@, description@, start as int, end as int),
        ),
{
    FrameFun::add_data(list, String::from_str(label), raw_hex, description, (start, end), None, None);
}

/// A field with children appended to a list of fields.
pub fn push_group(
    list: &mut Vec<AnnotatedField>,
    label: &str,
    raw_hex: String,
    description: String,
    start: usize,
    end: usize,
    children: Vec<AnnotatedField>,
)
    ensures
        models(final(list)@) == models(old(list)@).push(
            field(label@, raw_hex@, description@, start as int, end as int, models(children@)),
        ),
{
    FrameFun::add_data(
        list,
        String::from_str(label),
        raw_hex,
        description,
        (start, end),
        Some(children),
        None,
    );
}

/// The field of a data field appended to a list of fields.
pub fn push_data_area(
    list: &mut Vec<AnnotatedField>,
    start: usize,
    end: usize,
    children: Vec<AnnotatedField>,
)
    ensures
        models(final(list)@) == models(old(list)@).push(
            data_area(start as int, end as int, models(children@)),
        ),
{
    push_group(
        list,
        "数据域",
        String::new(),
        String::from_str("数据域传输时按字节进行加33H处理，接收后应按字节减33H处理"),
        start,
        end,
        children,
    );
}

/// A new list of fields, which holds none.
pub fn no_fields() -> (list: Vec<AnnotatedField>)
    ensures
        models(list@) == Seq::<FieldModel>::empty(),
{
    proof {
        lemma_models_empty();
    }
    Vec::new()
}

/// `intro` followed by the bytes without the bias, last byte first, in
/// hexadecimal.
pub fn intro_and_reversed(intro: &str, bytes: &[u8]) -> (text: String)
    ensures
        text@ == intro@ + shown_reversed(bytes@),
{
    let mut text = String::from_str(intro);
    let shown = FrameFun::get_data_str_delete_33h_reverse(bytes);
    text.append(shown.as_str());
    text
}

/// One byte as two hexadecimal digits.
pub fn hex_of(b: u8) -> (text: String)
    ensures
        text@ == hex_pair(b),
{
    let mut text = String::new();
    push_hex_pair(&mut text, b);
    assert(text@ =~= hex_pair(b));
    text
}

} // verus!
