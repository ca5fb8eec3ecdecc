//! The layouts of the DLT/645 data field that carry a data identifier: the
//! identifier is looked up in the schema, and what follows it is shown as
//! the schema describes it.

use crate::annotated::{field, leaf, lemma_models_push, models, AnnotatedField, FieldModel};
use crate::error::DecodeError;
use crate::frame_645::{fits_at, 
    data_area, hex_of, intro_and_reversed, no_fields, operator_leaf, push_data_area, push_group,
    push_leaf, shown_reversed, time_or_nothing, Frame645,
};
use crate::frame_fun::{unbiased, FrameFun};
use crate::interpreter::{
    declared_length, interpreted, lemma_models_concat, Context, DecodeSettings, FrameAnalisyic,
    MAX_DEPTH,
};
use crate::length_rule::{sub_item_models, SubItem, SubItemModel};
use crate::schema::{child_text, ElementModel, XmlElement};
use crate::schema_find::{find_step, option_model, QframeConfig, Query, RepositoryModel};
use crate::text::{decimal_text, hex_pair, hex_text_spaced, push_decimal, push_hex_pair};
use vstd::prelude::*;
use vstd::slice::slice_subrange;

verus! {

/// The name under which the schema knows the protocol.
pub const PROTOCOL_DLT645: &'static str = "DLT/645-2007";

/// The schema and the form of the bytes for a DLT/645 frame: every data
/// byte carries the bias.
pub open spec fn dlt645_context(region: Seq<char>) -> Context {
    Context { protocol: PROTOCOL_DLT645@, region, dir: None, need_delete: true }
}

/// The query for the item that a data identifier names.
pub open spec fn item_query(di: Seq<u8>, region: Seq<char>) -> Query {
    Query { id: shown_reversed(di), protocol: PROTOCOL_DLT645@, region, dir: None }
}

/// The name of an item, or nothing where the schema gives it none.
pub open spec fn item_name(item: ElementModel) -> Seq<char> {
    match child_text(item, "name"@) {
        Some(name) => name,
        None => Seq::empty(),
    }
}

/// The field of a data identifier: with the name of the item where the
/// schema knows it, with the bare identifier where it does not.
pub open spec fn identifier_leaf(di: Seq<u8>, item: Option<ElementModel>, indx: int) -> FieldModel {
    leaf(
        "数据标识编码"@,
        hex_text_spaced(di),
        match item {
            Some(e) => "数据标识编码：["@ + shown_reversed(di) + "] - "@ + item_name(e),
            None => "数据标识编码：["@ + shown_reversed(di) + "]"@,
        },
        indx + 10,
        indx + 14,
    )
}

/// The field of the number of load record blocks, which travels biased and
/// is shown without the bias.
pub open spec fn block_count_leaf(frame: Seq<u8>, indx: int) -> FieldModel {
    leaf(
        "负荷记录块数"@,
        hex_pair(frame[14]),
        "负荷记录块数="@ + decimal_text(unbiased(frame[14]) as nat),
        indx + 14,
        indx + 15,
    )
}

/// What a read request carries behind its identifier: one byte is a number
/// of load record blocks; six bytes are that number and a time; any other
/// number of bytes is a display command.
pub open spec fn read_request_extras(frame: Seq<u8>, indx: int) -> Seq<FieldModel> {
    let n = frame.len() as int;
    let extra = n - 16;
    if extra == 1 {
        seq![block_count_leaf(frame, indx)]
    } else if extra == 6 {
        seq![
            block_count_leaf(frame, indx),
            leaf(
                "给定时间"@,
                hex_text_spaced(frame.subrange(15, n - 2)),
                time_or_nothing(frame.subrange(15, n - 2), "mmhhDDMMYY"@, true),
                indx + 15,
                indx + n - 2,
            ),
        ]
    } else if extra > 0 {
        seq![
            leaf(
                "液晶查看命令"@,
                hex_text_spaced(frame.subrange(14, n - 2)),
                Seq::empty(),
                indx + 14,
                indx + n - 2,
            ),
        ]
    } else {
        Seq::empty()
    }
}

/// The data field of a read request. An identifier that the schema does
/// not know is shown alone.
pub open spec fn read_request_field(frame: Seq<u8>, indx: int, item: Option<ElementModel>) -> FieldModel {
    let n = frame.len() as int;
    let di = frame.subrange(10, 14);
    data_area(
        indx + 10,
        indx + n - 2,
        seq![identifier_leaf(di, item, indx)] + (if item is Some {
            read_request_extras(frame, indx)
        } else {
            Seq::empty()
        }),
    )
}

/// The field of a frame sequence number, the last data byte.
pub open spec fn sequence_leaf(frame: Seq<u8>, indx: int) -> FieldModel {
    let n = frame.len() as int;
    leaf(
        "帧序号"@,
        hex_pair(frame[n - 3]),
        "请求帧序号: "@ + hex_pair(unbiased(frame[n - 3])),
        indx + n - 3,
        indx + n - 2,
    )
}

/// The data field of a request for a subsequent frame.
pub open spec fn read_subsequent_field(frame: Seq<u8>, indx: int, item: Option<ElementModel>) -> FieldModel {
    let n = frame.len() as int;
    data_area(
        indx + 10,
        indx + n - 2,
        seq![identifier_leaf(frame.subrange(10, 14), item, indx), sequence_leaf(frame, indx)],
    )
}

/// The field of the content of an item, with the fields into which the
/// schema divides it.
pub open spec fn content_field(
    di: Seq<u8>,
    content: Seq<u8>,
    start: int,
    children: Seq<FieldModel>,
) -> FieldModel {
    field(
        "数据标识内容"@,
        hex_text_spaced(content),
        "数据标识["@ + shown_reversed(di) + "]内容数据"@ + shown_reversed(content),
        start,
        start + content.len(),
        children,
    )
}

/// The length of one record of an item: what the item declares for the
/// content at hand, or nothing where that cannot be resolved.
pub open spec fn record_length(item: ElementModel, content: Seq<u8>) -> int {
    let declared = declared_length(item, content, Seq::empty());
    if declared.resolved {
        declared.length as int
    } else {
        0
    }
}

/// Whether the content starts with a time before its records: it is longer
/// than one record and no whole number of records.
pub open spec fn has_time_prefix(content: Seq<u8>, record: int) -> bool {
    record > 0 && content.len() % (record as nat) != 0 && content.len() > record
        && content.len() >= 5
}

/// The fields of the records of an item from `offset` on, one record after
/// the other, each interpreted as the item; a last record may be short. The
/// repository after the lookups made comes with them.
pub open spec fn record_fields(
    s: RepositoryModel,
    item: ElementModel,
    content: Seq<u8>,
    offset: int,
    record: int,
    base: int,
    ctx: Context,
) -> (Seq<FieldModel>, RepositoryModel)
    decreases content.len() - offset,
{
    if offset < 0 || offset >= content.len() {
        (Seq::empty(), s)
    } else {
        let end = if record <= 0 || offset + record > content.len() {
            content.len() as int
        } else {
            offset + record
        };
        let first = interpreted(
            s,
            item,
            content.subrange(offset, end),
            base + offset,
            ctx,
            Seq::empty(),
            MAX_DEPTH as nat,
        );
        let more = record_fields(first.1, item, content, end, record, base, ctx);
        (seq![first.0] + more.0, more.1)
    }
}

/// The fields into which the content of a read response divides: a start
/// time of five bytes where the content is no whole number of records, then
/// the records.
pub open spec fn response_parts(
    s: RepositoryModel,
    item: ElementModel,
    content: Seq<u8>,
    base: int,
    ctx: Context,
) -> (Seq<FieldModel>, RepositoryModel) {
    let record = record_length(item, content);
    if has_time_prefix(content, record) {
        let records = record_fields(s, item, content, 5, record, base, ctx);
        (
            seq![
                leaf(
                    "数据起始时间"@,
                    hex_text_spaced(content.subrange(0, 5)),
                    time_or_nothing(content.subrange(0, 5), "YYMMDDhhmm"@, true),
                    base,
                    base + 5,
                ),
            ] + records.0,
            records.1,
        )
    } else {
        record_fields(s, item, content, 0, record, base, ctx)
    }
}

/// The data field of a read response, and the repository after the lookups
/// made for it.
pub open spec fn read_response_field(s: RepositoryModel, frame: Seq<u8>, indx: int, region: Seq<char>) -> (
    FieldModel,
    RepositoryModel,
) {
    let n = frame.len() as int;
    let di = frame.subrange(10, 14);
    let content = frame.subrange(14, n - 2);
    let found = find_step(s, item_query(di, region));
    match found.0 {
        Some(item) => {
            let parts = response_parts(found.1, item, content, indx + 14, dlt645_context(region));
            (
                data_area(
                    indx + 10,
                    indx + n - 2,
                    seq![
                        identifier_leaf(di, found.0, indx),
                        content_field(di, content, indx + 14, parts.0),
                    ],
                ),
                parts.1,
            )
        },
        None => (
            data_area(
                indx + 10,
                indx + n - 2,
                seq![
                    identifier_leaf(di, None, indx),
                    content_field(di, content, indx + 14, Seq::empty()),
                ],
            ),
            found.1,
        ),
    }
}

/// The fields of an item over its data, or none where the schema does not
/// know the item; the repository after the lookups made comes with them.
pub open spec fn item_parts(
    s: RepositoryModel,
    item: Option<ElementModel>,
    data: Seq<u8>,
    base: int,
    ctx: Context,
) -> (Seq<FieldModel>, RepositoryModel) {
    match item {
        Some(e) => {
            let f = interpreted(s, e, data, base, ctx, Seq::empty(), MAX_DEPTH as nat);
            (seq![f.0], f.1)
        },
        None => (Seq::empty(), s),
    }
}

/// The data field of the response with a subsequent frame, and the
/// repository after the lookups made for it.
pub open spec fn read_subsequent_response_field(
    s: RepositoryModel,
    frame: Seq<u8>,
    indx: int,
    region: Seq<char>,
) -> (FieldModel, RepositoryModel) {
    let n = frame.len() as int;
    let di = frame.subrange(10, 14);
    let content = frame.subrange(14, n - 2);
    let found = find_step(s, item_query(di, region));
    let parts = item_parts(found.1, found.0, content, indx + 14, dlt645_context(region));
    (
        data_area(
            indx + 10,
            indx + n - 2,
            seq![
                leaf(
                    "数据标识编码"@,
                    hex_text_spaced(di),
                    "数据标识编码："@ + shown_reversed(di),
                    indx + 10,
                    indx + 14,
                ),
                content_field(di, content, indx + 14, parts.0),
                sequence_leaf(frame, indx),
            ],
        ),
        parts.1,
    )
}

/// The field of the data that a write carries.
pub open spec fn written_data_field(data: Seq<u8>, start: int, children: Seq<FieldModel>) -> FieldModel {
    field(
        "数据内容"@,
        hex_text_spaced(data),
        "写数据内容："@ + shown_reversed(data),
        start,
        start + data.len(),
        children,
    )
}

/// The data field of a write, and the repository after the lookups made
/// for it. Where the schema knows the item, the identifier, the password
/// with its permission byte and the operator code are shown before the
/// data; where it does not, the data alone.
pub open spec fn write_field(s: RepositoryModel, frame: Seq<u8>, indx: int, region: Seq<char>) -> (
    FieldModel,
    RepositoryModel,
) {
    let n = frame.len() as int;
    let di = frame.subrange(10, 14);
    let password = frame.subrange(14, 18);
    let data = frame.subrange(22, n - 2);
    let found = find_step(s, item_query(di, region));
    let parts = item_parts(found.1, found.0, data, indx + 22, dlt645_context(region));
    (
        data_area(
            indx + 10,
            indx + n - 2,
            if found.0 is Some {
                seq![
                    identifier_leaf(di, found.0, indx),
                    leaf(
                        "密码权限"@,
                        hex_pair(password[0]),
                        "权限："@ + hex_pair(unbiased(password[0])),
                        indx + 14,
                        indx + 15,
                    ),
                    leaf(
                        "密码"@,
                        hex_text_spaced(password.subrange(1, 4)),
                        "密码："@ + shown_reversed(password.subrange(1, 4)),
                        indx + 15,
                        indx + 18,
                    ),
                    operator_leaf(frame.subrange(18, 22), indx + 18),
                    written_data_field(data, indx + 22, parts.0),
                ]
            } else {
                seq![written_data_field(data, indx + 22, Seq::empty())]
            },
        ),
        parts.1,
    )
}

impl Frame645 {
    /// The schema and the form of the bytes for a DLT/645 frame.
    pub fn settings_for(region: &str) -> (settings: DecodeSettings)
        ensures
            settings@ == dlt645_context(region@),
    {
        DecodeSettings {
            protocol: String::from_str(PROTOCOL_DLT645),
            region: String::from_str(region),
            dir: None,
            need_delete: true,
        }
    }

    /// The item that a data identifier names, looked up in the schema.
    pub fn lookup_item(repo: &mut QframeConfig, di: &[u8], region: &str) -> (item: Option<XmlElement>)
        ensures
            option_model(item) == find_step(old(repo)@, item_query(di@, region@)).0,
            final(repo)@ == find_step(old(repo)@, item_query(di@, region@)).1,
            final(repo).config_path == old(repo).config_path,
    {
        let id = FrameFun::get_data_str_delete_33h_reverse(di);
        repo.get_item(id.as_str(), PROTOCOL_DLT645, region, None)
    }

    /// Appends the field of a data identifier; see [`identifier_leaf`].
    pub(crate) fn push_identifier_leaf(
        list: &mut Vec<AnnotatedField>,
        di: &[u8],
        item: &Option<XmlElement>,
        indx: usize,
    )
        requires
            indx + 14 <= usize::MAX,
        ensures
            models(final(list)@) == models(old(list)@).push(
                identifier_leaf(di@, option_model(*item), indx as int),
            ),
    {
        let mut text = intro_and_reversed("数据标识编码：[", di);
        match item {
            Some(e) => {
                text.append("] - ");
                match e.get_child_text("name") {
                    Some(name) => {
                        text.append(name.as_str());
                    },
                    None => {
                        assert(text@ =~= text@ + Seq::<char>::empty());
                    },
                }
            },
            None => {
                text.append("]");
            },
        }
        push_leaf(
            list,
            "数据标识编码",
            FrameFun::get_data_str_with_space(di),
            text,
            indx + 10,
            indx + 14,
        );
    }

    /// Appends the field of a frame sequence number.
    pub(crate) fn push_sequence_leaf(list: &mut Vec<AnnotatedField>, frame: &[u8], indx: usize)
        requires
            frame@.len() >= 3,
            indx + frame@.len() <= usize::MAX,
        ensures
            models(final(list)@) == models(old(list)@).push(sequence_leaf(frame@, indx as int)),
    {
        let n = frame.len();
        let seq = frame[n - 3];
        let mut text = String::from_str("请求帧序号: ");
        push_hex_pair(&mut text, FrameFun::unbias(seq));
        push_leaf(list, "帧序号", hex_of(seq), text, indx + n - 3, indx + n - 2);
    }

    /// Appends the field of the number of load record blocks.
    pub(crate) fn push_block_count_leaf(list: &mut Vec<AnnotatedField>, frame: &[u8], indx: usize)
        requires
            frame@.len() >= 15,
            indx + frame@.len() <= usize::MAX,
        ensures
            models(final(list)@) == models(old(list)@).push(
                block_count_leaf(frame@, indx as int),
            ),
    {
        let mut text = String::from_str("负荷记录块数=");
        push_decimal(&mut text, FrameFun::unbias(frame[14]) as u64);
        push_leaf(list, "负荷记录块数", hex_of(frame[14]), text, indx + 14, indx + 15);
    }

    /// Appends the data field of a read request; see
    /// [`read_request_field`]. The identifier is looked up in the schema. A
    /// frame of fewer than sixteen bytes is `TooShort` and adds nothing.
    pub fn funanalysis_read_frame(
        frame: &[u8],
        result_list: &mut Vec<AnnotatedField>,
        indx: usize,
        repo: &mut QframeConfig,
        region: &str,
    ) -> (r: Result<(), DecodeError>)
        ensures
            !fits_at(indx, frame@) ==> r == Err::<(), DecodeError>(DecodeError::OutOfRange)
                && final(result_list)@ == old(result_list)@ && *final(repo) == *old(repo),
            fits_at(indx, frame@) && frame@.len() < 16 ==> r == Err::<(), DecodeError>(DecodeError::TooShort) && final(result_list)@ == old(result_list)@ && *final(repo) == *old(repo),
            fits_at(indx, frame@) && frame@.len() >= 16 ==> r is Ok && models(final(result_list)@) == models(
                old(result_list)@,
            ).push(
                read_request_field(
                    frame@,
                    indx as int,
                    find_step(old(repo)@, item_query(frame@.subrange(10, 14), region@)).0,
                ),
            ) && final(repo)@ == find_step(
                old(repo)@,
                item_query(frame@.subrange(10, 14), region@),
            ).1,
    {
        if indx > usize::MAX - frame.len() {
            return Err(DecodeError::OutOfRange);
        }
        let n = frame.len();
        if n < 16 {
            return Err(DecodeError::TooShort);
        }
        let di = slice_subrange(frame, 10, 14);
        let item = Self::lookup_item(repo, di, region);
        let mut data_list = no_fields();
        Self::push_identifier_leaf(&mut data_list, di, &item, indx);
        let ghost first = models(data_list@);
        if item.is_some() {
            let extra = n - 16;
            if extra == 1 {
                Self::push_block_count_leaf(&mut data_list, frame, indx);
            } else if extra == 6 {
                Self::push_block_count_leaf(&mut data_list, frame, indx);
                let time = slice_subrange(frame, 15, n - 2);
                push_leaf(
                    &mut data_list,
                    "给定时间",
                    FrameFun::get_data_str_with_space(time),
                    Self::time_text_or_nothing(time, "mmhhDDMMYY", true),
                    indx + 15,
                    indx + n - 2,
                );
            } else if extra > 0 {
                let rest = slice_subrange(frame, 14, n - 2);
                push_leaf(
                    &mut data_list,
                    "液晶查看命令",
                    FrameFun::get_data_str_with_space(rest),
                    String::new(),
                    indx + 14,
                    indx + n - 2,
                );
            }
            assert(models(data_list@) =~= first + read_request_extras(frame@, indx as int));
        } else {
            assert(models(data_list@) =~= first + Seq::<FieldModel>::empty());
        }
        assert(first =~= seq![identifier_leaf(di@, option_model(item), indx as int)]);
        push_data_area(result_list, indx + 10, indx + n - 2, data_list);
        Ok(())
    }

    /// Appends the data field of a request for a subsequent frame; see
    /// [`read_subsequent_field`]. A frame of fewer than seventeen bytes is
    /// `TooShort` and adds nothing.
    pub fn funanalysis_read_subsequent_frame(
        frame: &[u8],
        result_list: &mut Vec<AnnotatedField>,
        indx: usize,
        repo: &mut QframeConfig,
        region: &str,
    ) -> (r: Result<(), DecodeError>)
        ensures
            !fits_at(indx, frame@) ==> r == Err::<(), DecodeError>(DecodeError::OutOfRange)
                && final(result_list)@ == old(result_list)@ && *final(repo) == *old(repo),
            fits_at(indx, frame@) && frame@.len() < 17 ==> r == Err::<(), DecodeError>(DecodeError::TooShort) && final(result_list)@ == old(result_list)@ && *final(repo) == *old(repo),
            fits_at(indx, frame@) && frame@.len() >= 17 ==> r is Ok && models(final(result_list)@) == models(
                old(result_list)@,
            ).push(
                read_subsequent_field(
                    frame@,
                    indx as int,
                    find_step(old(repo)@, item_query(frame@.subrange(10, 14), region@)).0,
                ),
            ) && final(repo)@ == find_step(
                old(repo)@,
                item_query(frame@.subrange(10, 14), region@),
            ).1,
    {
        if indx > usize::MAX - frame.len() {
            return Err(DecodeError::OutOfRange);
        }
        let n = frame.len();
        if n < 17 {
            return Err(DecodeError::TooShort);
        }
        let di = slice_subrange(frame, 10, 14);
        let item = Self::lookup_item(repo, di, region);
        let mut data_list = no_fields();
        Self::push_identifier_leaf(&mut data_list, di, &item, indx);
        Self::push_sequence_leaf(&mut data_list, frame, indx);
        assert(models(data_list@) =~= seq![
            identifier_leaf(di@, option_model(item), indx as int),
            sequence_leaf(frame@, indx as int),
        ]);
        push_data_area(result_list, indx + 10, indx + n - 2, data_list);
        Ok(())
    }

    /// The fields of the records of an item from `offset` on; see
    /// [`record_fields`].
    pub(crate) fn records_of(
        repo: &mut QframeConfig,
        item: &XmlElement,
        content: &[u8],
        offset: usize,
        record: usize,
        base: usize,
        settings: &DecodeSettings,
    ) -> (fields: Vec<AnnotatedField>)
        requires
            base + content@.len() <= usize::MAX,
        ensures
            models(fields@) == record_fields(
                old(repo)@,
                item@,
                content@,
                offset as int,
                record as int,
                base as int,
                settings@,
            ).0,
            final(repo)@ == record_fields(
                old(repo)@,
                item@,
                content@,
                offset as int,
                record as int,
                base as int,
                settings@,
            ).1,
            final(repo).config_path == old(repo).config_path,
        decreases content@.len() - offset,
    {
        let mut fields = no_fields();
        let n = content.len();
        if offset >= n {
            return fields;
        }
        let end = if record == 0 || record > n - offset {
            n
        } else {
            offset + record
        };
        let no_siblings: Vec<SubItem> = Vec::new();
        assert(sub_item_models(no_siblings@) =~= Seq::<SubItemModel>::empty());
        let first = FrameAnalisyic::interpret(
            repo,
            item,
            slice_subrange(content, offset, end),
            base + offset,
            settings,
            &no_siblings,
            MAX_DEPTH,
        );
        let ghost head = first@;
        proof {
            lemma_models_push(fields@, first);
        }
        fields.push(first);
        let mut more = Self::records_of(repo, item, content, end, record, base, settings);
        proof {
            lemma_models_concat(fields@, more@);
            assert(models(fields@) =~= seq![head]);
        }
        fields.append(&mut more);
        fields
    }

    /// The fields of an item over its data, or none where the schema does
    /// not know the item; see [`item_parts`].
    pub(crate) fn parts_of(
        repo: &mut QframeConfig,
        item: &Option<XmlElement>,
        data: &[u8],
        base: usize,
        settings: &DecodeSettings,
    ) -> (fields: Vec<AnnotatedField>)
        requires
            base + data@.len() <= usize::MAX,
        ensures
            models(fields@) == item_parts(
                old(repo)@,
                option_model(*item),
                data@,
                base as int,
                settings@,
            ).0,
            final(repo)@ == item_parts(
                old(repo)@,
                option_model(*item),
                data@,
                base as int,
                settings@,
            ).1,
            final(repo).config_path == old(repo).config_path,
    {
        match item {
            Some(e) => match FrameAnalisyic::prase_data(repo, e, settings, data, base) {
                Ok(fields) => fields,
                Err(_) => no_fields(),
            },
            None => no_fields(),
        }
    }

    /// Appends the field of the content of an item; see [`content_field`].
    pub(crate) fn push_content_field(
        list: &mut Vec<AnnotatedField>,
        di: &[u8],
        content: &[u8],
        start: usize,
        children: Vec<AnnotatedField>,
    )
        requires
            start + content@.len() <= usize::MAX,
        ensures
            models(final(list)@) == models(old(list)@).push(
                content_field(di@, content@, start as int, models(children@)),
            ),
    {
        let mut text = intro_and_reversed("数据标识[", di);
        text.append("]内容数据");
        text.append(FrameFun::get_data_str_delete_33h_reverse(content).as_str());
        push_group(
            list,
            "数据标识内容",
            FrameFun::get_data_str_with_space(content),
            text,
            start,
            start + content.len(),
            children,
        );
    }

    /// Appends the data field of a read response; see
    /// [`read_response_field`]. The content is divided as the schema
    /// describes the item: into records of the item's length, behind a start
    /// time of five bytes where the content is no whole number of records. A
    /// frame of fewer than sixteen bytes is `TooShort` and adds nothing.
    pub fn funanalyze_read_response_frame(
        frame: &[u8],
        result_list: &mut Vec<AnnotatedField>,
        indx: usize,
        repo: &mut QframeConfig,
        region: &str,
    ) -> (r: Result<(), DecodeError>)
        ensures
            !fits_at(indx, frame@) ==> r == Err::<(), DecodeError>(DecodeError::OutOfRange)
                && final(result_list)@ == old(result_list)@ && *final(repo) == *old(repo),
            fits_at(indx, frame@) && frame@.len() < 16 ==> r == Err::<(), DecodeError>(DecodeError::TooShort) && final(result_list)@ == old(result_list)@ && *final(repo) == *old(repo),
            fits_at(indx, frame@) && frame@.len() >= 16 ==> r is Ok && models(final(result_list)@) == models(
                old(result_list)@,
            ).push(read_response_field(old(repo)@, frame@, indx as int, region@).0)
                && final(repo)@ == read_response_field(old(repo)@, frame@, indx as int, region@).1,
    {
        if indx > usize::MAX - frame.len() {
            return Err(DecodeError::OutOfRange);
        }
        let n = frame.len();
        if n < 16 {
            return Err(DecodeError::TooShort);
        }
        let di = slice_subrange(frame, 10, 14);
        let content = slice_subrange(frame, 14, n - 2);
        let item = Self::lookup_item(repo, di, region);
        let settings = Self::settings_for(region);
        let mut data_list = no_fields();
        Self::push_identifier_leaf(&mut data_list, di, &item, indx);
        let sub_result = match &item {
            Some(e) => {
                let no_siblings: Vec<SubItem> = Vec::new();
                assert(sub_item_models(no_siblings@) =~= Seq::<SubItemModel>::empty());
                let declared = FrameAnalisyic::caculate_item_length(e, content, &no_siblings);
                let record: usize = if declared.resolved {
                    declared.length as usize
                } else {
                    0
                };
                let all = content.len();
                if record > 0 && all % record != 0 && all > record && all >= 5 {
                    let mut parts = no_fields();
                    let time = slice_subrange(content, 0, 5);
                    push_leaf(
                        &mut parts,
                        "数据起始时间",
                        FrameFun::get_data_str_with_space(time),
                        Self::time_text_or_nothing(time, "YYMMDDhhmm", true),
                        indx + 14,
                        indx + 19,
                    );
                    let ghost head = models(parts@);
                    let mut records = Self::records_of(
                        repo,
                        e,
                        content,
                        5,
                        record,
                        indx + 14,
                        &settings,
                    );
                    proof {
                        lemma_models_concat(parts@, records@);
                        assert(head =~= seq![
                            leaf(
                                "数据起始时间"@,
                                hex_text_spaced(time@),
                                time_or_nothing(time@, "YYMMDDhhmm"@, true),
                                indx + 14,
                                indx + 14 + 5,
                            ),
                        ]);
                    }
                    parts.append(&mut records);
                    parts
                } else {
                    Self::records_of(repo, e, content, 0, record, indx + 14, &settings)
                }
            },
            None => no_fields(),
        };
        let ghost first = models(data_list@);
        Self::push_content_field(&mut data_list, di, content, indx + 14, sub_result);
        proof {
            assert(first =~= seq![identifier_leaf(di@, option_model(item), indx as int)]);
            assert(models(data_list@) =~= seq![
                identifier_leaf(di@, option_model(item), indx as int),
                content_field(di@, content@, indx + 14, models(sub_result@)),
            ]);
        }
        push_data_area(result_list, indx + 10, indx + n - 2, data_list);
        Ok(())
    }

    /// Appends the data field of the response with a subsequent frame; see
    /// [`read_subsequent_response_field`]. A frame of fewer than seventeen
    /// bytes is `TooShort` and adds nothing.
    pub fn funanalyze_read_subsequent_response_frame(
        frame: &[u8],
        result_list: &mut Vec<AnnotatedField>,
        indx: usize,
        repo: &mut QframeConfig,
        region: &str,
    ) -> (r: Result<(), DecodeError>)
        ensures
            !fits_at(indx, frame@) ==> r == Err::<(), DecodeError>(DecodeError::OutOfRange)
                && final(result_list)@ == old(result_list)@ && *final(repo) == *old(repo),
            fits_at(indx, frame@) && frame@.len() < 17 ==> r == Err::<(), DecodeError>(DecodeError::TooShort) && final(result_list)@ == old(result_list)@ && *final(repo) == *old(repo),
            fits_at(indx, frame@) && frame@.len() >= 17 ==> r is Ok && models(final(result_list)@) == models(
                old(result_list)@,
            ).push(read_subsequent_response_field(old(repo)@, frame@, indx as int, region@).0)
                && final(repo)@ == read_subsequent_response_field(
                old(repo)@,
                frame@,
                indx as int,
                region@,
            ).1,
    {
        if indx > usize::MAX - frame.len() {
            return Err(DecodeError::OutOfRange);
        }
        let n = frame.len();
        if n < 17 {
            return Err(DecodeError::TooShort);
        }
        let di = slice_subrange(frame, 10, 14);
        let content = slice_subrange(frame, 14, n - 2);
        let mut data_list = no_fields();
        push_leaf(
            &mut data_list,
            "数据标识编码",
            FrameFun::get_data_str_with_space(di),
            intro_and_reversed("数据标识编码：", di),
            indx + 10,
            indx + 14,
        );
        let item = Self::lookup_item(repo, di, region);
        let settings = Self::settings_for(region);
        let sub_result = Self::parts_of(repo, &item, content, indx + 14, &settings);
        Self::push_content_field(&mut data_list, di, content, indx + 14, sub_result);
        Self::push_sequence_leaf(&mut data_list, frame, indx);
        assert(models(data_list@) =~= read_subsequent_response_field(
            old(repo)@,
            frame@,
            indx as int,
            region@,
        ).0.children);
        push_data_area(result_list, indx + 10, indx + n - 2, data_list);
        Ok(())
    }

    /// Appends the data field of a write; see [`write_field`]. A frame of
    /// fewer than twenty-four bytes is `TooShort` and adds nothing.
    pub fn funanalysis_write_frame(
        frame: &[u8],
        result_list: &mut Vec<AnnotatedField>,
        indx: usize,
        repo: &mut QframeConfig,
        region: &str,
    ) -> (r: Result<(), DecodeError>)
        ensures
            !fits_at(indx, frame@) ==> r == Err::<(), DecodeError>(DecodeError::OutOfRange)
                && final(result_list)@ == old(result_list)@ && *final(repo) == *old(repo),
            fits_at(indx, frame@) && frame@.len() < 24 ==> r == Err::<(), DecodeError>(DecodeError::TooShort) && final(result_list)@ == old(result_list)@ && *final(repo) == *old(repo),
            fits_at(indx, frame@) && frame@.len() >= 24 ==> r is Ok && models(final(result_list)@) == models(
                old(result_list)@,
            ).push(write_field(old(repo)@, frame@, indx as int, region@).0) && final(repo)@
                == write_field(old(repo)@, frame@, indx as int, region@).1,
    {
        if indx > usize::MAX - frame.len() {
            return Err(DecodeError::OutOfRange);
        }
        let n = frame.len();
        if n < 24 {
            return Err(DecodeError::TooShort);
        }
        let di = slice_subrange(frame, 10, 14);
        let password = slice_subrange(frame, 14, 18);
        let operator = slice_subrange(frame, 18, 22);
        let write_data = slice_subrange(frame, 22, n - 2);
        let item = Self::lookup_item(repo, di, region);
        let settings = Self::settings_for(region);
        let mut data_list = no_fields();
        let write_result = Self::parts_of(repo, &item, write_data, indx + 22, &settings);
        if item.is_some() {
            Self::push_identifier_leaf(&mut data_list, di, &item, indx);
            let mut permission = String::from_str("权限：");
            push_hex_pair(&mut permission, FrameFun::unbias(password[0]));
            push_leaf(
                &mut data_list,
                "密码权限",
                hex_of(password[0]),
                permission,
                indx + 14,
                indx + 15,
            );
            let secret = slice_subrange(password, 1, 4);
            push_leaf(
                &mut data_list,
                "密码",
                FrameFun::get_data_str_with_space(secret),
                intro_and_reversed("密码：", secret),
                indx + 15,
                indx + 18,
            );
            Self::push_operator_leaf(&mut data_list, operator, indx + 18);
        }
        let ghost before = models(data_list@);
        push_group(
            &mut data_list,
            "数据内容",
            FrameFun::get_data_str_with_space(write_data),
            intro_and_reversed("写数据内容：", write_data),
            indx + 22,
            indx + 22 + write_data.len(),
            write_result,
        );
        proof {
            let want = write_field(old(repo)@, frame@, indx as int, region@).0.children;
            if item is Some {
                assert(before =~= want.take(4));
            } else {
                assert(models(write_result@) =~= Seq::<FieldModel>::empty());
            }
            assert(models(data_list@) =~= want);
        }
        push_data_area(result_list, indx + 10, indx + n - 2, data_list);
        Ok(())
    }
}

} // verus!
