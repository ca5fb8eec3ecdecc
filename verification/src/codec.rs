//! The codec as its callers see it: decoding a buffer into annotated fields,
//! validating it, loading and saving schemas, and the checks that the
//! regional dialects share.

use crate::annotated::{field, models, AnnotatedField, FieldModel};
use crate::error::{FrameError, XmlError};
use crate::frame_645::{data_area, is_frame, no_fields, Frame645};
use crate::frame_645_dispatch::{data_field_of, frame_fields, layout_of, Layout};
use crate::frame_645_items::{content_field, identifier_leaf, item_query, PROTOCOL_DLT645};
use crate::frame_fun::FrameFun;
use crate::interpreter::{item_id, FrameAnalisyic};
use crate::length_rule::{number_from, number_of};
use crate::schema::{
    child_text, declared_text, element_models, items_of, text_model, ElementModel, XmlElement,
};
use crate::schema_find::{find_step, option_model, QframeConfig, Query, RepositoryModel, XmlConfig};
use crate::schema_update::{
    optional_find_step, protocol_kind, repository_model, upserted, ProtocolConfigManager,
    ProtocolKind,
};
use crate::text::{
    chars_of, hex_text_spaced, string_of, trimmed, trimmed_chars, upper_chars, upper_text,
};
use crate::xml_io::{document_bytes, document_tokens, element_bytes, parse_document, tree_of};
use vstd::prelude::*;

verus! {

/// One step of the frame check sequence of PPP: a shift to the right, and
/// the polynomial `0x8408` where a one was shifted out.
pub open spec fn fcs_shift(fcs: u16) -> u16 {
    if fcs & 1 != 0 {
        (fcs >> 1) ^ 0x8408
    } else {
        fcs >> 1
    }
}

/// `n` steps of the frame check sequence.
pub open spec fn fcs_shifts(fcs: u16, n: nat) -> u16
    decreases n,
{
    if n == 0 {
        fcs
    } else {
        fcs_shift(fcs_shifts(fcs, (n - 1) as nat))
    }
}

/// The 16-bit frame check sequence of PPP over the bytes, from the value
/// `seed`: each byte is added into the low byte, then eight steps follow.
pub open spec fn fcs16(seed: u16, data: Seq<u8>) -> u16
    decreases data.len(),
{
    if data.len() == 0 {
        seed
    } else {
        fcs_shifts(fcs16(seed, data.drop_last()) ^ (data.last() as u16), 8)
    }
}

/// The length that an item declares as a number, or 0.
pub open spec fn literal_length(item: ElementModel) -> nat {
    match declared_text(item, "length"@) {
        Some(t) => match number_of(trimmed(t)) {
            Some(n) => n as nat,
            None => 0,
        },
        None => 0,
    }
}

/// A sum held at the largest `usize`.
pub open spec fn capped(n: nat) -> nat {
    if n > usize::MAX {
        usize::MAX as nat
    } else {
        n
    }
}

/// The sum of the lengths that the items from `k` on declare, each looked
/// up in the schema by the identifier that the `item` child names, and the
/// repository after the lookups made. An item that the schema does not know
/// counts nothing.
pub open spec fn box_length(s: RepositoryModel, items: Seq<ElementModel>, k: int, q: Query) -> (
    nat,
    RepositoryModel,
)
    decreases items.len() - k,
{
    if k < 0 || k >= items.len() {
        (0, s)
    } else {
        let found = find_step(s, Query { id: item_id(items[k]), ..q });
        let rest = box_length(found.1, items, k + 1, q);
        (
            capped(
                (match found.0 {
                    Some(e) => literal_length(e),
                    None => 0,
                }) + rest.0,
            ),
            rest.1,
        )
    }
}

/// The root under which the fields of a frame are handed out.
pub open spec fn root_field(frame: Seq<u8>, children: Seq<FieldModel>) -> FieldModel {
    field(PROTOCOL_DLT645@, hex_text_spaced(frame), Seq::empty(), 0, frame.len() as int, children)
}

/// A read response whose identifier the schema does not know shows the
/// identifier and, in one field without children, the bytes of its content:
/// decoding goes on, and nothing else of the frame changes.
pub proof fn law_unknown_identifier_degrades(
    s: RepositoryModel,
    body: Seq<u8>,
    at: int,
    region: Seq<char>,
)
    requires
        body.len() >= 16,
        layout_of(body[8]) == Layout::ReadResponse,
        find_step(s, item_query(body.subrange(10, 14), region)).0 is None,
    ensures
        data_field_of(s, body, at, region).0 == data_area(
            at + 10,
            at + body.len() - 2,
            seq![
                identifier_leaf(body.subrange(10, 14), None, at),
                content_field(
                    body.subrange(10, 14),
                    body.subrange(14, body.len() - 2),
                    at + 14,
                    Seq::empty(),
                ),
            ],
        ),
{
    reveal(data_field_of);
}

impl FrameFun {
    /// The 16-bit frame check sequence of PPP over the bytes, from the
    /// value `fcs`; see [`fcs16`].
    pub fn ppp_fcs16(fcs: u16, data: &[u8]) -> (r: u16)
        ensures
            r == fcs16(fcs, data@),
    {
        let mut value: u16 = fcs;
        let mut i: usize = 0;
        assert(data@.take(0) =~= Seq::<u8>::empty());
        while i < data.len()
            invariant
                i <= data.len(),
                value == fcs16(fcs, data@.take(i as int)),
            decreases data.len() - i,
        {
            proof {
                assert(data@.take(i + 1).drop_last() =~= data@.take(i as int));
            }
            value = value ^ (data[i] as u16);
            let ghost start = value;
            let mut k: u8 = 0;
            while k < 8
                invariant
                    k <= 8,
                    value == fcs_shifts(start, k as nat),
                decreases 8 - k,
            {
                if (value & 0x0001) != 0 {
                    value = (value >> 1) ^ 0x8408;
                } else {
                    value = value >> 1;
                }
                k += 1;
            }
            i += 1;
        }
        assert(data@.take(i as int) =~= data@);
        value
    }

    /// The length that an item declares as a number, or 0.
    pub fn literal_length_of(item: &XmlElement) -> (n: usize)
        ensures
            n == literal_length(item@),
    {
        match item.get_declared("length") {
            Some(t) => match number_from(&trimmed_chars(&chars_of(t.as_str()))) {
                Some(n) => n as usize,
                None => 0,
            },
            None => 0,
        }
    }

    /// The sum of the lengths of the items from `k` on; see
    /// [`box_length`].
    pub fn box_length_from(
        repo: &mut QframeConfig,
        items: &Vec<XmlElement>,
        k: usize,
        protocol: &str,
        region: &str,
        dir: Option<u8>,
    ) -> (total: usize)
        ensures
            total == box_length(
                old(repo)@,
                element_models(items@),
                k as int,
                Query { id: Seq::empty(), protocol: protocol@, region: region@, dir },
            ).0,
            final(repo)@ == box_length(
                old(repo)@,
                element_models(items@),
                k as int,
                Query { id: Seq::empty(), protocol: protocol@, region: region@, dir },
            ).1,
        decreases items@.len() - k,
    {
        if k >= items.len() {
            return 0;
        }
        let id = FrameAnalisyic::item_id_of(&items[k]);
        let own = match repo.get_item(id.as_str(), protocol, region, dir) {
            Some(e) => Self::literal_length_of(&e),
            None => 0,
        };
        let rest = Self::box_length_from(repo, items, k + 1, protocol, region, dir);
        if own > usize::MAX - rest {
            usize::MAX
        } else {
            own + rest
        }
    }

    /// The number of bytes that the items of a node take together: the sum
    /// of the lengths that the schema declares for the items it names; see
    /// [`box_length`].
    pub fn calculate_item_box_length(
        repo: &mut QframeConfig,
        item_ele: &XmlElement,
        protocol: &str,
        region: &str,
        dir: Option<u8>,
    ) -> (total: usize)
        ensures
            total == box_length(
                old(repo)@,
                items_of(item_ele@, "item"@),
                0,
                Query { id: Seq::empty(), protocol: protocol@, region: region@, dir },
            ).0,
            final(repo)@ == box_length(
                old(repo)@,
                items_of(item_ele@, "item"@),
                0,
                Query { id: Seq::empty(), protocol: protocol@, region: region@, dir },
            ).1,
    {
        let items = item_ele.get_items("item");
        Self::box_length_from(repo, &items, 0, protocol, region, dir)
    }
}

/// What loading a document that describes `tree` makes of a repository: the
/// tree and the path are replaced where the document describes a tree, and
/// nothing changes where it describes none. What was remembered stays.
pub open spec fn loaded(
    before: QframeConfig,
    tree: Option<ElementModel>,
    path: Option<String>,
    after: QframeConfig,
) -> bool {
    match tree {
        Some(t) => after@ == (RepositoryModel {
            tree: Some(t),
            path: text_model(path),
            ..before@
        }) && after.config_path == path,
        None => after == before,
    }
}

impl QframeConfig {
    /// Reads the schema from an XML document. A document that cannot be
    /// read leaves the repository as it is. One that closes no outermost
    /// element is accepted and changes nothing. What was remembered before
    /// stays remembered.
    pub fn load(&mut self, xml: &[u8], path: Option<String>) -> (r: Result<(), XmlError>)
        ensures
            match document_tokens(xml@) {
                Ok(t) => r is Ok && loaded(*old(self), tree_of(t), path, *final(self)),
                Err(e) => r == Err::<(), XmlError>(e) && *final(self) == *old(self),
            },
    {
        match parse_document(xml) {
            Ok(Some(root)) => {
                self.config = Some(XmlConfig { root });
                self.config_path = path;
                Ok(())
            },
            Ok(None) => Ok(()),
            Err(e) => Err(e),
        }
    }

    /// The schema as an XML document, indented by four spaces a level, or
    /// `None` where no schema is loaded; see [`element_bytes`]. Writing
    /// into memory always succeeds.
    pub fn save_to_bytes(&self) -> (r: Result<Option<Vec<u8>>, XmlError>)
        ensures
            match r {
                Ok(Some(bytes)) => self@.tree is Some && bytes@ == element_bytes(
                    self@.tree->0,
                    Seq::empty(),
                ),
                Ok(None) => self@.tree is None,
                Err(_) => false,
            },
    {
        match &self.config {
            Some(c) => match document_bytes(&c.root) {
                Ok(bytes) => Ok(Some(bytes)),
                Err(e) => Err(e),
            },
            None => Ok(None),
        }
    }
}

/// Why a schema could not be updated.
#[derive(Debug, Clone, Copy, PartialEq, Eq, Structural)]
pub enum UpdateError {
    /// The protocol name stands for no protocol.
    UnknownProtocol,
    /// The schema of the protocol is not loaded.
    NotLoaded(ProtocolKind),
}

impl UpdateError {
    /// The message shown for the error.
    pub fn message(&self) -> (text: String)
        ensures
            text@ == (match *self {
                UpdateError::UnknownProtocol => "不支持的协议类型"@,
                UpdateError::NotLoaded(ProtocolKind::Csg13) => "CSG13 配置错误"@,
                UpdateError::NotLoaded(ProtocolKind::Dlt645) => "DLT/645 配置错误"@,
                UpdateError::NotLoaded(ProtocolKind::Csg16) => "CSG16 配置错误"@,
            }),
    {
        match self {
            UpdateError::UnknownProtocol => String::from_str("不支持的协议类型"),
            UpdateError::NotLoaded(ProtocolKind::Csg13) => String::from_str("CSG13 配置错误"),
            UpdateError::NotLoaded(ProtocolKind::Dlt645) => String::from_str("DLT/645 配置错误"),
            UpdateError::NotLoaded(ProtocolKind::Csg16) => String::from_str("CSG16 配置错误"),
        }
    }
}

/// The repository of a protocol.
pub open spec fn repository_of(m: ProtocolConfigManager, kind: ProtocolKind) -> Option<
    QframeConfig,
> {
    match kind {
        ProtocolKind::Csg13 => m.csg13,
        ProtocolKind::Dlt645 => m.dlt645,
        ProtocolKind::Csg16 => m.csg16,
    }
}

impl ProtocolConfigManager {
    /// The template with the identifier `template` in the schema of the
    /// protocol that `protocol` names; templates are looked up as items are.
    pub fn get_template_element(
        &mut self,
        template: &str,
        protocol: &str,
        region: &str,
        dir: Option<u8>,
    ) -> (r: Option<XmlElement>)
        ensures
            ({
                let q = Query {
                    id: template@,
                    protocol: upper_text(protocol@),
                    region: region@,
                    dir,
                };
                match protocol_kind(protocol@) {
                    Some(ProtocolKind::Csg13) => {
                        &&& option_model(r) == optional_find_step(
                            repository_model(old(self).csg13),
                            q,
                        ).0
                        &&& repository_model(final(self).csg13) == optional_find_step(
                            repository_model(old(self).csg13),
                            q,
                        ).1
                        &&& final(self).dlt645 == old(self).dlt645
                        &&& final(self).csg16 == old(self).csg16
                    },
                    Some(ProtocolKind::Dlt645) => {
                        &&& option_model(r) == optional_find_step(
                            repository_model(old(self).dlt645),
                            q,
                        ).0
                        &&& repository_model(final(self).dlt645) == optional_find_step(
                            repository_model(old(self).dlt645),
                            q,
                        ).1
                        &&& final(self).csg13 == old(self).csg13
                        &&& final(self).csg16 == old(self).csg16
                    },
                    Some(ProtocolKind::Csg16) => {
                        &&& option_model(r) == optional_find_step(
                            repository_model(old(self).csg16),
                            q,
                        ).0
                        &&& repository_model(final(self).csg16) == optional_find_step(
                            repository_model(old(self).csg16),
                            q,
                        ).1
                        &&& final(self).csg13 == old(self).csg13
                        &&& final(self).dlt645 == old(self).dlt645
                    },
                    None => r is None && *final(self) == *old(self),
                }
            }),
    {
        self.get_config_xml(template, protocol, region, dir)
    }

    /// Updates one optional repository; see [`QframeConfig::update_element`].
    pub fn update_repository(
        repository: &mut Option<QframeConfig>,
        target_id: &str,
        element: XmlElement,
    ) -> (present: bool)
        ensures
            present == (*old(repository) is Some),
            !present ==> *final(repository) is None,
            present ==> *final(repository) is Some && (match old(repository)->0@.tree {
                Some(root) => final(repository)->0@ == (RepositoryModel {
                    tree: Some(upserted(root, target_id@, element@)),
                    cache: Seq::empty(),
                    ..old(repository)->0@
                }),
                None => final(repository)->0@ == old(repository)->0@,
            }),
    {
        match repository.take() {
            Some(mut config) => {
                config.update_element(target_id, element);
                *repository = Some(config);
                true
            },
            None => false,
        }
    }

    /// Updates the schema of the protocol that `protocol` names: the node
    /// that carries the identifier `target_id` is replaced by `element`, or
    /// `element` is added where there is none, and everything that the
    /// repository remembered is forgotten. The other repositories stay as
    /// they are.
    pub fn update_element(&mut self, target_id: &str, protocol: &str, element: XmlElement) -> (r:
        Result<(), UpdateError>)
        ensures
            match protocol_kind(protocol@) {
                None => r == Err::<(), UpdateError>(UpdateError::UnknownProtocol) && *final(self)
                    == *old(self),
                Some(kind) => match repository_of(*old(self), kind) {
                    None => r == Err::<(), UpdateError>(UpdateError::NotLoaded(kind)),
                    Some(before) => r is Ok && repository_of(*final(self), kind) is Some
                        && (match before@.tree {
                        Some(root) => repository_of(*final(self), kind)->0@ == (RepositoryModel {
                            tree: Some(upserted(root, target_id@, element@)),
                            cache: Seq::empty(),
                            ..before@
                        }),
                        None => repository_of(*final(self), kind)->0@ == before@,
                    }),
                },
            },
    {
        match Self::kind_of(protocol) {
            None => Err(UpdateError::UnknownProtocol),
            Some(ProtocolKind::Csg13) => {
                if Self::update_repository(&mut self.csg13, target_id, element) {
                    Ok(())
                } else {
                    Err(UpdateError::NotLoaded(ProtocolKind::Csg13))
                }
            },
            Some(ProtocolKind::Dlt645) => {
                if Self::update_repository(&mut self.dlt645, target_id, element) {
                    Ok(())
                } else {
                    Err(UpdateError::NotLoaded(ProtocolKind::Dlt645))
                }
            },
            Some(ProtocolKind::Csg16) => {
                if Self::update_repository(&mut self.csg16, target_id, element) {
                    Ok(())
                } else {
                    Err(UpdateError::NotLoaded(ProtocolKind::Csg16))
                }
            },
        }
    }
}

impl FrameAnalisyic {
    /// Whether the buffer is a frame that can be decoded.
    pub fn validate(frame: &[u8]) -> (valid: bool)
        ensures
            valid == is_frame(frame@),
    {
        Frame645::is_dlt645_frame(frame)
    }

    /// The fields of a DLT/645 frame, decoded with the schema of that
    /// protocol under the region given; see [`frame_fields`]. A buffer that
    /// is no frame is `InvalidFraming`; a manager without the schema of the
    /// protocol is `SchemaNotFound`. A frame is always decoded in full: what
    /// the schema does not know is shown as bytes.
    pub fn process_frame(manager: &mut ProtocolConfigManager, frame: &[u8], region: &str) -> (r:
        Result<Vec<AnnotatedField>, FrameError>)
        ensures
            !is_frame(frame@) ==> r == Err::<Vec<AnnotatedField>, FrameError>(
                FrameError::InvalidFraming,
            ) && *final(manager) == *old(manager),
            is_frame(frame@) && old(manager).dlt645 is None ==> r == Err::<
                Vec<AnnotatedField>,
                FrameError,
            >(FrameError::SchemaNotFound) && *final(manager) == *old(manager),
            is_frame(frame@) && old(manager).dlt645 is Some ==> r is Ok && models(r->Ok_0@)
                == frame_fields(old(manager).dlt645->0@, frame@, 0, region@).0 && final(manager).dlt645 is Some && final(manager).dlt645->0@ == frame_fields(
                old(manager).dlt645->0@,
                frame@,
                0,
                region@,
            ).1 && final(manager).csg13 == old(manager).csg13 && final(manager).csg16 == old(manager).csg16,
    {
        if !Frame645::is_dlt645_frame(frame) {
            return Err(FrameError::InvalidFraming);
        }
        let mut repo = match manager.dlt645.take() {
            Some(r) => r,
            None => {
                return Err(FrameError::SchemaNotFound);
            },
        };
        let mut fields = no_fields();
        let _ = Frame645::analysis_645_frame_by_afn(frame, &mut fields, 0, region, &mut repo);
        manager.dlt645 = Some(repo);
        assert(models(fields@) =~= frame_fields(old(manager).dlt645->0@, frame@, 0, region@).0);
        Ok(fields)
    }

    /// The annotated tree of a frame of the protocol that `protocol` names:
    /// one root over the fields of the frame. A name that stands for no
    /// protocol, and a protocol whose schema is not loaded, are
    /// `SchemaNotFound`; the regional dialects, whose envelopes are not
    /// decoded here, are `UnsupportedProtocol`; a buffer that is no frame is
    /// `InvalidFraming`.
    pub fn parse(manager: &mut ProtocolConfigManager, bytes: &[u8], protocol: &str, region: &str) -> (r:
        Result<AnnotatedField, FrameError>)
        ensures
            match protocol_kind(protocol@) {
                None => r == Err::<AnnotatedField, FrameError>(FrameError::SchemaNotFound),
                Some(ProtocolKind::Dlt645) => {
                    &&& !is_frame(bytes@) ==> r == Err::<AnnotatedField, FrameError>(
                        FrameError::InvalidFraming,
                    )
                    &&& is_frame(bytes@) && old(manager).dlt645 is None ==> r == Err::<
                        AnnotatedField,
                        FrameError,
                    >(FrameError::SchemaNotFound)
                    &&& is_frame(bytes@) && old(manager).dlt645 is Some ==> r is Ok && r->Ok_0@
                        == root_field(
                        bytes@,
                        frame_fields(old(manager).dlt645->0@, bytes@, 0, region@).0,
                    )
                },
                Some(_) => r == Err::<AnnotatedField, FrameError>(FrameError::UnsupportedProtocol),
            },
    {
        match ProtocolConfigManager::kind_of(protocol) {
            None => Err(FrameError::SchemaNotFound),
            Some(ProtocolKind::Dlt645) => match Self::process_frame(manager, bytes, region) {
                Ok(fields) => Ok(
                    AnnotatedField::new(
                        String::from_str(PROTOCOL_DLT645),
                        FrameFun::get_data_str_with_space(bytes),
                        String::new(),
                        0,
                        bytes.len(),
                        fields,
                        None,
                    ),
                ),
                Err(e) => Err(e),
            },
            Some(_) => Err(FrameError::UnsupportedProtocol),
        }
    }
}

/// Why the data of an item could not be shown.
#[derive(Debug, Clone, Copy, PartialEq, Eq, Structural)]
pub enum ItemDataError {
    /// No identifier was given.
    EmptyItem,
    /// No data was given.
    EmptyInput,
    /// No protocol was given.
    EmptyProtocol,
    /// No region was given.
    EmptyRegion,
    /// The identifier is no whole number of hexadecimal digit pairs.
    ItemNotHex,
    /// The data is no whole number of hexadecimal digit pairs.
    InputNotHex,
    /// The schema does not know the identifier.
    NotFound,
    /// The item declares more bytes than the data holds.
    TooLong,
}

impl ItemDataError {
    /// The message shown for the error.
    pub fn message(&self) -> (text: String)
        ensures
            text@ == (match *self {
                ItemDataError::EmptyItem => "数据标识不能为空"@,
                ItemDataError::EmptyInput => "数据内容不能为空"@,
                ItemDataError::EmptyProtocol => "协议类型不能为空"@,
                ItemDataError::EmptyRegion => "区域不能为空"@,
                ItemDataError::ItemNotHex => "数据标识必须是有效的16进制字符串"@,
                ItemDataError::InputNotHex => "数据内容必须是有效的16进制字符串"@,
                ItemDataError::NotFound => "未找到数据标识的配置信息"@,
                ItemDataError::TooLong => "数据长度超过实际数据长度"@,
            }),
    {
        match self {
            ItemDataError::EmptyItem => String::from_str("数据标识不能为空"),
            ItemDataError::EmptyInput => String::from_str("数据内容不能为空"),
            ItemDataError::EmptyProtocol => String::from_str("协议类型不能为空"),
            ItemDataError::EmptyRegion => String::from_str("区域不能为空"),
            ItemDataError::ItemNotHex => String::from_str("数据标识必须是有效的16进制字符串"),
            ItemDataError::InputNotHex => String::from_str("数据内容必须是有效的16进制字符串"),
            ItemDataError::NotFound => String::from_str("未找到数据标识的配置信息"),
            ItemDataError::TooLong => String::from_str("数据长度超过实际数据长度"),
        }
    }
}

/// Whether a text is a whole number of hexadecimal digit pairs.
pub open spec fn is_hex_pairs(text: Seq<char>) -> bool {
    text.len() % 2 == 0 && crate::text::all_hex(text)
}

/// The number of bytes that an item takes of `available`: the number it
/// declares in `length`, or all of them where it declares none.
pub open spec fn item_span(item: ElementModel, available: nat) -> nat {
    match declared_text(item, "length"@) {
        Some(t) => match number_of(trimmed(t)) {
            Some(n) => n as nat,
            None => available,
        },
        None => available,
    }
}

/// The query for an item whose data is shown on its own: the item as it
/// answers in the direction 1.
pub open spec fn item_data_query(id: Seq<char>, protocol: Seq<char>, region: Seq<char>) -> Query {
    Query { id, protocol: trimmed(protocol), region: trimmed(region), dir: Some(1u8) }
}

/// The two fields that show the data of an item on its own: the identifier,
/// and the data with the fields into which the schema divides it. The data
/// carries no bias, and no field has a place in a frame.
pub open spec fn item_data_fields(
    id: Seq<char>,
    data: Seq<u8>,
    item: ElementModel,
    parts: Seq<FieldModel>,
) -> Seq<FieldModel> {
    seq![
        crate::annotated::leaf(
            "数据标识编码DI"@,
            hex_text_spaced(crate::text::hex_bytes(id).reverse()),
            "数据标识编码：["@ + id + "]-"@ + (match child_text(item, "name"@) {
                Some(n) => n,
                None => Seq::empty(),
            }),
            0,
            0,
        ),
        field(
            "数据标识内容"@,
            hex_text_spaced(data.take(item_span(item, data.len()) as int)),
            "数据标识["@ + id + "]数据内容："@ + crate::text::hex_text(data.reverse()),
            0,
            0,
            parts,
        ),
    ]
}

impl FrameAnalisyic {
    /// The number of bytes that an item takes of `available`; see
    /// [`item_span`].
    pub fn item_span_of(item: &XmlElement, available: usize) -> (n: usize)
        ensures
            n == item_span(item@, available as nat),
    {
        match item.get_declared("length") {
            Some(t) => match number_from(&trimmed_chars(&chars_of(t.as_str()))) {
                Some(n) => n as usize,
                None => available,
            },
            None => available,
        }
    }

    /// Shows the data of one item on its own. `item` is the identifier and
    /// `input` the data, both in hexadecimal digits; white space at their
    /// ends is set aside, and the identifier is taken in upper case. The item
    /// is looked up in `repo` as it answers in the direction 1, its length is
    /// fixed to what it takes of the data, and the data is interpreted
    /// without bias from the index 0; see [`item_data_fields`].
    pub fn parse_item_data(
        repo: &mut QframeConfig,
        item: &str,
        input: &str,
        protocol: &str,
        region: &str,
    ) -> (r: Result<Vec<AnnotatedField>, ItemDataError>)
        ensures
            item@.len() == 0 ==> r == Err::<Vec<AnnotatedField>, ItemDataError>(
                ItemDataError::EmptyItem,
            ),
            item@.len() > 0 && input@.len() == 0 ==> r == Err::<Vec<AnnotatedField>, ItemDataError>(
                ItemDataError::EmptyInput,
            ),
            item@.len() > 0 && input@.len() > 0 && protocol@.len() == 0 ==> r == Err::<
                Vec<AnnotatedField>,
                ItemDataError,
            >(ItemDataError::EmptyProtocol),
            item@.len() > 0 && input@.len() > 0 && protocol@.len() > 0 && region@.len() == 0 ==> r
                == Err::<Vec<AnnotatedField>, ItemDataError>(ItemDataError::EmptyRegion),
            item@.len() > 0 && input@.len() > 0 && protocol@.len() > 0 && region@.len() > 0 ==> ({
                let id = upper_text(trimmed(item@));
                let text = trimmed(input@);
                let found = find_step(old(repo)@, item_data_query(id, protocol@, region@));
                if !is_hex_pairs(id) {
                    r == Err::<Vec<AnnotatedField>, ItemDataError>(ItemDataError::ItemNotHex)
                } else if !is_hex_pairs(text) {
                    r == Err::<Vec<AnnotatedField>, ItemDataError>(ItemDataError::InputNotHex)
                } else if found.0 is None {
                    r == Err::<Vec<AnnotatedField>, ItemDataError>(ItemDataError::NotFound)
                } else if item_span(found.0->0, crate::text::hex_bytes(text).len()) > crate::text::hex_bytes(
                    text,
                ).len() {
                    r == Err::<Vec<AnnotatedField>, ItemDataError>(ItemDataError::TooLong)
                } else {
                    let data = crate::text::hex_bytes(text);
                    let fixed = crate::schema::with_child_text(
                        found.0->0,
                        "length"@,
                        crate::text::decimal_text(item_span(found.0->0, data.len())),
                    );
                    let shown = crate::interpreter::interpreted(
                        found.1,
                        fixed,
                        data,
                        0,
                        crate::interpreter::Context {
                            protocol: trimmed(protocol@),
                            region: trimmed(region@),
                            dir: Some(1u8),
                            need_delete: false,
                        },
                        Seq::empty(),
                        crate::interpreter::MAX_DEPTH as nat,
                    );
                    r is Ok && models(r->Ok_0@) == item_data_fields(
                        id,
                        data,
                        found.0->0,
                        seq![shown.0],
                    ) && final(repo)@ == shown.1
                }
            }),
    {
        if item.is_empty() {
            return Err(ItemDataError::EmptyItem);
        }
        if input.is_empty() {
            return Err(ItemDataError::EmptyInput);
        }
        if protocol.is_empty() {
            return Err(ItemDataError::EmptyProtocol);
        }
        if region.is_empty() {
            return Err(ItemDataError::EmptyRegion);
        }
        let id_chars = upper_chars(&trimmed_chars(&chars_of(item)));
        let id = string_of(&id_chars);
        let input_chars = trimmed_chars(&chars_of(input));
        let protocol_text = string_of(&trimmed_chars(&chars_of(protocol)));
        let region_text = string_of(&trimmed_chars(&chars_of(region)));
        let item_bytes = match FrameFun::hex_bytes_of(&id_chars) {
            Ok(b) => b,
            Err(_) => {
                return Err(ItemDataError::ItemNotHex);
            },
        };
        let data = match FrameFun::hex_bytes_of(&input_chars) {
            Ok(b) => b,
            Err(_) => {
                return Err(ItemDataError::InputNotHex);
            },
        };
        let mut node = match repo.get_item(
            id.as_str(),
            protocol_text.as_str(),
            region_text.as_str(),
            Some(1),
        ) {
            Some(e) => e,
            None => {
                return Err(ItemDataError::NotFound);
            },
        };
        let ghost found_node = node@;
        let span = Self::item_span_of(&node, data.len());
        if span > data.len() {
            return Err(ItemDataError::TooLong);
        }
        let name = match node.get_child_text("name") {
            Some(n) => n,
            None => String::new(),
        };
        let mut span_text = String::new();
        crate::text::push_decimal(&mut span_text, span as u64);
        assert(span_text@ =~= crate::text::decimal_text(span as nat));
        node.update_value("length", span_text);
        let settings = crate::interpreter::DecodeSettings {
            protocol: protocol_text,
            region: region_text,
            dir: Some(1),
            need_delete: false,
        };
        let parts = match Self::prase_data(repo, &node, &settings, data.as_slice(), 0) {
            Ok(fields) => fields,
            Err(_) => no_fields(),
        };
        let mut result = no_fields();
        let mut identifier = String::from_str("数据标识编码：[");
        identifier.append(id.as_str());
        identifier.append("]-");
        identifier.append(name.as_str());
        crate::frame_645::push_leaf(
            &mut result,
            "数据标识编码DI",
            FrameFun::get_data_str_reverser_with_space(item_bytes.as_slice()),
            identifier,
            0,
            0,
        );
        let mut description = String::from_str("数据标识[");
        description.append(id.as_str());
        description.append("]数据内容：");
        description.append(FrameFun::get_data_str(data.as_slice(), false, true, false).as_str());
        let taken = vstd::slice::slice_subrange(data.as_slice(), 0, span);
        assert(taken@ =~= data@.take(span as int));
        crate::frame_645::push_group(
            &mut result,
            "数据标识内容",
            FrameFun::get_data_str_with_space(taken),
            description,
            0,
            0,
            parts,
        );
        assert(models(result@) =~= item_data_fields(id@, data@, found_node, models(parts@)));
        Ok(result)
    }
}

} // verus!
