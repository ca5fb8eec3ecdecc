//! The recursive field interpreter: a schema node and a window of bytes
//! become an annotated field, with one child per item that the node names.

use crate::annotated::{lemma_models_empty, lemma_models_push, models, AnnotatedField, FieldModel};
use crate::error::DecodeError;
use crate::frame_fun::{be_value, FrameFun};
use crate::frame_values::{
    bcd_decimal_text, bin_decimal_text, ip_text, plain_bytes, position_of, time_text,
    utf8_lossy_text,
};
use crate::length_rule::{
    number_from, number_of, range_target, sub_item_length, sub_item_models, ResolvedLength,
    SubItem, SubItemModel,
};
use crate::schema::{
    attribute_of, child_text, items_of, lemma_children, text_model, ElementModel, XmlElement, declared_text,
};
use crate::schema_find::{find_step, QframeConfig, Query, RepositoryModel};
use crate::text::{
    chars_of, decimal_text, hex_text, hex_text_spaced, push_decimal, same_text, string_of, trimmed,
    trimmed_chars,
};
use vstd::prelude::*;
use vstd::slice::slice_subrange;

verus! {

/// The namespace of the schema-driven interpreter.
pub struct FrameAnalisyic;

/// How deep items may name further items before the interpreter stops
/// descending and shows the bytes of an item undivided.
pub const MAX_DEPTH: u32 = 16;

/// The schema that an interpretation uses and the form of its bytes.
pub struct Context {
    pub protocol: Seq<char>,
    pub region: Seq<char>,
    pub dir: Option<u8>,
    /// Whether the bytes carry the transmission bias.
    pub need_delete: bool,
}

/// The label under which a node is shown: its `name`, or the generic label
/// of a data field where it has none.
pub open spec fn node_label(node: ElementModel) -> Seq<char> {
    match child_text(node, "name"@) {
        Some(name) => name,
        None => "数据域"@,
    }
}

/// The number of digits behind the point that a node declares in `decimal`.
pub open spec fn decimal_places(node: ElementModel) -> nat {
    match child_text(node, "decimal"@) {
        Some(t) => match number_of(trimmed(t)) {
            Some(n) => n as nat,
            None => 0,
        },
        None => 0,
    }
}

/// Whether a node declares a signed value: its `sign` is `1`.
pub open spec fn is_signed(node: ElementModel) -> bool {
    child_text(node, "sign"@) == Some("1"@)
}

/// The text of the first child named `value` from `from` on whose `key`
/// attribute is `key`; the empty text where that child has none.
pub open spec fn enum_text(children: Seq<ElementModel>, key: Seq<char>, from: int) -> Option<
    Seq<char>,
>
    decreases children.len() - from,
{
    if from < 0 || from >= children.len() {
        None
    } else if children[from].name == "value"@ && attribute_of(children[from].attributes, "key"@)
        == Some(key) {
        Some(
            match children[from].value {
                Some(t) => t,
                None => Seq::empty(),
            },
        )
    } else {
        enum_text(children, key, from + 1)
    }
}

/// An optional text from a result.
pub open spec fn ok_text<E>(r: Result<Seq<char>, E>) -> Option<Seq<char>> {
    match r {
        Ok(t) => Some(t),
        Err(_) => None,
    }
}

/// The meaning of a window of bytes under the value kind that the node
/// declares in `type`, or `None` where the bytes are malformed for that
/// kind. `BCD` is a packed decimal number, `BIN` a binary number, both least
/// significant byte first, with `decimal` digits behind the point and a sign
/// bit where `sign` is `1`. `HEX` shows the bytes in hexadecimal, last byte
/// first. `ASCII` is text up to the first zero byte. `IP` is four bytes, the
/// last first. `PORT` is two bytes, the most significant first. `ENUM` is
/// looked up by the exact pattern, in hexadecimal with the last byte first,
/// among the `value` children. `TIME` follows the layout in `format`. Any
/// other kind, or none, has no meaning to show.
pub open spec fn decoded(node: ElementModel, window: Seq<u8>, need_delete: bool) -> Option<
    Seq<char>,
> {
    let plain = plain_bytes(window, need_delete);
    match child_text(node, "type"@) {
        None => Some(Seq::empty()),
        Some(kind) => if kind == "BCD"@ {
            ok_text(bcd_decimal_text(window, decimal_places(node), need_delete, is_signed(node)))
        } else if kind == "BIN"@ {
            ok_text(
                bin_decimal_text(window, decimal_places(node), need_delete, is_signed(node), false),
            )
        } else if kind == "HEX"@ {
            Some(hex_text(plain.reverse()))
        } else if kind == "ASCII"@ {
            Some(utf8_lossy_text(plain.take(position_of(plain, 0) as int)))
        } else if kind == "IP"@ {
            if window.len() == 4 {
                Some(ip_text(plain))
            } else {
                None
            }
        } else if kind == "PORT"@ {
            if window.len() == 2 {
                Some(decimal_text(be_value(plain)))
            } else {
                None
            }
        } else if kind == "ENUM"@ {
            enum_text(node.children, hex_text(plain.reverse()), 0)
        } else if kind == "TIME"@ {
            match child_text(node, "format"@) {
                Some(layout) => time_text(plain, layout, 8),
                None => None,
            }
        } else {
            Some(Seq::empty())
        },
    }
}

/// The colour that marks a field that could not be decoded as declared.
pub open spec fn error_mark() -> Seq<char> {
    "red"@
}

/// The highlight of a field: the error mark where something went wrong.
pub open spec fn mark_if(failed: bool) -> Option<Seq<char>> {
    if failed {
        Some(error_mark())
    } else {
        None
    }
}

/// The field of a window that is shown undivided: its meaning under the
/// declared value kind or, where the bytes are malformed for it, the bytes
/// in hexadecimal and the error mark.
pub open spec fn leaf_field(
    node: ElementModel,
    window: Seq<u8>,
    base: int,
    need_delete: bool,
    failed: bool,
) -> FieldModel {
    let meaning = decoded(node, window, need_delete);
    FieldModel {
        label: node_label(node),
        raw_hex: hex_text_spaced(window),
        description: match meaning {
            Some(t) => t,
            None => hex_text(plain_bytes(window, need_delete).reverse()),
        },
        start: base,
        end: base + window.len(),
        children: Seq::empty(),
        highlight: mark_if(failed || meaning is None),
    }
}

/// The length that a node declares for itself, `length` and `lengthrule`
/// each being a child with that text or an attribute. A number in `length`
/// is taken as it is. Any other `length`, such as `UNKNOWN`, and a node with a
/// `lengthrule` but no `length`, are computed by the rule. A node with
/// neither takes all of its window.
pub open spec fn declared_length(
    node: ElementModel,
    window: Seq<u8>,
    siblings: Seq<SubItemModel>,
) -> ResolvedLength {
    let rule = declared_text(node, "lengthrule"@);
    let by_rule = sub_item_length(
        rule,
        match rule {
            Some(text) => range_target(text),
            None => None,
        },
        siblings,
        window,
    );
    match declared_text(node, "length"@) {
        Some(text) => match number_of(trimmed(text)) {
            Some(n) => ResolvedLength { length: n, resolved: true },
            None => by_rule,
        },
        None => if rule is Some {
            by_rule
        } else if window.len() <= u32::MAX {
            ResolvedLength { length: window.len() as u32, resolved: true }
        } else {
            ResolvedLength { length: 0, resolved: false }
        },
    }
}

/// The number of bytes of its window that a node takes: its declared
/// length; nothing where that cannot be resolved; all of the window where
/// it declares more than the window holds.
pub open spec fn taken(declared: ResolvedLength, window: Seq<u8>) -> int {
    if !declared.resolved {
        0
    } else if declared.length <= window.len() {
        declared.length as int
    } else {
        window.len() as int
    }
}

/// Whether a node could not take what it declares.
pub open spec fn length_failed(declared: ResolvedLength, window: Seq<u8>) -> bool {
    !declared.resolved || declared.length > window.len()
}

/// A length as the 32-bit number under which later rules see it.
pub open spec fn rule_number(n: int) -> u32 {
    if n > u32::MAX {
        u32::MAX
    } else if n < 0 {
        0
    } else {
        n as u32
    }
}

/// What later rules know of a field that was resolved: its label, its
/// meaning, its length and where it starts, counted from `base`, the start
/// of the item that holds it.
pub open spec fn sibling_of(f: FieldModel, base: int) -> SubItemModel {
    SubItemModel {
        name: f.label,
        content: f.description,
        value: rule_number(f.end - f.start),
        indices: seq![(f.start - base) as usize],
    }
}

/// The field of an item that the schema does not know: labelled with the
/// identifier, its bytes in hexadecimal.
pub open spec fn unknown_field(id: Seq<char>, window: Seq<u8>, base: int, need_delete: bool) -> FieldModel {
    FieldModel {
        label: id,
        raw_hex: hex_text_spaced(window),
        description: hex_text(plain_bytes(window, need_delete).reverse()),
        start: base,
        end: base + window.len(),
        children: Seq::empty(),
        highlight: None,
    }
}

/// The identifier that an `item` child names.
pub open spec fn item_id(item: ElementModel) -> Seq<char> {
    match item.value {
        Some(t) => trimmed(t),
        None => Seq::empty(),
    }
}

/// The field of a node over a window that starts at `base`, and the
/// repository after the lookups made. A node that names items is shown with
/// one child per item; descent stops when `fuel` is used up.
pub open spec fn interpreted(
    s: RepositoryModel,
    node: ElementModel,
    window: Seq<u8>,
    base: int,
    ctx: Context,
    siblings: Seq<SubItemModel>,
    fuel: nat,
) -> (FieldModel, RepositoryModel)
    decreases fuel, 0nat, 0nat,
{
    let declared = declared_length(node, window, siblings);
    let span = taken(declared, window);
    let own = window.take(span);
    let failed = length_failed(declared, window);
    let items = items_of(node, "item"@);
    if items.len() == 0 || fuel == 0 {
        (leaf_field(node, own, base, ctx.need_delete, failed), s)
    } else {
        let below = interpreted_items(
            s,
            items,
            0,
            own,
            0,
            base,
            ctx,
            Seq::empty(),
            (fuel - 1) as nat,
        );
        (
            FieldModel {
                label: node_label(node),
                raw_hex: hex_text_spaced(own),
                description: Seq::empty(),
                start: base,
                end: base + span,
                children: below.0,
                highlight: mark_if(failed),
            },
            below.1,
        )
    }
}

/// The fields of the items from `k` on over what is left of a window behind
/// `cursor`, and the repository after the lookups made. Each item takes its
/// bytes where the one before it ended. An item that the schema does not
/// know takes all that is left and ends the list.
pub open spec fn interpreted_items(
    s: RepositoryModel,
    items: Seq<ElementModel>,
    k: int,
    own: Seq<u8>,
    cursor: int,
    base: int,
    ctx: Context,
    siblings: Seq<SubItemModel>,
    fuel: nat,
) -> (Seq<FieldModel>, RepositoryModel)
    decreases fuel, 1nat, items.len() - k,
{
    if k < 0 || k >= items.len() || cursor < 0 || cursor > own.len() {
        (Seq::empty(), s)
    } else {
        let id = item_id(items[k]);
        let found = find_step(
            s,
            Query { id, protocol: ctx.protocol, region: ctx.region, dir: ctx.dir },
        );
        let rest = own.skip(cursor);
        match found.0 {
            None => (seq![unknown_field(id, rest, base + cursor, ctx.need_delete)], found.1),
            Some(sub) => {
                let first = interpreted(found.1, sub, rest, base + cursor, ctx, siblings, fuel);
                let more = interpreted_items(
                    first.1,
                    items,
                    k + 1,
                    own,
                    cursor + (first.0.end - first.0.start),
                    base,
                    ctx,
                    siblings.push(sibling_of(first.0, base)),
                    fuel,
                );
                (seq![first.0] + more.0, more.1)
            },
        }
    }
}

/// The schema that an interpretation uses and the form of its bytes.
pub struct DecodeSettings {
    pub protocol: String,
    pub region: String,
    pub dir: Option<u8>,
    /// Whether the bytes carry the transmission bias.
    pub need_delete: bool,
}

impl View for DecodeSettings {
    type V = Context;

    open spec fn view(&self) -> Context {
        Context {
            protocol: self.protocol@,
            region: self.region@,
            dir: self.dir,
            need_delete: self.need_delete,
        }
    }
}

/// The value of two bytes, the most significant first.
pub proof fn lemma_be_value_two(s: Seq<u8>)
    requires
        s.len() == 2,
    ensures
        be_value(s) == s[0] as nat * 256 + s[1] as nat,
{
    assert(s.drop_last().drop_last() =~= Seq::<u8>::empty());
    assert(s.drop_last().last() == s[0]);
    reveal_with_fuel(be_value, 3);
}

/// The models of two lists of fields, one behind the other.
pub proof fn lemma_models_concat(a: Seq<AnnotatedField>, b: Seq<AnnotatedField>)
    ensures
        models(a + b) == models(a) + models(b),
{
    assert(models(a + b) =~= models(a) + models(b));
}

/// A copy of a list of resolved items.
pub fn duplicate_siblings(items: &Vec<SubItem>) -> (copy: Vec<SubItem>)
    ensures
        sub_item_models(copy@) == sub_item_models(items@),
{
    let mut copy: Vec<SubItem> = Vec::new();
    let mut i: usize = 0;
    while i < items.len()
        invariant
            i <= items.len(),
            copy@.len() == i,
            forall|j: int| 0 <= j < i ==> copy@[j]@ == items@[j]@,
        decreases items.len() - i,
    {
        copy.push(crate::length_rule::duplicate_sub_item(&items[i]));
        i += 1;
    }
    assert(sub_item_models(copy@) =~= sub_item_models(items@));
    copy
}

impl FrameAnalisyic {
    /// The label under which a node is shown; see [`node_label`].
    pub fn label_of(node: &XmlElement) -> (label: String)
        ensures
            label@ == node_label(node@),
    {
        match node.get_child_text("name") {
            Some(name) => name,
            None => String::from_str("数据域"),
        }
    }

    /// The number that a child of a node writes, or 0.
    pub fn places_of(node: &XmlElement) -> (places: usize)
        ensures
            places == decimal_places(node@),
    {
        match node.get_child_text("decimal") {
            Some(t) => match number_from(&trimmed_chars(&chars_of(t.as_str()))) {
                Some(n) => n as usize,
                None => 0,
            },
            None => 0,
        }
    }

    /// Whether a node declares a signed value.
    pub fn signed(node: &XmlElement) -> (r: bool)
        ensures
            r == is_signed(node@),
    {
        match node.get_child_text("sign") {
            Some(t) => same_text(t.as_str(), "1"),
            None => false,
        }
    }

    /// The meaning that the `value` children of a node give to a pattern;
    /// see [`enum_text`].
    pub fn enum_lookup(node: &XmlElement, key: &str) -> (r: Option<String>)
        ensures
            text_model(r) == enum_text(node@.children, key@, 0),
    {
        proof {
            lemma_children(*node);
        }
        let ghost kids = node@.children;
        let mut i: usize = 0;
        while i < node.children.len()
            invariant
                i <= node.children.len(),
                kids == node@.children,
                kids.len() == node.children@.len(),
                forall|j: int| 0 <= j < node.children@.len() ==> #[trigger] kids[j]
                    == node.children@[j]@,
                enum_text(kids, key@, 0) == enum_text(kids, key@, i as int),
            decreases node.children.len() - i,
        {
            let child = &node.children[i];
            if same_text(child.name.as_str(), "value") {
                let hit = match child.get_attribute("key") {
                    Some(k) => same_text(k.as_str(), key),
                    None => false,
                };
                if hit {
                    return match &child.value {
                        Some(t) => Some(t.clone()),
                        None => Some(String::new()),
                    };
                }
            }
            i += 1;
        }
        None
    }

    /// The meaning of a window of bytes under the value kind that the node
    /// declares; see [`decoded`].
    pub fn decode_value(node: &XmlElement, window: &[u8], need_delete: bool) -> (r: Option<String>)
        ensures
            text_model(r) == decoded(node@, window@, need_delete),
    {
        let kind = match node.get_child_text("type") {
            Some(k) => k,
            None => {
                return Some(String::new());
            },
        };
        let plain = if need_delete {
            FrameFun::frame_delete_33h(window)
        } else {
            FrameFun::copy_bytes(window)
        };
        if same_text(kind.as_str(), "BCD") {
            match FrameFun::bcd_to_decimal(
                window,
                Self::places_of(node),
                need_delete,
                Self::signed(node),
            ) {
                Ok(t) => Some(t),
                Err(_) => None,
            }
        } else if same_text(kind.as_str(), "BIN") {
            match FrameFun::bin_to_decimal(
                window,
                Self::places_of(node),
                need_delete,
                Self::signed(node),
                false,
            ) {
                Ok(t) => Some(t),
                Err(_) => None,
            }
        } else if same_text(kind.as_str(), "HEX") {
            Some(FrameFun::get_data_str_reverser(plain.as_slice()))
        } else if same_text(kind.as_str(), "ASCII") {
            Some(FrameFun::ascii_to_str(plain.as_slice()))
        } else if same_text(kind.as_str(), "IP") {
            if window.len() == 4 {
                Some(FrameFun::parse_ip_str(plain.as_slice()))
            } else {
                None
            }
        } else if same_text(kind.as_str(), "PORT") {
            if window.len() == 2 {
                proof {
                    lemma_be_value_two(plain@);
                }
                let value: u64 = plain[0] as u64 * 256 + plain[1] as u64;
                let mut out = String::new();
                push_decimal(&mut out, value);
                assert(out@ =~= decimal_text(value as nat));
                Some(out)
            } else {
                None
            }
        } else if same_text(kind.as_str(), "ENUM") {
            let key = FrameFun::get_data_str_reverser(plain.as_slice());
            Self::enum_lookup(node, key.as_str())
        } else if same_text(kind.as_str(), "TIME") {
            match node.get_child_text("format") {
                Some(layout) => match FrameFun::parse_time_data(
                    window,
                    layout.as_str(),
                    need_delete,
                ) {
                    Ok(t) => Some(t),
                    Err(_) => None,
                },
                None => None,
            }
        } else {
            Some(String::new())
        }
    }

    /// The highlight of a field; see [`mark_if`].
    pub fn mark(failed: bool) -> (r: Option<String>)
        ensures
            text_model(r) == mark_if(failed),
    {
        if failed {
            Some(String::from_str("red"))
        } else {
            None
        }
    }

    /// The field of a window that is shown undivided; see [`leaf_field`].
    pub(crate) fn leaf(node: &XmlElement, window: &[u8], base: usize, need_delete: bool, failed: bool) -> (f:
        AnnotatedField)
        requires
            base + window@.len() <= usize::MAX,
        ensures
            f@ == leaf_field(node@, window@, base as int, need_delete, failed),
    {
        let meaning = Self::decode_value(node, window, need_delete);
        let unreadable = meaning.is_none();
        let description = match meaning {
            Some(t) => t,
            None => FrameFun::get_data_normal_reverser(window, need_delete, true),
        };
        proof {
            lemma_models_empty();
        }
        AnnotatedField::new(
            Self::label_of(node),
            FrameFun::get_data_str_with_space(window),
            description,
            base,
            base + window.len(),
            Vec::new(),
            Self::mark(failed || unreadable),
        )
    }

    /// The length that a node declares for itself; see
    /// [`declared_length`].
    pub fn caculate_item_length(node: &XmlElement, window: &[u8], siblings: &Vec<SubItem>) -> (r:
        ResolvedLength)
        ensures
            r == declared_length(node@, window@, sub_item_models(siblings@)),
    {
        let has_rule = node.get_declared("lengthrule").is_some();
        match node.get_declared("length") {
            Some(text) => match number_from(&trimmed_chars(&chars_of(text.as_str()))) {
                Some(n) => ResolvedLength { length: n, resolved: true },
                None => FrameFun::get_subitem_length(node, siblings, "", window, ""),
            },
            None => if has_rule {
                FrameFun::get_subitem_length(node, siblings, "", window, "")
            } else if window.len() <= 0xFFFF_FFFF {
                ResolvedLength { length: window.len() as u32, resolved: true }
            } else {
                ResolvedLength { length: 0, resolved: false }
            },
        }
    }

    /// The identifier that an `item` child names.
    pub fn item_id_of(item: &XmlElement) -> (id: String)
        ensures
            id@ == item_id(item@),
    {
        match &item.value {
            Some(t) => string_of(&trimmed_chars(&chars_of(t.as_str()))),
            None => String::new(),
        }
    }

    /// What later rules know of a field; see [`sibling_of`].
    pub(crate) fn sibling(f: &AnnotatedField, base: usize) -> (item: SubItem)
        requires
            base <= f.start <= f.end,
        ensures
            item@ == sibling_of(f@, base as int),
    {
        let span = f.end - f.start;
        let mut indices: Vec<usize> = Vec::new();
        indices.push(f.start - base);
        assert(indices@ =~= seq![(f.start - base) as usize]);
        SubItem {
            name: f.label.clone(),
            content: f.description.clone(),
            value: if span > 0xFFFF_FFFF {
                0xFFFF_FFFF
            } else {
                span as u32
            },
            indices,
        }
    }

    /// The field of a node over a window that starts at `base`; see
    /// [`interpreted`]. The lookups of the items that the node names go
    /// through the repository, which remembers them.
    pub(crate) fn interpret(
        repo: &mut QframeConfig,
        node: &XmlElement,
        window: &[u8],
        base: usize,
        settings: &DecodeSettings,
        siblings: &Vec<SubItem>,
        fuel: u32,
    ) -> (f: AnnotatedField)
        requires
            base + window@.len() <= usize::MAX,
        ensures
            f@ == interpreted(
                old(repo)@,
                node@,
                window@,
                base as int,
                settings@,
                sub_item_models(siblings@),
                fuel as nat,
            ).0,
            final(repo)@ == interpreted(
                old(repo)@,
                node@,
                window@,
                base as int,
                settings@,
                sub_item_models(siblings@),
                fuel as nat,
            ).1,
            final(repo).config_path == old(repo).config_path,
            f.start == base,
            base <= f.end <= base + window@.len(),
        decreases fuel, 0nat, 0nat,
    {
        let declared = Self::caculate_item_length(node, window, siblings);
        let failed = !declared.resolved || declared.length as usize > window.len();
        let span: usize = if !declared.resolved {
            0
        } else if declared.length as usize <= window.len() {
            declared.length as usize
        } else {
            window.len()
        };
        let own = slice_subrange(window, 0, span);
        assert(own@ =~= window@.take(span as int));
        let items = node.get_items("item");
        if items.len() == 0 || fuel == 0 {
            return Self::leaf(node, own, base, settings.need_delete, failed);
        }
        let no_siblings: Vec<SubItem> = Vec::new();
        assert(sub_item_models(no_siblings@) =~= Seq::<SubItemModel>::empty());
        let children = Self::interpret_items(
            repo,
            &items,
            0,
            own,
            0,
            base,
            settings,
            &no_siblings,
            fuel - 1,
        );
        AnnotatedField::new(
            Self::label_of(node),
            FrameFun::get_data_str_with_space(own),
            String::new(),
            base,
            base + span,
            children,
            Self::mark(failed),
        )
    }

    /// The fields of the items from `k` on over what is left of a window
    /// behind `cursor`; see [`interpreted_items`].
    pub(crate) fn interpret_items(
        repo: &mut QframeConfig,
        items: &Vec<XmlElement>,
        k: usize,
        own: &[u8],
        cursor: usize,
        base: usize,
        settings: &DecodeSettings,
        siblings: &Vec<SubItem>,
        fuel: u32,
    ) -> (fields: Vec<AnnotatedField>)
        requires
            base + own@.len() <= usize::MAX,
            cursor <= own@.len(),
        ensures
            models(fields@) == interpreted_items(
                old(repo)@,
                crate::schema::element_models(items@),
                k as int,
                own@,
                cursor as int,
                base as int,
                settings@,
                sub_item_models(siblings@),
                fuel as nat,
            ).0,
            final(repo)@ == interpreted_items(
                old(repo)@,
                crate::schema::element_models(items@),
                k as int,
                own@,
                cursor as int,
                base as int,
                settings@,
                sub_item_models(siblings@),
                fuel as nat,
            ).1,
            final(repo).config_path == old(repo).config_path,
        decreases fuel, 1nat, items@.len() - k,
    {
        let mut fields: Vec<AnnotatedField> = Vec::new();
        proof {
            lemma_models_empty();
        }
        if k >= items.len() {
            return fields;
        }
        let id = Self::item_id_of(&items[k]);
        let found = repo.get_item(
            id.as_str(),
            settings.protocol.as_str(),
            settings.region.as_str(),
            settings.dir,
        );
        let rest = slice_subrange(own, cursor, own.len());
        assert(rest@ =~= own@.skip(cursor as int));
        match found {
            None => {
                let f = AnnotatedField::new(
                    id,
                    FrameFun::get_data_str_with_space(rest),
                    FrameFun::get_data_normal_reverser(rest, settings.need_delete, true),
                    base + cursor,
                    base + cursor + rest.len(),
                    Vec::new(),
                    None,
                );
                proof {
                    lemma_models_push(fields@, f);
                    assert(models(fields@.push(f)) =~= seq![f@]);
                }
                fields.push(f);
                fields
            },
            Some(sub) => {
                let first = Self::interpret(repo, &sub, rest, base + cursor, settings, siblings, fuel);
                let mut known = duplicate_siblings(siblings);
                let entry = Self::sibling(&first, base);
                let ghost before = sub_item_models(known@);
                known.push(entry);
                assert(sub_item_models(known@) =~= before.push(entry@));
                let span = first.end - first.start;
                let ghost head = first@;
                proof {
                    lemma_models_push(fields@, first);
                }
                fields.push(first);
                let mut more = Self::interpret_items(
                    repo,
                    items,
                    k + 1,
                    own,
                    cursor + span,
                    base,
                    settings,
                    &known,
                    fuel,
                );
                proof {
                    lemma_models_concat(fields@, more@);
                    assert(models(fields@) =~= seq![head]);
                }
                fields.append(&mut more);
                fields
            },
        }
    }

    /// The fields that an item shows for its data: the item itself over the
    /// segment that starts at `index`, with one child per item that it
    /// names; see [`interpreted`]. A segment that would end beyond the
    /// largest index is `OutOfRange`.
    pub fn prase_data(
        repo: &mut QframeConfig,
        data_item_elem: &XmlElement,
        settings: &DecodeSettings,
        data_segment: &[u8],
        index: usize,
    ) -> (r: Result<Vec<AnnotatedField>, DecodeError>)
        ensures
            index + data_segment@.len() > usize::MAX ==> r == Err::<
                Vec<AnnotatedField>,
                DecodeError,
            >(DecodeError::OutOfRange) && *final(repo) == *old(repo),
            index + data_segment@.len() <= usize::MAX ==> r is Ok && models(r->Ok_0@) == seq![
                interpreted(
                    old(repo)@,
                    data_item_elem@,
                    data_segment@,
                    index as int,
                    settings@,
                    Seq::empty(),
                    MAX_DEPTH as nat,
                ).0,
            ] && final(repo)@ == interpreted(
                old(repo)@,
                data_item_elem@,
                data_segment@,
                index as int,
                settings@,
                Seq::empty(),
                MAX_DEPTH as nat,
            ).1,
            final(repo).config_path == old(repo).config_path,
    {
        if index > usize::MAX - data_segment.len() {
            return Err(DecodeError::OutOfRange);
        }
        let no_siblings: Vec<SubItem> = Vec::new();
        assert(sub_item_models(no_siblings@) =~= Seq::<SubItemModel>::empty());
        let f = Self::interpret(
            repo,
            data_item_elem,
            data_segment,
            index,
            settings,
            &no_siblings,
            MAX_DEPTH,
        );
        let mut fields: Vec<AnnotatedField> = Vec::new();
        proof {
            lemma_models_empty();
            lemma_models_push(fields@, f);
            assert(models(fields@).push(f@) =~= seq![f@]);
        }
        fields.push(f);
        Ok(fields)
    }
}

} // verus!
