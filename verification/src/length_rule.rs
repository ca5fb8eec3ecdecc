//! Length rules: how long an item is where its schema gives no number but
//! an expression over the items resolved before it.

use crate::schema::{declared_text, XmlElement};
use crate::schema_find::{dir_value, QframeConfig};
use crate::text::{
    all_digits, chars_of, decimal_value, parse_decimal, same_text, string_of, sub_chars, trimmed,
    trimmed_chars,
};
use regex::Regex;
use vstd::prelude::*;

verus! {

/// The pattern of a rule that scans for a terminator: `RANGE(name)`.
pub const RANGE_PATTERN: &'static str = "^RANGE\\(([^)]+)\\)$";

/// The name in a rule of the form `RANGE(name)`: what stands between
/// `RANGE(` at the start of the text and a closing bracket at its end, where
/// that is at least one character and holds no closing bracket.
pub open spec fn range_target(text: Seq<char>) -> Option<Seq<char>> {
    let inner = text.subrange(6, text.len() - 1);
    if text.len() >= 8 && text.take(6) == seq!['R', 'A', 'N', 'G', 'E', '('] && text.last() == ')'
        && !inner.contains(')') {
        Some(inner)
    } else {
        None
    }
}

/// `Regex::new`, `Regex::captures` and `Captures::get(1)` of the `regex`
/// crate: the text of the first capture group in the match of the pattern.
/// Stated for [`RANGE_PATTERN`] alone, which is anchored at both ends of the
/// text: it matches `RANGE(`, one character or more of which none is a
/// closing bracket, and `)`, and the group is what stands between the
/// brackets.
#[verifier::external_body]
fn first_group(pattern: &str, text: &str) -> (r: Option<String>)
    ensures
        pattern@ == RANGE_PATTERN@ ==> (match r {
            Some(group) => Some(group@),
            None => None,
        }) == range_target(text@),
{
    Regex::new(pattern).ok()?.captures(text)?.get(1).map(|m| m.as_str().to_string())
}

/// An item that was resolved before the one at hand: its name, its content
/// as text, its length, and the positions at which it was found.
pub struct SubItem {
    pub name: String,
    pub content: String,
    pub value: u32,
    pub indices: Vec<usize>,
}

/// What a [`SubItem`] holds, as mathematical values.
pub struct SubItemModel {
    pub name: Seq<char>,
    pub content: Seq<char>,
    pub value: u32,
    pub indices: Seq<usize>,
}

impl View for SubItem {
    type V = SubItemModel;

    open spec fn view(&self) -> SubItemModel {
        SubItemModel {
            name: self.name@,
            content: self.content@,
            value: self.value,
            indices: self.indices@,
        }
    }
}

/// The models of a list of resolved items.
pub open spec fn sub_item_models(items: Seq<SubItem>) -> Seq<SubItemModel> {
    Seq::new(items.len(), |i: int| items[i]@)
}

/// The index of the first item from `from` on that is named `name`.
pub open spec fn first_sub_item(items: Seq<SubItemModel>, name: Seq<char>, from: int) -> Option<
    int,
>
    decreases items.len() - from,
{
    if from < 0 || from >= items.len() {
        None
    } else if items[from].name == name {
        Some(from)
    } else {
        first_sub_item(items, name, from + 1)
    }
}

/// The operators of an arithmetic rule.
#[derive(Debug, Clone, Copy, PartialEq, Eq, Structural)]
pub enum Operator {
    Add,
    Sub,
    Mul,
    Div,
}

/// The right side of an arithmetic rule.
pub enum Operand {
    Number(u32),
    Name(String),
}

/// A length rule.
pub enum LengthRule {
    /// A fixed number of bytes.
    Literal(u32),
    /// Up to the byte that the named item gives as terminator.
    RangeUntil(String),
    /// A number combined with a number or with the length of a named item.
    Arithmetic(u32, Operator, Operand),
}

/// What an [`Operand`] holds, as mathematical values.
pub enum OperandModel {
    Number(u32),
    Name(Seq<char>),
}

/// What a [`LengthRule`] holds, as mathematical values.
pub enum RuleModel {
    Literal(u32),
    RangeUntil(Seq<char>),
    Arithmetic(u32, Operator, OperandModel),
}

impl View for Operand {
    type V = OperandModel;

    open spec fn view(&self) -> OperandModel {
        match self {
            Operand::Number(n) => OperandModel::Number(*n),
            Operand::Name(s) => OperandModel::Name(s@),
        }
    }
}

impl View for LengthRule {
    type V = RuleModel;

    open spec fn view(&self) -> RuleModel {
        match self {
            LengthRule::Literal(n) => RuleModel::Literal(*n),
            LengthRule::RangeUntil(s) => RuleModel::RangeUntil(s@),
            LengthRule::Arithmetic(a, op, b) => RuleModel::Arithmetic(*a, *op, b@),
        }
    }
}

/// The model of an optional rule.
pub open spec fn rule_model(r: Option<LengthRule>) -> Option<RuleModel> {
    match r {
        Some(rule) => Some(rule@),
        None => None,
    }
}

/// The operator that a character stands for.
pub open spec fn operator_of(c: char) -> Option<Operator> {
    if c == '+' {
        Some(Operator::Add)
    } else if c == '-' {
        Some(Operator::Sub)
    } else if c == '*' {
        Some(Operator::Mul)
    } else if c == '/' {
        Some(Operator::Div)
    } else {
        None
    }
}

/// The index of the first operator character of `s` at or behind `from`.
pub open spec fn first_operator(s: Seq<char>, from: int) -> Option<int>
    decreases s.len() - from,
{
    if from < 0 || from >= s.len() {
        None
    } else if operator_of(s[from]) is Some {
        Some(from)
    } else {
        first_operator(s, from + 1)
    }
}

/// The number that a text of decimal digits writes, where it fits 32 bits.
pub open spec fn number_of(s: Seq<char>) -> Option<u32> {
    if s.len() > 0 && all_digits(s) && decimal_value(s) <= u32::MAX {
        Some(decimal_value(s) as u32)
    } else {
        None
    }
}

/// The rule that a text without the `RANGE` form writes. With an operator
/// behind its first character it is arithmetic: a number on the left, a
/// number or a name on the right, white space around them set aside.
/// Without one it is a literal number. Anything else is no rule.
pub open spec fn plain_rule_of(text: Seq<char>) -> Option<RuleModel> {
    let t = trimmed(text);
    match first_operator(t, 1) {
        Some(k) => {
            let left = trimmed(t.subrange(0, k));
            let right = trimmed(t.subrange(k + 1, t.len() as int));
            match number_of(left) {
                Some(a) => if right.len() == 0 {
                    None
                } else {
                    Some(
                        RuleModel::Arithmetic(
                            a,
                            operator_of(t[k])->0,
                            match number_of(right) {
                                Some(b) => OperandModel::Number(b),
                                None => OperandModel::Name(right),
                            },
                        ),
                    )
                },
                None => None,
            }
        },
        None => match number_of(t) {
            Some(n) => Some(RuleModel::Literal(n)),
            None => None,
        },
    }
}

/// The rule that a text writes, given what the `RANGE` pattern captured in
/// it: the scan for the named item's terminator where it captured a name,
/// else what the text writes otherwise.
pub open spec fn rule_of(text: Seq<char>, range_name: Option<Seq<char>>) -> Option<RuleModel> {
    match range_name {
        Some(name) => Some(RuleModel::RangeUntil(name)),
        None => plain_rule_of(text),
    }
}

/// The first of the positions of an item, or 0 where it has none.
pub open spec fn first_position(item: SubItemModel) -> int {
    if item.indices.len() > 0 {
        item.indices[0] as int
    } else {
        0
    }
}

/// The distance from `start` to the first byte at or behind it that equals
/// `target`.
pub open spec fn scan_distance(data: Seq<u8>, start: int, target: u8, at: int) -> Option<int>
    decreases data.len() - at,
{
    if at < start || start < 0 || at >= data.len() {
        None
    } else if data[at] == target {
        Some(at - start)
    } else {
        scan_distance(data, start, target, at + 1)
    }
}

/// A length and whether it could be resolved; a length that could not is 0.
#[derive(Debug, Clone, Copy, PartialEq, Eq, Structural)]
pub struct ResolvedLength {
    pub length: u32,
    pub resolved: bool,
}

/// The length that could not be resolved.
pub open spec fn unresolved() -> ResolvedLength {
    ResolvedLength { length: 0, resolved: false }
}

/// A length that was resolved.
pub open spec fn resolved_as(n: int) -> ResolvedLength {
    if 0 <= n <= u32::MAX {
        ResolvedLength { length: n as u32, resolved: true }
    } else {
        unresolved()
    }
}

/// The length that a scan for the terminator of the named item gives. The
/// terminator is the content of the item as a number from 0 to 255. The scan
/// starts as many bytes into the data as the item lies behind the item
/// before it, or one byte in where that is nothing; its result is the
/// distance from there to the terminator.
pub open spec fn range_length(name: Seq<char>, siblings: Seq<SubItemModel>, data: Seq<u8>) -> ResolvedLength {
    match first_sub_item(siblings, name, 0) {
        None => unresolved(),
        Some(idx) => {
            let before = if idx >= 1 {
                first_position(siblings[idx - 1])
            } else {
                0
            };
            let here = first_position(siblings[idx]);
            let start = if here > before {
                here - before
            } else {
                1
            };
            match scan_distance(data, start, dir_value(siblings[idx].content) as u8, start) {
                Some(d) => resolved_as(d),
                None => unresolved(),
            }
        },
    }
}

/// The value of the right side of an arithmetic rule: the number, or the
/// length of the named item where there is one.
pub open spec fn operand_value(operand: OperandModel, siblings: Seq<SubItemModel>) -> Option<u32> {
    match operand {
        OperandModel::Number(n) => Some(n),
        OperandModel::Name(name) => match first_sub_item(siblings, name, 0) {
            Some(idx) => Some(siblings[idx].value),
            None => None,
        },
    }
}

/// What an arithmetic rule computes; a difference below zero, a division by
/// zero and a result beyond 32 bits are not resolved.
pub open spec fn arithmetic_length(a: u32, op: Operator, b: u32) -> ResolvedLength {
    match op {
        Operator::Add => resolved_as(a + b),
        Operator::Sub => resolved_as(a - b),
        Operator::Mul => resolved_as(a * b),
        Operator::Div => if b == 0 {
            unresolved()
        } else {
            resolved_as(a as int / b as int)
        },
    }
}

/// The length that a rule gives for the data at hand and the items
/// resolved before.
pub open spec fn evaluated(rule: RuleModel, siblings: Seq<SubItemModel>, data: Seq<u8>) -> ResolvedLength {
    match rule {
        RuleModel::Literal(n) => resolved_as(n as int),
        RuleModel::RangeUntil(name) => range_length(name, siblings, data),
        RuleModel::Arithmetic(a, op, operand) => match operand_value(operand, siblings) {
            Some(b) => arithmetic_length(a, op, b),
            None => unresolved(),
        },
    }
}

/// The length that the `lengthrule` of a schema node gives, given
/// what the `RANGE` pattern captured in it; not resolved where the node has
/// no such attribute or the attribute writes no rule.
pub open spec fn sub_item_length(
    rule_text: Option<Seq<char>>,
    range_name: Option<Seq<char>>,
    siblings: Seq<SubItemModel>,
    data: Seq<u8>,
) -> ResolvedLength {
    match rule_text {
        None => unresolved(),
        Some(text) => match rule_of(text, range_name) {
            Some(rule) => evaluated(rule, siblings, data),
            None => unresolved(),
        },
    }
}

pub proof fn lemma_first_sub_item_skip(items: Seq<SubItemModel>, name: Seq<char>, from: int, to: int)
    requires
        0 <= from <= to <= items.len(),
        forall|j: int| from <= j < to ==> (#[trigger] items[j]).name != name,
    ensures
        first_sub_item(items, name, from) == first_sub_item(items, name, to),
    decreases to - from,
{
    if from < to {
        lemma_first_sub_item_skip(items, name, from + 1, to);
    }
}

pub proof fn lemma_first_operator_skip(s: Seq<char>, from: int, to: int)
    requires
        0 <= from <= to <= s.len(),
        forall|j: int| from <= j < to ==> operator_of(#[trigger] s[j]) is None,
    ensures
        first_operator(s, from) == first_operator(s, to),
    decreases to - from,
{
    if from < to {
        lemma_first_operator_skip(s, from + 1, to);
    }
}

pub proof fn lemma_scan_skip(data: Seq<u8>, start: int, target: u8, from: int, to: int)
    requires
        0 <= start <= from <= to <= data.len(),
        forall|j: int| from <= j < to ==> #[trigger] data[j] != target,
    ensures
        scan_distance(data, start, target, from) == scan_distance(data, start, target, to),
    decreases to - from,
{
    if from < to {
        lemma_scan_skip(data, start, target, from + 1, to);
    }
}

/// A copy of a resolved item.
pub fn duplicate_sub_item(item: &SubItem) -> (copy: SubItem)
    ensures
        copy@ == item@,
{
    let mut indices: Vec<usize> = Vec::new();
    let mut i: usize = 0;
    while i < item.indices.len()
        invariant
            i <= item.indices.len(),
            indices@ == item.indices@.take(i as int),
        decreases item.indices.len() - i,
    {
        indices.push(item.indices[i]);
        assert(indices@ =~= item.indices@.take(i + 1));
        i += 1;
    }
    assert(item.indices@.take(i as int) =~= item.indices@);
    SubItem { name: item.name.clone(), content: item.content.clone(), value: item.value, indices }
}

/// The operator that a character stands for.
pub fn operator_for(c: char) -> (r: Option<Operator>)
    ensures
        r == operator_of(c),
{
    if c == '+' {
        Some(Operator::Add)
    } else if c == '-' {
        Some(Operator::Sub)
    } else if c == '*' {
        Some(Operator::Mul)
    } else if c == '/' {
        Some(Operator::Div)
    } else {
        None
    }
}

/// The number that a text of decimal digits writes, where it fits 32 bits.
pub fn number_from(s: &Vec<char>) -> (r: Option<u32>)
    ensures
        r == number_of(s@),
{
    match parse_decimal(s) {
        Some(v) => if v <= 0xFFFF_FFFF {
            Some(v as u32)
        } else {
            None
        },
        None => None,
    }
}

/// The rule that a text without the `RANGE` form writes; see
/// [`plain_rule_of`].
#[verifier::loop_isolation(false)]
pub fn plain_rule_from(text: &str) -> (r: Option<LengthRule>)
    ensures
        rule_model(r) == plain_rule_of(text@),
{
    let t = trimmed_chars(&chars_of(text));
    let n = t.len();
    let mut k: usize = 1;
    while k < n
        invariant
            1 <= k,
            n == t@.len(),
            k <= n || n == 0,
            forall|j: int| 1 <= j < k && j < n ==> operator_of(#[trigger] t@[j]) is None,
        decreases n - k,
    {
        match operator_for(t[k]) {
            Some(op) => {
                proof {
                    lemma_first_operator_skip(t@, 1, k as int);
                }
                let left = trimmed_chars(&sub_chars(&t, 0, k));
                let right = trimmed_chars(&sub_chars(&t, k + 1, n));
                let a = match number_from(&left) {
                    Some(a) => a,
                    None => {
                        return None;
                    },
                };
                if right.len() == 0 {
                    return None;
                }
                let operand = match number_from(&right) {
                    Some(b) => Operand::Number(b),
                    None => Operand::Name(string_of(&right)),
                };
                return Some(LengthRule::Arithmetic(a, op, operand));
            },
            None => {},
        }
        k += 1;
    }
    proof {
        if n >= 1 {
            lemma_first_operator_skip(t@, 1, n as int);
        }
    }
    match number_from(&t) {
        Some(v) => Some(LengthRule::Literal(v)),
        None => None,
    }
}

/// The rule that a text writes, given what the `RANGE` pattern captured in
/// it; see [`rule_of`].
pub fn rule_from(text: &str, range_name: Option<String>) -> (r: Option<LengthRule>)
    ensures
        rule_model(r) == rule_of(
            text@,
            match range_name {
                Some(name) => Some(name@),
                None => None,
            },
        ),
{
    match range_name {
        Some(name) => Some(LengthRule::RangeUntil(name)),
        None => plain_rule_from(text),
    }
}

/// The rule that a text writes: `RANGE(name)`, `<number> <op>
/// <name-or-number>` with one of `+ - * /`, or a number.
pub fn parse_length_rule(text: &str) -> (r: Option<LengthRule>)
    ensures
        rule_model(r) == rule_of(text@, range_target(text@)),
{
    rule_from(text, first_group(RANGE_PATTERN, text))
}

/// The first position of an item, or 0 where it has none.
pub fn first_position_of(item: &SubItem) -> (p: usize)
    ensures
        p == first_position(item@),
{
    if item.indices.len() > 0 {
        item.indices[0]
    } else {
        0
    }
}

/// The index of the first item that is named `name`.
pub fn find_sub_item(items: &Vec<SubItem>, name: &str) -> (r: Option<usize>)
    ensures
        match r {
            Some(i) => first_sub_item(sub_item_models(items@), name@, 0) == Some(i as int) && i
                < items@.len(),
            None => first_sub_item(sub_item_models(items@), name@, 0) is None,
        },
{
    let ghost models = sub_item_models(items@);
    let mut i: usize = 0;
    while i < items.len()
        invariant
            i <= items.len(),
            models == sub_item_models(items@),
            forall|j: int| 0 <= j < i ==> (#[trigger] models[j]).name != name@,
        decreases items.len() - i,
    {
        if same_text(items[i].name.as_str(), name) {
            proof {
                lemma_first_sub_item_skip(models, name@, 0, i as int);
            }
            return Some(i);
        }
        i += 1;
    }
    proof {
        lemma_first_sub_item_skip(models, name@, 0, i as int);
    }
    None
}

/// The length that a rule gives; see [`evaluated`].
#[verifier::loop_isolation(false)]
pub fn evaluate_rule(rule: &LengthRule, siblings: &Vec<SubItem>, data: &[u8]) -> (r: ResolvedLength)
    ensures
        r == evaluated(rule@, sub_item_models(siblings@), data@),
{
    match rule {
        LengthRule::Literal(n) => ResolvedLength { length: *n, resolved: true },
        LengthRule::RangeUntil(name) => {
            let idx = match find_sub_item(siblings, name.as_str()) {
                Some(i) => i,
                None => {
                    return ResolvedLength { length: 0, resolved: false };
                },
            };
            let before = if idx >= 1 {
                first_position_of(&siblings[idx - 1])
            } else {
                0
            };
            let here = first_position_of(&siblings[idx]);
            let start = if here > before {
                here - before
            } else {
                1
            };
            let target = QframeConfig::dir_of(siblings[idx].content.as_str());
            let mut at: usize = start;
            while at < data.len()
                invariant
                    start <= at,
                    scan_distance(data@, start as int, target, start as int) == scan_distance(
                        data@,
                        start as int,
                        target,
                        at as int,
                    ),
                decreases data.len() - at,
            {
                if data[at] == target {
                    let d = at - start;
                    return if d <= 0xFFFF_FFFF {
                        ResolvedLength { length: d as u32, resolved: true }
                    } else {
                        ResolvedLength { length: 0, resolved: false }
                    };
                }
                at += 1;
            }
            ResolvedLength { length: 0, resolved: false }
        },
        LengthRule::Arithmetic(a, op, operand) => {
            let b: u32 = match operand {
                Operand::Number(n) => *n,
                Operand::Name(name) => match find_sub_item(siblings, name.as_str()) {
                    Some(i) => siblings[i].value,
                    None => {
                        return ResolvedLength { length: 0, resolved: false };
                    },
                },
            };
            let a64 = *a as u64;
            let b64 = b as u64;
            let value: Option<u64> = match op {
                Operator::Add => Some(a64 + b64),
                Operator::Sub => if a64 >= b64 {
                    Some(a64 - b64)
                } else {
                    None
                },
                Operator::Mul => {
                    assert(a64 * b64 <= 0xFFFF_FFFF * 0xFFFF_FFFF) by (nonlinear_arith)
                        requires
                            a64 <= 0xFFFF_FFFF,
                            b64 <= 0xFFFF_FFFF,
                    ;
                    Some(a64 * b64)
                },
                Operator::Div => if b64 == 0 {
                    None
                } else {
                    Some(a64 / b64)
                },
            };
            match value {
                Some(v) => if v <= 0xFFFF_FFFF {
                    ResolvedLength { length: v as u32, resolved: true }
                } else {
                    ResolvedLength { length: 0, resolved: false }
                },
                None => ResolvedLength { length: 0, resolved: false },
            }
        },
    }
}

impl crate::frame_fun::FrameFun {
    /// The first resolved item named `target_subitem_name`: its length, its
    /// place in the list, and a copy of it.
    pub fn get_sublength_caculate_base(splitlength: &Vec<SubItem>, target_subitem_name: &str) -> (r:
        Option<(u32, usize, SubItem)>)
        ensures
            match r {
                Some(found) => first_sub_item(
                    sub_item_models(splitlength@),
                    target_subitem_name@,
                    0,
                ) == Some(found.1 as int) && found.1 < splitlength@.len() && found.2@
                    == splitlength@[found.1 as int]@ && found.0 == splitlength@[found.1 as int].value,
                None => first_sub_item(sub_item_models(splitlength@), target_subitem_name@, 0)
                    is None,
            },
    {
        match find_sub_item(splitlength, target_subitem_name) {
            Some(i) => Some((splitlength[i].value, i, duplicate_sub_item(&splitlength[i]))),
            None => None,
        }
    }

    /// The length that the `lengthrule` of a schema node, a child or an
    /// attribute, gives for the data at hand and the items resolved before; see
    /// [`sub_item_length`]. `key` and `protocol` name the item for the
    /// caller's sake and do not enter the result.
    pub fn get_subitem_length(
        data_subitem_elem: &XmlElement,
        splitlength: &Vec<SubItem>,
        key: &str,
        data_segment: &[u8],
        protocol: &str,
    ) -> (r: ResolvedLength)
        ensures
            r == sub_item_length(
                declared_text(data_subitem_elem@, "lengthrule"@),
                match declared_text(data_subitem_elem@, "lengthrule"@) {
                    Some(text) => range_target(text),
                    None => None,
                },
                sub_item_models(splitlength@),
                data_segment@,
            ),
    {
        match data_subitem_elem.get_declared("lengthrule") {
            None => ResolvedLength { length: 0, resolved: false },
            Some(text) => match parse_length_rule(text.as_str()) {
                Some(rule) => evaluate_rule(&rule, splitlength, data_segment),
                None => ResolvedLength { length: 0, resolved: false },
            },
        }
    }
}

} // verus!
