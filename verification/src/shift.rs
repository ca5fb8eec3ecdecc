//! Moving a frame within its buffer moves the ranges of its fields and
//! changes nothing else.

use crate::annotated::{field, leaf, FieldModel};
use crate::frame_645::{
    address_field, baud_rate_field, broadcast_time_field, control_field, control_parts, data_area,
    end_fields, event_reset_field, frozen_time_field, head_fields, invalid_field,
    maximum_demand_reset_field, meter_reset_field, password_field, password_response_field,
    read_err_field, reset_leaves, wake_field,
};
use crate::frame_645_dispatch::{data_field_of, frame_fields, lemma_wake_up_bytes_come_first, wake_bytes};
use crate::frame_645_items::{
    content_field, dlt645_context, identifier_leaf, item_parts, item_query, read_request_field,
    read_response_field, read_subsequent_field, read_subsequent_response_field, record_fields,
    record_length, response_parts, write_field, written_data_field, has_time_prefix,
};
use crate::frame_fun::{lemma_leading_count_is};
use crate::interpreter::{
    declared_length, interpreted, interpreted_items, item_id, sibling_of, taken, unknown_field,
    Context, MAX_DEPTH,
};
use crate::length_rule::SubItemModel;
use crate::schema::{items_of, ElementModel};
use crate::schema_find::{find_step, Query, RepositoryModel};
use vstd::prelude::*;

verus! {

/// A field with its range, and the ranges of all fields below it, moved by
/// `by` bytes.
pub open spec fn shifted(f: FieldModel, by: int) -> FieldModel
    decreases f, 1int, 0int,
{
    FieldModel {
        start: f.start + by,
        end: f.end + by,
        children: shifted_first(f.children, by, f.children.len() as int),
        ..f
    }
}

/// The first `n` fields, each moved by `by` bytes.
pub open spec fn shifted_first(fields: Seq<FieldModel>, by: int, n: int) -> Seq<FieldModel>
    decreases fields, 0int, n,
{
    if n <= 0 || n > fields.len() {
        Seq::empty()
    } else {
        shifted_first(fields, by, n - 1).push(shifted(fields[n - 1], by))
    }
}

/// Fields, each moved by `by` bytes.
pub open spec fn shifted_all(fields: Seq<FieldModel>, by: int) -> Seq<FieldModel> {
    shifted_first(fields, by, fields.len() as int)
}

pub proof fn lemma_shifted_first(fields: Seq<FieldModel>, by: int, n: int)
    requires
        0 <= n <= fields.len(),
    ensures
        shifted_first(fields, by, n).len() == n,
        forall|i: int| 0 <= i < n ==> #[trigger] shifted_first(fields, by, n)[i] == shifted(
            fields[i],
            by,
        ),
    decreases n,
{
    if n > 0 {
        lemma_shifted_first(fields, by, n - 1);
    }
}

/// Moving a list moves each of its fields.
pub proof fn lemma_shifted_all(fields: Seq<FieldModel>, by: int)
    ensures
        shifted_all(fields, by).len() == fields.len(),
        forall|i: int| 0 <= i < fields.len() ==> #[trigger] shifted_all(fields, by)[i] == shifted(
            fields[i],
            by,
        ),
{
    lemma_shifted_first(fields, by, fields.len() as int);
}

pub proof fn lemma_shifted_concat(a: Seq<FieldModel>, b: Seq<FieldModel>, by: int)
    ensures
        shifted_all(a + b, by) == shifted_all(a, by) + shifted_all(b, by),
{
    lemma_shifted_all(a + b, by);
    lemma_shifted_all(a, by);
    lemma_shifted_all(b, by);
    assert(shifted_all(a + b, by) =~= shifted_all(a, by) + shifted_all(b, by));
}

pub proof fn lemma_shifted_one(f: FieldModel, by: int)
    ensures
        shifted_all(seq![f], by) == seq![shifted(f, by)],
{
    lemma_shifted_all(seq![f], by);
    assert(shifted_all(seq![f], by) =~= seq![shifted(f, by)]);
}

pub proof fn lemma_shifted_none(by: int)
    ensures
        shifted_all(Seq::<FieldModel>::empty(), by) == Seq::<FieldModel>::empty(),
{
}

/// A moved data field holds its moved children.
pub proof fn lemma_shifted_area(start: int, end: int, children: Seq<FieldModel>, by: int)
    ensures
        shifted(data_area(start, end, children), by) == data_area(
            start + by,
            end + by,
            shifted_all(children, by),
        ),
{
}

/// Lists of one to five fields, moved.
pub proof fn lemma_shifted_two(a: FieldModel, b: FieldModel, by: int)
    ensures
        shifted_all(seq![a, b], by) == seq![shifted(a, by), shifted(b, by)],
{
    lemma_shifted_all(seq![a, b], by);
    assert(shifted_all(seq![a, b], by) =~= seq![shifted(a, by), shifted(b, by)]);
}

pub proof fn lemma_shifted_three(a: FieldModel, b: FieldModel, c: FieldModel, by: int)
    ensures
        shifted_all(seq![a, b, c], by) == seq![shifted(a, by), shifted(b, by), shifted(c, by)],
{
    lemma_shifted_all(seq![a, b, c], by);
    assert(shifted_all(seq![a, b, c], by) =~= seq![
        shifted(a, by),
        shifted(b, by),
        shifted(c, by),
    ]);
}

/// The fields that end a frame move with the frame.
pub proof fn lemma_end_shift(frame: Seq<u8>, at: int, by: int)
    requires
        frame.len() >= 2,
    ensures
        end_fields(frame, at + by) == shifted_all(end_fields(frame, at), by),
{
    let e = end_fields(frame, at);
    lemma_shifted_two(e[0], e[1], by);
    assert(e =~= seq![e[0], e[1]]);
    assert(end_fields(frame, at + by) =~= seq![shifted(e[0], by), shifted(e[1], by)]);
}

/// The parts of a control code move with the frame.
pub proof fn lemma_control_shift(control: u8, at: int, by: int)
    ensures
        control_field(control, at + by) == shifted(control_field(control, at), by),
{
    let p = control_parts(control, at);
    lemma_shifted_all(p, by);
    assert(control_parts(control, at + by) =~= shifted_all(p, by));
}

/// The fields of the head of a frame move with the frame.
pub proof fn lemma_head_shift(body: Seq<u8>, at: int, by: int)
    requires
        body.len() >= 10,
    ensures
        head_fields(body, at + by) == shifted_all(head_fields(body, at), by),
{
    let h = head_fields(body, at);
    lemma_shifted_all(h, by);
    lemma_control_shift(body[8], at + 8, by);
    assert(head_fields(body, at + by) =~= shifted_all(h, by));
}

/// The fields of a password and of an operator move with the frame.
pub proof fn lemma_reset_leaves_shift(frame: Seq<u8>, at: int, by: int)
    ensures
        reset_leaves(frame, at + by) == shifted_all(reset_leaves(frame, at), by),
{
    let r = reset_leaves(frame, at);
    lemma_shifted_all(r, by);
    assert(reset_leaves(frame, at + by) =~= shifted_all(r, by));
}

/// A data field with one leaf moves with the frame.
pub proof fn lemma_area_of_one(start: int, end: int, child: FieldModel, by: int)
    requires
        child.children.len() == 0,
    ensures
        shifted(data_area(start, end, seq![child]), by) == data_area(
            start + by,
            end + by,
            seq![FieldModel { start: child.start + by, end: child.end + by, ..child }],
        ),
{
    lemma_shifted_one(child, by);
    assert(shifted(child, by).children =~= child.children);
}

/// A data field with one field that holds others moves with the frame.
pub proof fn lemma_area_of_group(start: int, end: int, child: FieldModel, by: int)
    ensures
        shifted(data_area(start, end, seq![child]), by) == data_area(
            start + by,
            end + by,
            seq![
                FieldModel {
                    start: child.start + by,
                    end: child.end + by,
                    children: shifted_all(child.children, by),
                    ..child
                },
            ],
        ),
{
    lemma_shifted_one(child, by);
}

/// The layouts that need no schema move with the frame.
pub proof fn lemma_fixed_layouts_shift(frame: Seq<u8>, at: int, by: int)
    requires
        frame.len() >= 12,
    ensures
        read_err_field(frame, at + by) == shifted(read_err_field(frame, at), by),
        address_field(frame, at + by, "通信地址："@) == shifted(
            address_field(frame, at, "通信地址："@),
            by,
        ),
        address_field(frame, at + by, "写通信地址："@) == shifted(
            address_field(frame, at, "写通信地址："@),
            by,
        ),
        broadcast_time_field(frame, at + by) == shifted(broadcast_time_field(frame, at), by),
        frozen_time_field(frame, at + by) == shifted(frozen_time_field(frame, at), by),
        baud_rate_field(frame, at + by) == shifted(baud_rate_field(frame, at), by),
        invalid_field(frame, at + by) == shifted(invalid_field(frame, at), by),
{
    lemma_area_of_one(at + 10, at + 16, address_field(frame, at, "通信地址："@).children[0], by);
    lemma_area_of_one(at + 10, at + 16, address_field(frame, at, "写通信地址："@).children[0], by);
    lemma_area_of_one(at + 10, at + 16, broadcast_time_field(frame, at).children[0], by);
    lemma_area_of_one(
        at + 10,
        at + frame.len() - 2,
        frozen_time_field(frame, at).children[0],
        by,
    );
    lemma_area_of_one(at + 10, at + frame.len() - 2, baud_rate_field(frame, at).children[0], by);
    lemma_area_of_one(at + 10, at + frame.len() - 2, invalid_field(frame, at).children[0], by);
}

/// The layouts of passwords and resets move with the frame.
pub proof fn lemma_password_layouts_shift(frame: Seq<u8>, at: int, by: int)
    requires
        frame.len() >= 12,
    ensures
        password_field(frame, at + by) == shifted(password_field(frame, at), by),
        password_response_field(frame, at + by) == shifted(password_response_field(frame, at), by),
        maximum_demand_reset_field(frame, at + by) == shifted(
            maximum_demand_reset_field(frame, at),
            by,
        ),
        meter_reset_field(frame, at + by) == shifted(meter_reset_field(frame, at), by),
        event_reset_field(frame, at + by) == shifted(event_reset_field(frame, at), by),
{
    let n = frame.len() as int;
    lemma_reset_leaves_shift(frame, at, by);
    let p = password_field(frame, at).children[0];
    lemma_area_of_group(at + 10, at + n - 2, p, by);
    lemma_shifted_all(p.children, by);
    assert(password_field(frame, at + by).children[0].children =~= shifted_all(p.children, by));
    let r = password_response_field(frame, at).children[0];
    lemma_area_of_group(at + 10, at + n - 2, r, by);
    lemma_shifted_all(r.children, by);
    assert(password_response_field(frame, at + by).children[0].children =~= shifted_all(
        r.children,
        by,
    ));
    let d = maximum_demand_reset_field(frame, at).children[0];
    lemma_area_of_group(at + 10, at + n - 2, d, by);
    let m = meter_reset_field(frame, at).children[0];
    lemma_area_of_group(at + 10, at + 18, m, by);
    let e = event_reset_field(frame, at).children[0];
    lemma_area_of_group(at + 10, at + n - 2, e, by);
    lemma_shifted_all(e.children, by);
    lemma_shifted_all(reset_leaves(frame, at), by);
    assert(event_reset_field(frame, at + by).children[0].children =~= shifted_all(
        e.children,
        by,
    ));
}

/// An interpreted field moves with its window: a window that starts `by`
/// bytes further on gives the same field with its ranges moved by `by`, and
/// the same lookups.
pub proof fn lemma_interpreted_shift(
    s: RepositoryModel,
    node: ElementModel,
    window: Seq<u8>,
    base: int,
    by: int,
    ctx: Context,
    siblings: Seq<SubItemModel>,
    fuel: nat,
)
    ensures
        interpreted(s, node, window, base + by, ctx, siblings, fuel).0 == shifted(
            interpreted(s, node, window, base, ctx, siblings, fuel).0,
            by,
        ),
        interpreted(s, node, window, base + by, ctx, siblings, fuel).1 == interpreted(
            s,
            node,
            window,
            base,
            ctx,
            siblings,
            fuel,
        ).1,
    decreases fuel, 0nat, 0nat,
{
    let declared = declared_length(node, window, siblings);
    let span = taken(declared, window);
    let own = window.take(span);
    let items = items_of(node, "item"@);
    if items.len() == 0 || fuel == 0 {
        lemma_shifted_none(by);
    } else {
        lemma_items_shift(s, items, 0, own, 0, base, by, ctx, Seq::empty(), (fuel - 1) as nat);
    }
}

/// The fields of the items of a node move with its window.
pub proof fn lemma_items_shift(
    s: RepositoryModel,
    items: Seq<ElementModel>,
    k: int,
    own: Seq<u8>,
    cursor: int,
    base: int,
    by: int,
    ctx: Context,
    siblings: Seq<SubItemModel>,
    fuel: nat,
)
    ensures
        interpreted_items(s, items, k, own, cursor, base + by, ctx, siblings, fuel).0
            == shifted_all(
            interpreted_items(s, items, k, own, cursor, base, ctx, siblings, fuel).0,
            by,
        ),
        interpreted_items(s, items, k, own, cursor, base + by, ctx, siblings, fuel).1
            == interpreted_items(s, items, k, own, cursor, base, ctx, siblings, fuel).1,
    decreases fuel, 1nat, items.len() - k,
{
    if k < 0 || k >= items.len() || cursor < 0 || cursor > own.len() {
        lemma_shifted_none(by);
    } else {
        let id = item_id(items[k]);
        let found = find_step(
            s,
            Query { id, protocol: ctx.protocol, region: ctx.region, dir: ctx.dir },
        );
        let rest = own.skip(cursor);
        match found.0 {
            None => {
                let u = unknown_field(id, rest, base + cursor, ctx.need_delete);
                lemma_shifted_one(u, by);
                lemma_shifted_none(by);
                assert(unknown_field(id, rest, base + by + cursor, ctx.need_delete) == shifted(
                    u,
                    by,
                ));
            },
            Some(sub) => {
                let first = interpreted(found.1, sub, rest, base + cursor, ctx, siblings, fuel);
                let moved = interpreted(
                    found.1,
                    sub,
                    rest,
                    base + by + cursor,
                    ctx,
                    siblings,
                    fuel,
                );
                lemma_interpreted_shift(found.1, sub, rest, base + cursor, by, ctx, siblings, fuel);
                assert(base + cursor + by == base + by + cursor);
                assert(moved.0 == shifted(first.0, by));
                assert(sibling_of(moved.0, base + by) == sibling_of(first.0, base));
                let next = cursor + (first.0.end - first.0.start);
                let known = siblings.push(sibling_of(first.0, base));
                lemma_items_shift(first.1, items, k + 1, own, next, base, by, ctx, known, fuel);
                let more = interpreted_items(
                    first.1,
                    items,
                    k + 1,
                    own,
                    next,
                    base,
                    ctx,
                    known,
                    fuel,
                );
                lemma_shifted_concat(seq![first.0], more.0, by);
                lemma_shifted_one(first.0, by);
            },
        }
    }
}

/// The fields of the records of an item move with the content.
pub proof fn lemma_records_shift(
    s: RepositoryModel,
    item: ElementModel,
    content: Seq<u8>,
    offset: int,
    record: int,
    base: int,
    by: int,
    ctx: Context,
)
    ensures
        record_fields(s, item, content, offset, record, base + by, ctx).0 == shifted_all(
            record_fields(s, item, content, offset, record, base, ctx).0,
            by,
        ),
        record_fields(s, item, content, offset, record, base + by, ctx).1 == record_fields(
            s,
            item,
            content,
            offset,
            record,
            base,
            ctx,
        ).1,
    decreases content.len() - offset,
{
    if offset < 0 || offset >= content.len() {
        lemma_shifted_none(by);
    } else {
        let end = if record <= 0 || offset + record > content.len() {
            content.len() as int
        } else {
            offset + record
        };
        let window = content.subrange(offset, end);
        let first = interpreted(
            s,
            item,
            window,
            base + offset,
            ctx,
            Seq::empty(),
            MAX_DEPTH as nat,
        );
        lemma_interpreted_shift(
            s,
            item,
            window,
            base + offset,
            by,
            ctx,
            Seq::empty(),
            MAX_DEPTH as nat,
        );
        assert(base + offset + by == base + by + offset);
        lemma_records_shift(first.1, item, content, end, record, base, by, ctx);
        let more = record_fields(first.1, item, content, end, record, base, ctx);
        lemma_shifted_concat(seq![first.0], more.0, by);
        lemma_shifted_one(first.0, by);
    }
}

/// The parts of a read response move with the frame.
pub proof fn lemma_response_parts_shift(
    s: RepositoryModel,
    item: ElementModel,
    content: Seq<u8>,
    base: int,
    by: int,
    ctx: Context,
)
    ensures
        response_parts(s, item, content, base + by, ctx).0 == shifted_all(
            response_parts(s, item, content, base, ctx).0,
            by,
        ),
        response_parts(s, item, content, base + by, ctx).1 == response_parts(
            s,
            item,
            content,
            base,
            ctx,
        ).1,
{
    let record = record_length(item, content);
    if has_time_prefix(content, record) {
        lemma_records_shift(s, item, content, 5, record, base, by, ctx);
        let records = record_fields(s, item, content, 5, record, base, ctx);
        let time = response_parts(s, item, content, base, ctx).0[0];
        lemma_shifted_concat(seq![time], records.0, by);
        lemma_shifted_one(time, by);
        assert(response_parts(s, item, content, base, ctx).0 =~= seq![time] + records.0);
        assert(response_parts(s, item, content, base + by, ctx).0 =~= seq![shifted(time, by)]
            + shifted_all(records.0, by));
    } else {
        lemma_records_shift(s, item, content, 0, record, base, by, ctx);
    }
}

/// The parts of an item move with the frame.
pub proof fn lemma_item_parts_shift(
    s: RepositoryModel,
    item: Option<ElementModel>,
    data: Seq<u8>,
    base: int,
    by: int,
    ctx: Context,
)
    ensures
        item_parts(s, item, data, base + by, ctx).0 == shifted_all(
            item_parts(s, item, data, base, ctx).0,
            by,
        ),
        item_parts(s, item, data, base + by, ctx).1 == item_parts(s, item, data, base, ctx).1,
{
    match item {
        Some(e) => {
            lemma_interpreted_shift(s, e, data, base, by, ctx, Seq::empty(), MAX_DEPTH as nat);
            let f = interpreted(s, e, data, base, ctx, Seq::empty(), MAX_DEPTH as nat);
            lemma_shifted_one(f.0, by);
        },
        None => {
            lemma_shifted_none(by);
        },
    }
}

/// A read request moves with the frame.
pub proof fn lemma_read_request_shift(
    frame: Seq<u8>,
    at: int,
    by: int,
    item: Option<ElementModel>,
)
    requires
        frame.len() >= 16,
    ensures
        read_request_field(frame, at + by, item) == shifted(
            read_request_field(frame, at, item),
            by,
        ),
        read_subsequent_field(frame, at + by, item) == shifted(
            read_subsequent_field(frame, at, item),
            by,
        ),
{
    let n = frame.len() as int;
    let request = read_request_field(frame, at, item);
    lemma_shifted_all(request.children, by);
    lemma_shifted_area(at + 10, at + n - 2, request.children, by);
    assert(read_request_field(frame, at + by, item).children =~= shifted_all(
        request.children,
        by,
    ));
    let subsequent = read_subsequent_field(frame, at, item);
    lemma_shifted_all(subsequent.children, by);
    lemma_shifted_area(at + 10, at + n - 2, subsequent.children, by);
    assert(read_subsequent_field(frame, at + by, item).children =~= shifted_all(
        subsequent.children,
        by,
    ));
}

/// The field of the content of an item moves with its children.
pub proof fn lemma_content_shift(
    di: Seq<u8>,
    content: Seq<u8>,
    start: int,
    children: Seq<FieldModel>,
    by: int,
)
    ensures
        content_field(di, content, start + by, shifted_all(children, by)) == shifted(
            content_field(di, content, start, children),
            by,
        ),
{
}

/// A read response moves with the frame.
pub proof fn lemma_read_response_shift(
    s: RepositoryModel,
    frame: Seq<u8>,
    at: int,
    by: int,
    region: Seq<char>,
)
    requires
        frame.len() >= 16,
    ensures
        read_response_field(s, frame, at + by, region).0 == shifted(
            read_response_field(s, frame, at, region).0,
            by,
        ),
        read_response_field(s, frame, at + by, region).1 == read_response_field(
            s,
            frame,
            at,
            region,
        ).1,
{
    let n = frame.len() as int;
    let di = frame.subrange(10, 14);
    let found = find_step(s, item_query(di, region));
    let ctx = dlt645_context(region);
    let content = frame.subrange(14, n - 2);
    let id = identifier_leaf(di, found.0, at);
    match found.0 {
        Some(item) => {
            lemma_response_parts_shift(found.1, item, content, at + 14, by, ctx);
            assert(at + 14 + by == at + by + 14);
            let parts = response_parts(found.1, item, content, at + 14, ctx);
            let inner = content_field(di, content, at + 14, parts.0);
            lemma_content_shift(di, content, at + 14, parts.0, by);
            lemma_shifted_two(id, inner, by);
            lemma_shifted_area(at + 10, at + n - 2, seq![id, inner], by);
        },
        None => {
            lemma_shifted_none(by);
            let inner = content_field(di, content, at + 14, Seq::empty());
            lemma_content_shift(di, content, at + 14, Seq::empty(), by);
            lemma_shifted_two(id, inner, by);
            lemma_shifted_area(at + 10, at + n - 2, seq![id, inner], by);
        },
    }
}

/// A response with a subsequent frame moves with the frame.
pub proof fn lemma_subsequent_response_shift(
    s: RepositoryModel,
    frame: Seq<u8>,
    at: int,
    by: int,
    region: Seq<char>,
)
    requires
        frame.len() >= 16,
    ensures
        read_subsequent_response_field(s, frame, at + by, region).0 == shifted(
            read_subsequent_response_field(s, frame, at, region).0,
            by,
        ),
        read_subsequent_response_field(s, frame, at + by, region).1
            == read_subsequent_response_field(s, frame, at, region).1,
{
    let n = frame.len() as int;
    let di = frame.subrange(10, 14);
    let found = find_step(s, item_query(di, region));
    let ctx = dlt645_context(region);
    let content = frame.subrange(14, n - 2);
    lemma_item_parts_shift(found.1, found.0, content, at + 14, by, ctx);
    assert(at + 14 + by == at + by + 14);
    let parts = item_parts(found.1, found.0, content, at + 14, ctx);
    lemma_content_shift(di, content, at + 14, parts.0, by);
    let later = read_subsequent_response_field(s, frame, at, region).0;
    lemma_shifted_three(later.children[0], later.children[1], later.children[2], by);
    assert(later.children =~= seq![later.children[0], later.children[1], later.children[2]]);
    lemma_shifted_area(at + 10, at + n - 2, later.children, by);
}

/// A write moves with the frame.
pub proof fn lemma_write_shift(
    s: RepositoryModel,
    frame: Seq<u8>,
    at: int,
    by: int,
    region: Seq<char>,
)
    requires
        frame.len() >= 16,
    ensures
        write_field(s, frame, at + by, region).0 == shifted(write_field(s, frame, at, region).0, by),
        write_field(s, frame, at + by, region).1 == write_field(s, frame, at, region).1,
{
    let n = frame.len() as int;
    let di = frame.subrange(10, 14);
    let found = find_step(s, item_query(di, region));
    let ctx = dlt645_context(region);
    let data = frame.subrange(22, n - 2);
    lemma_item_parts_shift(found.1, found.0, data, at + 22, by, ctx);
    assert(at + 22 + by == at + by + 22);
    let parts = item_parts(found.1, found.0, data, at + 22, ctx);
    lemma_shifted_none(by);
    let write = write_field(s, frame, at, region).0;
    lemma_shifted_all(write.children, by);
    lemma_shifted_area(at + 10, at + n - 2, write.children, by);
    if found.0 is Some {
        assert(shifted(written_data_field(data, at + 22, parts.0), by) == written_data_field(
            data,
            at + by + 22,
            shifted_all(parts.0, by),
        ));
    } else {
        assert(shifted(written_data_field(data, at + 22, Seq::empty()), by)
            == written_data_field(data, at + by + 22, Seq::empty()));
    }
    assert(write_field(s, frame, at + by, region).0.children =~= shifted_all(write.children, by));
}

/// The data field of a frame moves with the frame, whatever its layout.
pub proof fn lemma_data_field_shift(
    s: RepositoryModel,
    body: Seq<u8>,
    at: int,
    by: int,
    region: Seq<char>,
)
    requires
        body.len() >= 12,
    ensures
        data_field_of(s, body, at + by, region).0 == shifted(
            data_field_of(s, body, at, region).0,
            by,
        ),
        data_field_of(s, body, at + by, region).1 == data_field_of(s, body, at, region).1,
{
    reveal(data_field_of);
    lemma_fixed_layouts_shift(body, at, by);
    lemma_password_layouts_shift(body, at, by);
    if body.len() >= 16 {
        let found = find_step(s, item_query(body.subrange(10, 14), region));
        lemma_read_request_shift(body, at, by, found.0);
        lemma_read_response_shift(s, body, at, by, region);
        lemma_subsequent_response_shift(s, body, at, by, region);
        lemma_write_shift(s, body, at, by, region);
    }
}

/// A frame that stands `by` bytes further on in its buffer has the same
/// fields with every range moved by `by`, and makes the same lookups.
pub proof fn law_frame_moves_with_its_place(
    s: RepositoryModel,
    body: Seq<u8>,
    index: int,
    by: int,
    region: Seq<char>,
)
    requires
        body.len() >= 12,
        body[0] != 0xFE,
    ensures
        frame_fields(s, body, index + by, region).0 == shifted_all(
            frame_fields(s, body, index, region).0,
            by,
        ),
        frame_fields(s, body, index + by, region).1 == frame_fields(s, body, index, region).1,
{
    lemma_leading_count_is(body, 0xFE, 0);
    assert(body.subrange(0, body.len() as int) =~= body);
    lemma_head_shift(body, index, by);
    lemma_end_shift(body, index, by);
    lemma_data_field_shift(s, body, index, by, region);
    let data = data_field_of(s, body, index, region);
    let head = head_fields(body, index);
    let end = end_fields(body, index);
    lemma_shifted_concat(head + seq![data.0], end, by);
    lemma_shifted_concat(head, seq![data.0], by);
    lemma_shifted_one(data.0, by);
}

/// Wake-up bytes before a frame shift every range of its fields by their
/// number and by no more: the fields of a frame with `count` wake-up bytes
/// before it are the field of the wake-up bytes, followed by the fields of
/// the frame alone with every range moved by `count`. Labels, bytes and
/// meanings stay as they are, and the same lookups are made.
pub proof fn law_wake_up_bytes_shift_ranges(
    s: RepositoryModel,
    body: Seq<u8>,
    count: nat,
    index: int,
    region: Seq<char>,
)
    requires
        body.len() >= 12,
        body[0] != 0xFE,
        count > 0,
    ensures
        frame_fields(s, wake_bytes(count) + body, index, region).0 == seq![
            wake_field(wake_bytes(count) + body, count as int, index),
        ] + shifted_all(frame_fields(s, body, index, region).0, count as int),
        frame_fields(s, wake_bytes(count) + body, index, region).1 == frame_fields(
            s,
            body,
            index,
            region,
        ).1,
{
    lemma_wake_up_bytes_come_first(s, body, count, index, region);
    law_frame_moves_with_its_place(s, body, index, count as int, region);
}

} // verus!
