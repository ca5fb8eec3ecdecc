//! The ranges of annotated fields: every field lies within the bytes that
//! were decoded, and the fields below a field lie within it, in order.

use crate::annotated::{field, leaf, FieldModel};
use crate::frame_645::{
    address_field, baud_rate_field, broadcast_time_field, control_field, end_fields,
    event_reset_field, frozen_time_field, head_fields, invalid_field, is_frame,
    maximum_demand_reset_field, meter_reset_field, password_field, password_response_field,
    read_err_field, wake_field,
};
use crate::frame_645_dispatch::{data_field_of, frame_fields};
use crate::frame_645_items::{
    dlt645_context, has_time_prefix, item_parts, item_query, read_request_field,
    read_response_field, read_subsequent_field, read_subsequent_response_field, record_fields,
    record_length, response_parts, write_field,
};
use crate::frame_fun::{leading_count, lemma_leading_count};
use crate::interpreter::{
    declared_length, interpreted, interpreted_items, item_id, sibling_of, taken, Context,
    MAX_DEPTH,
};
use crate::length_rule::SubItemModel;
use crate::schema::{items_of, ElementModel};
use crate::schema_find::{find_step, Query, RepositoryModel};
use vstd::prelude::*;

verus! {

/// Whether field `i` does not start before the field before it.
pub open spec fn starts_in_order(fields: Seq<FieldModel>, i: int) -> bool {
    fields[i - 1].start <= fields[i].start
}

/// Whether the first `n` fields lie within `low..high`, none starts before
/// the one before it, and each is well ranged in itself.
pub open spec fn ranged_within(fields: Seq<FieldModel>, low: int, high: int, n: int) -> bool
    decreases fields, 0int, n,
{
    if n <= 0 || n > fields.len() {
        true
    } else {
        &&& ranged_within(fields, low, high, n - 1)
        &&& low <= fields[n - 1].start
        &&& fields[n - 1].end <= high
        &&& (n >= 2 ==> starts_in_order(fields, n - 1))
        &&& well_ranged(fields[n - 1])
    }
}

/// Whether a field is well ranged: its range does not end before it
/// starts, and the fields below it lie within it, in the order of their
/// starts, each well ranged in itself.
pub open spec fn well_ranged(f: FieldModel) -> bool
    decreases f, 1int, 0int,
{
    f.start <= f.end && ranged_within(f.children, f.start, f.end, f.children.len() as int)
}

/// Whether all fields lie within `low..high`, in order, each well ranged.
pub open spec fn all_within(fields: Seq<FieldModel>, low: int, high: int) -> bool {
    ranged_within(fields, low, high, fields.len() as int)
}

/// Fields that lie within a range lie within every wider one.
pub proof fn lemma_within_wider(
    fields: Seq<FieldModel>,
    low: int,
    high: int,
    lower: int,
    higher: int,
    n: int,
)
    requires
        ranged_within(fields, low, high, n),
        lower <= low,
        high <= higher,
    ensures
        ranged_within(fields, lower, higher, n),
    decreases n,
{
    if 0 < n <= fields.len() {
        lemma_within_wider(fields, low, high, lower, higher, n - 1);
    }
}

/// A list is within a range where each of its fields is, in order.
pub proof fn lemma_within_by_index(fields: Seq<FieldModel>, low: int, high: int, n: int)
    requires
        0 <= n <= fields.len(),
        forall|i: int|
            0 <= i < n ==> low <= (#[trigger] fields[i]).start && fields[i].end <= high
                && well_ranged(fields[i]),
        forall|i: int| 1 <= i < n ==> #[trigger] starts_in_order(fields, i),
    ensures
        ranged_within(fields, low, high, n),
    decreases n,
{
    if n > 0 {
        lemma_within_by_index(fields, low, high, n - 1);
    }
}

/// What being within a range says of each field.
pub proof fn lemma_within_index(fields: Seq<FieldModel>, low: int, high: int, n: int)
    requires
        0 <= n <= fields.len(),
        ranged_within(fields, low, high, n),
    ensures
        forall|i: int|
            0 <= i < n ==> low <= (#[trigger] fields[i]).start && fields[i].end <= high
                && well_ranged(fields[i]),
        forall|i: int| 1 <= i < n ==> #[trigger] starts_in_order(fields, i),
    decreases n,
{
    if n > 0 {
        lemma_within_index(fields, low, high, n - 1);
    }
}

/// A field within a range is a list of one within it.
pub proof fn lemma_within_one(f: FieldModel, low: int, high: int)
    requires
        low <= f.start,
        f.end <= high,
        well_ranged(f),
    ensures
        all_within(seq![f], low, high),
{
    lemma_within_by_index(seq![f], low, high, 1);
}

/// A list within a range, followed by one within what is left of it from
/// `middle` on, is a list within the range.
pub proof fn lemma_within_concat(
    a: Seq<FieldModel>,
    b: Seq<FieldModel>,
    low: int,
    middle: int,
    high: int,
)
    requires
        all_within(a, low, high),
        all_within(b, middle, high),
        low <= middle,
        forall|i: int| 0 <= i < a.len() ==> (#[trigger] a[i]).start <= middle,
    ensures
        all_within(a + b, low, high),
{
    lemma_within_index(a, low, high, a.len() as int);
    lemma_within_index(b, middle, high, b.len() as int);
    let c = a + b;
    assert forall|i: int| 0 <= i < c.len() implies low <= (#[trigger] c[i]).start && c[i].end
        <= high && well_ranged(c[i]) by {
        if i < a.len() {
            assert(c[i] == a[i]);
        } else {
            assert(c[i] == b[i - a.len()]);
        }
    }
    assert forall|i: int| 1 <= i < c.len() implies #[trigger] starts_in_order(c, i) by {
        if i < a.len() {
            assert(starts_in_order(a, i));
            assert(c[i] == a[i]);
            assert(c[i - 1] == a[i - 1]);
        } else if i == a.len() {
            assert(c[i] == b[0]);
            assert(c[i - 1] == a[i - 1]);
        } else {
            assert(starts_in_order(b, i - a.len()));
            assert(c[i] == b[i - a.len()]);
            assert(c[i - 1] == b[i - 1 - a.len()]);
        }
    }
    lemma_within_by_index(c, low, high, c.len() as int);
}

/// An interpreted field starts where its window starts, ends within the
/// window, and is well ranged.
pub proof fn lemma_interpreted_ranged(
    s: RepositoryModel,
    node: ElementModel,
    window: Seq<u8>,
    base: int,
    ctx: Context,
    siblings: Seq<SubItemModel>,
    fuel: nat,
)
    ensures
        interpreted(s, node, window, base, ctx, siblings, fuel).0.start == base,
        interpreted(s, node, window, base, ctx, siblings, fuel).0.end <= base + window.len(),
        well_ranged(interpreted(s, node, window, base, ctx, siblings, fuel).0),
    decreases fuel, 0nat, 0nat,
{
    let declared = declared_length(node, window, siblings);
    let span = taken(declared, window);
    let own = window.take(span);
    let items = items_of(node, "item"@);
    if !(items.len() == 0 || fuel == 0) {
        lemma_items_ranged(s, items, 0, own, 0, base, ctx, Seq::empty(), (fuel - 1) as nat);
    }
}

/// The fields of the items of a node lie within what is left of its window,
/// in order.
pub proof fn lemma_items_ranged(
    s: RepositoryModel,
    items: Seq<ElementModel>,
    k: int,
    own: Seq<u8>,
    cursor: int,
    base: int,
    ctx: Context,
    siblings: Seq<SubItemModel>,
    fuel: nat,
)
    ensures
        all_within(
            interpreted_items(s, items, k, own, cursor, base, ctx, siblings, fuel).0,
            base + cursor,
            base + own.len(),
        ) || cursor < 0 || cursor > own.len(),
    decreases fuel, 1nat, items.len() - k,
{
    if !(k < 0 || k >= items.len() || cursor < 0 || cursor > own.len()) {
        let id = item_id(items[k]);
        let found = find_step(
            s,
            Query { id, protocol: ctx.protocol, region: ctx.region, dir: ctx.dir },
        );
        let rest = own.skip(cursor);
        match found.0 {
            None => {
                lemma_within_one(
                    crate::interpreter::unknown_field(id, rest, base + cursor, ctx.need_delete),
                    base + cursor,
                    base + own.len(),
                );
            },
            Some(sub) => {
                let first = interpreted(found.1, sub, rest, base + cursor, ctx, siblings, fuel);
                lemma_interpreted_ranged(found.1, sub, rest, base + cursor, ctx, siblings, fuel);
                lemma_within_one(first.0, base + cursor, base + own.len());
                let next = cursor + (first.0.end - first.0.start);
                let known = siblings.push(sibling_of(first.0, base));
                lemma_items_ranged(first.1, items, k + 1, own, next, base, ctx, known, fuel);
                let more = interpreted_items(
                    first.1,
                    items,
                    k + 1,
                    own,
                    next,
                    base,
                    ctx,
                    known,
                    fuel,
                );
                lemma_within_concat(
                    seq![first.0],
                    more.0,
                    base + cursor,
                    base + next,
                    base + own.len(),
                );
            },
        }
    }
}

/// The fields of the records of an item lie within the content, in order.
pub proof fn lemma_records_ranged(
    s: RepositoryModel,
    item: ElementModel,
    content: Seq<u8>,
    offset: int,
    record: int,
    base: int,
    ctx: Context,
)
    requires
        0 <= offset,
    ensures
        all_within(
            record_fields(s, item, content, offset, record, base, ctx).0,
            base + offset,
            base + content.len(),
        ) || offset > content.len(),
    decreases content.len() - offset,
{
    if offset < content.len() {
        let end = if record <= 0 || offset + record > content.len() {
            content.len() as int
        } else {
            offset + record
        };
        let window = content.subrange(offset, end);
        let first = interpreted(
            s,
            item,
            window,
            base + offset,
            ctx,
            Seq::empty(),
            MAX_DEPTH as nat,
        );
        lemma_interpreted_ranged(
            s,
            item,
            window,
            base + offset,
            ctx,
            Seq::empty(),
            MAX_DEPTH as nat,
        );
        lemma_records_ranged(first.1, item, content, end, record, base, ctx);
        lemma_within_one(first.0, base + offset, base + content.len());
        let more = record_fields(first.1, item, content, end, record, base, ctx);
        lemma_within_wider(
            more.0,
            base + end,
            base + content.len(),
            base + offset,
            base + content.len(),
            more.0.len() as int,
        );
        lemma_within_concat(
            seq![first.0],
            more.0,
            base + offset,
            base + offset,
            base + content.len(),
        );
    }
}

/// Whether a field is a well-ranged data field of a frame of `n` bytes
/// that starts at `at`.
pub open spec fn is_data_field(f: FieldModel, at: int, n: int) -> bool {
    at + 10 <= f.start && f.end <= at + n - 2 && well_ranged(f)
}

/// The read layouts without content are well ranged.
pub proof fn lemma_requests_ranged(body: Seq<u8>, at: int, item: Option<ElementModel>)
    requires
        body.len() >= 16,
    ensures
        is_data_field(read_request_field(body, at, item), at, body.len() as int),
        body.len() >= 17 ==> is_data_field(
            read_subsequent_field(body, at, item),
            at,
            body.len() as int,
        ),
{
    let n = body.len() as int;
    let f = read_request_field(body, at, item);
    lemma_within_by_index(f.children, at + 10, at + n - 2, f.children.len() as int);
    if n >= 17 {
        let g = read_subsequent_field(body, at, item);
        lemma_within_by_index(g.children, at + 10, at + n - 2, 2);
    }
}

/// The data field of a frame lies within the data of the frame and is well
/// ranged, whatever its layout.
#[verifier::rlimit(60)]
pub proof fn lemma_data_field_ranged(s: RepositoryModel, body: Seq<u8>, at: int, region: Seq<char>)
    requires
        body.len() >= 12,
    ensures
        is_data_field(data_field_of(s, body, at, region).0, at, body.len() as int),
{
    let n = body.len() as int;
    let found = find_step(s, item_query(body.subrange(10, 14), region));
    lemma_fixed_ranged(body, at);
    lemma_password_ranged(body, at);
    if n >= 16 {
        lemma_requests_ranged(body, at, found.0);
        lemma_read_response_ranged(s, body, at, region);
    }
    if n >= 17 {
        lemma_subsequent_response_ranged(s, body, at, region);
    }
    if n >= 24 {
        lemma_write_ranged(s, body, at, region);
    }
    reveal(data_field_of);
}

/// The layouts with one leaf are well ranged.
pub proof fn lemma_fixed_ranged(body: Seq<u8>, at: int)
    requires
        body.len() >= 12,
    ensures
        is_data_field(invalid_field(body, at), at, body.len() as int),
        body.len() >= 13 ==> is_data_field(read_err_field(body, at), at, body.len() as int),
        body.len() >= 18 ==> is_data_field(
            address_field(body, at, "通信地址："@),
            at,
            body.len() as int,
        ),
        body.len() >= 18 ==> is_data_field(
            address_field(body, at, "写通信地址："@),
            at,
            body.len() as int,
        ),
        body.len() >= 18 ==> is_data_field(broadcast_time_field(body, at), at, body.len() as int),
        body.len() >= 16 ==> is_data_field(frozen_time_field(body, at), at, body.len() as int),
        body.len() >= 13 ==> is_data_field(baud_rate_field(body, at), at, body.len() as int),
{
    let n = body.len() as int;
    lemma_within_by_index(invalid_field(body, at).children, at + 10, at + n - 2, 1);
    if n >= 13 {
        lemma_within_by_index(baud_rate_field(body, at).children, at + 10, at + n - 2, 1);
    }
    if n >= 16 {
        lemma_within_by_index(address_field(body, at, "通信地址："@).children, at + 10, at + 16, 1);
        lemma_within_by_index(
            address_field(body, at, "写通信地址："@).children,
            at + 10,
            at + 16,
            1,
        );
        lemma_within_by_index(broadcast_time_field(body, at).children, at + 10, at + 16, 1);
        lemma_within_by_index(frozen_time_field(body, at).children, at + 10, at + n - 2, 1);
    }
}

/// The layouts of passwords and resets are well ranged.
pub proof fn lemma_password_ranged(body: Seq<u8>, at: int)
    requires
        body.len() >= 12,
    ensures
        body.len() >= 24 ==> is_data_field(password_field(body, at), at, body.len() as int),
        body.len() >= 16 ==> is_data_field(
            password_response_field(body, at),
            at,
            body.len() as int,
        ),
        body.len() >= 20 ==> is_data_field(
            maximum_demand_reset_field(body, at),
            at,
            body.len() as int,
        ),
        body.len() >= 20 ==> is_data_field(meter_reset_field(body, at), at, body.len() as int),
        body.len() >= 24 ==> is_data_field(event_reset_field(body, at), at, body.len() as int),
{
    let n = body.len() as int;
    if n >= 16 {
        let r = password_response_field(body, at);
        lemma_within_by_index(r.children[0].children, at + 10, at + 14, 1);
        lemma_within_by_index(r.children, at + 10, at + n - 2, 1);
    }
    if n >= 20 {
        let d = maximum_demand_reset_field(body, at);
        lemma_within_by_index(d.children[0].children, at + 10, at + n - 2, 2);
        lemma_within_by_index(d.children, at + 10, at + n - 2, 1);
        let m = meter_reset_field(body, at);
        lemma_within_by_index(m.children[0].children, at + 10, at + 18, 2);
        lemma_within_by_index(m.children, at + 10, at + 18, 1);
    }
    if n >= 24 {
        let p = password_field(body, at);
        lemma_within_by_index(p.children[0].children, at + 10, at + 22, 3);
        lemma_within_by_index(p.children, at + 10, at + n - 2, 1);
        let e = event_reset_field(body, at);
        lemma_within_by_index(e.children[0].children, at + 10, at + 22, 3);
        lemma_within_by_index(e.children, at + 10, at + n - 2, 1);
    }
}

/// A read response is well ranged.
pub proof fn lemma_read_response_ranged(
    s: RepositoryModel,
    body: Seq<u8>,
    at: int,
    region: Seq<char>,
)
    requires
        body.len() >= 16,
    ensures
        is_data_field(read_response_field(s, body, at, region).0, at, body.len() as int),
{
    let n = body.len() as int;
    let di = body.subrange(10, 14);
    let content = body.subrange(14, n - 2);
    let found = find_step(s, item_query(di, region));
    let ctx = dlt645_context(region);
    let f = read_response_field(s, body, at, region).0;
    match found.0 {
        Some(item) => {
            let record = record_length(item, content);
            let parts = response_parts(found.1, item, content, at + 14, ctx);
            if has_time_prefix(content, record) {
                lemma_records_ranged(found.1, item, content, 5, record, at + 14, ctx);
                let records = record_fields(found.1, item, content, 5, record, at + 14, ctx);
                lemma_within_one(parts.0[0], at + 14, at + 14 + content.len());
                lemma_within_concat(
                    seq![parts.0[0]],
                    records.0,
                    at + 14,
                    at + 19,
                    at + 14 + content.len(),
                );
                assert(parts.0 =~= seq![parts.0[0]] + records.0);
            } else {
                lemma_records_ranged(found.1, item, content, 0, record, at + 14, ctx);
            }
        },
        None => {},
    }
    lemma_within_by_index(f.children, at + 10, at + n - 2, 2);
}

/// A response with a subsequent frame is well ranged.
pub proof fn lemma_subsequent_response_ranged(
    s: RepositoryModel,
    body: Seq<u8>,
    at: int,
    region: Seq<char>,
)
    requires
        body.len() >= 17,
    ensures
        is_data_field(
            read_subsequent_response_field(s, body, at, region).0,
            at,
            body.len() as int,
        ),
{
    let n = body.len() as int;
    let di = body.subrange(10, 14);
    let content = body.subrange(14, n - 2);
    let found = find_step(s, item_query(di, region));
    let ctx = dlt645_context(region);
    let f = read_subsequent_response_field(s, body, at, region).0;
    lemma_item_parts_ranged(found.1, found.0, content, at + 14, ctx);
    lemma_within_by_index(f.children, at + 10, at + n - 2, 3);
}

/// A write is well ranged.
pub proof fn lemma_write_ranged(s: RepositoryModel, body: Seq<u8>, at: int, region: Seq<char>)
    requires
        body.len() >= 24,
    ensures
        is_data_field(write_field(s, body, at, region).0, at, body.len() as int),
{
    let n = body.len() as int;
    let di = body.subrange(10, 14);
    let data = body.subrange(22, n - 2);
    let found = find_step(s, item_query(di, region));
    let ctx = dlt645_context(region);
    let f = write_field(s, body, at, region).0;
    lemma_item_parts_ranged(found.1, found.0, data, at + 22, ctx);
    lemma_within_by_index(f.children, at + 10, at + n - 2, f.children.len() as int);
}

/// The parts of an item lie within its data.
pub proof fn lemma_item_parts_ranged(
    s: RepositoryModel,
    item: Option<ElementModel>,
    data: Seq<u8>,
    base: int,
    ctx: Context,
)
    ensures
        all_within(item_parts(s, item, data, base, ctx).0, base, base + data.len()),
{
    match item {
        Some(e) => {
            lemma_interpreted_ranged(s, e, data, base, ctx, Seq::empty(), MAX_DEPTH as nat);
            lemma_within_one(
                interpreted(s, e, data, base, ctx, Seq::empty(), MAX_DEPTH as nat).0,
                base,
                base + data.len(),
            );
        },
        None => {},
    }
}

/// Every field of a decoded frame lies within the frame, the fields follow
/// each other in the order of their starts, and below every field its
/// children lie within it, in order: each range maps back into the bytes
/// that were decoded.
pub proof fn law_fields_lie_within_the_frame(
    s: RepositoryModel,
    frame: Seq<u8>,
    index: int,
    region: Seq<char>,
)
    requires
        is_frame(frame),
    ensures
        all_within(frame_fields(s, frame, index, region).0, index, index + frame.len()),
{
    lemma_leading_count(frame, 0xFE);
    let wake = leading_count(frame, 0xFE) as int;
    let body = frame.subrange(wake, frame.len() as int);
    let at = index + wake;
    let n = body.len() as int;
    let data = data_field_of(s, body, at, region);
    lemma_data_field_ranged(s, body, at, region);
    let head = head_fields(body, at);
    let control = control_field(body[8], at + 8);
    lemma_within_by_index(control.children, at + 8, at + 9, 4);
    assert(head[3] == control);
    let end = end_fields(body, at);
    let all = frame_fields(s, frame, index, region).0;
    let high = index + frame.len();
    lemma_within_by_index(head, at, at + 10, 5);
    lemma_within_by_index(seq![data.0], at + 10, at + n - 2, 1);
    lemma_within_by_index(end, at + n - 2, at + n, 2);
    lemma_within_wider(head, at, at + 10, at, high, 5);
    lemma_within_wider(seq![data.0], at + 10, at + n - 2, at + 10, high, 1);
    lemma_within_wider(end, at + n - 2, at + n, at + n - 2, high, 2);
    lemma_within_concat(head, seq![data.0], at, at + 10, high);
    lemma_within_concat(head + seq![data.0], end, at, at + n - 2, high);
    let bare = head + seq![data.0] + end;
    if wake != 0 {
        let w = wake_field(frame, wake, index);
        lemma_within_by_index(seq![w], index, high, 1);
        lemma_within_concat(seq![w], bare, index, at, high);
        assert(all =~= seq![w] + bare);
    } else {
        assert(all =~= bare);
    }
}

} // verus!
