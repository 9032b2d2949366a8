use vstd::prelude::*;

use crate::events::{category_of, counts_after_add, counts_after_remove, decode_spec, next_dot, reservation_value};
use crate::text::{all_digits, decimal, digit_char, digit_value, digits_value, is_digit, parse_u64_spec, unsigned_part};
use crate::interpreter::{append_run, listener_ops, listener_step, markers, run, step, DomState};
use crate::native::NodeHandle;
use crate::native::{DomEdit, NativeOp, NodeKind};

verus! {

/// How many nodes an instruction leaves on the builder stack beyond those it found.
pub open spec fn stack_delta(e: DomEdit) -> int {
    match e {
        DomEdit::PushRoot { .. } => 1,
        DomEdit::PopRoot => -1,
        DomEdit::AppendChildren { many } => -(many as int),
        DomEdit::ReplaceWith { .. } => -1,
        DomEdit::Remove => -1,
        DomEdit::CreateTextNode { .. } => 1,
        DomEdit::CreateElement { .. } => 1,
        DomEdit::CreateElementNs { .. } => 1,
        DomEdit::CreatePlaceholder { .. } => 1,
        _ => 0,
    }
}

/// The stack effect of a whole stream.
pub open spec fn net_delta(edits: Seq<DomEdit>) -> int
    decreases edits.len(),
{
    if edits.len() == 0 {
        0
    } else {
        stack_delta(edits[0]) + net_delta(edits.drop_first())
    }
}

/// The node id that an instruction names, if it names one.
pub open spec fn named_id(e: DomEdit) -> Option<u64> {
    match e {
        DomEdit::PushRoot { id } => Some(id),
        DomEdit::CreateTextNode { id, .. } => Some(id),
        DomEdit::CreateElement { id, .. } => Some(id),
        DomEdit::CreateElementNs { id, .. } => Some(id),
        DomEdit::CreatePlaceholder { id } => Some(id),
        _ => None,
    }
}

proof fn lemma_step_effect(s: DomState, e: DomEdit)
    requires
        step(s, e) is Ok,
    ensures
        step(s, e)->Ok_0.stack.len() == s.stack.len() + stack_delta(e),
        s.registry.dom().subset_of(step(s, e)->Ok_0.registry.dom()),
        named_id(e) is Some ==> step(s, e)->Ok_0.registry.contains_key(named_id(e)->0),
{
}

/// Applying a stream that succeeds changes the height of the builder stack by the
/// stream's net stack effect, so a stream with no net effect applied to an empty
/// stack leaves it empty; it keeps every registry entry; and every id that the
/// stream names is resolvable afterwards.
pub proof fn lemma_stream_balanced(s: DomState, edits: Seq<DomEdit>)
    requires
        run(s, edits) is Ok,
    ensures
        run(s, edits)->Ok_0.stack.len() == s.stack.len() + net_delta(edits),
        s.stack.len() == 0 && net_delta(edits) == 0 ==> run(s, edits)->Ok_0.stack.len() == 0,
        s.registry.dom().subset_of(run(s, edits)->Ok_0.registry.dom()),
        forall|i: int|
            0 <= i < edits.len() && (#[trigger] named_id(edits[i])) is Some ==> run(
                s,
                edits,
            )->Ok_0.registry.contains_key(named_id(edits[i])->0),
    decreases edits.len(),
{
    if edits.len() > 0 {
        let s1 = step(s, edits[0])->Ok_0;
        let rest = edits.drop_first();
        lemma_step_effect(s, edits[0]);
        lemma_stream_balanced(s1, rest);
        let fin = run(s, edits)->Ok_0;
        assert forall|i: int|
            0 <= i < edits.len() && (#[trigger] named_id(edits[i])) is Some implies fin.registry.contains_key(
                named_id(edits[i])->0,
            ) by {
            if i > 0 {
                assert(edits[i] == rest[i - 1]);
            }
        }
    }
}

/// Registering two listeners of one category on elements installs the native
/// listener once, with the first, and leaves a count of two; removing them both
/// removes the category, and only the second removal uninstalls the native listener.
pub proof fn lemma_listener_twice(
    s: DomState,
    event_name: Seq<char>,
    scope: u64,
    node: u64,
    ops1: Seq<NativeOp>,
    ops2: Seq<NativeOp>,
)
    requires
        s.stack.len() > 0,
        s.kinds[s.stack.last() as int] is Element,
        !s.listeners.contains_key(category_of(event_name)),
        listener_ops(s, event_name, scope, node, ops1),
        listener_ops(listener_step(s, event_name)->Ok_0, event_name, scope, node, ops2),
    ensures
        listener_step(s, event_name) is Ok,
        listener_step(listener_step(s, event_name)->Ok_0, event_name) is Ok,
        ops1.len() == 2 && ops1[1] is InstallListener,
        ops2.len() == 1 && !(ops2[0] is InstallListener),
        ({
            let c = category_of(event_name);
            let m2 = listener_step(listener_step(s, event_name)->Ok_0, event_name)->Ok_0.listeners;
            &&& m2[c] == 2
            &&& counts_after_remove(m2, c)[c] == 1
            &&& !counts_after_remove(counts_after_remove(m2, c), c).contains_key(c)
            &&& counts_after_remove(counts_after_remove(m2, c), c) == s.listeners
        }),
{
    let c = category_of(event_name);
    let m2 = counts_after_add(counts_after_add(s.listeners, c), c);
    assert(counts_after_remove(counts_after_remove(m2, c), c) =~= s.listeners);
}

/// The children that `ops` appends, in order.
pub open spec fn appended(ops: Seq<NativeOp>) -> Seq<NodeHandle>
    decreases ops.len(),
{
    if ops.len() == 0 {
        Seq::empty()
    } else {
        match ops.last() {
            NativeOp::AppendChild { child, .. } => appended(ops.drop_last()).push(child),
            _ => appended(ops.drop_last()),
        }
    }
}

/// The children that `ops` appends among the nodes that existed before (handles
/// under `bound`), in order.
pub open spec fn appended_existing(ops: Seq<NativeOp>, bound: nat) -> Seq<NodeHandle>
    decreases ops.len(),
{
    if ops.len() == 0 {
        Seq::empty()
    } else {
        match ops.last() {
            NativeOp::AppendChild { child, .. } => if child < bound {
                appended_existing(ops.drop_last(), bound).push(child)
            } else {
                appended_existing(ops.drop_last(), bound)
            },
            _ => appended_existing(ops.drop_last(), bound),
        }
    }
}

/// Every append in `ops` goes to `parent`.
pub open spec fn all_to(ops: Seq<NativeOp>, parent: NodeHandle) -> bool {
    forall|i: int|
        0 <= i < ops.len() ==> match #[trigger] ops[i] {
            NativeOp::AppendChild { parent: p, .. } => p == parent,
            _ => true,
        }
}

/// No two consecutive children of `a` are text nodes under `kinds`.
pub open spec fn no_adjacent_text(a: Seq<NodeHandle>, kinds: Seq<NodeKind>) -> bool {
    forall|i: int, j: int|
        #![trigger a[i], a[j]]
        0 <= i && j == i + 1 && j < a.len() ==> !(kinds[a[i] as int] == NodeKind::Text
            && kinds[a[j] as int] == NodeKind::Text)
}

proof fn lemma_push3(ops: Seq<NativeOp>, x: NativeOp, y: NativeOp, z: NativeOp)
    ensures
        ops + seq![x, y, z] == ops.push(x).push(y).push(z),
{
    assert(ops + seq![x, y, z] =~= ops.push(x).push(y).push(z));
}

proof fn lemma_markers_bound(parent: NodeHandle, children: Seq<NodeHandle>, kinds: Seq<NodeKind>, flag: bool)
    ensures
        append_run(parent, children, kinds, flag).1 <= children.len(),
    decreases children.len(),
{
    if children.len() > 0 {
        lemma_markers_bound(parent, children.drop_last(), kinds, flag);
    }
}

proof fn lemma_append_last(parent: NodeHandle, children: Seq<NodeHandle>, kinds: Seq<NodeKind>, flag: bool)
    requires
        children.len() > 0,
        kinds.len() + children.len() <= usize::MAX,
    ensures
        ({
            let p = append_run(parent, children.drop_last(), kinds, flag);
            let r = append_run(parent, children, kinds, flag);
            let c = children.last();
            let h = (kinds.len() + p.1) as NodeHandle;
            if kinds[c as int] == NodeKind::Text && p.2 {
                &&& r.0 == p.0.push(NativeOp::CreateMarker { node: h }).push(
                    NativeOp::AppendChild { parent, child: h },
                ).push(NativeOp::AppendChild { parent, child: c })
                &&& appended(r.0) == appended(p.0).push(h).push(c)
                &&& r.1 == p.1 + 1
            } else {
                &&& r.0 == p.0.push(NativeOp::AppendChild { parent, child: c })
                &&& appended(r.0) == appended(p.0).push(c)
                &&& r.1 == p.1
            }
        }),
{
    let p = append_run(parent, children.drop_last(), kinds, flag);
    let c = children.last();
    lemma_markers_bound(parent, children.drop_last(), kinds, flag);
    if kinds[c as int] == NodeKind::Text && p.2 {
        let h = (kinds.len() + p.1) as NodeHandle;
        let o1 = NativeOp::CreateMarker { node: h };
        let o2 = NativeOp::AppendChild { parent, child: h };
        let o3 = NativeOp::AppendChild { parent, child: c };
        lemma_push3(p.0, o1, o2, o3);
        let q = p.0.push(o1).push(o2).push(o3);
        assert(q.drop_last() == p.0.push(o1).push(o2));
        assert(q.drop_last().drop_last() == p.0.push(o1));
        assert(q.drop_last().drop_last().drop_last() == p.0);
        let r = append_run(parent, children, kinds, flag);
        assert(r.0 == q);
        assert(appended(q.drop_last().drop_last()) == appended(p.0));
        assert(appended(q.drop_last()) == appended(p.0).push(h));
        assert(appended(q) == appended(p.0).push(h).push(c));
    } else {
        let q = p.0.push(NativeOp::AppendChild { parent, child: c });
        assert(q.drop_last() == p.0);
    }
}

proof fn lemma_append_last_existing(
    parent: NodeHandle,
    children: Seq<NodeHandle>,
    kinds: Seq<NodeKind>,
    flag: bool,
)
    requires
        children.len() > 0,
        kinds.len() + children.len() <= usize::MAX,
        children.last() < kinds.len(),
    ensures
        appended_existing(append_run(parent, children, kinds, flag).0, kinds.len())
            == appended_existing(append_run(parent, children.drop_last(), kinds, flag).0, kinds.len()).push(
            children.last(),
        ),
{
    lemma_append_last(parent, children, kinds, flag);
    lemma_markers_bound(parent, children.drop_last(), kinds, flag);
    let p = append_run(parent, children.drop_last(), kinds, flag);
    let c = children.last();
    let q = append_run(parent, children, kinds, flag).0;
    if kinds[c as int] == NodeKind::Text && p.2 {
        let h = (kinds.len() + p.1) as NodeHandle;
        assert(h >= kinds.len());
        assert(q.drop_last().drop_last().drop_last() == p.0);
        assert(appended_existing(q.drop_last().drop_last(), kinds.len()) == appended_existing(p.0, kinds.len()));
        assert(appended_existing(q.drop_last(), kinds.len()) == appended_existing(p.0, kinds.len()));
    } else {
        assert(q.drop_last() == p.0);
    }
}

/// Appending children appends to the parent exactly those children, in the order in
/// which they were pushed, and besides them only the marker nodes that it creates.
pub proof fn lemma_append_order(
    parent: NodeHandle,
    children: Seq<NodeHandle>,
    kinds: Seq<NodeKind>,
    flag: bool,
)
    requires
        forall|i: int| 0 <= i < children.len() ==> (#[trigger] children[i]) < kinds.len(),
        kinds.len() + children.len() <= usize::MAX,
    ensures
        appended_existing(append_run(parent, children, kinds, flag).0, kinds.len()) == children,
        all_to(append_run(parent, children, kinds, flag).0, parent),
    decreases children.len(),
{
    if children.len() > 0 {
        let pc = children.drop_last();
        lemma_append_order(parent, pc, kinds, flag);
        lemma_append_last(parent, children, kinds, flag);
        lemma_append_last_existing(parent, children, kinds, flag);
        assert(children.last() < kinds.len());
        assert(pc.push(children.last()) =~= children);
        let p = append_run(parent, pc, kinds, flag).0;
        let q = append_run(parent, children, kinds, flag).0;
        assert forall|i: int| 0 <= i < q.len() implies match #[trigger] q[i] {
            NativeOp::AppendChild { parent: pp, .. } => pp == parent,
            _ => true,
        } by {
            if i < p.len() {
                assert(q[i] == p[i]);
            }
        }
    }
}

proof fn lemma_adjacent_push(a: Seq<NodeHandle>, k: Seq<NodeKind>, x: NodeHandle)
    requires
        no_adjacent_text(a, k),
        a.len() > 0 ==> !(k[a.last() as int] == NodeKind::Text && k[x as int] == NodeKind::Text),
    ensures
        no_adjacent_text(a.push(x), k),
{
    let b = a.push(x);
    assert forall|i: int, j: int|
        #![trigger b[i], b[j]]
        0 <= i && j == i + 1 && j < b.len() implies !(k[b[i] as int] == NodeKind::Text
            && k[b[j] as int] == NodeKind::Text) by {
        if j < a.len() {
            assert(b[i] == a[i] && b[j] == a[j]);
        } else {
            assert(b[i] == a.last());
        }
    }
}

proof fn lemma_adjacent_same(a: Seq<NodeHandle>, k1: Seq<NodeKind>, k2: Seq<NodeKind>)
    requires
        no_adjacent_text(a, k1),
        forall|i: int| 0 <= i < a.len() ==> k1[(#[trigger] a[i]) as int] == k2[a[i] as int],
    ensures
        no_adjacent_text(a, k2),
{
    assert forall|i: int, j: int|
        #![trigger a[i], a[j]]
        0 <= i && j == i + 1 && j < a.len() implies !(k2[a[i] as int] == NodeKind::Text
            && k2[a[j] as int] == NodeKind::Text) by {
        assert(k1[a[i] as int] == k2[a[i] as int]);
        assert(k1[a[j] as int] == k2[a[j] as int]);
    }
}

/// What the text-adjacency law says of the nodes `a` appended so far, under `k`.
pub open spec fn adjacency_facts(
    a: Seq<NodeHandle>,
    k: Seq<NodeKind>,
    last_text: bool,
    flag: bool,
) -> bool {
    &&& forall|i: int| 0 <= i < a.len() ==> (#[trigger] a[i]) < k.len()
    &&& no_adjacent_text(a, k)
    &&& a.len() > 0 ==> (k[a.last() as int] == NodeKind::Text <==> last_text)
    &&& a.len() == 0 ==> last_text == flag
    &&& flag && a.len() > 0 ==> k[a[0] as int] != NodeKind::Text
}

proof fn lemma_adjacency_step(
    ap: Seq<NodeHandle>,
    kp: Seq<NodeKind>,
    a: Seq<NodeHandle>,
    k: Seq<NodeKind>,
    c: NodeHandle,
    h: NodeHandle,
    marker: bool,
    prev_flag: bool,
    new_flag: bool,
    flag: bool,
)
    requires
        adjacency_facts(ap, kp, prev_flag, flag),
        c < kp.len() <= k.len(),
        forall|j: int| 0 <= j < kp.len() ==> #[trigger] k[j] == kp[j],
        marker ==> h < k.len() && k[h as int] == NodeKind::Marker && a == ap.push(h).push(c)
            && k[c as int] == NodeKind::Text && prev_flag && new_flag,
        !marker ==> a == ap.push(c) && new_flag == (k[c as int] == NodeKind::Text) && (k[c as int]
            == NodeKind::Text ==> !prev_flag),
    ensures
        adjacency_facts(a, k, new_flag, flag),
{
    assert forall|i: int| 0 <= i < ap.len() implies kp[(#[trigger] ap[i]) as int] == k[ap[i] as int] by {
        assert(ap[i] < kp.len());
    }
    lemma_adjacent_same(ap, kp, k);
    if marker {
        lemma_adjacent_push(ap, k, h);
        lemma_adjacent_push(ap.push(h), k, c);
    } else {
        lemma_adjacent_push(ap, k, c);
    }
    assert forall|i: int| 0 <= i < a.len() implies (#[trigger] a[i]) < k.len() by {
        if i < ap.len() {
            assert(a[i] == ap[i]);
        }
    }
    if ap.len() > 0 {
        assert(a[0] == ap[0]);
    }
}

/// Among the nodes that appending children appends, no two consecutive ones are
/// text nodes; and when the node appended before them was a text node, the first
/// of them is not one.
pub proof fn lemma_append_no_adjacent_text(
    parent: NodeHandle,
    children: Seq<NodeHandle>,
    kinds: Seq<NodeKind>,
    flag: bool,
)
    requires
        forall|i: int| 0 <= i < children.len() ==> (#[trigger] children[i]) < kinds.len(),
        kinds.len() + children.len() <= usize::MAX,
    ensures
        adjacency_facts(
            appended(append_run(parent, children, kinds, flag).0),
            kinds + markers(append_run(parent, children, kinds, flag).1),
            append_run(parent, children, kinds, flag).2,
            flag,
        ),
    decreases children.len(),
{
    if children.len() > 0 {
        let pc = children.drop_last();
        lemma_append_no_adjacent_text(parent, pc, kinds, flag);
        lemma_append_last(parent, children, kinds, flag);
        lemma_markers_bound(parent, pc, kinds, flag);
        let p = append_run(parent, pc, kinds, flag);
        let r = append_run(parent, children, kinds, flag);
        let kp = kinds + markers(p.1);
        let k = kinds + markers(r.1);
        let c = children.last();
        let h = (kinds.len() + p.1) as NodeHandle;
        let marker = kinds[c as int] == NodeKind::Text && p.2;
        assert(c < kinds.len());
        if marker {
            assert(k =~= kp.push(NodeKind::Marker));
        } else {
            assert(k =~= kp);
        }
        lemma_adjacency_step(appended(p.0), kp, appended(r.0), k, c, h, marker, p.2, r.2, flag);
    }
}

proof fn lemma_digit(d: nat)
    requires
        d < 10,
    ensures
        is_digit(digit_char(d)),
        digit_value(digit_char(d)) == d,
{
}

proof fn lemma_decimal(x: nat)
    ensures
        decimal(x).len() > 0,
        all_digits(decimal(x)),
        digits_value(decimal(x)) == x,
    decreases x,
{
    if x < 10 {
        lemma_digit(x);
        assert(decimal(x).drop_last() =~= Seq::<char>::empty());
        assert(digits_value(Seq::<char>::empty()) == 0);
        assert(digits_value(decimal(x)) == digits_value(Seq::<char>::empty()) * 10 + digit_value(digit_char(x)));
    } else {
        lemma_decimal(x / 10);
        lemma_digit(x % 10);
        let d = decimal(x);
        assert(d.drop_last() =~= decimal(x / 10));
        assert(d.last() == digit_char(x % 10));
        assert(x == (x / 10) * 10 + x % 10) by (nonlinear_arith);
        assert(digits_value(d) == digits_value(decimal(x / 10)) * 10 + digit_value(digit_char(x % 10)));
        assert forall|i: int| 0 <= i < d.len() implies is_digit(#[trigger] d[i]) by {
            if i < d.len() - 1 {
                assert(d[i] == decimal(x / 10)[i]);
            }
        }
    }
}

proof fn lemma_parse_decimal(x: u64)
    ensures
        parse_u64_spec(decimal(x as nat)) == Some(x),
{
    lemma_decimal(x as nat);
    let d = decimal(x as nat);
    assert(is_digit(d[0]));
    assert(unsigned_part(d) == d);
}

proof fn lemma_next_dot_skip(s: Seq<char>, from: int, to: int)
    requires
        0 <= from <= to <= s.len(),
        forall|j: int| from <= j < to ==> s[j] != '.',
    ensures
        next_dot(s, from) == next_dot(s, to),
    decreases to - from,
{
    if from < to {
        lemma_next_dot_skip(s, from + 1, to);
    }
}

/// The reservation attribute value written for a component id and a node id decodes
/// to exactly that pair.
pub proof fn lemma_reservation_round_trip(scope: u64, node: u64)
    ensures
        decode_spec(reservation_value(scope, node)) == Some((scope, node)),
{
    let a = decimal(scope as nat);
    let b = decimal(node as nat);
    let v = reservation_value(scope, node);
    lemma_decimal(scope as nat);
    lemma_decimal(node as nat);
    lemma_parse_decimal(scope);
    lemma_parse_decimal(node);
    assert forall|j: int| 0 <= j < a.len() implies v[j] != '.' by {
        assert(v[j] == a[j]);
        assert(is_digit(a[j]));
    }
    lemma_next_dot_skip(v, 0, a.len() as int);
    assert(v[a.len() as int] == '.');
    let p = a.len() as int;
    assert(next_dot(v, 0) == p);
    assert forall|j: int| p + 1 <= j < v.len() implies v[j] != '.' by {
        assert(v[j] == b[j - p - 1]);
        assert(is_digit(b[j - p - 1]));
    }
    lemma_next_dot_skip(v, p + 1, v.len() as int);
    assert(next_dot(v, p + 1) == v.len());
    assert(v.subrange(0, p) =~= a);
    assert(v.subrange(p + 1, v.len() as int) =~= b);
}

} // verus!
