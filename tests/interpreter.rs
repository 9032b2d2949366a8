use dioxus_web_patch::interpreter::WebsysDom;
use dioxus_web_patch::native::{DomEdit, EditError, NativeOp, NodeKind, ElementRole};

fn s(x: &str) -> String {
    x.to_string()
}

fn create(tag: &str, id: u64) -> DomEdit {
    DomEdit::CreateElement { tag: s(tag), id }
}

fn text(t: &str, id: u64) -> DomEdit {
    DomEdit::CreateTextNode { text: s(t), id }
}

fn run(dom: &mut WebsysDom, edits: Vec<DomEdit>) -> Result<Vec<NativeOp>, EditError> {
    let mut edits = edits;
    let r = dom.process_edits(&mut edits);
    assert!(edits.is_empty());
    r
}

#[test]
fn scenario_div_with_span_child() {
    let mut dom = WebsysDom::new(0);
    let ops = run(&mut dom, vec![create("div", 1), create("span", 2), DomEdit::AppendChildren { many: 1 }]).unwrap();
    assert_eq!(
        ops,
        vec![
            NativeOp::CreateElement { node: 1, tag: s("div"), ns: None },
            NativeOp::CreateElement { node: 2, tag: s("span"), ns: None },
            NativeOp::AppendChild { parent: 1, child: 2 },
        ]
    );
    assert_eq!(dom.stack.list, vec![1]);
    assert_eq!(dom.lookup(1), Ok(1));
    assert_eq!(dom.lookup(2), Ok(2));
}

#[test]
fn set_class_overwrites() {
    let mut dom = WebsysDom::new(0);
    let ops = run(
        &mut dom,
        vec![
            create("div", 1),
            DomEdit::SetAttribute { field: s("class"), value: s("bar"), ns: None },
            DomEdit::SetAttribute { field: s("class"), value: s("foo"), ns: None },
        ],
    )
    .unwrap();
    assert_eq!(ops[2], NativeOp::SetClassName { node: 1, value: s("foo") });
    assert_eq!(ops.len(), 3);
}

#[test]
fn set_plain_attribute_and_svg_class() {
    let mut dom = WebsysDom::new(0);
    let svg = s("http://www.w3.org/2000/svg");
    let ops = run(
        &mut dom,
        vec![
            DomEdit::CreateElementNs { tag: s("circle"), id: 1, ns: svg.clone() },
            DomEdit::SetAttribute { field: s("class"), value: s("dot"), ns: Some(svg.clone()) },
            DomEdit::SetAttribute { field: s("r"), value: s("4"), ns: None },
        ],
    )
    .unwrap();
    assert_eq!(dom.kind_of(1), Some(NodeKind::Element(ElementRole::Svg)));
    assert_eq!(
        ops,
        vec![
            NativeOp::CreateElement { node: 1, tag: s("circle"), ns: Some(svg) },
            NativeOp::SetSvgClass { node: 1, value: s("dot") },
            NativeOp::SetAttribute { node: 1, name: s("r"), value: s("4") },
        ]
    );
}

#[test]
fn remove_value_resets_input() {
    let mut dom = WebsysDom::new(0);
    let ops = run(&mut dom, vec![create("input", 1), DomEdit::RemoveAttribute { name: s("value") }]).unwrap();
    assert_eq!(
        &ops[1..],
        &[NativeOp::RemoveAttribute { node: 1, name: s("value") }, NativeOp::ResetValue { node: 1 }]
    );
}

#[test]
fn remove_checked_and_selected() {
    let mut dom = WebsysDom::new(0);
    let ops = run(&mut dom, vec![create("input", 1), DomEdit::RemoveAttribute { name: s("checked") }]).unwrap();
    assert_eq!(ops[2], NativeOp::ResetChecked { node: 1 });
    let ops = run(&mut dom, vec![create("option", 2), DomEdit::RemoveAttribute { name: s("selected") }]).unwrap();
    assert_eq!(ops[2], NativeOp::ResetSelected { node: 2 });
    let ops = run(&mut dom, vec![create("div", 3), DomEdit::RemoveAttribute { name: s("value") }]).unwrap();
    assert_eq!(ops.len(), 2);
}

#[test]
fn consecutive_text_children_get_markers() {
    let mut dom = WebsysDom::new(0);
    let ops = run(
        &mut dom,
        vec![create("p", 1), text("a", 2), text("b", 3), text("c", 4), DomEdit::AppendChildren { many: 3 }],
    )
    .unwrap();
    assert_eq!(
        &ops[4..],
        &[
            NativeOp::AppendChild { parent: 1, child: 2 },
            NativeOp::CreateMarker { node: 5 },
            NativeOp::AppendChild { parent: 1, child: 5 },
            NativeOp::AppendChild { parent: 1, child: 3 },
            NativeOp::CreateMarker { node: 6 },
            NativeOp::AppendChild { parent: 1, child: 6 },
            NativeOp::AppendChild { parent: 1, child: 4 },
        ]
    );
    assert_eq!(dom.kind_of(5), Some(NodeKind::Marker));
    assert_eq!(dom.stack.list, vec![1]);
}

#[test]
fn append_keeps_push_order() {
    let mut dom = WebsysDom::new(0);
    let ops = run(
        &mut dom,
        vec![create("ul", 1), create("li", 2), create("li", 3), create("li", 4), DomEdit::AppendChildren { many: 3 }],
    )
    .unwrap();
    assert_eq!(
        &ops[4..],
        &[
            NativeOp::AppendChild { parent: 1, child: 2 },
            NativeOp::AppendChild { parent: 1, child: 3 },
            NativeOp::AppendChild { parent: 1, child: 4 },
        ]
    );
}

#[test]
fn append_zero_children() {
    let mut dom = WebsysDom::new(0);
    let ops = run(&mut dom, vec![create("div", 1), DomEdit::AppendChildren { many: 0 }]).unwrap();
    assert_eq!(ops.len(), 1);
    assert_eq!(dom.stack.list, vec![1]);
}

#[test]
fn balanced_stream_leaves_stack_empty() {
    let mut dom = WebsysDom::new(0);
    run(
        &mut dom,
        vec![DomEdit::PushRoot { id: 0 }, create("div", 1), DomEdit::AppendChildren { many: 1 }, DomEdit::PopRoot],
    )
    .unwrap();
    assert!(dom.stack.list.is_empty());
    assert_eq!(dom.lookup(0), Ok(0));
    assert_eq!(dom.lookup(1), Ok(1));
}

#[test]
fn unknown_id_aborts_stream() {
    let mut dom = WebsysDom::new(0);
    let r = run(&mut dom, vec![create("div", 1), DomEdit::PushRoot { id: 9 }, create("div", 2)]);
    assert_eq!(r, Err(EditError::UnknownNodeId(9)));
    assert_eq!(dom.lookup(2), Err(EditError::UnknownNodeId(2)));
}

#[test]
fn underflow_errors() {
    let mut dom = WebsysDom::new(0);
    assert_eq!(run(&mut dom, vec![DomEdit::PopRoot]), Err(EditError::StackUnderflow));
    assert_eq!(run(&mut dom, vec![DomEdit::AppendChildren { many: 1 }]), Err(EditError::StackUnderflow));
    assert_eq!(run(&mut dom, vec![DomEdit::SetText { text: s("x") }]), Err(EditError::StackUnderflow));
    assert_eq!(run(&mut dom, vec![DomEdit::Remove]), Err(EditError::StackUnderflow));
}

#[test]
fn replace_remove_and_text() {
    let mut dom = WebsysDom::new(0);
    let ops = run(
        &mut dom,
        vec![
            create("div", 1),
            create("b", 2),
            create("i", 3),
            DomEdit::ReplaceWith { many: 2 },
            DomEdit::SetText { text: s("hi") },
            DomEdit::Remove,
            DomEdit::RemoveAllChildren,
        ],
    )
    .unwrap();
    assert_eq!(
        &ops[3..],
        &[
            NativeOp::ReplaceWith { old: 1, new_nodes: vec![2, 3] },
            NativeOp::SetText { node: 3, text: s("hi") },
            NativeOp::Detach { node: 3 },
            NativeOp::RemoveAllChildren { node: 2 },
        ]
    );
    assert_eq!(dom.stack.list, vec![2]);
}

#[test]
fn placeholder_is_pre_element() {
    let mut dom = WebsysDom::new(0);
    let ops = run(&mut dom, vec![DomEdit::CreatePlaceholder { id: 5 }]).unwrap();
    assert_eq!(ops, vec![NativeOp::CreateElement { node: 1, tag: s("pre"), ns: None }]);
}

#[test]
fn listener_installed_once_and_counted() {
    let mut dom = WebsysDom::new(0);
    let listen = |node| DomEdit::NewEventListener { event_name: s("onclick"), scope: 42, mounted_node_id: node };
    let ops = run(&mut dom, vec![create("button", 1), listen(7), create("button", 2), listen(8)]).unwrap();
    let installs = ops.iter().filter(|o| matches!(o, NativeOp::InstallListener { .. })).count();
    assert_eq!(installs, 1);
    assert_eq!(
        ops[1],
        NativeOp::SetAttribute { node: 1, name: s("dioxus-event-click"), value: s("42.7") }
    );
    assert_eq!(ops[2], NativeOp::InstallListener { event: s("click") });
    assert_eq!(dom.listener_count("click"), 2);
    let ops = run(&mut dom, vec![DomEdit::RemoveEventListener { event: s("onclick") }]).unwrap();
    assert!(ops.is_empty());
    assert_eq!(dom.listener_count("click"), 1);
    let ops = run(&mut dom, vec![DomEdit::RemoveEventListener { event: s("onclick") }]).unwrap();
    assert_eq!(ops, vec![NativeOp::UninstallListener { event: s("click") }]);
    assert_eq!(dom.listener_count("click"), 0);
}

#[test]
fn listener_on_text_node_is_refused() {
    let mut dom = WebsysDom::new(0);
    let r = run(
        &mut dom,
        vec![text("t", 1), DomEdit::NewEventListener { event_name: s("onclick"), scope: 1, mounted_node_id: 1 }],
    );
    assert_eq!(r, Err(EditError::NotAnElement(1)));
}
