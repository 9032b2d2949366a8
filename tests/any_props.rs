use dioxus_web_patch::any_props::{new_any_props, settle_render, RenderOutcome, RenderReturn};

fn render(p: u32) -> Option<u32> {
    Some(p * 2)
}

fn same(a: &u32, b: &u32) -> bool {
    a == b
}

#[test]
fn memo_rejects_other_type() {
    let cell = new_any_props(render, same, 3u32, "Counter");
    assert!(!cell.memo_matches(None));
    assert!(cell.memo_matches(Some(&3)));
    assert!(!cell.memo_matches(Some(&4)));
}

#[test]
fn failed_render_is_empty() {
    assert_eq!(settle_render::<u32>(RenderOutcome::Failed), RenderReturn::Empty);
    assert_eq!(settle_render::<u32>(RenderOutcome::Returned(None)), RenderReturn::Empty);
    assert_eq!(settle_render(RenderOutcome::Returned(Some(5u32))), RenderReturn::Ready(5));
}

#[test]
fn duplicate_is_independent() {
    let cell = new_any_props(render, same, 3u32, "Counter");
    let copy = cell.duplicate();
    assert_eq!(*copy.props(), 3);
    assert_eq!(copy.name, "Counter");
    assert_eq!((copy.render_fn)(*copy.props()), Some(6));
}
