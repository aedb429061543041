use std::any::TypeId;

use dene::key_dispatch::dispatch_phases;
use dene::{DispatchNodeId, DispatchPhase, DispatchTree, FocusId, KeyContext};
use dene::{KeyDownEvent, KeyUpEvent, Keystroke, PlatformInput};

struct Quit;
struct Delete;

fn ctx(name: &str) -> KeyContext {
    KeyContext { name: name.to_string() }
}

fn ids(p: Vec<DispatchNodeId>) -> Vec<usize> {
    p.iter().map(|id| id.0).collect()
}

#[test]
fn new_tree_has_the_root_open() {
    let t: DispatchTree<u32, &'static str> = DispatchTree::new();
    assert_eq!(t.active_node_id(), Some(DispatchNodeId(0)));
    assert_eq!(t.root_node_id(), DispatchNodeId(0));
    assert!(t.node(DispatchNodeId(0)).parent.is_none());
    assert_eq!(ids(t.dispatch_path(DispatchNodeId(0)).ids()), vec![0]);
}

#[test]
fn push_and_pop_nodes() {
    let mut t: DispatchTree<u32, &'static str> = DispatchTree::new();
    let a = t.push_node();
    let b = t.push_node();
    assert_eq!((a.0, b.0), (1, 2));
    assert_eq!(t.node(b).parent, Some(a));
    assert_eq!(ids(t.dispatch_path(b).ids()), vec![0, 1, 2]);
    t.pop_node();
    assert_eq!(t.active_node_id(), Some(a));
    let c = t.push_node();
    assert_eq!(c.0, 3);
    assert_eq!(ids(t.dispatch_path(c).ids()), vec![0, 1, 3]);
    t.pop_node();
    t.pop_node();
    t.pop_node();
    assert_eq!(t.active_node_id(), None);
    let d = t.push_node();
    assert!(t.node(d).parent.is_none());
    assert_eq!(ids(t.dispatch_path(d).ids()), vec![4]);
}

#[test]
fn key_contexts_follow_the_open_nodes() {
    let mut t: DispatchTree<u32, &'static str> = DispatchTree::new();
    t.set_key_context(ctx("workspace"));
    let a = t.push_node();
    t.set_key_context(ctx("editor"));
    t.set_key_context(ctx("input"));
    assert_eq!(t.node(a).context.as_ref().map(|c| c.name.clone()), Some("input".to_string()));
    t.pop_node();
    let b = t.push_node();
    assert!(t.node(b).context.is_none());
    t.set_key_context(ctx("panel"));
    t.pop_node();
    t.pop_node();
    assert_eq!(t.active_node_id(), None);
}

#[test]
fn key_listeners_in_node_order() {
    let mut t: DispatchTree<u32, &'static str> = DispatchTree::new();
    t.on_key_event(1);
    t.push_node();
    t.on_key_event(2);
    t.on_key_event(3);
    t.pop_node();
    t.on_key_event(4);
    let all: Vec<u32> = t.all_key_listeners().into_iter().copied().collect();
    assert_eq!(all, vec![1, 4, 2, 3]);
}

#[test]
fn action_listeners_replace_per_type() {
    let mut t: DispatchTree<u32, &'static str> = DispatchTree::new();
    t.on_action(TypeId::of::<Quit>(), "root quit");
    t.push_node();
    t.on_action(TypeId::of::<Quit>(), "first");
    t.on_action(TypeId::of::<Quit>(), "second");
    t.on_action(TypeId::of::<Delete>(), "delete");
    let quit: Vec<&str> = t.all_action_listeners_for(TypeId::of::<Quit>()).into_iter().copied().collect();
    assert_eq!(quit, vec!["root quit", "second"]);
    let delete: Vec<&str> = t.all_action_listeners_for(TypeId::of::<Delete>()).into_iter().copied().collect();
    assert_eq!(delete, vec!["delete"]);
    assert!(t.all_action_listeners_for(TypeId::of::<u8>()).is_empty());
}

#[test]
fn dispatch_target_falls_back_to_root() {
    let mut t: DispatchTree<u32, &'static str> = DispatchTree::new();
    t.push_node();
    assert_eq!(t.focusable_node_id(FocusId(7)), None);
    assert_eq!(t.dispatch_target(Some(FocusId(7))), DispatchNodeId(0));
    assert_eq!(t.dispatch_target(None), DispatchNodeId(0));
}

#[test]
fn dispatch_phases_capture_then_bubble() {
    let path = [DispatchNodeId(0), DispatchNodeId(2), DispatchNodeId(5)];
    let phases = dispatch_phases(&path);
    let got: Vec<(usize, DispatchPhase)> = phases.into_iter().map(|(id, p)| (id.0, p)).collect();
    assert_eq!(
        got,
        vec![
            (0, DispatchPhase::Capture),
            (2, DispatchPhase::Capture),
            (5, DispatchPhase::Capture),
            (5, DispatchPhase::Bubble),
            (2, DispatchPhase::Bubble),
            (0, DispatchPhase::Bubble),
        ]
    );
    assert!(dispatch_phases(&[]).is_empty());
}

#[test]
fn key_down_travels_the_path_twice() {
    let mut t: DispatchTree<u32, &'static str> = DispatchTree::new();
    t.push_node();
    t.push_node();
    let down = PlatformInput::KeyDown(KeyDownEvent { keystroke: Keystroke::new("a".to_string()), is_held: false });
    let got: Vec<(usize, DispatchPhase)> =
        t.key_dispatch_schedule(None, &down).into_iter().map(|(id, p)| (id.0, p)).collect();
    assert_eq!(got, vec![(0, DispatchPhase::Capture), (0, DispatchPhase::Bubble)]);
    let up = PlatformInput::KeyUp(KeyUpEvent { keystroke: Keystroke::new("a".to_string()) });
    assert!(t.key_dispatch_schedule(Some(FocusId(3)), &up).is_empty());
}

#[test]
fn registered_listeners_keep_their_order_and_the_last_per_type_wins() {
    let mut t: DispatchTree<u32, &'static str> = DispatchTree::new();
    t.on_key_event(1);
    t.on_action(TypeId::of::<Delete>(), "old delete");
    let a = t.push_node();
    t.register_listeners(
        vec![2, 3, 4],
        vec![
            (TypeId::of::<Quit>(), "quit one"),
            (TypeId::of::<Delete>(), "delete"),
            (TypeId::of::<Quit>(), "quit two"),
        ],
    );
    assert_eq!(t.node(a).key_listeners, vec![2, 3, 4]);
    let all: Vec<u32> = t.all_key_listeners().into_iter().copied().collect();
    assert_eq!(all, vec![1, 2, 3, 4]);
    let quit: Vec<&str> = t.all_action_listeners_for(TypeId::of::<Quit>()).into_iter().copied().collect();
    assert_eq!(quit, vec!["quit two"]);
    let delete: Vec<&str> = t.all_action_listeners_for(TypeId::of::<Delete>()).into_iter().copied().collect();
    assert_eq!(delete, vec!["old delete", "delete"]);
    t.register_listeners(Vec::new(), Vec::new());
    assert_eq!(t.node(a).key_listeners, vec![2, 3, 4]);
}

#[test]
fn push_contexts_then_pop_restores_the_open_nodes() {
    let mut t: DispatchTree<u32, &'static str> = DispatchTree::new();
    t.set_key_context(ctx("workspace"));
    let a = t.push_node();
    t.set_key_context(ctx("editor"));
    t.set_key_context(ctx("input"));
    t.set_key_context(ctx("panel"));
    t.pop_node();
    assert_eq!(t.active_node_id(), Some(DispatchNodeId(0)));
    assert_eq!(t.node(DispatchNodeId(0)).context.as_ref().map(|c| c.name.clone()), Some("workspace".to_string()));
    assert_eq!(t.node(a).context.as_ref().map(|c| c.name.clone()), Some("panel".to_string()));
    let b = t.push_node();
    assert_eq!(b.0, a.0 + 1);
    assert_eq!(t.node(b).parent, Some(DispatchNodeId(0)));
}
