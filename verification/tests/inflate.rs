use slab_tree::NodeId;
use widget_tree::application::{Application, StoreError};
use widget_tree::multi_child::{Children, MultiPair, Pipe};
use widget_tree::widget::{Render, Widget};

const ROW: u64 = 0;
const LABELS: [&str; 4] = ["row", "Simple demo", "Adoo", "Recursive 3 times"];

fn text(label: &str) -> Widget {
    let key = LABELS.iter().position(|l| *l == label).unwrap() as u64;
    Widget::Render(Render { key })
}

fn leaf(key: u64) -> Widget {
    Widget::Render(Render { key })
}

fn embed_post(level: usize) -> Widget {
    let mut children = vec![text("Simple demo"), text("Adoo"), text("Recursive 3 times")];
    if level > 0 {
        children.push(embed_post(level - 1));
    }
    Widget::combination(Widget::MultiChild(Render { key: ROW }, children))
}

fn count_nodes(app: &Application, id: NodeId) -> usize {
    let mut n = 1;
    for c in app.children(id) {
        n += count_nodes(app, c);
    }
    n
}

fn fmt_tree(app: &Application, id: NodeId) -> String {
    let key = app.payload(id).unwrap().key;
    let children = app.children(id);
    if children.is_empty() {
        format!("{}", key)
    } else {
        let parts: Vec<String> = children.iter().map(|c| fmt_tree(app, *c)).collect();
        format!("{}({})", key, parts.join(","))
    }
}

fn inflated(w: Widget) -> (Application, NodeId) {
    let mut app = Application::new();
    let root = app.inflate(w);
    (app, root)
}

#[test]
fn widget_tree_inflate() {
    let post = embed_post(3);
    let mut app = Application::new();
    let root = app.inflate(post);
    assert_eq!(app.root_id(), Some(root));
    assert_eq!(count_nodes(&app, root), 16);
    assert_eq!(fmt_tree(&app, root), "0(1,2,3,0(1,2,3,0(1,2,3,0(1,2,3))))");
    let mut row = root;
    let mut rows = 1;
    loop {
        let children = app.children(row);
        assert_eq!(app.payload(row), Some(Render { key: ROW }));
        for (i, label) in ["Simple demo", "Adoo", "Recursive 3 times"].iter().enumerate() {
            let key = app.payload(children[i]).unwrap().key;
            assert_eq!(LABELS[key as usize], *label);
            assert!(app.children(children[i]).is_empty());
            assert_eq!(app.parent(children[i]), Some(row));
        }
        if children.len() == 3 {
            break;
        }
        assert_eq!(children.len(), 4);
        row = children[3];
        rows += 1;
    }
    assert_eq!(rows, 4);
}

#[test]
fn chain_of_single_children_keeps_its_shape() {
    let w = Widget::SingleChild(
        Render { key: 10 },
        Box::new(Widget::SingleChild(
            Render { key: 11 },
            Box::new(Widget::SingleChild(Render { key: 12 }, Box::new(leaf(13)))),
        )),
    );
    let (app, root) = inflated(w);
    assert_eq!(count_nodes(&app, root), 4);
    assert_eq!(fmt_tree(&app, root), "10(11(12(13)))");
    assert_eq!(app.parent(root), None);
    let mut id = root;
    for key in 10..13 {
        assert_eq!(app.payload(id), Some(Render { key }));
        let children = app.children(id);
        assert_eq!(children.len(), 1);
        assert_eq!(app.parent(children[0]), Some(id));
        id = children[0];
    }
    assert!(app.children(id).is_empty());
}

#[test]
fn lone_leaf_is_a_single_node() {
    let (app, root) = inflated(leaf(5));
    assert_eq!(count_nodes(&app, root), 1);
    assert_eq!(app.payload(root), Some(Render { key: 5 }));
    assert_eq!(app.parent(root), None);
    assert!(app.children(root).is_empty());
}

#[test]
fn children_keep_their_order_whatever_expands() {
    for mask in 0..8u32 {
        let mut children = Vec::new();
        for i in 0..3u64 {
            let child = Widget::SingleChild(Render { key: 100 + i }, Box::new(leaf(200 + i)));
            if mask & (1 << i) != 0 {
                children.push(Widget::combination(Widget::combination(child)));
            } else {
                children.push(child);
            }
        }
        let (app, root) = inflated(Widget::MultiChild(Render { key: 1 }, children));
        assert_eq!(fmt_tree(&app, root), "1(100(200),101(201),102(202))");
        let ids = app.children(root);
        assert_eq!(ids.len(), 3);
        for (i, id) in ids.iter().enumerate() {
            assert_eq!(app.payload(*id), Some(Render { key: 100 + i as u64 }));
            assert_eq!(app.parent(*id), Some(root));
        }
        assert_eq!(count_nodes(&app, root), 7);
    }
}

#[test]
fn combination_leaves_no_node() {
    let (direct, direct_root) = inflated(leaf(42));
    let (built, built_root) = inflated(Widget::combination(leaf(42)));
    assert_eq!(built.payload(built_root), direct.payload(direct_root));
    assert_eq!(built.children(built_root).len(), direct.children(direct_root).len());
    assert_eq!(count_nodes(&built, built_root), 1);
    assert_eq!(fmt_tree(&built, built_root), fmt_tree(&direct, direct_root));

    let nested = Widget::combination(Widget::combination(Widget::MultiChild(
        Render { key: 1 },
        vec![Widget::combination(leaf(2)), leaf(3)],
    )));
    let (app, root) = inflated(nested);
    assert_eq!(fmt_tree(&app, root), "1(2,3)");
}

#[test]
fn build_expands_once_and_split_gives_the_parts() {
    let inner = Widget::SingleChild(Render { key: 1 }, Box::new(leaf(2)));
    let same = Widget::SingleChild(Render { key: 1 }, Box::new(leaf(2)));
    assert_eq!(Widget::combination(same).build(), inner);
    assert_eq!(leaf(9).build(), leaf(9));
    assert_eq!(inner.split(), (Render { key: 1 }, vec![leaf(2)]));
    assert_eq!(leaf(9).split(), (Render { key: 9 }, vec![]));
    let row = Widget::MultiChild(Render { key: 3 }, vec![leaf(4), leaf(5)]);
    assert_eq!(row.split(), (Render { key: 3 }, vec![leaf(4), leaf(5)]));
}

#[test]
fn with_child_is_associative() {
    let p = Render { key: 7 };
    let (a, b, c, d) = (leaf(1), leaf(2), leaf(3), leaf(4));
    let two_steps = MultiPair::new(p, Children::Many(vec![leaf(1), leaf(2)]))
        .with_child(Children::Many(vec![leaf(3), leaf(4)]));
    let one_step = MultiPair::new(p, Children::Many(vec![leaf(1), leaf(2), leaf(3), leaf(4)]));
    let w2 = two_steps.into_widget_strict();
    let w1 = one_step.into_widget_strict();
    assert_eq!(w1, w2);
    assert_eq!(w2.split(), (p, vec![a, b, c, d]));
}

#[test]
fn children_of_every_form_are_flattened_in_order() {
    let p = Render { key: 7 };
    let pair = p
        .with_child(Children::Single(leaf(1)))
        .with_child(Children::Many(vec![leaf(2), leaf(3)]))
        .with_child(Children::Reactive(Pipe { current: vec![leaf(4), leaf(5)], subscription: 77 }))
        .with_child(Children::Single(Widget::combination(leaf(6))));
    assert_eq!(pair.subscription_handles(), vec![77]);
    let (w, handles) = pair.into_widget_with_handles();
    assert_eq!(handles, vec![77]);
    let (app, root) = inflated(w);
    assert_eq!(fmt_tree(&app, root), "7(1,2,3,4,5,6)");
    assert_eq!(
        Children::Reactive(Pipe { current: vec![leaf(4)], subscription: 1 }).into_child_multi(),
        vec![leaf(4)]
    );
    assert_eq!(Children::Single(leaf(8)).into_child_multi(), vec![leaf(8)]);
    assert_eq!(p.into_parent(), Widget::Render(p));
}

#[test]
fn no_children_is_no_error() {
    let p = Render { key: 7 };
    let pair = MultiPair::new(p, Children::Many(vec![]));
    assert_eq!(pair.subscription_handles(), Vec::<u64>::new());
    let w = pair.into_widget_strict();
    assert_eq!(w, Widget::MultiChild(p, vec![]));
    let (app, root) = inflated(w);
    assert_eq!(app.payload(root), Some(p));
    assert!(app.children(root).is_empty());
    assert_eq!(count_nodes(&app, root), 1);
}

#[test]
fn store_puts_a_new_child_first() {
    let mut app = Application::default();
    assert_eq!(app.root_id(), None);
    let root = app.create_root(Render { key: 1 });
    assert_eq!(app.root_id(), Some(root));
    let a = app.append_child(root, Render { key: 2 }).unwrap();
    let b = app.add_widget(Some(root), Render { key: 3 }).unwrap();
    assert_ne!(a, b);
    assert_ne!(a, root);
    assert_eq!(app.children(root), vec![b, a]);
    assert_eq!(app.payload(a), Some(Render { key: 2 }));
    assert_eq!(app.payload(b), Some(Render { key: 3 }));
    assert_eq!(app.parent(a), Some(root));
    assert_eq!(app.parent(root), None);
    assert!(app.children(a).is_empty());
    let c = app.append_child(a, Render { key: 4 }).unwrap();
    assert_eq!(app.children(a), vec![c]);
    assert_eq!(app.children(root), vec![b, a]);
    assert_eq!(fmt_tree(&app, root), "1(3,2(4))");
}

#[test]
fn store_rejects_unknown_parents() {
    let mut other = Application::new();
    let foreign = other.create_root(Render { key: 1 });

    let mut app = Application::new();
    assert_eq!(app.append_child(foreign, Render { key: 2 }), Err(StoreError::NoTree));
    assert_eq!(app.add_widget(Some(foreign), Render { key: 2 }), Err(StoreError::NoTree));
    assert_eq!(app.payload(foreign), None);
    assert_eq!(app.parent(foreign), None);
    assert!(app.children(foreign).is_empty());

    let root = app.add_widget(None, Render { key: 3 }).unwrap();
    assert_eq!(app.append_child(foreign, Render { key: 2 }), Err(StoreError::UnknownNode));
    assert_eq!(app.payload(foreign), None);
    assert_eq!(app.parent(foreign), None);
    assert!(app.children(foreign).is_empty());
    assert!(app.children(root).is_empty());
    assert_eq!(count_nodes(&app, root), 1);
}

#[test]
fn a_new_root_replaces_the_tree() {
    let mut app = Application::new();
    let first = app.create_root(Render { key: 1 });
    let child = app.append_child(first, Render { key: 2 }).unwrap();
    let second = app.create_root(Render { key: 9 });
    assert_eq!(app.root_id(), Some(second));
    assert_eq!(app.payload(second), Some(Render { key: 9 }));
    assert!(app.children(second).is_empty());
    assert_eq!(app.payload(first), None);
    assert_eq!(app.payload(child), None);

    let root = app.inflate(Widget::SingleChild(Render { key: 5 }, Box::new(leaf(6))));
    assert_eq!(app.root_id(), Some(root));
    assert_eq!(app.payload(second), None);
    assert_eq!(fmt_tree(&app, root), "5(6)");
}

#[test]
fn run_inflates_the_widget() {
    let app = Application::new().run(Widget::MultiChild(
        Render { key: 1 },
        vec![leaf(2), Widget::MultiChild(Render { key: 3 }, vec![leaf(4), leaf(5)]), leaf(6)],
    ));
    let root = app.root_id().unwrap();
    assert_eq!(fmt_tree(&app, root), "1(2,3(4,5),6)");
    assert_eq!(count_nodes(&app, root), 6);
}

#[test]
fn deep_nesting_needs_no_deep_call_stack() {
    let mut w = leaf(0);
    for _ in 0..20_000 {
        w = Widget::combination(Widget::SingleChild(Render { key: 1 }, Box::new(w)));
    }
    let mut app = Application::new();
    let root = app.inflate(w);
    let mut id = root;
    let mut n = 1;
    loop {
        let children = app.children(id);
        if children.is_empty() {
            break;
        }
        assert_eq!(children.len(), 1);
        id = children[0];
        n += 1;
    }
    assert_eq!(n, 20_001);
    assert_eq!(app.payload(id), Some(Render { key: 0 }));
}

#[test]
fn only_a_combination_needs_building() {
    assert!(Widget::combination(leaf(1)).needs_build());
    assert!(!leaf(1).needs_build());
    assert!(!Widget::SingleChild(Render { key: 1 }, Box::new(leaf(2))).needs_build());
    assert!(!Widget::MultiChild(Render { key: 1 }, vec![]).needs_build());
    let twice = Widget::combination(Widget::combination(leaf(1)));
    let once = twice.build();
    assert!(once.needs_build());
    assert_eq!(once.build(), leaf(1));
}
