use pydeps::render::tree_builder_of;
use pydeps::tree::DepTree;

fn node(label: &str, children: Vec<DepTree>) -> DepTree {
    DepTree { label: label.to_string(), children }
}

#[test]
fn builder_holds_the_whole_tree() {
    let t = node("a", vec![node("b", vec![node("a (cycle)", vec![])]), node("c", vec![])]);
    let item = tree_builder_of(&t).expect("a shallow tree fits").build();
    assert_eq!(item.text, "a");
    assert_eq!(item.children.len(), 2);
    assert_eq!(item.children[0].text, "b");
    assert_eq!(item.children[0].children.len(), 1);
    assert_eq!(item.children[0].children[0].text, "a (cycle)");
    assert!(item.children[0].children[0].children.is_empty());
    assert_eq!(item.children[1].text, "c");
    assert!(item.children[1].children.is_empty());
}

#[test]
fn builder_of_a_leaf_is_its_root() {
    let item = tree_builder_of(&node("zzz", vec![])).expect("a leaf fits").build();
    assert_eq!(item.text, "zzz");
    assert!(item.children.is_empty());
}
