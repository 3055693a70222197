//! Loading a dependency tree into ptree's `TreeBuilder`, which prints it.
use vstd::prelude::*;
use ptree::TreeBuilder;
use crate::tree::{forest_height, forest_view, height, tree_view, DepTree, TreeModel};

verus! {

/// ptree's `TreeBuilder`, held opaque; what it holds is given by
/// [`builder_entries`] and [`builder_level`].
#[verifier::external_type_specification]
#[verifier::external_body]
pub struct ExTreeBuilder(TreeBuilder);

/// The items that a builder holds, in pre-order, each with its depth (the
/// root at depth 0).
pub uninterp spec fn builder_entries(b: TreeBuilder) -> Seq<(nat, Seq<char>)>;

/// The depth of the builder's current item.
pub uninterp spec fn builder_level(b: TreeBuilder) -> nat;

/// Relies on `TreeBuilder::new`: the builder holds the root item alone and
/// the root is current.
#[verifier::external_body]
fn builder_new(text: String) -> (b: TreeBuilder)
    ensures
        builder_entries(b) == seq![(0nat, text@)],
        builder_level(b) == 0,
{
    TreeBuilder::new(text)
}

/// Relies on `TreeBuilder::begin_child`: the new item becomes the last
/// child of the current item, hence the last item in pre-order, one level
/// deeper, and becomes current. Its level counter is a `u32`.
#[verifier::external_body]
fn builder_begin_child(b: &mut TreeBuilder, text: String)
    requires
        builder_level(*old(b)) < u32::MAX,
    ensures
        builder_entries(*final(b)) == builder_entries(*old(b)).push(
            ((builder_level(*old(b)) + 1) as nat, text@),
        ),
        builder_level(*final(b)) == builder_level(*old(b)) + 1,
{
    b.begin_child(text);
}

/// Relies on `TreeBuilder::end_child`: the parent of the current item
/// becomes current; the items are unchanged.
#[verifier::external_body]
fn builder_end_child(b: &mut TreeBuilder)
    requires
        builder_level(*old(b)) > 0,
    ensures
        builder_entries(*final(b)) == builder_entries(*old(b)),
        builder_level(*final(b)) == builder_level(*old(b)) - 1,
{
    b.end_child();
}

/// The labels of a tree in pre-order, each with its depth; the root is at
/// `depth`.
pub open spec fn preorder(t: TreeModel, depth: nat) -> Seq<(nat, Seq<char>)>
    decreases t,
{
    seq![(depth, t.label)] + preorder_forest(t.children, depth + 1)
}

/// The pre-order entries of trees side by side, each root at `depth`.
pub open spec fn preorder_forest(s: Seq<TreeModel>, depth: nat) -> Seq<(nat, Seq<char>)>
    decreases s,
{
    if s.len() == 0 {
        seq![]
    } else {
        preorder_forest(s.subrange(0, s.len() - 1), depth) + preorder(s[s.len() - 1], depth)
    }
}

/// Whether a tree has at most `budget` levels below its root.
fn fits(t: &DepTree, budget: u32) -> (r: bool)
    ensures
        r == (height(tree_view(*t)) <= budget),
    decreases t,
{
    let ghost kids = t.children@;
    let mut i: usize = 0;
    if t.children.len() > 0 && budget == 0 {
        proof {
            lemma_forest_view_len(kids);
            lemma_forest_height_prefix(forest_view(kids), kids.len() as int);
        }
        return false;
    }
    while i < t.children.len()
        invariant
            i <= kids.len(),
            kids == t.children@,
            kids.len() > 0 ==> budget > 0,
            forest_height(forest_view(kids.subrange(0, i as int))) <= budget,
        decreases kids.len() - i,
    {
        proof {
            assert(decreases_to!(kids => kids[i as int]));
            lemma_forest_view_prefix(kids, i as int);
        }
        if !fits(&t.children[i], budget - 1) {
            proof {
                lemma_forest_view_len(kids);
                lemma_forest_height_prefix(forest_view(kids), i + 1);
                assert(forest_view(kids)[i as int] == forest_view(kids).subrange(0, i + 1)[i as int]);
            }
            return false;
        }
        proof {
            let f = forest_view(kids.subrange(0, i + 1));
            assert(f.subrange(0, f.len() - 1) =~= forest_view(kids.subrange(0, i as int)));
        }
        i += 1;
    }
    proof {
        assert(kids.subrange(0, kids.len() as int) =~= kids);
    }
    true
}

proof fn lemma_forest_view_len(s: Seq<DepTree>)
    ensures
        forest_view(s).len() == s.len(),
    decreases s.len(),
{
    if s.len() > 0 {
        lemma_forest_view_len(s.subrange(0, s.len() - 1));
    }
}

/// The forest of a prefix is the prefix of the forest.
proof fn lemma_forest_view_prefix(s: Seq<DepTree>, i: int)
    requires
        0 <= i < s.len(),
    ensures
        forest_view(s.subrange(0, i + 1)) == forest_view(s.subrange(0, i)).push(tree_view(s[i])),
        forest_view(s.subrange(0, i + 1)) == forest_view(s).subrange(0, i + 1),
    decreases s.len(),
{
    assert(s.subrange(0, i + 1).subrange(0, i) =~= s.subrange(0, i));
    if i + 1 < s.len() {
        let t = s.subrange(0, s.len() - 1);
        lemma_forest_view_prefix(t, i);
        assert(t.subrange(0, i + 1) =~= s.subrange(0, i + 1));
        lemma_forest_view_len(t);
        assert(forest_view(s).subrange(0, i + 1) =~= forest_view(t).subrange(0, i + 1));
    } else {
        assert(s.subrange(0, i + 1) =~= s);
        lemma_forest_view_len(s);
        assert(forest_view(s).subrange(0, i + 1) =~= forest_view(s));
    }
}

/// A prefix of trees is no higher than all of them.
proof fn lemma_forest_height_prefix(s: Seq<TreeModel>, k: int)
    requires
        0 <= k <= s.len(),
    ensures
        forest_height(s.subrange(0, k)) <= forest_height(s),
        k > 0 ==> 1 + height(s[k - 1]) <= forest_height(s),
    decreases s.len(),
{
    if k < s.len() {
        let t = s.subrange(0, s.len() - 1);
        lemma_forest_height_prefix(t, k);
        assert(t.subrange(0, k) =~= s.subrange(0, k));
        if k > 0 {
            assert(t[k - 1] == s[k - 1]);
        }
    } else {
        assert(s.subrange(0, k) =~= s);
    }
}

/// Adds a tree below the builder's current item.
fn add_subtree(b: &mut TreeBuilder, t: &DepTree)
    requires
        builder_level(*old(b)) + 1 + height(tree_view(*t)) <= u32::MAX,
    ensures
        builder_entries(*final(b)) == builder_entries(*old(b)) + preorder(
            tree_view(*t),
            builder_level(*old(b)) + 1,
        ),
        builder_level(*final(b)) == builder_level(*old(b)),
    decreases t,
{
    let ghost start = builder_entries(*b);
    let ghost level = builder_level(*b);
    let ghost kids = t.children@;
    builder_begin_child(b, t.label.clone());
    let mut i: usize = 0;
    proof {
        assert(preorder_forest(forest_view(kids.subrange(0, 0)), level + 2) =~= seq![]);
    }
    while i < t.children.len()
        invariant
            i <= kids.len(),
            kids == t.children@,
            level + 1 + height(tree_view(*t)) <= u32::MAX,
            builder_level(*b) == level + 1,
            builder_entries(*b) == start.push(((level + 1) as nat, t.label@)) + preorder_forest(
                forest_view(kids.subrange(0, i as int)),
                (level + 2) as nat,
            ),
        decreases kids.len() - i,
    {
        proof {
            assert(decreases_to!(kids => kids[i as int]));
            lemma_forest_view_prefix(kids, i as int);
            lemma_forest_view_len(kids);
            lemma_forest_height_prefix(forest_view(kids), i + 1);
            assert(forest_view(kids)[i as int] == forest_view(kids).subrange(0, i + 1)[i as int]);
        }
        add_subtree(b, &t.children[i]);
        proof {
            let f = forest_view(kids.subrange(0, i + 1));
            assert(f.subrange(0, f.len() - 1) =~= forest_view(kids.subrange(0, i as int)));
            assert(builder_entries(*b) =~= start.push(((level + 1) as nat, t.label@)) + preorder_forest(
                f,
                (level + 2) as nat,
            ));
        }
        i += 1;
    }
    builder_end_child(b);
    proof {
        assert(kids.subrange(0, kids.len() as int) =~= kids);
        assert(builder_entries(*b) =~= start + preorder(tree_view(*t), (level + 1) as nat));
    }
}

/// A builder that holds the dependency tree `t`, ready to be printed; `None`
/// where the tree is deeper than the builder can count.
pub fn tree_builder_of(t: &DepTree) -> (r: Option<TreeBuilder>)
    ensures
        r is Some <==> height(tree_view(*t)) < u32::MAX,
        r matches Some(b) ==> builder_entries(b) == preorder(tree_view(*t), 0),
{
    if !fits(t, u32::MAX - 1) {
        return None;
    }
    let ghost kids = t.children@;
    let mut b = builder_new(t.label.clone());
    let mut i: usize = 0;
    proof {
        assert(preorder_forest(forest_view(kids.subrange(0, 0)), 1) =~= seq![]);
    }
    while i < t.children.len()
        invariant
            i <= kids.len(),
            kids == t.children@,
            height(tree_view(*t)) < u32::MAX,
            builder_level(b) == 0,
            builder_entries(b) == seq![(0nat, t.label@)] + preorder_forest(
                forest_view(kids.subrange(0, i as int)),
                1,
            ),
        decreases kids.len() - i,
    {
        proof {
            lemma_forest_view_prefix(kids, i as int);
            lemma_forest_view_len(kids);
            lemma_forest_height_prefix(forest_view(kids), i + 1);
            assert(forest_view(kids)[i as int] == forest_view(kids).subrange(0, i + 1)[i as int]);
        }
        add_subtree(&mut b, &t.children[i]);
        proof {
            let f = forest_view(kids.subrange(0, i + 1));
            assert(f.subrange(0, f.len() - 1) =~= forest_view(kids.subrange(0, i as int)));
            assert(builder_entries(b) =~= seq![(0nat, t.label@)] + preorder_forest(f, 1));
        }
        i += 1;
    }
    proof {
        assert(kids.subrange(0, kids.len() as int) =~= kids);
        assert(builder_entries(b) =~= preorder(tree_view(*t), 0));
    }
    Some(b)
}

} // verus!
