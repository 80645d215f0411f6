//! The document model: a read-only tree of elements with tag names,
//! child nodes and text, together with its ghost model, the full-text
//! operation, tag search, and the builder that assembles a tree from a
//! depth-first token stream.

use vstd::prelude::*;
use crate::normalize::str_eq;

verus! {

/// One step of a depth-first walk over a document: an element opens, a
/// text node occurs, or the innermost open element closes.
#[derive(Debug)]
pub enum DomToken {
    Open(String),
    Text(String),
    Close,
}

/// An element node: a tag name and the child nodes in document order.
#[derive(Debug)]
pub struct DomNode {
    pub tag: String,
    pub children: Vec<DomChild>,
}

/// A child of an element: a nested element or a run of text.
#[derive(Debug)]
pub enum DomChild {
    Elem(DomNode),
    Text(String),
}

/// Ghost counterpart of `DomToken`.
pub enum TokenModel {
    Open(Seq<char>),
    Text(Seq<char>),
    Close,
}

/// Ghost counterpart of `DomNode`.
pub struct NodeModel {
    pub tag: Seq<char>,
    pub children: Seq<ChildModel>,
}

/// Ghost counterpart of `DomChild`.
pub enum ChildModel {
    Elem(NodeModel),
    Text(Seq<char>),
}

pub open spec fn token_model(t: DomToken) -> TokenModel {
    match t {
        DomToken::Open(tag) => TokenModel::Open(tag@),
        DomToken::Text(s) => TokenModel::Text(s@),
        DomToken::Close => TokenModel::Close,
    }
}

pub open spec fn tokens_model(ts: Seq<DomToken>) -> Seq<TokenModel> {
    ts.map_values(|t: DomToken| token_model(t))
}

pub open spec fn node_model(n: DomNode) -> NodeModel
    decreases n, 0int,
{
    NodeModel { tag: n.tag@, children: children_model(n.children@, 0) }
}

pub open spec fn children_model(cs: Seq<DomChild>, i: int) -> Seq<ChildModel>
    decreases cs, cs.len() - i,
{
    if i < 0 || i >= cs.len() {
        Seq::empty()
    } else {
        seq![child_model(cs[i])] + children_model(cs, i + 1)
    }
}

pub open spec fn child_model(c: DomChild) -> ChildModel
    decreases c, 0int,
{
    match c {
        DomChild::Elem(n) => ChildModel::Elem(node_model(n)),
        DomChild::Text(s) => ChildModel::Text(s@),
    }
}

/// The concatenation of all descendant text, in document order.
pub open spec fn node_full_text(n: NodeModel) -> Seq<char>
    decreases n, 0int,
{
    children_text(n.children, 0)
}

pub open spec fn children_text(cs: Seq<ChildModel>, i: int) -> Seq<char>
    decreases cs, cs.len() - i,
{
    if i < 0 || i >= cs.len() {
        Seq::empty()
    } else {
        child_text(cs[i]) + children_text(cs, i + 1)
    }
}

pub open spec fn child_text(c: ChildModel) -> Seq<char>
    decreases c, 0int,
{
    match c {
        ChildModel::Elem(n) => node_full_text(n),
        ChildModel::Text(s) => s,
    }
}

/// `children_model` indexes to the per-child models.
pub proof fn lemma_children_model_index(cs: Seq<DomChild>, i: int)
    requires
        0 <= i <= cs.len(),
    ensures
        children_model(cs, i).len() == cs.len() - i,
        forall|j: int|
            i <= j < cs.len() ==> children_model(cs, i)[j - i] == child_model(#[trigger] cs[j]),
    decreases cs.len() - i,
{
    if i < cs.len() {
        lemma_children_model_index(cs, i + 1);
    }
}

/// The first element with the given tag, in a depth-first left-to-right
/// walk that starts at the node itself.
pub open spec fn find_tagged(n: NodeModel, tag: Seq<char>) -> Option<NodeModel>
    decreases n, 0int,
{
    if n.tag == tag {
        Some(n)
    } else {
        find_tagged_in_children(n.children, 0, tag)
    }
}

pub open spec fn find_tagged_in_children(cs: Seq<ChildModel>, i: int, tag: Seq<char>) -> Option<
    NodeModel,
>
    decreases cs, cs.len() - i,
{
    if i < 0 || i >= cs.len() {
        None
    } else {
        match cs[i] {
            ChildModel::Elem(c) => if find_tagged(c, tag) is Some {
                find_tagged(c, tag)
            } else {
                find_tagged_in_children(cs, i + 1, tag)
            },
            ChildModel::Text(_) => find_tagged_in_children(cs, i + 1, tag),
        }
    }
}

pub open spec fn empty_node(tag: Seq<char>) -> NodeModel {
    NodeModel { tag, children: Seq::empty() }
}

/// One step of the tree assembly: an opening tag starts a new innermost
/// element, text joins the innermost element, and a close folds the
/// innermost element into its parent.  A close with no open element to
/// match is ignored.
pub open spec fn apply_token(stack: Seq<NodeModel>, t: TokenModel) -> Seq<NodeModel> {
    match t {
        TokenModel::Open(tag) => stack.push(empty_node(tag)),
        TokenModel::Text(s) => if stack.len() == 0 {
            stack
        } else {
            let top = stack.last();
            stack.update(
                stack.len() - 1,
                NodeModel { tag: top.tag, children: top.children.push(ChildModel::Text(s)) },
            )
        },
        TokenModel::Close => if stack.len() < 2 {
            stack
        } else {
            let top = stack.last();
            let parent = stack[stack.len() - 2];
            stack.drop_last().update(
                stack.len() - 2,
                NodeModel { tag: parent.tag, children: parent.children.push(ChildModel::Elem(top)) },
            )
        },
    }
}

pub open spec fn run_tokens(stack: Seq<NodeModel>, ts: Seq<TokenModel>, i: int) -> Seq<NodeModel>
    decreases ts.len() - i,
{
    if i < 0 || i >= ts.len() {
        stack
    } else {
        run_tokens(apply_token(stack, ts[i]), ts, i + 1)
    }
}

pub open spec fn close_all(stack: Seq<NodeModel>) -> NodeModel
    decreases stack.len(),
{
    if stack.len() == 0 {
        empty_node(Seq::empty())
    } else if stack.len() == 1 {
        stack[0]
    } else {
        close_all(apply_token(stack, TokenModel::Close))
    }
}

/// The tree that a depth-first token stream describes, rooted in a
/// synthetic container with an empty tag name; elements left open at the
/// end of the stream are closed in turn.
pub open spec fn dom_of_tokens(ts: Seq<TokenModel>) -> NodeModel {
    close_all(run_tokens(seq![empty_node(Seq::empty())], ts, 0))
}

pub open spec fn stack_models(s: Seq<DomNode>) -> Seq<NodeModel> {
    s.map_values(|n: DomNode| node_model(n))
}

/// Appending a child extends the children's model by that child's model.
proof fn lemma_children_model_push(cs: Seq<DomChild>, c: DomChild, i: int)
    requires
        0 <= i <= cs.len(),
    ensures
        children_model(cs.push(c), i) == children_model(cs, i).push(child_model(c)),
    decreases cs.len() - i,
{
    if i < cs.len() {
        lemma_children_model_push(cs, c, i + 1);
        assert(cs.push(c)[i] == cs[i]);
        assert(seq![child_model(cs[i])] + children_model(cs, i + 1).push(child_model(c))
            =~= (seq![child_model(cs[i])] + children_model(cs, i + 1)).push(child_model(c)));
    } else {
        assert(cs.push(c)[i] == c);
        assert(children_model(cs.push(c), i + 1) =~= Seq::<ChildModel>::empty());
        assert(children_model(cs.push(c), i) =~= children_model(cs, i).push(child_model(c)));
    }
}

/// Assembles the tree a depth-first token stream describes; the result
/// is the model-level assembly of the same stream.
pub fn build_dom(tokens: &Vec<DomToken>) -> (r: DomNode)
    ensures
        node_model(r) == dom_of_tokens(tokens_model(tokens@)),
{
    let ghost tm = tokens_model(tokens@);
    let ghost init = seq![empty_node(Seq::<char>::empty())];
    let mut stack: Vec<DomNode> = Vec::new();
    stack.push(DomNode { tag: String::new(), children: Vec::new() });
    proof {
        assert(stack_models(stack@) =~= init);
    }
    let n: usize = tokens.len();
    let mut i: usize = 0;
    while i < n
        invariant
            i <= n,
            n == tokens@.len(),
            tm == tokens_model(tokens@),
            tm.len() == n,
            stack@.len() >= 1,
            run_tokens(stack_models(stack@), tm, i as int) == run_tokens(init, tm, 0),
        decreases n - i,
    {
        proof {
            assert(tm[i as int] == token_model(tokens@[i as int]));
        }
        let ghost pre = stack_models(stack@);
        let t: &DomToken = &tokens[i];
        match t {
            DomToken::Open(tag) => {
                let node = DomNode { tag: tag.clone(), children: Vec::new() };
                proof {
                    assert(node_model(node) == empty_node(tag@));
                }
                stack.push(node);
                proof {
                    assert(stack_models(stack@) =~= pre.push(empty_node(tag@)));
                }
            },
            DomToken::Text(s) => {
                let mut top = stack.pop().unwrap();
                let ghost old_top = top;
                top.children.push(DomChild::Text(s.clone()));
                proof {
                    lemma_children_model_push(old_top.children@, DomChild::Text(*s), 0);
                    assert(children_model(top.children@, 0) == children_model(
                        old_top.children@,
                        0,
                    ).push(ChildModel::Text(s@)));
                }
                stack.push(top);
                proof {
                    assert(pre.last() == node_model(old_top));
                    assert(stack_models(stack@) =~= pre.update(
                        pre.len() - 1,
                        NodeModel {
                            tag: old_top.tag@,
                            children: children_model(old_top.children@, 0).push(
                                ChildModel::Text(s@),
                            ),
                        },
                    ));
                }
            },
            DomToken::Close => {
                if stack.len() >= 2 {
                    let top = stack.pop().unwrap();
                    let mut parent = stack.pop().unwrap();
                    let ghost old_parent = parent;
                    parent.children.push(DomChild::Elem(top));
                    proof {
                        lemma_children_model_push(old_parent.children@, DomChild::Elem(top), 0);
                    }
                    stack.push(parent);
                    proof {
                        assert(pre.last() == node_model(top));
                        assert(pre[pre.len() - 2] == node_model(old_parent));
                        assert(stack_models(stack@) =~= pre.drop_last().update(
                            pre.len() - 2,
                            NodeModel {
                                tag: old_parent.tag@,
                                children: children_model(old_parent.children@, 0).push(
                                    ChildModel::Elem(node_model(top)),
                                ),
                            },
                        ));
                    }
                }
            },
        }
        proof {
            assert(stack_models(stack@) == apply_token(pre, tm[i as int]));
        }
        i = i + 1;
    }
    while stack.len() >= 2
        invariant
            stack@.len() >= 1,
            close_all(stack_models(stack@)) == close_all(run_tokens(init, tm, 0)),
        decreases stack@.len(),
    {
        let ghost pre = stack_models(stack@);
        let top = stack.pop().unwrap();
        let mut parent = stack.pop().unwrap();
        let ghost old_parent = parent;
        parent.children.push(DomChild::Elem(top));
        proof {
            lemma_children_model_push(old_parent.children@, DomChild::Elem(top), 0);
        }
        stack.push(parent);
        proof {
            assert(pre.last() == node_model(top));
            assert(pre[pre.len() - 2] == node_model(old_parent));
            assert(stack_models(stack@) =~= pre.drop_last().update(
                pre.len() - 2,
                NodeModel {
                    tag: old_parent.tag@,
                    children: children_model(old_parent.children@, 0).push(
                        ChildModel::Elem(node_model(top)),
                    ),
                },
            ));
            assert(stack_models(stack@) == apply_token(pre, TokenModel::Close));
        }
    }
    let ghost fin = stack_models(stack@);
    let r = stack.pop().unwrap();
    proof {
        assert(fin.last() == node_model(r));
        assert(close_all(fin) == fin[0]);
    }
    r
}

impl DomNode {
    /// The concatenation of all descendant text, in document order.
    pub fn full_text(&self) -> (r: Vec<char>)
        ensures
            r@ == node_full_text(node_model(*self)),
        decreases *self, 1int,
    {
        let ghost cm = children_model(self.children@, 0);
        proof {
            lemma_children_model_index(self.children@, 0);
        }
        let mut out: Vec<char> = Vec::new();
        let n: usize = self.children.len();
        let mut i: usize = 0;
        proof {
            assert(out@ + children_text(cm, 0) =~= children_text(cm, 0));
        }
        while i < n
            invariant
                i <= n,
                n == self.children@.len(),
                cm == children_model(self.children@, 0),
                cm.len() == n,
                forall|j: int|
                    0 <= j < n ==> cm[j] == child_model(#[trigger] self.children@[j]),
                out@ + children_text(cm, i as int) == children_text(cm, 0),
            decreases n - i, *self, 0int,
        {
            let c: &DomChild = &self.children[i];
            proof {
                assert(decreases_to!(*self, 1int => *c, 0int));
            }
            match c {
                DomChild::Elem(child) => {
                    let mut t = child.full_text();
                    proof {
                        assert(child_text(cm[i as int]) == t@);
                        assert((out@ + t@) + children_text(cm, i + 1) =~= out@ + (t@
                            + children_text(cm, i + 1)));
                    }
                    out.append(&mut t);
                },
                DomChild::Text(s) => {
                    let mut t = crate::normalize::str_to_chars(s.as_str());
                    proof {
                        assert(child_text(cm[i as int]) == t@);
                        assert((out@ + t@) + children_text(cm, i + 1) =~= out@ + (t@
                            + children_text(cm, i + 1)));
                    }
                    out.append(&mut t);
                },
            }
            i = i + 1;
        }
        proof {
            assert(children_text(cm, n as int) =~= Seq::<char>::empty());
            assert(out@ + children_text(cm, n as int) =~= out@);
        }
        out
    }

    /// The first element carrying the given tag, in a depth-first
    /// left-to-right walk that starts at this node.
    pub fn find_tagged<'a>(&'a self, tag: &str) -> (r: Option<&'a DomNode>)
        ensures
            match r {
                Some(e) => find_tagged(node_model(*self), tag@) == Some(node_model(*e)),
                None => find_tagged(node_model(*self), tag@) is None,
            },
        decreases *self, 1int,
    {
        if str_eq(self.tag.as_str(), tag) {
            return Some(self);
        }
        let ghost cm = children_model(self.children@, 0);
        proof {
            lemma_children_model_index(self.children@, 0);
        }
        let n: usize = self.children.len();
        let mut i: usize = 0;
        while i < n
            invariant
                i <= n,
                n == self.children@.len(),
                node_model(*self).tag != tag@,
                cm == children_model(self.children@, 0),
                cm == node_model(*self).children,
                cm.len() == n,
                forall|j: int|
                    0 <= j < n ==> cm[j] == child_model(#[trigger] self.children@[j]),
                find_tagged_in_children(cm, 0, tag@) == find_tagged_in_children(
                    cm,
                    i as int,
                    tag@,
                ),
            decreases n - i, *self, 0int,
        {
            let c: &DomChild = &self.children[i];
            proof {
                assert(decreases_to!(*self, 1int => *c, 0int));
            }
            match c {
                DomChild::Elem(child) => {
                    let r = child.find_tagged(tag);
                    if r.is_some() {
                        return r;
                    }
                },
                DomChild::Text(_) => {
                },
            }
            i = i + 1;
        }
        None
    }
}

} // verus!
