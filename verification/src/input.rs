use vstd::prelude::*;

verus! {

/// Classification flags for one extracted value. All flags are independent,
/// except that `is_main_primary_content` only makes sense on values that are
/// also `is_primary_content` (see [`ValueView::wf`]).
#[derive(Clone, Copy, PartialEq, Eq, Structural, Debug)]
pub struct ContentValueMetadata {
    pub is_id: bool,
    pub is_url: bool,
    pub is_decorative: bool,
    pub is_action_link: bool,
    pub is_title: bool,
    pub is_primary_content: bool,
    pub is_main_primary_content: bool,
}

/// One labeled scalar extracted from the source document.
pub struct ContentValue {
    pub meta: ContentValueMetadata,
    pub name: String,
    pub value: String,
}

/// The mathematical image of a [`ContentValue`].
pub struct ValueView {
    pub meta: ContentValueMetadata,
    pub name: Seq<char>,
    pub value: Seq<char>,
}

impl ValueView {
    /// The one invariant on a single value: the "main primary content" flag
    /// marks a subset of the primary content.
    pub open spec fn wf(self) -> bool {
        self.meta.is_main_primary_content ==> self.meta.is_primary_content
    }
}

impl View for ContentValue {
    type V = ValueView;

    open spec fn view(&self) -> ValueView {
        ValueView { meta: self.meta, name: self.name@, value: self.value@ }
    }
}

impl Clone for ContentValue {
    fn clone(&self) -> (res: Self)
        ensures
            res == *self,
    {
        ContentValue { meta: self.meta, name: self.name.clone(), value: self.value.clone() }
    }
}

/// A tree node of extracted document content. `depth` follows the root-is-0
/// convention; `parent_id` is `None` only for the root (see [`NodeView::wf`]).
pub struct Content {
    pub id: String,
    pub parent_id: Option<String>,
    pub depth: usize,
    pub values: Vec<ContentValue>,
    pub children: Vec<Content>,
}

/// The mathematical image of a [`Content`] node.
pub struct NodeView {
    pub id: Seq<char>,
    pub parent_id: Option<Seq<char>>,
    pub depth: nat,
    pub values: Seq<ValueView>,
    pub children: Seq<NodeView>,
}

/// The images of a sequence of values, in order.
pub open spec fn values_view(s: Seq<ContentValue>) -> Seq<ValueView> {
    s.map_values(|v: ContentValue| v@)
}

/// The image of a whole node, children included.
pub open spec fn node_view(c: Content) -> NodeView
    decreases c,
{
    NodeView {
        id: c.id@,
        parent_id: match c.parent_id {
            Some(p) => Some(p@),
            None => None,
        },
        depth: c.depth as nat,
        values: values_view(c.values@),
        children: nodes_view(c.children@),
    }
}

/// The images of a sequence of nodes, in order.
pub open spec fn nodes_view(s: Seq<Content>) -> Seq<NodeView>
    decreases s,
{
    if s.len() == 0 {
        Seq::empty()
    } else {
        nodes_view(s.drop_last()).push(node_view(s.last()))
    }
}

impl View for Content {
    type V = NodeView;

    open spec fn view(&self) -> NodeView {
        node_view(*self)
    }
}

/// `nodes_view` is the element-wise image.
pub proof fn lemma_nodes_view(s: Seq<Content>)
    ensures
        nodes_view(s).len() == s.len(),
        forall|i: int| 0 <= i < s.len() ==> nodes_view(s)[i] == node_view(#[trigger] s[i]),
    decreases s,
{
    if s.len() > 0 {
        lemma_nodes_view(s.drop_last());
        assert forall|i: int| 0 <= i < s.len() implies nodes_view(s)[i] == node_view(#[trigger] s[i]) by {
            if i < s.len() - 1 {
                assert(s.drop_last()[i] == s[i]);
                assert(nodes_view(s)[i] == nodes_view(s.drop_last())[i]);
            } else {
                assert(s.last() == s[i]);
            }
        }
    }
}

/// A deep copy of one node, children included.
#[verifier::loop_isolation(false)]
fn clone_content(c: &Content) -> (res: Content)
    ensures
        node_view(res) == node_view(*c),
    decreases *c,
{
    let mut kids: Vec<Content> = Vec::new();
    let mut i: usize = 0;
    while i < c.children.len()
        invariant
            i <= c.children.len(),
            kids@.len() == i,
            forall|j: int| 0 <= j < i ==> node_view(kids@[j]) == node_view(c.children@[j]),
        decreases c.children.len() - i,
    {
        let kid = clone_content(&c.children[i]);
        kids.push(kid);
        i += 1;
    }
    let res = Content {
        id: c.id.clone(),
        parent_id: match &c.parent_id {
            Some(p) => Some(p.clone()),
            None => None,
        },
        depth: c.depth,
        values: c.values.clone(),
        children: kids,
    };
    proof {
        assert forall|j: int| 0 <= j < c.values@.len() implies res.values@[j] == c.values@[j] by {
            assert(cloned::<ContentValue>(c.values@[j], res.values@[j]));
        }
        assert(res.values@ =~= c.values@);
        lemma_nodes_view(res.children@);
        lemma_nodes_view(c.children@);
        assert forall|j: int| 0 <= j < c.children@.len() implies nodes_view(res.children@)[j]
            == nodes_view(c.children@)[j] by {
            assert(node_view(kids@[j]) == node_view(c.children@[j]));
        }
        assert(nodes_view(res.children@) =~= nodes_view(c.children@));
        assert(node_view(res) == node_view(*c));
    }
    res
}

impl Clone for Content {
    fn clone(&self) -> (res: Self)
        ensures
            res@ == self@,
    {
        clone_content(self)
    }
}

impl NodeView {
    /// A degenerate node carries no values and no children; it is an
    /// upstream extraction artifact and is excluded from every produced view.
    pub open spec fn degenerate(self) -> bool {
        self.values.len() == 0 && self.children.len() == 0
    }

    /// Well-formedness of a subtree: every value obeys the flag invariant,
    /// and every child sits one level deeper than its parent and points back
    /// at it.
    pub open spec fn wf(self) -> bool
        decreases self,
    {
        &&& forall|i: int| 0 <= i < self.values.len() ==> (#[trigger] self.values[i]).wf()
        &&& forall|i: int|
            0 <= i < self.children.len() ==> {
                &&& (#[trigger] self.children[i]).depth == self.depth + 1
                &&& self.children[i].parent_id == Some(self.id)
                &&& self.children[i].wf()
            }
    }
}

/// The deepest depth found in a subtree.
pub open spec fn spec_max_depth(n: NodeView) -> nat
    decreases n,
{
    let below = spec_max_depth_seq(n.children);
    if n.depth >= below {
        n.depth
    } else {
        below
    }
}

/// The deepest depth found under any node of a sequence; 0 for an empty one.
pub open spec fn spec_max_depth_seq(s: Seq<NodeView>) -> nat
    decreases s,
{
    if s.len() == 0 {
        0
    } else {
        let rest = spec_max_depth_seq(s.drop_last());
        let last = spec_max_depth(s.last());
        if rest >= last {
            rest
        } else {
            last
        }
    }
}

impl Content {
    /// The deepest depth found in this subtree, computed once at load.
    #[verifier::loop_isolation(false)]
    pub fn max_depth(&self) -> (r: usize)
        ensures
            r as nat == spec_max_depth(self@),
        decreases *self,
    {
        proof {
            lemma_nodes_view(self.children@);
        }
        let mut m: usize = self.depth;
        let mut i: usize = 0;
        while i < self.children.len()
            invariant
                i <= self.children.len(),
                m as nat == spec_max_depth_seq_prefix(nodes_view(self.children@), i as int, self.depth as nat),
            decreases self.children.len() - i,
        {
            proof {
                let cs = nodes_view(self.children@);
                assert(cs.subrange(0, i + 1).drop_last() =~= cs.subrange(0, i as int));
                assert(cs.subrange(0, i + 1).last() == cs[i as int]);
            }
            let cm = self.children[i].max_depth();
            if cm > m {
                m = cm;
            }
            i += 1;
        }
        proof {
            let cs = nodes_view(self.children@);
            assert(cs.subrange(0, cs.len() as int) =~= cs);
        }
        m
    }
}

/// The running maximum of `base` and the depths below the first `i` nodes of
/// `s`: what the scan of `max_depth` has seen so far.
pub open spec fn spec_max_depth_seq_prefix(s: Seq<NodeView>, i: int, base: nat) -> nat {
    let below = spec_max_depth_seq(s.subrange(0, i));
    if base >= below {
        base
    } else {
        below
    }
}

/// The wrapper handed over by the tree loader: one document tree.
pub struct Input {
    pub content: Content,
}

impl Clone for Input {
    fn clone(&self) -> (res: Self)
        ensures
            res.content@ == self.content@,
    {
        Input { content: self.content.clone() }
    }
}

} // verus!
