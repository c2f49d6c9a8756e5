//! The node tree: element and text nodes kept in a document arena,
//! identified by handles, with ordered child lists and parent links.
use vstd::prelude::*;
use crate::attribute::{toggled, Attribute, AttributeMap, AttributeView};
use crate::text::{
    chars_of, join_space, join_with_space, split_words, string_of, trim, trim_text, words,
};

verus! {

/// A handle on a node of a document; two handles are equal exactly when
/// they name the same node.
#[derive(Clone, Copy, Debug, PartialEq, Eq, Structural)]
pub struct NodeItem {
    pub id: usize,
}

/// A weak handle on a node.
#[derive(Clone, Copy, Debug, PartialEq, Eq, Structural)]
pub struct NodeRef {
    pub id: usize,
}

impl NodeRef {
    /// The node the handle refers to (nodes of a document are never freed).
    pub fn node(&self) -> (r: Option<NodeItem>)
        ensures
            r == Some(NodeItem { id: self.id }),
    {
        Some(NodeItem { id: self.id })
    }
}

impl NodeItem {
    pub fn as_ref(&self) -> (r: NodeRef)
        ensures
            r.id == self.id,
    {
        NodeRef { id: self.id }
    }

    pub fn node(&self) -> (r: NodeItem)
        ensures
            r == *self,
    {
        *self
    }
}

/// Where, relative to an element, adjacent content goes.
#[derive(Clone, Copy, Debug, PartialEq, Eq, Structural)]
pub enum AdjacentWhere {
    BeforeBegin,
    AfterBegin,
    BeforeEnd,
    AfterEnd,
}

/// The vertical extent of an element.
#[derive(Clone, Copy, Debug, PartialEq, Eq, Structural)]
pub struct BoundingBox {
    top: u32,
    bottom: u32,
}

#[derive(Clone, Copy, Debug, PartialEq, Eq, Structural)]
pub enum NodeType {
    Element,
    Text,
    Document,
    Fragment,
}

#[derive(Clone, Copy, Debug, PartialEq, Eq, Structural)]
pub enum NodeError {
    NotDesendent(NodeItem, NodeItem),
    /// The node is the target or one of its ancestors, so adding it under
    /// the target would put the node inside itself.
    WouldCreateCycle(NodeItem, NodeItem),
    CannotAppendToTextNode,
    CannotSetAttributeOfTextNode,
    NodeRefIsInvalid,
}

/// An ordered list of node handles.
#[derive(Clone, Debug)]
pub struct NodeList {
    items: Vec<NodeItem>,
}

impl View for NodeList {
    type V = Seq<NodeItem>;

    closed spec fn view(&self) -> Seq<NodeItem> {
        self.items@
    }
}

/// The position of the first occurrence of `x` in `s`, or -1.
pub open spec fn first_at(s: Seq<NodeItem>, x: NodeItem) -> int
    decreases s.len(),
{
    if s.len() == 0 {
        -1
    } else if s[0] == x {
        0
    } else {
        let r = first_at(s.drop_first(), x);
        if r < 0 {
            -1
        } else {
            r + 1
        }
    }
}

/// `s` without the first occurrence of `x`.
pub open spec fn remove_first(s: Seq<NodeItem>, x: NodeItem) -> Seq<NodeItem> {
    if first_at(s, x) >= 0 {
        s.remove(first_at(s, x))
    } else {
        s
    }
}

pub proof fn lemma_first_at(s: Seq<NodeItem>, x: NodeItem, i: int)
    requires
        0 <= i < s.len(),
        s[i] == x,
        forall|k: int| 0 <= k < i ==> s[k] != x,
    ensures
        first_at(s, x) == i,
    decreases i,
{
    if i > 0 {
        assert forall|k: int| 0 <= k < i - 1 implies s.drop_first()[k] != x by {
            assert(s.drop_first()[k] == s[k + 1]);
        }
        lemma_first_at(s.drop_first(), x, i - 1);
    }
}

pub proof fn lemma_first_at_absent(s: Seq<NodeItem>, x: NodeItem)
    requires
        forall|k: int| 0 <= k < s.len() ==> s[k] != x,
    ensures
        first_at(s, x) == -1,
    decreases s.len(),
{
    if s.len() > 0 {
        assert forall|k: int| 0 <= k < s.len() - 1 implies s.drop_first()[k] != x by {
            assert(s.drop_first()[k] == s[k + 1]);
        }
        lemma_first_at_absent(s.drop_first(), x);
    }
}

pub proof fn lemma_first_at_facts(s: Seq<NodeItem>, x: NodeItem)
    ensures
        -1 <= first_at(s, x) < s.len(),
        first_at(s, x) >= 0 <==> s.contains(x),
        first_at(s, x) >= 0 ==> s[first_at(s, x)] == x,
    decreases s.len(),
{
    if s.len() > 0 {
        lemma_first_at_facts(s.drop_first(), x);
        if s[0] == x {
            assert(s.contains(x));
        } else {
            if s.contains(x) {
                let k = choose|k: int| 0 <= k < s.len() && s[k] == x;
                assert(s.drop_first()[k - 1] == x);
            }
            if s.drop_first().contains(x) {
                let k = choose|k: int| 0 <= k < s.drop_first().len() && s.drop_first()[k] == x;
                assert(s[k + 1] == x);
            }
        }
    }
}

impl NodeList {
    pub fn new() -> (r: Self)
        ensures
            r@ == Seq::<NodeItem>::empty(),
    {
        NodeList { items: Vec::new() }
    }

    /// A list holding the given handles in order.
    pub fn from_items(items: Vec<NodeItem>) -> (r: Self)
        ensures
            r@ == items@,
    {
        NodeList { items }
    }

    /// The handles, in order.
    pub fn iter(&self) -> (r: Vec<NodeItem>)
        ensures
            r@ == self@,
    {
        self.items.clone()
    }

    pub fn at(&self, index: usize) -> (r: Option<NodeItem>)
        ensures
            r == (if index < self@.len() {
                Some(self@[index as int])
            } else {
                None
            }),
    {
        if index < self.items.len() {
            Some(self.items[index])
        } else {
            None
        }
    }

    pub fn len(&self) -> (r: usize)
        ensures
            r == self@.len(),
    {
        self.items.len()
    }

    pub fn insert_end(&mut self, node: NodeItem)
        ensures
            final(self)@ == old(self)@.push(node),
    {
        self.items.push(node);
    }

    pub fn insert_start(&mut self, node: NodeItem)
        ensures
            final(self)@ == seq![node] + old(self)@,
    {
        self.items.insert(0, node);
        assert(self.items@ =~= seq![node] + old(self)@);
    }

    /// The position of the first occurrence of `node`.
    pub fn find_node(&self, node: NodeItem) -> (r: Option<usize>)
        ensures
            match r {
                Some(i) => i as int == first_at(self@, node) && i < self@.len(),
                None => first_at(self@, node) == -1,
            },
    {
        let mut i: usize = 0;
        while i < self.items.len()
            invariant
                i <= self.items@.len(),
                forall|k: int| 0 <= k < i ==> self.items@[k] != node,
            decreases self.items.len() - i,
        {
            if self.items[i] == node {
                proof {
                    lemma_first_at(self.items@, node, i as int);
                }
                return Some(i);
            }
            i = i + 1;
        }
        proof {
            lemma_first_at_absent(self.items@, node);
        }
        None
    }

    /// Puts `new_node` just before the first occurrence of `ref_node`;
    /// false, with the list unchanged, when `ref_node` is not in it.
    pub fn insert_before(&mut self, new_node: NodeItem, ref_node: NodeItem) -> (r: bool)
        ensures
            r == (first_at(old(self)@, ref_node) >= 0),
            final(self)@ == (if r {
                old(self)@.insert(first_at(old(self)@, ref_node), new_node)
            } else {
                old(self)@
            }),
    {
        match self.find_node(ref_node) {
            Some(i) => {
                self.items.insert(i, new_node);
                true
            },
            None => false,
        }
    }

    /// Removes the first occurrence of `node`; false when there is none.
    pub fn remove_node(&mut self, node: NodeItem) -> (r: bool)
        ensures
            r == (first_at(old(self)@, node) >= 0),
            final(self)@ == remove_first(old(self)@, node),
    {
        match self.find_node(node) {
            Some(i) => {
                self.items.remove(i);
                true
            },
            None => false,
        }
    }
}

/// What a node holds.
pub enum NodeView {
    Element {
        tag: Seq<char>,
        attributes: Map<Seq<char>, AttributeView>,
        children: Seq<NodeItem>,
    },
    Text(Seq<char>),
}

/// A node and its parent link.
pub struct NodeState {
    pub data: NodeView,
    pub parent: Option<NodeItem>,
}

enum NodeData {
    Element { tag_name: String, attributes: AttributeMap, children: NodeList },
    Text(String),
}

struct NodeInner {
    data: NodeData,
    parrent: Option<NodeItem>,
}

impl View for NodeInner {
    type V = NodeState;

    closed spec fn view(&self) -> NodeState {
        NodeState {
            data: match &self.data {
                NodeData::Element { tag_name, attributes, children } => NodeView::Element {
                    tag: tag_name@,
                    attributes: attributes@,
                    children: children@,
                },
                NodeData::Text(s) => NodeView::Text(s@),
            },
            parent: self.parrent,
        }
    }
}

impl NodeInner {
    closed spec fn attrs_wf(&self) -> bool {
        match &self.data {
            NodeData::Element { attributes, .. } => attributes.wf(),
            NodeData::Text(_) => true,
        }
    }
}

// ---------------------------------------------------------------------------
// The tree as plain values.
/// The children of node `i` (none for a text node).
pub open spec fn kids(nodes: Seq<NodeState>, i: int) -> Seq<NodeItem> {
    match nodes[i].data {
        NodeView::Element { children, .. } => children,
        NodeView::Text(_) => Seq::empty(),
    }
}

pub open spec fn is_elem(nodes: Seq<NodeState>, i: int) -> bool {
    nodes[i].data is Element
}

pub open spec fn is_text(nodes: Seq<NodeState>, i: int) -> bool {
    nodes[i].data is Text
}

/// Node `i` with its child list replaced (a text node is left as it is).
pub open spec fn with_kids(nodes: Seq<NodeState>, i: int, ks: Seq<NodeItem>) -> Seq<NodeState> {
    match nodes[i].data {
        NodeView::Element { tag, attributes, children: _ } => nodes.update(
            i,
            NodeState {
                data: NodeView::Element { tag, attributes, children: ks },
                parent: nodes[i].parent,
            },
        ),
        NodeView::Text(_) => nodes,
    }
}

/// Node `i` with its attribute table replaced (a text node is left as it is).
pub open spec fn with_attrs(
    nodes: Seq<NodeState>,
    i: int,
    attrs: Map<Seq<char>, AttributeView>,
) -> Seq<NodeState> {
    match nodes[i].data {
        NodeView::Element { tag, attributes: _, children } => nodes.update(
            i,
            NodeState {
                data: NodeView::Element { tag, attributes: attrs, children },
                parent: nodes[i].parent,
            },
        ),
        NodeView::Text(_) => nodes,
    }
}

pub open spec fn attrs_of(nodes: Seq<NodeState>, i: int) -> Map<Seq<char>, AttributeView> {
    match nodes[i].data {
        NodeView::Element { attributes, .. } => attributes,
        NodeView::Text(_) => Map::empty(),
    }
}

pub open spec fn with_parent(nodes: Seq<NodeState>, n: int, p: Option<NodeItem>) -> Seq<NodeState> {
    nodes.update(n, NodeState { data: nodes[n].data, parent: p })
}

/// Node `n` taken out of the child list of its current parent (first
/// occurrence only); its own parent link is left alone.
pub open spec fn detach(nodes: Seq<NodeState>, n: int) -> Seq<NodeState> {
    match nodes[n].parent {
        Some(q) => with_kids(nodes, q.id as int, remove_first(kids(nodes, q.id as int), NodeItem { id: n as usize })),
        None => nodes,
    }
}

/// Node `n` detached from its parent and given `p` as parent.
pub open spec fn reparent(nodes: Seq<NodeState>, n: int, p: Option<NodeItem>) -> Seq<NodeState> {
    with_parent(detach(nodes, n), n, p)
}

/// The child list with every text node at position `from` or later left out.
pub open spec fn drop_texts_from(nodes: Seq<NodeState>, ks: Seq<NodeItem>, from: int) -> Seq<NodeItem>
    decreases ks.len(),
{
    if ks.len() == 0 || ks.len() <= from {
        ks
    } else if is_text(nodes, ks.last().id as int) {
        drop_texts_from(nodes, ks.drop_last(), from)
    } else {
        drop_texts_from(nodes, ks.drop_last(), from).push(ks.last())
    }
}

/// The position of the first text node in `ks`, or -1.
pub open spec fn first_text(nodes: Seq<NodeState>, ks: Seq<NodeItem>) -> int
    decreases ks.len(),
{
    if ks.len() == 0 {
        -1
    } else if is_text(nodes, ks[0].id as int) {
        0
    } else {
        let r = first_text(nodes, ks.drop_first());
        if r < 0 {
            -1
        } else {
            r + 1
        }
    }
}

pub open spec fn ids_valid(nodes: Seq<NodeState>) -> bool {
    forall|i: int, j: int|
        0 <= i < nodes.len() && 0 <= j < kids(nodes, i).len() ==> (#[trigger] kids(nodes, i)[j]).id
            < nodes.len()
}

pub open spec fn parents_valid(nodes: Seq<NodeState>) -> bool {
    forall|i: int|
        0 <= i < nodes.len() && (#[trigger] nodes[i]).parent is Some ==> nodes[i].parent->0.id
            < nodes.len()
}

/// Every child ranks strictly below its parent: the child lists form no cycle.
pub open spec fn ranked(nodes: Seq<NodeState>, rank: Map<int, nat>) -> bool {
    forall|i: int, j: int|
        0 <= i < nodes.len() && 0 <= j < kids(nodes, i).len() ==> rank[(#[trigger] kids(
            nodes,
            i,
        )[j]).id as int] < rank[i]
}

/// `b` is reachable from `a` in at most `k` steps along child lists.
pub open spec fn reach_within(nodes: Seq<NodeState>, a: int, b: int, k: nat) -> bool
    decreases k,
{
    a == b || (k > 0 && exists|j: int|
        0 <= j < kids(nodes, a).len() && reach_within(
            nodes,
            (#[trigger] kids(nodes, a)[j]).id as int,
            b,
            (k - 1) as nat,
        ))
}

/// `b` is `a` or one of its descendants.
pub open spec fn reaches(nodes: Seq<NodeState>, a: int, b: int) -> bool {
    exists|k: nat| #[trigger] reach_within(nodes, a, b, k)
}

/// The text of node `i`: a text node's own text; for an element the
/// trimmed texts of its children joined with single spaces. (`rank`
/// only proves the recursion finite; on a ranked tree it does not change
/// the value.)
pub open spec fn node_text(nodes: Seq<NodeState>, rank: Map<int, nat>, i: int) -> Seq<char>
    decreases rank[i], 1nat, 0nat,
{
    match nodes[i].data {
        NodeView::Text(s) => s,
        NodeView::Element { children, .. } => join_space(kids_texts(nodes, rank, rank[i], children)),
    }
}

pub open spec fn kids_texts(
    nodes: Seq<NodeState>,
    rank: Map<int, nat>,
    bound: nat,
    cs: Seq<NodeItem>,
) -> Seq<Seq<char>>
    decreases bound, 0nat, cs.len(),
{
    if cs.len() == 0 {
        Seq::empty()
    } else {
        kids_texts(nodes, rank, bound, cs.drop_last()).push(
            if rank[cs.last().id as int] < bound {
                trim(node_text(nodes, rank, cs.last().id as int))
            } else {
                Seq::empty()
            },
        )
    }
}

proof fn lemma_reach_step(nodes: Seq<NodeState>, x: int, j: int, b: int, k: nat)
    requires
        0 <= j < kids(nodes, x).len(),
        reach_within(nodes, kids(nodes, x)[j].id as int, b, k),
    ensures
        reach_within(nodes, x, b, k + 1),
{
    assert(reach_within(nodes, kids(nodes, x)[j].id as int, b, ((k + 1) - 1) as nat));
}

proof fn lemma_reaches_self(nodes: Seq<NodeState>, a: int)
    ensures
        reaches(nodes, a, a),
{
    assert(reach_within(nodes, a, a, 0));
}

/// Adding the edge `p -> c`, where `p` is not reachable from `c`, to a
/// ranked graph (and otherwise only keeping or dropping edges) leaves a
/// graph that the raised ranking orders.
proof fn lemma_rank_add_edge(
    nodes: Seq<NodeState>,
    nodes2: Seq<NodeState>,
    rank: Map<int, nat>,
    p: int,
    c: int,
) -> (rank2: Map<int, nat>)
    requires
        ranked(nodes, rank),
        ids_valid(nodes),
        nodes2.len() == nodes.len(),
        0 <= p < nodes.len(),
        0 <= c < nodes.len(),
        !reaches(nodes, c, p),
        forall|x: int, j: int|
            0 <= x < nodes2.len() && 0 <= j < kids(nodes2, x).len() ==> (x == p && (#[trigger] kids(
                nodes2,
                x,
            )[j]).id == c) || kids(nodes, x).contains(kids(nodes2, x)[j]),
    ensures
        ranked(nodes2, rank2),
{
    let rank2 = Map::new(
        |x: int| true,
        |x: int|
            if reaches(nodes, x, p) {
                rank[x] + rank[c] + 1
            } else {
                rank[x]
            },
    );
    assert forall|x: int, j: int|
        0 <= x < nodes2.len() && 0 <= j < kids(nodes2, x).len() implies rank2[(#[trigger] kids(
        nodes2,
        x,
    )[j]).id as int] < rank2[x] by {
        let y = kids(nodes2, x)[j].id as int;
        if kids(nodes, x).contains(kids(nodes2, x)[j]) {
            let j2 = choose|j2: int|
                0 <= j2 < kids(nodes, x).len() && kids(nodes, x)[j2] == kids(nodes2, x)[j];
            assert(rank[kids(nodes, x)[j2].id as int] < rank[x]);
            if reaches(nodes, y, p) {
                let k = choose|k: nat| #[trigger] reach_within(nodes, y, p, k);
                lemma_reach_step(nodes, x, j2, p, k);
                assert(reaches(nodes, x, p));
            }
        } else {
            assert(x == p && y == c);
            lemma_reaches_self(nodes, p);
        }
    }
    rank2
}

/// Dropping edges keeps a ranking valid.
proof fn lemma_rank_sub(nodes: Seq<NodeState>, nodes2: Seq<NodeState>, rank: Map<int, nat>)
    requires
        ranked(nodes, rank),
        nodes2.len() == nodes.len(),
        forall|x: int, j: int|
            0 <= x < nodes2.len() && 0 <= j < kids(nodes2, x).len() ==> kids(nodes, x).contains(
                #[trigger] kids(nodes2, x)[j],
            ),
    ensures
        ranked(nodes2, rank),
{
    assert forall|x: int, j: int|
        0 <= x < nodes2.len() && 0 <= j < kids(nodes2, x).len() implies rank[(#[trigger] kids(
        nodes2,
        x,
    )[j]).id as int] < rank[x] by {
        let j2 = choose|j2: int|
            0 <= j2 < kids(nodes, x).len() && kids(nodes, x)[j2] == kids(nodes2, x)[j];
        assert(rank[kids(nodes, x)[j2].id as int] < rank[x]);
    }
}

/// The document after appending `n` to element `t`: `n` is pushed onto
/// `t`'s children, then taken out of its previous parent's list (first
/// occurrence) and given `t` as parent.
pub open spec fn appended(nodes: Seq<NodeState>, t: NodeItem, n: NodeItem) -> Seq<NodeState> {
    reparent(with_kids(nodes, t.id as int, kids(nodes, t.id as int).push(n)), n.id as int, Some(t))
}

/// The document after prepending `n` to element `t`: `n` is put in front
/// of `t`'s children, then taken out of its previous parent's list (first
/// occurrence) and given `t` as parent.
pub open spec fn prepended(nodes: Seq<NodeState>, t: NodeItem, n: NodeItem) -> Seq<NodeState> {
    reparent(with_kids(nodes, t.id as int, seq![n] + kids(nodes, t.id as int)), n.id as int, Some(t))
}

/// The document after removing child `n` from `t`: the first occurrence
/// of `n` leaves `t`'s children, then `n` is taken out of its parent's
/// list once more and left without parent.
pub open spec fn removed(nodes: Seq<NodeState>, t: NodeItem, n: NodeItem) -> Seq<NodeState> {
    reparent(with_kids(nodes, t.id as int, remove_first(kids(nodes, t.id as int), n)), n.id as int, None)
}

/// A document: the arena that owns every node.
pub struct Document {
    nodes: Vec<NodeInner>,
    rank: Ghost<Map<int, nat>>,
}

impl View for Document {
    type V = Seq<NodeState>;

    closed spec fn view(&self) -> Seq<NodeState> {
        self.nodes@.map_values(|n: NodeInner| n@)
    }
}

impl Document {
    closed spec fn shape_ok(&self) -> bool {
        &&& forall|i: int| 0 <= i < self.nodes@.len() ==> (#[trigger] self.nodes@[i]).attrs_wf()
        &&& ids_valid(self@)
        &&& parents_valid(self@)
    }

    pub closed spec fn wf(&self) -> bool {
        &&& self.shape_ok()
        &&& ranked(self@, self.rank@)
    }

    /// The text of node `i`; see `lemma_content` for its defining equations.
    pub closed spec fn content_of(&self, i: int) -> Seq<char> {
        node_text(self@, self.rank@, i)
    }

    /// The height bound that proves recursion over the tree finite.
    pub closed spec fn rank_of(&self, i: int) -> nat {
        self.rank@[i]
    }

    pub open spec fn valid(&self, n: NodeItem) -> bool {
        n.id < self@.len()
    }

    pub fn new() -> (d: Self)
        ensures
            d.wf(),
            d@ == Seq::<NodeState>::empty(),
    {
        let d = Document { nodes: Vec::new(), rank: Ghost(Map::empty()) };
        assert(d@ =~= Seq::<NodeState>::empty());
        d
    }

    fn push_node(&mut self, inner: NodeInner) -> (n: NodeItem)
        requires
            old(self).wf(),
            inner.attrs_wf(),
            inner@.parent is None,
            inner@.data matches NodeView::Element { children, .. } ==> children.len() == 0,
        ensures
            final(self).wf(),
            final(self)@ == old(self)@.push(inner@),
            n.id == old(self)@.len(),
    {
        let ghost pre = self@;
        let id = self.nodes.len();
        self.nodes.push(inner);
        proof {
            assert(self@ =~= pre.push(inner@));
            let new_rank = self.rank@.insert(id as int, 0);
            assert forall|i: int, j: int|
                0 <= i < self@.len() && 0 <= j < kids(self@, i).len() implies new_rank[(
            #[trigger] kids(self@, i)[j]).id as int] < new_rank[i] by {
                assert(i < pre.len());
                assert(kids(self@, i) == kids(pre, i));
                assert(kids(pre, i)[j].id < pre.len());
            }
            self.rank@ = new_rank;
            assert forall|i: int| 0 <= i < self.nodes@.len() implies (
            #[trigger] self.nodes@[i]).attrs_wf() by {
                if i < pre.len() {
                    assert(self.nodes@[i] == old(self).nodes@[i]);
                }
            }
            assert forall|i: int, j: int|
                0 <= i < self@.len() && 0 <= j < kids(self@, i).len() implies (#[trigger] kids(
                self@,
                i,
            )[j]).id < self@.len() by {
                if i < pre.len() {
                    assert(kids(self@, i) == kids(pre, i));
                }
            }
            assert forall|i: int|
                0 <= i < self@.len() && (#[trigger] self@[i]).parent is Some implies self@[i].parent->0.id
                < self@.len() by {
                if i < pre.len() {
                    assert(self@[i] == pre[i]);
                }
            }
        }
        NodeItem { id }
    }

    /// A new text node with no parent.
    pub fn new_text(&mut self, text: &str) -> (n: NodeItem)
        requires
            old(self).wf(),
        ensures
            final(self).wf(),
            final(self)@ == old(self)@.push(NodeState { data: NodeView::Text(text@), parent: None }),
            n.id == old(self)@.len(),
    {
        let inner = NodeInner { data: NodeData::Text(String::from_str(text)), parrent: None };
        self.push_node(inner)
    }

    /// A new element with no attributes, no children and no parent.
    pub fn new_element(&mut self, tag_name: &str) -> (n: NodeItem)
        requires
            old(self).wf(),
        ensures
            final(self).wf(),
            final(self)@ == old(self)@.push(
                NodeState {
                    data: NodeView::Element {
                        tag: tag_name@,
                        attributes: Map::empty(),
                        children: Seq::empty(),
                    },
                    parent: None,
                },
            ),
            n.id == old(self)@.len(),
    {
        let inner = NodeInner {
            data: NodeData::Element {
                tag_name: String::from_str(tag_name),
                attributes: AttributeMap::new(),
                children: NodeList::new(),
            },
            parrent: None,
        };
        self.push_node(inner)
    }

    pub fn node_type(&self, n: NodeItem) -> (r: NodeType)
        requires
            self.valid(n),
        ensures
            r == (if is_elem(self@, n.id as int) {
                NodeType::Element
            } else {
                NodeType::Text
            }),
    {
        match &self.nodes[n.id].data {
            NodeData::Element { .. } => NodeType::Element,
            NodeData::Text(_) => NodeType::Text,
        }
    }

    /// The tag of an element; empty for a text node.
    pub fn tag_name(&self, n: NodeItem) -> (r: &str)
        requires
            self.valid(n),
        ensures
            r@ == (match self@[n.id as int].data {
                NodeView::Element { tag, .. } => tag,
                NodeView::Text(_) => Seq::empty(),
            }),
    {
        match &self.nodes[n.id].data {
            NodeData::Element { tag_name, .. } => tag_name.as_str(),
            NodeData::Text(_) => {
                proof {
                    reveal_strlit("");
                }
                ""
            },
        }
    }

    /// The children of a node, in order (an empty list for a text node).
    pub fn child_nodes(&self, n: NodeItem) -> (r: NodeList)
        requires
            self.valid(n),
        ensures
            r@ == kids(self@, n.id as int),
    {
        match &self.nodes[n.id].data {
            NodeData::Element { children, .. } => NodeList::from_items(children.iter()),
            NodeData::Text(_) => NodeList::new(),
        }
    }

    pub fn parrent_node(&self, n: NodeItem) -> (r: Option<NodeItem>)
        requires
            self.valid(n),
        ensures
            r == self@[n.id as int].parent,
    {
        self.nodes[n.id].parrent
    }

    /// Whether `other` is the node itself or one of its direct children.
    pub fn contains(&self, n: NodeItem, other: NodeItem) -> (r: bool)
        requires
            self.valid(n),
        ensures
            r == (other == n || kids(self@, n.id as int).contains(other)),
    {
        if other == n {
            return true;
        }
        match &self.nodes[n.id].data {
            NodeData::Element { children, .. } => {
                let f = children.find_node(other);
                proof {
                    lemma_first_at_facts(children@, other);
                }
                f.is_some()
            },
            NodeData::Text(_) => false,
        }
    }

    /// Whether `b` is `a` or a descendant of `a` along child lists.
    pub fn is_inclusive_ancestor(&self, a: NodeItem, b: NodeItem) -> (r: bool)
        requires
            self.wf(),
            self.valid(a),
        ensures
            r == reaches(self@, a.id as int, b.id as int),
        decreases self.rank_of(a.id as int),
    {
        if a == b {
            proof {
                lemma_reaches_self(self@, a.id as int);
            }
            return true;
        }
        let ks = self.child_nodes(a).iter();
        let mut i: usize = 0;
        while i < ks.len()
            invariant
                self.wf(),
                self.valid(a),
                a != b,
                ks@ == kids(self@, a.id as int),
                i <= ks@.len(),
                forall|j: int| 0 <= j < i ==> !reaches(self@, (#[trigger] ks@[j]).id as int, b.id as int),
            decreases ks.len() - i,
        {
            proof {
                assert(self.rank@[ks@[i as int].id as int] < self.rank@[a.id as int]);
                assert(ks@[i as int].id < self@.len());
            }
            if self.is_inclusive_ancestor(ks[i], b) {
                proof {
                    let k = choose|k: nat| #[trigger] reach_within(self@, ks@[i as int].id as int, b.id as int, k);
                    lemma_reach_step(self@, a.id as int, i as int, b.id as int, k);
                }
                return true;
            }
            i = i + 1;
        }
        proof {
            if reaches(self@, a.id as int, b.id as int) {
                let k = choose|k: nat| #[trigger] reach_within(self@, a.id as int, b.id as int, k);
                let j = choose|j: int|
                    0 <= j < kids(self@, a.id as int).len() && reach_within(
                        self@,
                        (#[trigger] kids(self@, a.id as int)[j]).id as int,
                        b.id as int,
                        (k - 1) as nat,
                    );
                assert(reaches(self@, ks@[j].id as int, b.id as int));
            }
        }
        false
    }

    fn is_element(&self, n: NodeItem) -> (r: bool)
        requires
            self.valid(n),
        ensures
            r == is_elem(self@, n.id as int),
    {
        match &self.nodes[n.id].data {
            NodeData::Element { .. } => true,
            NodeData::Text(_) => false,
        }
    }

    /// Takes the child list of element `t` out, leaving it empty.
    fn take_kids(&mut self, t: usize) -> (r: NodeList)
        requires
            old(self).shape_ok(),
            t < old(self)@.len(),
            is_elem(old(self)@, t as int),
        ensures
            final(self).shape_ok(),
            final(self).rank == old(self).rank,
            r@ == kids(old(self)@, t as int),
            final(self)@ == with_kids(old(self)@, t as int, Seq::empty()),
    {
        let ghost pre = self@;
        let mut out = NodeList::new();
        match &mut self.nodes[t].data {
            NodeData::Element { children, .. } => {
                std::mem::swap(children, &mut out);
            },
            NodeData::Text(_) => {},
        }
        proof {
            assert(self@ =~= with_kids(pre, t as int, Seq::empty()));
            self.lemma_shape_after_kids(pre, t as int);
        }
        out
    }

    /// Puts `ks` in as the child list of element `t`.
    fn put_kids(&mut self, t: usize, ks: NodeList)
        requires
            old(self).shape_ok(),
            t < old(self)@.len(),
            is_elem(old(self)@, t as int),
            forall|k: int| 0 <= k < ks@.len() ==> (#[trigger] ks@[k]).id < old(self)@.len(),
        ensures
            final(self).shape_ok(),
            final(self).rank == old(self).rank,
            final(self)@ == with_kids(old(self)@, t as int, ks@),
    {
        let ghost pre = self@;
        let ghost kv = ks@;
        let mut ks = ks;
        match &mut self.nodes[t].data {
            NodeData::Element { children, .. } => {
                std::mem::swap(children, &mut ks);
            },
            NodeData::Text(_) => {},
        }
        proof {
            assert(self@ =~= with_kids(pre, t as int, kv));
            self.lemma_shape_after_kids(pre, t as int);
        }
    }

    proof fn lemma_shape_after_kids(&self, pre: Seq<NodeState>, t: int)
        requires
            0 <= t < pre.len(),
            self@.len() == pre.len(),
            forall|i: int| 0 <= i < pre.len() && i != t ==> #[trigger] self@[i] == pre[i],
            self@[t].parent == pre[t].parent,
            is_elem(self@, t),
            forall|k: int| 0 <= k < kids(self@, t).len() ==> (#[trigger] kids(self@, t)[k]).id < pre.len(),
            ids_valid(pre),
            parents_valid(pre),
            forall|i: int| 0 <= i < self.nodes@.len() && i != t ==> (#[trigger] self.nodes@[i]).attrs_wf(),
            self.nodes@[t].attrs_wf(),
        ensures
            self.shape_ok(),
    {
        assert forall|i: int, j: int|
            0 <= i < self@.len() && 0 <= j < kids(self@, i).len() implies (#[trigger] kids(self@, i)[j]).id
            < self@.len() by {
            if i != t {
                assert(kids(self@, i) == kids(pre, i));
            }
        }
        assert forall|i: int|
            0 <= i < self@.len() && (#[trigger] self@[i]).parent is Some implies self@[i].parent->0.id
            < self@.len() by {
            if i != t {
                assert(self@[i] == pre[i]);
            }
        }
        assert forall|i: int| 0 <= i < self.nodes@.len() implies (#[trigger] self.nodes@[i]).attrs_wf() by {
        }
    }

    /// Node `n` taken out of its parent's child list and given `p` as parent.
    fn set_parrent(&mut self, n: NodeItem, p: Option<NodeItem>)
        requires
            old(self).shape_ok(),
            old(self).valid(n),
            p matches Some(q) ==> q.id < old(self)@.len(),
        ensures
            final(self).shape_ok(),
            final(self).rank == old(self).rank,
            final(self)@ == reparent(old(self)@, n.id as int, p),
    {
        let ghost pre = self@;
        proof {
            assert(self@[n.id as int].parent == self.nodes@[n.id as int].parrent);
        }
        match self.nodes[n.id].parrent {
            Some(q) => {
                assert(self@[n.id as int].parent is Some);
                assert(q.id < self@.len());
                if self.is_element(q) {
                    let mut ks = self.take_kids(q.id);
                    ks.remove_node(n);
                    proof {
                        assert forall|k: int| 0 <= k < ks@.len() implies (#[trigger] ks@[k]).id < self@.len() by {
                            lemma_remove_first_sub(kids(pre, q.id as int), n, k);
                        }
                    }
                    self.put_kids(q.id, ks);
                    assert(self@ =~= detach(pre, n.id as int));
                } else {
                    assert(detach(pre, n.id as int) =~= pre);
                }
            },
            None => {},
        }
        let ghost mid = self@;
        self.nodes[n.id].parrent = p;
        proof {
            assert(self@ =~= with_parent(mid, n.id as int, p));
            assert forall|i: int, j: int|
                0 <= i < self@.len() && 0 <= j < kids(self@, i).len() implies (#[trigger] kids(self@, i)[j]).id
                < self@.len() by {
                assert(kids(self@, i) == kids(mid, i));
            }
            assert forall|i: int|
                0 <= i < self@.len() && (#[trigger] self@[i]).parent is Some implies self@[i].parent->0.id
                < self@.len() by {
                if i != n.id {
                    assert(self@[i] == mid[i]);
                }
            }
            assert forall|i: int| 0 <= i < self.nodes@.len() implies (#[trigger] self.nodes@[i]).attrs_wf() by {
            }
        }
    }

    proof fn lemma_ranked_reparent(pre: Seq<NodeState>, mid: Seq<NodeState>, post: Seq<NodeState>, n: int, p: Option<NodeItem>)
        requires
            post == reparent(mid, n, p),
            0 <= n < mid.len(),
            parents_valid(mid),
        ensures
            post.len() == mid.len(),
            forall|x: int, j: int|
                0 <= x < post.len() && 0 <= j < kids(post, x).len() ==> kids(mid, x).contains(
                    #[trigger] kids(post, x)[j],
                ),
    {
        let d = detach(mid, n);
        assert forall|x: int, j: int|
            0 <= x < post.len() && 0 <= j < kids(post, x).len() implies kids(mid, x).contains(
                #[trigger] kids(post, x)[j],
            ) by {
            assert(kids(post, x) == kids(d, x));
            match mid[n].parent {
                Some(q) => {
                    if x == q.id && is_elem(mid, x) {
                        lemma_remove_first_sub(kids(mid, x), NodeItem { id: n as usize }, j);
                    } else {
                        assert(kids(d, x) == kids(mid, x));
                    }
                },
                None => {},
            }
        }
    }

    /// Adds `node` as the last child of `target` and makes `target` its
    /// parent (taking it out of its previous parent's list first).
    pub fn append_node(&mut self, target: NodeItem, node: NodeItem) -> (r: Result<(), NodeError>)
        requires
            old(self).wf(),
            old(self).valid(target),
            old(self).valid(node),
        ensures
            final(self).wf(),
            is_elem(old(self)@, target.id as int) && !reaches(old(self)@, node.id as int, target.id as int)
                ==> r == Ok::<(), NodeError>(()) && final(self)@ == appended(old(self)@, target, node),
            is_elem(old(self)@, target.id as int) && reaches(old(self)@, node.id as int, target.id as int)
                ==> r == Err::<(), NodeError>(NodeError::WouldCreateCycle(target, node)) && final(self)@
                == old(self)@,
            !is_elem(old(self)@, target.id as int) ==> r == Err::<(), NodeError>(
                NodeError::CannotAppendToTextNode,
            ) && final(self)@ == old(self)@,
    {
        if !self.is_element(target) {
            return Err(NodeError::CannotAppendToTextNode);
        }
        if self.is_inclusive_ancestor(node, target) {
            return Err(NodeError::WouldCreateCycle(target, node));
        }
        let ghost pre = self@;
        let mut ks = self.take_kids(target.id);
        ks.insert_end(node);
        self.put_kids(target.id, ks);
        let ghost mid = self@;
        assert(mid =~= with_kids(pre, target.id as int, kids(pre, target.id as int).push(node)));
        self.set_parrent(node, Some(target));
        proof {
            Self::lemma_ranked_reparent(pre, mid, self@, node.id as int, Some(target));
            assert forall|x: int, j: int|
                0 <= x < mid.len() && 0 <= j < kids(mid, x).len() implies (x == target.id && (
            #[trigger] kids(mid, x)[j]).id == node.id) || kids(pre, x).contains(kids(mid, x)[j]) by {
                if x == target.id {
                    if j < kids(pre, x).len() {
                        assert(kids(mid, x)[j] == kids(pre, x)[j]);
                    }
                } else {
                    assert(kids(mid, x) == kids(pre, x));
                }
            }
            let r2 = Self::lemma_rank_after_insert(pre, mid, self@, self.rank@, target.id as int, node.id as int);
            self.rank@ = r2;
        }
        Ok(())
    }

    /// A ranking for `post`, whose child lists are those of `pre` with
    /// `c` added to the list of `t` and entries possibly dropped elsewhere.
    proof fn lemma_rank_after_insert(
        pre: Seq<NodeState>,
        mid: Seq<NodeState>,
        post: Seq<NodeState>,
        rank: Map<int, nat>,
        t: int,
        c: int,
    ) -> (r2: Map<int, nat>)
        requires
            ranked(pre, rank),
            ids_valid(pre),
            0 <= t < pre.len(),
            0 <= c < pre.len(),
            !reaches(pre, c, t),
            mid.len() == pre.len(),
            post.len() == pre.len(),
            forall|x: int, j: int|
                0 <= x < mid.len() && 0 <= j < kids(mid, x).len() ==> (x == t && (#[trigger] kids(mid, x)[j]).id
                    == c) || kids(pre, x).contains(kids(mid, x)[j]),
            forall|x: int, j: int|
                0 <= x < post.len() && 0 <= j < kids(post, x).len() ==> kids(mid, x).contains(
                    #[trigger] kids(post, x)[j],
                ),
        ensures
            ranked(post, r2),
    {
        assert forall|x: int, j: int|
            0 <= x < post.len() && 0 <= j < kids(post, x).len() implies (x == t && (#[trigger] kids(post, x)[j]).id
            == c) || kids(pre, x).contains(kids(post, x)[j]) by {
            assert(kids(mid, x).contains(kids(post, x)[j]));
            let j2 = choose|j2: int| 0 <= j2 < kids(mid, x).len() && kids(mid, x)[j2] == kids(post, x)[j];
            assert(x == t && kids(mid, x)[j2].id == c || kids(pre, x).contains(kids(mid, x)[j2]));
        }
        lemma_rank_add_edge(pre, post, rank, t, c)
    }
}

impl Document {
    /// Adds `node` as the first child of `target` and makes `target` its
    /// parent (taking it out of its previous parent's list first; when
    /// that parent is `target` itself the copy taken out is the first one,
    /// the one just added).
    pub fn prepend_node(&mut self, target: NodeItem, node: NodeItem) -> (r: Result<(), NodeError>)
        requires
            old(self).wf(),
            old(self).valid(target),
            old(self).valid(node),
        ensures
            final(self).wf(),
            is_elem(old(self)@, target.id as int) && !reaches(old(self)@, node.id as int, target.id as int)
                ==> r == Ok::<(), NodeError>(()) && final(self)@ == prepended(old(self)@, target, node),
            is_elem(old(self)@, target.id as int) && reaches(old(self)@, node.id as int, target.id as int)
                ==> r == Err::<(), NodeError>(NodeError::WouldCreateCycle(target, node)) && final(self)@
                == old(self)@,
            !is_elem(old(self)@, target.id as int) ==> r == Err::<(), NodeError>(
                NodeError::CannotAppendToTextNode,
            ) && final(self)@ == old(self)@,
    {
        if !self.is_element(target) {
            return Err(NodeError::CannotAppendToTextNode);
        }
        if self.is_inclusive_ancestor(node, target) {
            return Err(NodeError::WouldCreateCycle(target, node));
        }
        let ghost pre = self@;
        let mut ks = self.take_kids(target.id);
        ks.insert_start(node);
        self.put_kids(target.id, ks);
        let ghost mid = self@;
        assert(mid =~= with_kids(pre, target.id as int, seq![node] + kids(pre, target.id as int)));
        self.set_parrent(node, Some(target));
        proof {
            Self::lemma_ranked_reparent(pre, mid, self@, node.id as int, Some(target));
            assert forall|x: int, j: int|
                0 <= x < mid.len() && 0 <= j < kids(mid, x).len() implies (x == target.id && (
            #[trigger] kids(mid, x)[j]).id == node.id) || kids(pre, x).contains(kids(mid, x)[j]) by {
                if x == target.id {
                    if j > 0 {
                        assert(kids(mid, x)[j] == kids(pre, x)[j - 1]);
                    }
                } else {
                    assert(kids(mid, x) == kids(pre, x));
                }
            }
            let r2 = Self::lemma_rank_after_insert(pre, mid, self@, self.rank@, target.id as int, node.id as int);
            self.rank@ = r2;
        }
        Ok(())
    }

    /// Puts `new_node` into the child list of `target` just before the
    /// first occurrence of `ref_node` and makes `target` its parent.
    pub fn insert_before(&mut self, target: NodeItem, new_node: NodeItem, ref_node: NodeItem) -> (r: Result<
        (),
        NodeError,
    >)
        requires
            old(self).wf(),
            old(self).valid(target),
            old(self).valid(new_node),
        ensures
            final(self).wf(),
            !is_elem(old(self)@, target.id as int) ==> r == Err::<(), NodeError>(
                NodeError::CannotAppendToTextNode,
            ) && final(self)@ == old(self)@,
            is_elem(old(self)@, target.id as int) && kids(old(self)@, target.id as int).contains(ref_node)
                && reaches(old(self)@, new_node.id as int, target.id as int) ==> r == Err::<(), NodeError>(
                NodeError::WouldCreateCycle(target, new_node),
            ) && final(self)@ == old(self)@,
            is_elem(old(self)@, target.id as int) && kids(old(self)@, target.id as int).contains(ref_node)
                && !reaches(old(self)@, new_node.id as int, target.id as int) ==> r == Ok::<(), NodeError>(())
                && final(self)@ == reparent(
                with_kids(
                    old(self)@,
                    target.id as int,
                    kids(old(self)@, target.id as int).insert(
                        first_at(kids(old(self)@, target.id as int), ref_node),
                        new_node,
                    ),
                ),
                new_node.id as int,
                Some(target),
            ),
            is_elem(old(self)@, target.id as int) && !kids(old(self)@, target.id as int).contains(ref_node)
                ==> r == Err::<(), NodeError>(NodeError::NotDesendent(target, ref_node))
                && final(self)@ == old(self)@,
    {
        if !self.is_element(target) {
            return Err(NodeError::CannotAppendToTextNode);
        }
        let ghost pre = self@;
        let ghost old_rank = self.rank@;
        proof {
            lemma_first_at_facts(kids(pre, target.id as int), ref_node);
        }
        let listed = self.child_nodes(target).find_node(ref_node).is_some();
        if listed && self.is_inclusive_ancestor(new_node, target) {
            return Err(NodeError::WouldCreateCycle(target, new_node));
        }
        let mut ks = self.take_kids(target.id);
        let found = ks.insert_before(new_node, ref_node);
        proof {
            assert forall|k: int| 0 <= k < ks@.len() implies (#[trigger] ks@[k]).id < self@.len() by {
                if found {
                    let at = first_at(kids(pre, target.id as int), ref_node);
                    if k != at {
                        if k < at {
                            assert(ks@[k] == kids(pre, target.id as int)[k]);
                        } else {
                            assert(ks@[k] == kids(pre, target.id as int)[k - 1]);
                        }
                    }
                }
            }
        }
        self.put_kids(target.id, ks);
        if !found {
            proof {
                assert(self@ =~= pre);
            }
            return Err(NodeError::NotDesendent(target, ref_node));
        }
        let ghost mid = self@;
        self.set_parrent(new_node, Some(target));
        proof {
            Self::lemma_ranked_reparent(pre, mid, self@, new_node.id as int, Some(target));
            let at = first_at(kids(pre, target.id as int), ref_node);
            assert forall|x: int, j: int|
                0 <= x < mid.len() && 0 <= j < kids(mid, x).len() implies (x == target.id && (
            #[trigger] kids(mid, x)[j]).id == new_node.id) || kids(pre, x).contains(kids(mid, x)[j]) by {
                if x == target.id {
                    if j < at {
                        assert(kids(mid, x)[j] == kids(pre, x)[j]);
                    } else if j > at {
                        assert(kids(mid, x)[j] == kids(pre, x)[j - 1]);
                    }
                } else {
                    assert(kids(mid, x) == kids(pre, x));
                }
            }
            let r2 = Self::lemma_rank_after_insert(pre, mid, self@, old_rank, target.id as int, new_node.id as int);
            self.rank@ = r2;
        }
        Ok(())
    }

    /// Takes the first occurrence of `node` out of the child list of
    /// `target` and clears its parent link (taking it out of the list of
    /// that parent once more first).
    pub fn remove_node(&mut self, target: NodeItem, node: NodeItem) -> (r: Result<(), NodeError>)
        requires
            old(self).wf(),
            old(self).valid(target),
            old(self).valid(node),
        ensures
            final(self).wf(),
            kids(old(self)@, target.id as int).contains(node) ==> r == Ok::<(), NodeError>(())
                && final(self)@ == removed(old(self)@, target, node),
            !kids(old(self)@, target.id as int).contains(node) ==> r == Err::<(), NodeError>(
                NodeError::NotDesendent(target, node),
            ) && final(self)@ == old(self)@,
    {
        let ghost pre = self@;
        let ghost old_rank = self.rank@;
        proof {
            lemma_first_at_facts(kids(pre, target.id as int), node);
        }
        if !self.is_element(target) {
            return Err(NodeError::NotDesendent(target, node));
        }
        let mut ks = self.take_kids(target.id);
        let found = ks.remove_node(node);
        proof {
            assert forall|k: int| 0 <= k < ks@.len() implies (#[trigger] ks@[k]).id < self@.len() by {
                lemma_remove_first_sub(kids(pre, target.id as int), node, k);
            }
        }
        self.put_kids(target.id, ks);
        if !found {
            proof {
                assert(self@ =~= pre);
            }
            return Err(NodeError::NotDesendent(target, node));
        }
        let ghost mid = self@;
        self.set_parrent(node, None);
        proof {
            Self::lemma_ranked_reparent(pre, mid, self@, node.id as int, None);
            assert forall|x: int, j: int|
                0 <= x < self@.len() && 0 <= j < kids(self@, x).len() implies kids(pre, x).contains(
                #[trigger] kids(self@, x)[j],
            ) by {
                assert(kids(mid, x).contains(kids(self@, x)[j]));
                let j2 = choose|j2: int| 0 <= j2 < kids(mid, x).len() && kids(mid, x)[j2] == kids(self@, x)[j];
                if x == target.id {
                    lemma_remove_first_sub(kids(pre, x), node, j2);
                } else {
                    assert(kids(mid, x) == kids(pre, x));
                }
            }
            lemma_rank_sub(pre, self@, old_rank);
        }
        Ok(())
    }
}

/// `nodes` with text node `i` holding `v`.
pub open spec fn with_text(nodes: Seq<NodeState>, i: int, v: Seq<char>) -> Seq<NodeState> {
    nodes.update(i, NodeState { data: NodeView::Text(v), parent: nodes[i].parent })
}

/// The document after `set_content(n, v)`: a text node gets the text; an
/// element's first text child gets it and every later text child is
/// taken out of the element's list; an element without text children
/// gets a new parentless text node as its last child.
pub open spec fn content_set(nodes: Seq<NodeState>, n: int, v: Seq<char>) -> Seq<NodeState> {
    match nodes[n].data {
        NodeView::Text(_) => with_text(nodes, n, v),
        NodeView::Element { children, .. } => {
            let k = first_text(nodes, children);
            if k >= 0 {
                let s1 = with_text(nodes, children[k].id as int, v);
                with_kids(s1, n, drop_texts_from(s1, children, k + 1))
            } else {
                let s1 = nodes.push(NodeState { data: NodeView::Text(v), parent: None });
                with_kids(s1, n, children.push(NodeItem { id: nodes.len() as usize }))
            }
        },
    }
}

proof fn lemma_first_text(nodes: Seq<NodeState>, ks: Seq<NodeItem>, i: int)
    requires
        0 <= i < ks.len(),
        is_text(nodes, ks[i].id as int),
        forall|k: int| 0 <= k < i ==> !is_text(nodes, #[trigger] ks[k].id as int),
    ensures
        first_text(nodes, ks) == i,
    decreases i,
{
    if i > 0 {
        assert forall|k: int| 0 <= k < i - 1 implies !is_text(nodes, #[trigger] ks.drop_first()[k].id as int) by {
            assert(ks.drop_first()[k] == ks[k + 1]);
        }
        lemma_first_text(nodes, ks.drop_first(), i - 1);
    }
}

proof fn lemma_first_text_absent(nodes: Seq<NodeState>, ks: Seq<NodeItem>)
    requires
        forall|k: int| 0 <= k < ks.len() ==> !is_text(nodes, #[trigger] ks[k].id as int),
    ensures
        first_text(nodes, ks) == -1,
    decreases ks.len(),
{
    if ks.len() > 0 {
        assert forall|k: int| 0 <= k < ks.len() - 1 implies !is_text(nodes, #[trigger] ks.drop_first()[k].id as int) by {
            assert(ks.drop_first()[k] == ks[k + 1]);
        }
        lemma_first_text_absent(nodes, ks.drop_first());
    }
}

proof fn lemma_drop_texts_sub(nodes: Seq<NodeState>, ks: Seq<NodeItem>, from: int, k: int)
    requires
        0 <= k < drop_texts_from(nodes, ks, from).len(),
    ensures
        ks.contains(drop_texts_from(nodes, ks, from)[k]),
    decreases ks.len(),
{
    if ks.len() == 0 || ks.len() <= from {
        assert(ks[k] == drop_texts_from(nodes, ks, from)[k]);
    } else {
        let rest = drop_texts_from(nodes, ks.drop_last(), from);
        if !is_text(nodes, ks.last().id as int) && k == rest.len() {
            assert(ks[ks.len() - 1] == ks.last());
        } else {
            lemma_drop_texts_sub(nodes, ks.drop_last(), from, k);
            let w = choose|w: int| 0 <= w < ks.drop_last().len() && ks.drop_last()[w] == rest[k];
            assert(ks[w] == rest[k]);
        }
    }
}

/// The trimmed texts of the nodes in `cs`, in order.
pub open spec fn trimmed_texts(doc: &Document, cs: Seq<NodeItem>) -> Seq<Seq<char>> {
    cs.map_values(|c: NodeItem| trim(doc.content_of(c.id as int)))
}

impl Document {
    proof fn lemma_kids_texts(&self, i: int, cs: Seq<NodeItem>)
        requires
            self.wf(),
            0 <= i < self@.len(),
            forall|k: int| 0 <= k < cs.len() ==> self.rank@[(#[trigger] cs[k]).id as int] < self.rank@[i],
        ensures
            kids_texts(self@, self.rank@, self.rank@[i], cs) == trimmed_texts(self, cs),
        decreases cs.len(),
    {
        if cs.len() > 0 {
            assert forall|k: int| 0 <= k < cs.drop_last().len() implies self.rank@[(
            #[trigger] cs.drop_last()[k]).id as int] < self.rank@[i] by {
                assert(cs.drop_last()[k] == cs[k]);
            }
            self.lemma_kids_texts(i, cs.drop_last());
            assert(self.rank@[cs[cs.len() - 1].id as int] < self.rank@[i]);
            assert(trimmed_texts(self, cs) =~= trimmed_texts(self, cs.drop_last()).push(
                trim(self.content_of(cs.last().id as int)),
            ));
        }
    }

    /// The text of a node: a text node's own text; for an element, the
    /// trimmed texts of its children joined with single spaces.
    pub proof fn lemma_content(&self, i: int)
        requires
            self.wf(),
            0 <= i < self@.len(),
        ensures
            self.content_of(i) == (match self@[i].data {
                NodeView::Text(s) => s,
                NodeView::Element { children, .. } => join_space(trimmed_texts(self, children)),
            }),
    {
        match self@[i].data {
            NodeView::Text(_) => {},
            NodeView::Element { children, .. } => {
                assert forall|k: int| 0 <= k < children.len() implies self.rank@[(
                #[trigger] children[k]).id as int] < self.rank@[i] by {
                    assert(children[k] == kids(self@, i)[k]);
                }
                self.lemma_kids_texts(i, children);
            },
        }
    }

    /// The text of a node (see `lemma_content`).
    pub fn get_content(&self, n: NodeItem) -> (r: String)
        requires
            self.wf(),
            self.valid(n),
        ensures
            r@ == self.content_of(n.id as int),
        decreases self.rank_of(n.id as int),
    {
        proof {
            assert(self@[n.id as int] == self.nodes@[n.id as int]@);
        }
        match &self.nodes[n.id].data {
            NodeData::Text(s) => s.clone(),
            NodeData::Element { children, .. } => {
                let ks = children.iter();
                let ghost bound = self.rank@[n.id as int];
                assert(ks@ == kids(self@, n.id as int));
                let mut parts: Vec<String> = Vec::new();
                let mut i: usize = 0;
                while i < ks.len()
                    invariant
                        self.wf(),
                        self.valid(n),
                        ks@ == kids(self@, n.id as int),
                        bound == self.rank@[n.id as int],
                        i <= ks@.len(),
                        parts@.map_values(|p: String| p@) == kids_texts(self@, self.rank@, bound, ks@.take(i as int)),
                    decreases ks.len() - i,
                {
                    let c = ks[i];
                    proof {
                        assert(self.rank@[ks@[i as int].id as int] < bound);
                        assert(c.id < self@.len());
                    }
                    let t = self.get_content(c);
                    let tt = trim_text(t.as_str());
                    let ghost before = parts@.map_values(|p: String| p@);
                    parts.push(tt);
                    proof {
                        assert(ks@.take(i + 1).drop_last() =~= ks@.take(i as int));
                        assert(ks@.take(i + 1).last() == c);
                        assert(parts@.map_values(|p: String| p@) =~= before.push(tt@));
                    }
                    i = i + 1;
                }
                assert(ks@.take(ks@.len() as int) =~= ks@);
                join_with_space(&parts)
            },
        }
    }

    /// Replaces the text of a node (see `content_set`).
    pub fn set_content(&mut self, n: NodeItem, value: &str)
        requires
            old(self).wf(),
            old(self).valid(n),
        ensures
            final(self).wf(),
            final(self)@ == content_set(old(self)@, n.id as int, value@),
    {
        let ghost pre = self@;
        let ghost old_rank = self.rank@;
        if !self.is_element(n) {
            self.replace_text(n.id, value);
            assert(self@ =~= content_set(pre, n.id as int, value@));
            return;
        }
        let ks = self.child_nodes(n).iter();
        let mut i: usize = 0;
        while i < ks.len()
            invariant
                self@ == pre,
                pre == old(self)@,
                self.rank@ == old_rank,
                ranked(pre, old_rank),
                ids_valid(pre),
                ks@ == kids(pre, n.id as int),
                i <= ks@.len(),
                self.wf(),
                n.id < pre.len(),
                forall|k: int| 0 <= k < i ==> !is_text(pre, #[trigger] ks@[k].id as int),
            decreases ks.len() - i,
        {
            let c = ks[i];
            proof {
                assert(c.id < pre.len());
            }
            if !self.is_element(c) {
                proof {
                    lemma_first_text(pre, ks@, i as int);
                }
                self.replace_text(c.id, value);
                let ghost s1 = self@;
                assert(s1 =~= with_text(pre, c.id as int, value@));
                assert forall|k: int| 0 <= k < ks@.len() implies (#[trigger] ks@[k]).id < pre.len() by {
                    assert(ks@[k] == kids(pre, n.id as int)[k]);
                }
                // every later text child leaves the list
                let mut kept: Vec<NodeItem> = Vec::new();
                let mut j: usize = 0;
                while j < ks.len()
                    invariant
                        self@ == s1,
                        s1.len() == pre.len(),
                        forall|k: int| 0 <= k < ks@.len() ==> (#[trigger] ks@[k]).id < pre.len(),
                        ks@ == kids(pre, n.id as int),
                        i < ks@.len(),
                        j <= ks@.len(),
                        self.shape_ok(),
                        kept@ == drop_texts_from(s1, ks@.take(j as int), i + 1),
                    decreases ks.len() - j,
                {
                    let d = ks[j];
                    proof {
                        assert(ks@.take(j + 1).drop_last() =~= ks@.take(j as int));
                        assert(ks@.take(j + 1).last() == d);
                        assert(d.id < s1.len());
                    }
                    if j <= i || self.is_element(d) {
                        kept.push(d);
                        proof {
                            if j + 1 <= i + 1 {
                                assert(kept@ =~= ks@.take(j + 1));
                            }
                        }
                    }
                    j = j + 1;
                }
                assert(ks@.take(ks@.len() as int) =~= ks@);
                let ghost kv = kept@;
                proof {
                    assert forall|k: int| 0 <= k < kv.len() implies (#[trigger] kv[k]).id < self@.len() by {
                        lemma_drop_texts_sub(s1, ks@, i + 1, k);
                    }
                    assert(is_elem(s1, n.id as int));
                }
                self.put_kids(n.id, NodeList::from_items(kept));
                proof {
                    assert(self@ =~= content_set(pre, n.id as int, value@));
                    assert forall|x: int, j2: int|
                        0 <= x < self@.len() && 0 <= j2 < kids(self@, x).len() implies kids(pre, x).contains(
                        #[trigger] kids(self@, x)[j2],
                    ) by {
                        if x == n.id {
                            lemma_drop_texts_sub(s1, ks@, i + 1, j2);
                        } else if x == c.id {
                        } else {
                            assert(kids(self@, x) == kids(pre, x));
                        }
                    }
                    lemma_rank_sub(pre, self@, old_rank);
                }
                return;
            }
            i = i + 1;
        }
        proof {
            lemma_first_text_absent(pre, ks@);
        }
        let t = self.new_text(value);
        let ghost s1 = self@;
        let ghost r1 = self.rank@;
        let mut list = self.take_kids(n.id);
        list.insert_end(t);
        self.put_kids(n.id, list);
        proof {
            assert(kids(s1, n.id as int) == kids(pre, n.id as int));
            assert(self@ =~= content_set(pre, n.id as int, value@));
            assert(!reaches(s1, t.id as int, n.id as int)) by {
                if reaches(s1, t.id as int, n.id as int) {
                    let k = choose|k: nat| #[trigger] reach_within(s1, t.id as int, n.id as int, k);
                    assert(kids(s1, t.id as int).len() == 0);
                }
            }
            assert forall|x: int, j2: int|
                0 <= x < self@.len() && 0 <= j2 < kids(self@, x).len() implies (x == n.id && (
            #[trigger] kids(self@, x)[j2]).id == t.id) || kids(s1, x).contains(kids(self@, x)[j2]) by {
                if x == n.id {
                    if j2 < kids(s1, x).len() {
                        assert(kids(self@, x)[j2] == kids(s1, x)[j2]);
                    }
                } else {
                    assert(kids(self@, x) == kids(s1, x));
                }
            }
            let r2 = lemma_rank_add_edge(s1, self@, r1, n.id as int, t.id as int);
            self.rank@ = r2;
        }
    }

    /// Text node `i` given the text `value`.
    fn replace_text(&mut self, i: usize, value: &str)
        requires
            old(self).wf(),
            i < old(self)@.len(),
            is_text(old(self)@, i as int),
        ensures
            final(self).wf(),
            final(self).rank == old(self).rank,
            final(self)@ == with_text(old(self)@, i as int, value@),
    {
        let ghost pre = self@;
        match &mut self.nodes[i].data {
            NodeData::Text(s) => {
                *s = String::from_str(value);
            },
            NodeData::Element { .. } => {},
        }
        proof {
            assert(self@ =~= with_text(pre, i as int, value@));
            assert forall|x: int, j: int|
                0 <= x < self@.len() && 0 <= j < kids(self@, x).len() implies (#[trigger] kids(self@, x)[j]).id
                < self@.len() by {
                assert(kids(self@, x) == kids(pre, x));
            }
            assert forall|x: int|
                0 <= x < self@.len() && (#[trigger] self@[x]).parent is Some implies self@[x].parent->0.id
                < self@.len() by {
                assert(self@[x].parent == pre[x].parent);
            }
            assert forall|x: int, j: int|
                0 <= x < self@.len() && 0 <= j < kids(self@, x).len() implies self.rank@[(#[trigger] kids(
                self@,
                x,
            )[j]).id as int] < self.rank@[x] by {
                assert(kids(self@, x) == kids(pre, x));
            }
            assert forall|x: int| 0 <= x < self.nodes@.len() implies (#[trigger] self.nodes@[x]).attrs_wf() by {
            }
        }
    }
}

/// A node handle that is used as an element.
#[derive(Clone, Copy, Debug, PartialEq, Eq, Structural)]
pub struct ElementItem {
    pub node: NodeItem,
}

impl From<NodeItem> for ElementItem {
    fn from(value: NodeItem) -> (r: Self) {
        ElementItem { node: value }
    }
}

impl vstd::std_specs::convert::FromSpecImpl<NodeItem> for ElementItem {
    open spec fn obeys_from_spec() -> bool {
        true
    }

    open spec fn from_spec(value: NodeItem) -> ElementItem {
        ElementItem { node: value }
    }
}

pub open spec fn class_key() -> Seq<char> {
    seq!['c', 'l', 'a', 's', 's']
}

pub open spec fn id_key() -> Seq<char> {
    seq!['i', 'd']
}

/// The text of attribute `name`, or empty when it is missing.
pub open spec fn attr_text(attrs: Map<Seq<char>, AttributeView>, name: Seq<char>) -> Seq<char> {
    if attrs.contains_key(name) {
        attrs[name].text()
    } else {
        Seq::empty()
    }
}

/// The element nodes among `ks`, in order.
pub open spec fn elem_kids(nodes: Seq<NodeState>, ks: Seq<NodeItem>) -> Seq<NodeItem>
    decreases ks.len(),
{
    if ks.len() == 0 {
        Seq::empty()
    } else if is_elem(nodes, ks.last().id as int) {
        elem_kids(nodes, ks.drop_last()).push(ks.last())
    } else {
        elem_kids(nodes, ks.drop_last())
    }
}

fn class_name_key() -> (r: &'static str)
    ensures
        r@ == class_key(),
{
    proof {
        reveal_strlit("class");
    }
    "class"
}

fn id_name_key() -> (r: &'static str)
    ensures
        r@ == id_key(),
{
    proof {
        reveal_strlit("id");
    }
    "id"
}

impl Document {
    fn attrs(&self, e: ElementItem) -> (r: &AttributeMap)
        requires
            self.wf(),
            self.valid(e.node),
            is_elem(self@, e.node.id as int),
        ensures
            r.wf(),
            r@ == attrs_of(self@, e.node.id as int),
    {
        proof {
            assert(self@[e.node.id as int] == self.nodes@[e.node.id as int]@);
            assert(self.nodes@[e.node.id as int].attrs_wf());
        }
        match &self.nodes[e.node.id].data {
            NodeData::Element { attributes, .. } => attributes,
            NodeData::Text(_) => vstd::pervasive::unreached(),
        }
    }

    /// The element's attributes, each name once.
    pub fn attributes(&self, e: ElementItem) -> (r: Vec<(String, Attribute)>)
        requires
            self.wf(),
            self.valid(e.node),
            is_elem(self@, e.node.id as int),
        ensures
            r@.len() == attrs_of(self@, e.node.id as int).dom().len(),
            forall|i: int|
                0 <= i < r@.len() ==> attrs_of(self@, e.node.id as int).contains_key(#[trigger] r@[i].0@)
                    && attrs_of(self@, e.node.id as int)[r@[i].0@] == r@[i].1@,
            forall|i: int, j: int| 0 <= i < j < r@.len() ==> #[trigger] r@[i].0@ != #[trigger] r@[j].0@,
            forall|n: Seq<char>|
                #[trigger] attrs_of(self@, e.node.id as int).contains_key(n) ==> exists|i: int|
                    0 <= i < r@.len() && r@[i].0@ == n,
    {
        self.attrs(e).iter()
    }

    /// The element's attribute names, each once.
    pub fn attribute_names(&self, e: ElementItem) -> (r: Vec<String>)
        requires
            self.wf(),
            self.valid(e.node),
            is_elem(self@, e.node.id as int),
        ensures
            r@.len() == attrs_of(self@, e.node.id as int).dom().len(),
            forall|i: int| 0 <= i < r@.len() ==> attrs_of(self@, e.node.id as int).contains_key(#[trigger] r@[i]@),
            forall|i: int, j: int| 0 <= i < j < r@.len() ==> #[trigger] r@[i]@ != #[trigger] r@[j]@,
            forall|n: Seq<char>|
                #[trigger] attrs_of(self@, e.node.id as int).contains_key(n) ==> exists|i: int|
                    0 <= i < r@.len() && r@[i]@ == n,
    {
        self.attrs(e).names()
    }

    pub fn has_attribute(&self, e: ElementItem, name: &str) -> (r: bool)
        requires
            self.wf(),
            self.valid(e.node),
            is_elem(self@, e.node.id as int),
        ensures
            r == attrs_of(self@, e.node.id as int).contains_key(name@),
    {
        self.attrs(e).has_attribute(name)
    }

    pub fn get_attribute(&self, e: ElementItem, name: &str) -> (r: Option<&Attribute>)
        requires
            self.wf(),
            self.valid(e.node),
            is_elem(self@, e.node.id as int),
        ensures
            match r {
                Some(a) => attrs_of(self@, e.node.id as int).contains_key(name@) && a@ == attrs_of(
                    self@,
                    e.node.id as int,
                )[name@],
                None => !attrs_of(self@, e.node.id as int).contains_key(name@),
            },
    {
        self.attrs(e).get_attribute(name)
    }

    proof fn lemma_attrs_change(&self, pre: &Document, i: int)
        requires
            pre.wf(),
            0 <= i < pre@.len(),
            is_elem(pre@, i),
            self.nodes@.len() == pre.nodes@.len(),
            forall|k: int| 0 <= k < pre.nodes@.len() && k != i ==> #[trigger] self.nodes@[k] == pre.nodes@[k],
            self.nodes@[i].attrs_wf(),
            self@[i].parent == pre@[i].parent,
            kids(self@, i) == kids(pre@, i),
            is_elem(self@, i),
            self.rank == pre.rank,
        ensures
            self.wf(),
    {
        assert forall|x: int| 0 <= x < self@.len() && x != i implies #[trigger] self@[x] == pre@[x] by {
            assert(self.nodes@[x] == pre.nodes@[x]);
        }
        assert forall|x: int, j: int|
            0 <= x < self@.len() && 0 <= j < kids(self@, x).len() implies (#[trigger] kids(self@, x)[j]).id
            < self@.len() by {
            assert(kids(self@, x) == kids(pre@, x));
        }
        assert forall|x: int|
            0 <= x < self@.len() && (#[trigger] self@[x]).parent is Some implies self@[x].parent->0.id
            < self@.len() by {
            assert(self@[x].parent == pre@[x].parent);
        }
        assert forall|x: int, j: int|
            0 <= x < self@.len() && 0 <= j < kids(self@, x).len() implies self.rank@[(#[trigger] kids(
            self@,
            x,
        )[j]).id as int] < self.rank@[x] by {
            assert(kids(self@, x) == kids(pre@, x));
        }
        assert forall|x: int| 0 <= x < self.nodes@.len() implies (#[trigger] self.nodes@[x]).attrs_wf() by {
            if x != i {
                assert(self.nodes@[x] == pre.nodes@[x]);
            }
        }
    }

    pub fn set_attribute(&mut self, e: ElementItem, name: &str, value: Attribute)
        requires
            old(self).wf(),
            old(self).valid(e.node),
            is_elem(old(self)@, e.node.id as int),
        ensures
            final(self).wf(),
            final(self)@ == with_attrs(
                old(self)@,
                e.node.id as int,
                attrs_of(old(self)@, e.node.id as int).insert(name@, value@),
            ),
    {
        let ghost pre = *self;
        let ghost v = value@;
        proof {
            assert(self@[e.node.id as int] == self.nodes@[e.node.id as int]@);
            assert(self.nodes@[e.node.id as int].attrs_wf());
        }
        match &mut self.nodes[e.node.id].data {
            NodeData::Element { attributes, .. } => {
                attributes.set_attribute(name, value);
            },
            NodeData::Text(_) => {},
        }
        proof {
            assert(self@ =~= with_attrs(pre@, e.node.id as int, attrs_of(pre@, e.node.id as int).insert(name@, v)));
            self.lemma_attrs_change(&pre, e.node.id as int);
        }
    }

    /// Sets `name` to `true` or removes it (see `AttributeMap::toggle_attribute`).
    pub fn toggle_attribute(&mut self, e: ElementItem, name: &str, force: Option<bool>)
        requires
            old(self).wf(),
            old(self).valid(e.node),
            is_elem(old(self)@, e.node.id as int),
        ensures
            final(self).wf(),
            final(self)@ == with_attrs(
                old(self)@,
                e.node.id as int,
                toggled(attrs_of(old(self)@, e.node.id as int), name@, force),
            ),
    {
        let ghost pre = *self;
        proof {
            assert(self@[e.node.id as int] == self.nodes@[e.node.id as int]@);
            assert(self.nodes@[e.node.id as int].attrs_wf());
        }
        match &mut self.nodes[e.node.id].data {
            NodeData::Element { attributes, .. } => {
                attributes.toggle_attribute(name, force);
            },
            NodeData::Text(_) => {},
        }
        proof {
            assert(self@ =~= with_attrs(
                pre@,
                e.node.id as int,
                toggled(attrs_of(pre@, e.node.id as int), name@, force),
            ));
            self.lemma_attrs_change(&pre, e.node.id as int);
        }
    }

    /// The text of the `class` attribute, or empty.
    pub fn get_class_name(&self, e: ElementItem) -> (r: String)
        requires
            self.wf(),
            self.valid(e.node),
            is_elem(self@, e.node.id as int),
        ensures
            r@ == attr_text(attrs_of(self@, e.node.id as int), class_key()),
    {
        match self.attrs(e).get_attribute(class_name_key()) {
            Some(a) => a.to_string(),
            None => String::new(),
        }
    }

    /// Sets the `class` attribute to the text `value`.
    pub fn set_class_name(&mut self, e: ElementItem, value: &str)
        requires
            old(self).wf(),
            old(self).valid(e.node),
            is_elem(old(self)@, e.node.id as int),
        ensures
            final(self).wf(),
            final(self)@ == with_attrs(
                old(self)@,
                e.node.id as int,
                attrs_of(old(self)@, e.node.id as int).insert(class_key(), AttributeView::Text(value@)),
            ),
    {
        self.set_attribute(e, class_name_key(), Attribute::from_text(value));
    }

    /// The whitespace-separated words of the `class` attribute.
    pub fn class_list(&self, e: ElementItem) -> (r: Vec<String>)
        requires
            self.wf(),
            self.valid(e.node),
            is_elem(self@, e.node.id as int),
        ensures
            r@.len() == words(attr_text(attrs_of(self@, e.node.id as int), class_key())).len(),
            forall|i: int|
                0 <= i < r@.len() ==> #[trigger] r@[i]@ == words(
                    attr_text(attrs_of(self@, e.node.id as int), class_key()),
                )[i],
    {
        let c = self.get_class_name(e);
        split_words(c.as_str())
    }

    /// The text of the `id` attribute, or empty.
    pub fn get_id(&self, e: ElementItem) -> (r: String)
        requires
            self.wf(),
            self.valid(e.node),
            is_elem(self@, e.node.id as int),
        ensures
            r@ == attr_text(attrs_of(self@, e.node.id as int), id_key()),
    {
        match self.attrs(e).get_attribute(id_name_key()) {
            Some(a) => a.to_string(),
            None => String::new(),
        }
    }

    /// Sets the `id` attribute to the text `value`.
    pub fn set_id(&mut self, e: ElementItem, value: &str)
        requires
            old(self).wf(),
            old(self).valid(e.node),
            is_elem(old(self)@, e.node.id as int),
        ensures
            final(self).wf(),
            final(self)@ == with_attrs(
                old(self)@,
                e.node.id as int,
                attrs_of(old(self)@, e.node.id as int).insert(id_key(), AttributeView::Text(value@)),
            ),
    {
        self.set_attribute(e, id_name_key(), Attribute::from_text(value));
    }

    /// The element children, in order.
    pub fn children(&self, e: ElementItem) -> (r: Vec<ElementItem>)
        requires
            self.wf(),
            self.valid(e.node),
        ensures
            r@.map_values(|c: ElementItem| c.node) == elem_kids(self@, kids(self@, e.node.id as int)),
    {
        let ks = self.child_nodes(e.node).iter();
        let mut out: Vec<ElementItem> = Vec::new();
        let mut i: usize = 0;
        while i < ks.len()
            invariant
                self.wf(),
                ks@ == kids(self@, e.node.id as int),
                e.node.id < self@.len(),
                i <= ks@.len(),
                out@.map_values(|c: ElementItem| c.node) == elem_kids(self@, ks@.take(i as int)),
            decreases ks.len() - i,
        {
            let c = ks[i];
            proof {
                assert(c.id < self@.len());
                assert(ks@.take(i + 1).drop_last() =~= ks@.take(i as int));
                assert(ks@.take(i + 1).last() == c);
            }
            let ghost before = out@;
            if self.is_element(c) {
                out.push(ElementItem { node: c });
                assert(out@.map_values(|c: ElementItem| c.node) =~= before.map_values(|c: ElementItem| c.node).push(c));
            }
            i = i + 1;
        }
        assert(ks@.take(ks@.len() as int) =~= ks@);
        out
    }

    /// The first element child.
    pub fn first_child(&self, e: ElementItem) -> (r: Option<ElementItem>)
        requires
            self.wf(),
            self.valid(e.node),
        ensures
            ({
                let ek = elem_kids(self@, kids(self@, e.node.id as int));
                r == (if ek.len() > 0 {
                    Some(ElementItem { node: ek[0] })
                } else {
                    None
                })
            }),
    {
        let cs = self.children(e);
        proof {
            assert(cs@.len() == cs@.map_values(|c: ElementItem| c.node).len());
            if cs@.len() > 0 {
                assert(cs@.map_values(|c: ElementItem| c.node)[0] == cs@[0].node);
            }
        }
        if cs.len() > 0 {
            Some(cs[0])
        } else {
            None
        }
    }

    /// The last element child.
    pub fn last_child(&self, e: ElementItem) -> (r: Option<ElementItem>)
        requires
            self.wf(),
            self.valid(e.node),
        ensures
            ({
                let ek = elem_kids(self@, kids(self@, e.node.id as int));
                r == (if ek.len() > 0 {
                    Some(ElementItem { node: ek.last() })
                } else {
                    None
                })
            }),
    {
        let cs = self.children(e);
        let n = cs.len();
        proof {
            assert(cs@.len() == cs@.map_values(|c: ElementItem| c.node).len());
            if n > 0 {
                assert(cs@.map_values(|c: ElementItem| c.node)[n - 1] == cs@[n - 1].node);
            }
        }
        if n > 0 {
            Some(cs[n - 1])
        } else {
            None
        }
    }

    /// The parent, when it is an element.
    pub fn parrent(&self, e: ElementItem) -> (r: Option<ElementItem>)
        requires
            self.wf(),
            self.valid(e.node),
        ensures
            r == (match self@[e.node.id as int].parent {
                Some(p) => if is_elem(self@, p.id as int) {
                    Some(ElementItem { node: p })
                } else {
                    None
                },
                None => None,
            }),
    {
        match self.parrent_node(e.node) {
            Some(p) => {
                proof {
                    assert(self@[e.node.id as int].parent is Some);
                }
                if self.is_element(p) {
                    Some(ElementItem { node: p })
                } else {
                    None
                }
            },
            None => None,
        }
    }
}

/// Every element of `remove_first(s, x)` is an element of `s`.
proof fn lemma_remove_first_sub(s: Seq<NodeItem>, x: NodeItem, k: int)
    requires
        0 <= k < remove_first(s, x).len(),
    ensures
        s.contains(remove_first(s, x)[k]),
{
    lemma_first_at_facts(s, x);
    let i = first_at(s, x);
    if i >= 0 {
        if k < i {
            assert(remove_first(s, x)[k] == s[k]);
        } else {
            assert(remove_first(s, x)[k] == s[k + 1]);
        }
    } else {
        assert(remove_first(s, x)[k] == s[k]);
    }
}

// ---------------------------------------------------------------------------
// Laws of the tree operations.
proof fn lemma_first_at_push(s: Seq<NodeItem>, x: NodeItem, y: NodeItem)
    requires
        s.contains(x),
    ensures
        first_at(s.push(y), x) == first_at(s, x),
    decreases s.len(),
{
    if s[0] != x {
        let k = choose|k: int| 0 <= k < s.len() && s[k] == x;
        assert(s.drop_first()[k - 1] == x);
        assert(s.push(y).drop_first() =~= s.drop_first().push(y));
        lemma_first_at_push(s.drop_first(), x, y);
    }
}

proof fn lemma_remove_first_push(s: Seq<NodeItem>, x: NodeItem)
    ensures
        s.contains(x) ==> remove_first(s.push(x), x) == remove_first(s, x).push(x),
        !s.contains(x) ==> remove_first(s.push(x), x) == s,
{
    lemma_first_at_facts(s, x);
    if s.contains(x) {
        lemma_first_at_push(s, x, x);
        assert(s.push(x).remove(first_at(s, x)) =~= s.remove(first_at(s, x)).push(x));
    } else {
        assert forall|k: int| 0 <= k < s.len() implies s.push(x)[k] != x by {
            assert(s.push(x)[k] == s[k]);
        }
        lemma_first_at(s.push(x), x, s.len() as int);
        assert(s.push(x).remove(s.len() as int) =~= s);
    }
}

/// Appending `n` to the element `t` leaves `n` as the last child of `t`
/// and `t` as the parent of `n` (unless `n` had `t` as parent without
/// being in its list, where the first `n` in the list is the new one).
pub proof fn law_append_last(doc: Document, t: NodeItem, n: NodeItem)
    requires
        doc.wf(),
        doc.valid(t),
        doc.valid(n),
        is_elem(doc@, t.id as int),
        doc@[n.id as int].parent == Some(t) ==> kids(doc@, t.id as int).contains(n),
    ensures
        kids(appended(doc@, t, n), t.id as int).len() > 0,
        kids(appended(doc@, t, n), t.id as int).last() == n,
        appended(doc@, t, n)[n.id as int].parent == Some(t),
{
    let pre = doc@;
    let ks = kids(pre, t.id as int);
    let s = with_kids(pre, t.id as int, ks.push(n));
    assert(s[n.id as int].parent == pre[n.id as int].parent);
    assert(kids(s, t.id as int) == ks.push(n));
    let d = detach(s, n.id as int);
    match s[n.id as int].parent {
        Some(q) => {
            assert(pre[n.id as int].parent == Some(q));
            assert(q.id < pre.len());
            if q.id == t.id {
                lemma_remove_first_push(ks, n);
                assert(kids(d, t.id as int) == remove_first(ks, n).push(n));
            } else {
                assert(kids(d, t.id as int) == kids(s, t.id as int));
            }
        },
        None => {},
    }
    assert(kids(appended(pre, t, n), t.id as int) == kids(d, t.id as int));
}

/// Prepending `n` to the element `t` makes `n` the first child of `t`,
/// followed by the children it had, unless `t` already was the parent of
/// `n`: then the entry put in front is the one taken out again, and the
/// children stay as they were. Either way `t` is the parent of `n`.
pub proof fn law_prepend_first(doc: Document, t: NodeItem, n: NodeItem)
    requires
        doc.wf(),
        doc.valid(t),
        doc.valid(n),
        is_elem(doc@, t.id as int),
    ensures
        doc@[n.id as int].parent != Some(t) ==> kids(prepended(doc@, t, n), t.id as int) == seq![n] + kids(
            doc@,
            t.id as int,
        ),
        doc@[n.id as int].parent == Some(t) ==> kids(prepended(doc@, t, n), t.id as int) == kids(
            doc@,
            t.id as int,
        ),
        prepended(doc@, t, n)[n.id as int].parent == Some(t),
{
    let pre = doc@;
    let ti = t.id as int;
    let ks = kids(pre, ti);
    let front = seq![n] + ks;
    let s = with_kids(pre, ti, front);
    assert(s[n.id as int].parent == pre[n.id as int].parent);
    assert(kids(s, ti) == front);
    let d = detach(s, n.id as int);
    match s[n.id as int].parent {
        Some(q) => {
            assert(q.id < pre.len());
            if q.id == t.id {
                assert(front[0] == n);
                assert(first_at(front, n) == 0);
                assert(front.remove(0) =~= ks);
                assert(kids(d, ti) == ks);
            } else {
                assert(kids(d, ti) == kids(s, ti));
            }
        },
        None => {},
    }
    assert(kids(prepended(pre, t, n), ti) == kids(d, ti));
}

/// Appending a parentless node that is not yet a child of `t` to the
/// element `t` and then removing it from `t` gives back the document.
pub proof fn law_append_then_remove(doc: Document, t: NodeItem, n: NodeItem)
    requires
        doc.wf(),
        doc.valid(t),
        doc.valid(n),
        is_elem(doc@, t.id as int),
        doc@[n.id as int].parent is None,
        !kids(doc@, t.id as int).contains(n),
    ensures
        kids(appended(doc@, t, n), t.id as int).contains(n),
        removed(appended(doc@, t, n), t, n) == doc@,
{
    let pre = doc@;
    let ti = t.id as int;
    let ni = n.id as int;
    let ks = kids(pre, ti);
    let s = with_kids(pre, ti, ks.push(n));
    assert(s[ni].parent is None);
    assert(detach(s, ni) == s);
    let post = appended(pre, t, n);
    assert(post == with_parent(s, ni, Some(t)));
    assert(kids(post, ti) == ks.push(n));
    assert(ks.push(n)[ks.len() as int] == n);
    lemma_remove_first_push(ks, n);
    let u = with_kids(post, ti, ks);
    assert(u[ni].parent == Some(t));
    assert(kids(u, ti) == ks);
    lemma_first_at_facts(ks, n);
    assert(remove_first(ks, n) == ks);
    assert(with_kids(u, ti, ks) =~= u);
    assert(detach(u, ni) == u);
    let back = with_parent(u, ni, None);
    assert(removed(post, t, n) == back);
    assert forall|i: int| 0 <= i < pre.len() implies #[trigger] back[i] == pre[i] by {
        if i == ti {
            match pre[i].data {
                NodeView::Element { tag, attributes, children } => {
                    assert(back[i].data == NodeView::Element { tag, attributes, children: ks });
                },
                NodeView::Text(_) => {},
            }
        }
    }
    assert(back =~= pre);
}

proof fn lemma_drop_later_texts(nodes: Seq<NodeState>, ks: Seq<NodeItem>, from: int)
    requires
        0 <= from <= ks.len(),
        forall|j: int| from <= j < ks.len() ==> is_text(nodes, #[trigger] ks[j].id as int),
    ensures
        drop_texts_from(nodes, ks, from) == ks.take(from),
    decreases ks.len(),
{
    if ks.len() == 0 || ks.len() <= from {
        assert(ks.take(from) =~= ks);
    } else {
        assert(is_text(nodes, ks[ks.len() - 1].id as int));
        assert forall|j: int| from <= j < ks.drop_last().len() implies is_text(
            nodes,
            #[trigger] ks.drop_last()[j].id as int,
        ) by {
            assert(ks.drop_last()[j] == ks[j]);
        }
        lemma_drop_later_texts(nodes, ks.drop_last(), from);
        assert(ks.drop_last().take(from) =~= ks.take(from));
    }
}

/// Setting the content of a text node makes its content the value; setting
/// the content of an element whose children are all text nodes makes its
/// content the value with surrounding whitespace trimmed.
pub proof fn law_set_content(pre: Document, post: Document, n: NodeItem, v: Seq<char>)
    requires
        pre.wf(),
        post.wf(),
        pre.valid(n),
        post@ == content_set(pre@, n.id as int, v),
        forall|k: int|
            0 <= k < kids(pre@, n.id as int).len() ==> is_text(pre@, #[trigger] kids(pre@, n.id as int)[k].id as int),
    ensures
        post.content_of(n.id as int) == (if is_text(pre@, n.id as int) {
            v
        } else {
            trim(v)
        }),
{
    let nodes = pre@;
    let ni = n.id as int;
    match nodes[ni].data {
        NodeView::Text(_) => {
            post.lemma_content(ni);
        },
        NodeView::Element { children, .. } => {
            assert(children == kids(nodes, ni));
            let c = if children.len() == 0 {
                lemma_first_text_absent(nodes, children);
                assert(pre.nodes.len() == pre.nodes@.len());
                let s1 = nodes.push(NodeState { data: NodeView::Text(v), parent: None });
                let c = NodeItem { id: nodes.len() as usize };
                assert(post@ == with_kids(s1, ni, children.push(c)));
                assert(s1[c.id as int].data == NodeView::Text(v));
                assert(post@[c.id as int] == s1[c.id as int]);
                assert(children.push(c) =~= seq![c]);
                c
            } else {
                lemma_first_text(nodes, children, 0);
                let c = children[0];
                let s1 = with_text(nodes, c.id as int, v);
                assert(c.id < nodes.len());
                assert forall|j: int| 1 <= j < children.len() implies is_text(
                    s1,
                    #[trigger] children[j].id as int,
                ) by {
                    assert(is_text(nodes, children[j].id as int));
                    assert(children[j].id < nodes.len());
                }
                lemma_drop_later_texts(s1, children, 1);
                assert(children.take(1) =~= seq![c]);
                assert(post@ == with_kids(s1, ni, seq![c]));
                assert(c.id as int != ni);
                assert(post@[c.id as int] == s1[c.id as int]);
                c
            };
            assert(kids(post@, ni) =~= seq![c]);
            assert(post@[c.id as int].data == NodeView::Text(v));
            post.lemma_content(ni);
            post.lemma_content(c.id as int);
            assert(trimmed_texts(&post, seq![c]) =~= seq![trim(v)]);
        },
    }
}

/// Setting the class name of an element and reading it back gives the
/// value set.
pub proof fn law_class_name(nodes: Seq<NodeState>, e: int, v: Seq<char>)
    requires
        0 <= e < nodes.len(),
        is_elem(nodes, e),
    ensures
        attr_text(
            attrs_of(with_attrs(nodes, e, attrs_of(nodes, e).insert(class_key(), AttributeView::Text(v))), e),
            class_key(),
        ) == v,
{
}

/// Setting an attribute of an element and reading it back gives the value
/// set; the other attributes stay as they were.
pub proof fn law_set_attribute(nodes: Seq<NodeState>, e: int, name: Seq<char>, v: AttributeView)
    requires
        0 <= e < nodes.len(),
        is_elem(nodes, e),
    ensures
        attrs_of(with_attrs(nodes, e, attrs_of(nodes, e).insert(name, v)), e).contains_key(name),
        attrs_of(with_attrs(nodes, e, attrs_of(nodes, e).insert(name, v)), e)[name] == v,
        forall|k: Seq<char>|
            k != name ==> #[trigger] attrs_of(with_attrs(nodes, e, attrs_of(nodes, e).insert(name, v)), e).contains_key(k)
                == attrs_of(nodes, e).contains_key(k),
{
}

} // verus!
