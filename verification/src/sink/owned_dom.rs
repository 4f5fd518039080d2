//! A simple DOM where every node is owned by its parent.
//!
//! Since ownership is more complicated during parsing, a different type is built then,
//! in which all nodes stand side by side and refer to each other. In the end it is
//! turned into the public `Node`.

use vstd::prelude::*;
use crate::serialize::{
    SerializeCall, SerializeCallView, calls_view, lemma_open_after, open_after,
};
use crate::sink::common::{NodeEnum, NodeEnumView};
use crate::tokenizer::interface::{Attribute, AttributeView, attrs_view, has_attr};
use crate::tree_builder::interface::{NodeOrText, NodeOrTextView, QuirksMode, TreeCall, TreeSink};
use crate::util::atom::Atom;
use crate::util::maybe_owned::MaybeOwned;
use crate::util::namespace::Namespace;

verus! {

/// A reference to a node, or to none.
#[derive(Clone, Copy, PartialEq, Eq, Structural, Debug)]
pub struct Handle {
    ptr: Option<usize>,
}

impl View for Handle {
    type V = Option<int>;

    /// The place of the node.
    closed spec fn view(&self) -> Option<int> {
        match self.ptr {
            Some(i) => Some(i as int),
            None => None,
        }
    }
}

impl Handle {
    fn new(ptr: usize) -> (r: Handle)
        ensures
            r@ == Some(ptr as int),
    {
        Handle { ptr: Some(ptr) }
    }

    fn null() -> (r: Handle)
        ensures
            r@ is None,
    {
        Handle { ptr: None }
    }

    fn is_null(&self) -> (r: bool)
        ensures
            r == self@ is None,
    {
        self.ptr.is_none()
    }

    /// The place of the node.
    fn place(&self) -> (r: usize)
        requires
            self@ is Some,
        ensures
            Some(r as int) == self@,
    {
        match self.ptr {
            Some(i) => i,
            None => 0,
        }
    }
}

/// References are the same if and only if they refer to the same place.
pub proof fn lemma_handle(x: Handle, y: Handle)
    ensures
        x == y <==> x@ == y@,
{
}

/// The internal type we use for nodes during parsing.
struct SquishyNode {
    node: NodeEnum,
    parent: Handle,
    children: Vec<Handle>,
}

/// A node during parsing: what it is, the place of its parent, and the places of its
/// children in order.
#[verifier::ext_equal]
pub struct Cell {
    pub node: NodeEnumView,
    pub parent: Option<int>,
    pub children: Seq<int>,
}

/// The places that references refer to.
spec fn places(handles: Seq<Handle>) -> Seq<int> {
    handles.map_values(|h: Handle| h@->0)
}

impl View for SquishyNode {
    type V = Cell;

    closed spec fn view(&self) -> Cell {
        Cell { node: self.node@, parent: self.parent@, children: places(self.children@) }
    }
}

/// A node without a parent and without children.
pub open spec fn lone(node: NodeEnumView) -> Cell {
    Cell { node, parent: None, children: Seq::empty() }
}

impl SquishyNode {
    /// Do the references to children refer to nodes?
    spec fn wf(&self) -> bool {
        forall|i: int| 0 <= i < self.children@.len() ==> (#[trigger] self.children@[i])@ is Some
    }

    fn new(node: NodeEnum) -> (r: SquishyNode)
        ensures
            r.wf(),
            r@ == lone(node@),
    {
        let r = SquishyNode { node, parent: Handle::null(), children: Vec::new() };
        assert(r@.children =~= Seq::<int>::empty());
        r
    }
}

/// Do the nodes refer to each other as parents and children do? What is listed as a
/// child of a node has that node as its parent, no node is listed twice, and a node is
/// listed by its parent.
pub open spec fn consistent(cells: Seq<Cell>) -> bool {
    &&& forall|p: int, i: int|
        0 <= p < cells.len() && 0 <= i < cells[p].children.len() ==> {
            &&& 0 <= #[trigger] cells[p].children[i] < cells.len()
            &&& cells[cells[p].children[i]].parent == Some(p)
        }
    &&& forall|p: int, i: int, j: int|
        0 <= p < cells.len() && 0 <= i < j < cells[p].children.len()
            ==> #[trigger] cells[p].children[i] != #[trigger] cells[p].children[j]
    &&& forall|c: int|
        0 <= c < cells.len() ==> ((#[trigger] cells[c]).parent matches Some(p) ==> 0 <= p
            < cells.len() && cells[p].children.contains(c))
}

/// Where a node stands among the children of its parent.
pub open spec fn rank_among(cells: Seq<Cell>, c: int) -> int {
    cells[cells[c].parent->0].children.index_of(c)
}

/// The nodes, with `c` put among the children of `p` at the place `i`.
pub open spec fn inserted(cells: Seq<Cell>, p: int, i: int, c: int) -> Seq<Cell> {
    let cells = cells.update(p, Cell { children: cells[p].children.insert(i, c), ..cells[p] });
    cells.update(c, Cell { parent: Some(p), ..cells[c] })
}

/// The nodes, with `c` taken from its parent, if it has one.
pub open spec fn detached(cells: Seq<Cell>, c: int) -> Seq<Cell> {
    match cells[c].parent {
        None => cells,
        Some(p) => {
            let i = rank_among(cells, c);
            let cells = cells.update(
                p,
                Cell { children: cells[p].children.remove(i), ..cells[p] },
            );
            cells.update(c, Cell { parent: None, ..cells[c] })
        },
    }
}

/// The nodes, with `c` made into something else.
pub open spec fn changed(cells: Seq<Cell>, c: int, node: NodeEnumView) -> Seq<Cell> {
    cells.update(c, Cell { node, ..cells[c] })
}

/// The text of a text node, with more at its end.
pub open spec fn more_text(node: NodeEnumView, t: Seq<char>) -> NodeEnumView {
    NodeEnumView::Text(node->Text_0 + t)
}

/// A child that has a parent stands among the children of its parent, in one place.
pub proof fn lemma_rank(cells: Seq<Cell>, c: int)
    requires
        consistent(cells),
        0 <= c < cells.len(),
        cells[c].parent is Some,
    ensures
        0 <= cells[c].parent->0 < cells.len(),
        0 <= rank_among(cells, c) < cells[cells[c].parent->0].children.len(),
        cells[cells[c].parent->0].children[rank_among(cells, c)] == c,
{
    assert(cells[c].parent == Some(cells[c].parent->0));
}

/// A node without a parent is not listed as a child.
proof fn lemma_unlisted(cells: Seq<Cell>, c: int, p: int, i: int)
    requires
        consistent(cells),
        0 <= c < cells.len(),
        cells[c].parent is None,
        0 <= p < cells.len(),
        0 <= i < cells[p].children.len(),
    ensures
        cells[p].children[i] != c,
{
}

/// Putting a node without a parent among the children of another.
pub proof fn lemma_inserted(cells: Seq<Cell>, p: int, i: int, c: int)
    requires
        consistent(cells),
        0 <= p < cells.len(),
        0 <= c < cells.len(),
        cells[c].parent is None,
        0 <= i <= cells[p].children.len(),
    ensures
        consistent(inserted(cells, p, i, c)),
{
    let new = inserted(cells, p, i, c);
    let old_kids = cells[p].children;
    assert(new[p].children =~= old_kids.insert(i, c));
    assert forall|q: int, j: int| 0 <= q < new.len() && 0 <= j < new[q].children.len() implies {
        &&& 0 <= #[trigger] new[q].children[j] < new.len()
        &&& new[new[q].children[j]].parent == Some(q)
    } by {
        if q == p {
            if j < i {
                assert(new[q].children[j] == cells[q].children[j]);
                lemma_unlisted(cells, c, q, j);
            } else if j > i {
                assert(new[q].children[j] == cells[q].children[j - 1]);
                lemma_unlisted(cells, c, q, j - 1);
            }
        } else {
            assert(new[q].children[j] == cells[q].children[j]);
            lemma_unlisted(cells, c, q, j);
        }
    }
    assert forall|q: int, j: int, k: int|
        0 <= q < new.len() && 0 <= j < k < new[q].children.len() implies #[trigger] new[q].children[j]
        != #[trigger] new[q].children[k] by {
        if q == p {
            let jj = if j < i {
                j
            } else {
                j - 1
            };
            let kk = if k < i {
                k
            } else {
                k - 1
            };
            if j != i {
                assert(new[q].children[j] == cells[q].children[jj]);
                lemma_unlisted(cells, c, q, jj);
            }
            if k != i {
                assert(new[q].children[k] == cells[q].children[kk]);
                lemma_unlisted(cells, c, q, kk);
            }
        } else {
            assert(cells[q].children[j] != cells[q].children[k]);
        }
    }
    assert forall|d: int| 0 <= d < new.len() implies ((#[trigger] new[d]).parent matches Some(q)
        ==> 0 <= q < new.len() && new[q].children.contains(d)) by {
        if d == c {
            assert(new[p].children[i] == c);
        } else if cells[d].parent is Some {
            let q = cells[d].parent->0;
            assert(cells[d].parent == Some(q));
            let j = choose|j: int| 0 <= j < cells[q].children.len() && cells[q].children[j] == d;
            if q == p {
                if j < i {
                    assert(new[q].children[j] == d);
                } else {
                    assert(new[q].children[j + 1] == d);
                }
            } else {
                assert(new[q].children[j] == d);
            }
        }
    }
}

/// Taking a node from its parent.
pub proof fn lemma_detached(cells: Seq<Cell>, c: int)
    requires
        consistent(cells),
        0 <= c < cells.len(),
    ensures
        consistent(detached(cells, c)),
        detached(cells, c).len() == cells.len(),
        detached(cells, c)[c].parent is None,
{
    let new = detached(cells, c);
    if cells[c].parent is Some {
        let p = cells[c].parent->0;
        let i = rank_among(cells, c);
        lemma_rank(cells, c);
        assert(new[p].children =~= cells[p].children.remove(i));
        assert forall|q: int, j: int|
            0 <= q < new.len() && 0 <= j < new[q].children.len() implies {
            &&& 0 <= #[trigger] new[q].children[j] < new.len()
            &&& new[new[q].children[j]].parent == Some(q)
        } by {
            let jj = if q == p && j >= i {
                j + 1
            } else {
                j
            };
            assert(new[q].children[j] == cells[q].children[jj]);
            assert(cells[p].children[i] == c);
            assert(cells[q].children[jj] != c);
        }
        assert forall|q: int, j: int, k: int|
            0 <= q < new.len() && 0 <= j < k < new[q].children.len() implies #[trigger] new[q].children[j]
            != #[trigger] new[q].children[k] by {
            let jj = if q == p && j >= i {
                j + 1
            } else {
                j
            };
            let kk = if q == p && k >= i {
                k + 1
            } else {
                k
            };
            assert(new[q].children[j] == cells[q].children[jj]);
            assert(new[q].children[k] == cells[q].children[kk]);
        }
        assert forall|d: int| 0 <= d < new.len() implies ((#[trigger] new[d]).parent matches Some(q)
            ==> 0 <= q < new.len() && new[q].children.contains(d)) by {
            if d != c && cells[d].parent is Some {
                let q = cells[d].parent->0;
                assert(cells[d].parent == Some(q));
                let j = choose|j: int|
                    0 <= j < cells[q].children.len() && cells[q].children[j] == d;
                if q == p && j > i {
                    assert(new[q].children[j - 1] == d);
                } else {
                    assert(new[q].children[j] == d);
                }
            }
        }
    }
}

/// Adding a node without a parent and without children.
pub proof fn lemma_pushed(cells: Seq<Cell>, node: NodeEnumView)
    requires
        consistent(cells),
    ensures
        consistent(cells.push(lone(node))),
{
    let new = cells.push(lone(node));
    assert forall|q: int, j: int| 0 <= q < new.len() && 0 <= j < new[q].children.len() implies {
        &&& 0 <= #[trigger] new[q].children[j] < new.len()
        &&& new[new[q].children[j]].parent == Some(q)
    } by {
        assert(new[q].children[j] == cells[q].children[j]);
    }
    assert forall|q: int, j: int, k: int|
        0 <= q < new.len() && 0 <= j < k < new[q].children.len() implies #[trigger] new[q].children[j]
        != #[trigger] new[q].children[k] by {
        assert(cells[q].children[j] != cells[q].children[k]);
    }
    assert forall|d: int| 0 <= d < new.len() implies ((#[trigger] new[d]).parent matches Some(q)
        ==> 0 <= q < new.len() && new[q].children.contains(d)) by {
        if d < cells.len() && cells[d].parent is Some {
            let q = cells[d].parent->0;
            assert(cells[d].parent == Some(q));
            assert(new[q].children == cells[q].children);
        }
    }
}

/// Making a node into something else.
pub proof fn lemma_changed(cells: Seq<Cell>, c: int, node: NodeEnumView)
    requires
        consistent(cells),
        0 <= c < cells.len(),
    ensures
        consistent(changed(cells, c, node)),
{
    let new = changed(cells, c, node);
    assert forall|q: int, j: int| 0 <= q < new.len() && 0 <= j < new[q].children.len() implies {
        &&& 0 <= #[trigger] new[q].children[j] < new.len()
        &&& new[new[q].children[j]].parent == Some(q)
    } by {
        assert(new[q].children[j] == cells[q].children[j]);
    }
    assert forall|q: int, j: int, k: int|
        0 <= q < new.len() && 0 <= j < k < new[q].children.len() implies #[trigger] new[q].children[j]
        != #[trigger] new[q].children[k] by {
        assert(cells[q].children[j] != cells[q].children[k]);
    }
    assert forall|d: int| 0 <= d < new.len() implies ((#[trigger] new[d]).parent matches Some(q)
        ==> 0 <= q < new.len() && new[q].children.contains(d)) by {
        if cells[d].parent is Some {
            let q = cells[d].parent->0;
            assert(cells[d].parent == Some(q));
            assert(new[q].children == cells[q].children);
        }
    }
}

/// A tree that is being built.
#[verifier::ext_equal]
pub struct Dom {
    pub cells: Seq<Cell>,
    /// The place of the document.
    pub document: int,
    pub errors: Seq<Seq<char>>,
    pub quirks_mode: QuirksMode,
}

impl Dom {
    /// The nodes refer to each other as parents and children do, and the document is
    /// the only one of its kind.
    pub open spec fn wf(self) -> bool {
        &&& consistent(self.cells)
        &&& 0 <= self.document < self.cells.len()
        &&& forall|c: int|
            0 <= c < self.cells.len() ==> ((#[trigger] self.cells[c]).node is Document <==> c
                == self.document)
    }

    /// Is this the place of a node?
    pub open spec fn has(self, place: Option<int>) -> bool {
        place matches Some(c) && 0 <= c < self.cells.len()
    }

    /// The tree with other nodes.
    pub open spec fn with(self, cells: Seq<Cell>) -> Dom {
        Dom { cells, ..self }
    }
}

/// The nodes, with a node or text appended to the children of `p`. Text is added to the
/// text before it, if there is some, and otherwise becomes a node of its own.
pub open spec fn appended(cells: Seq<Cell>, p: int, child: NodeOrTextView<Handle>) -> Seq<Cell> {
    let n = cells[p].children.len() as int;
    match child {
        NodeOrTextView::AppendNode(h) => inserted(cells, p, n, h@->0),
        NodeOrTextView::AppendText(t) => text_inserted(cells, p, n, t),
    }
}

/// The nodes, with text put among the children of `p` at the place `i`.
pub open spec fn text_inserted(cells: Seq<Cell>, p: int, i: int, t: Seq<char>) -> Seq<Cell> {
    let prev = cells[p].children[i - 1];
    if i > 0 && cells[prev].node is Text {
        changed(cells, prev, more_text(cells[prev].node, t))
    } else {
        inserted(cells.push(lone(NodeEnumView::Text(t))), p, i, cells.len() as int)
    }
}

/// The nodes, with a node or text put right before `s`, among the children of its
/// parent. A node is taken from where it was before. One that is put before itself stays
/// where it is.
pub open spec fn put_before(cells: Seq<Cell>, s: int, child: NodeOrTextView<Handle>) -> Seq<Cell> {
    let p = cells[s].parent->0;
    match child {
        NodeOrTextView::AppendNode(h) => if h@->0 == s {
            cells
        } else {
            let rest = detached(cells, h@->0);
            inserted(rest, p, rank_among(rest, s), h@->0)
        },
        NodeOrTextView::AppendText(t) => text_inserted(cells, p, rank_among(cells, s), t),
    }
}

/// The attributes of `attrs` whose names do not occur in `existing`.
pub open spec fn missing_attrs(
    existing: Seq<AttributeView>,
    attrs: Seq<AttributeView>,
) -> Seq<AttributeView>
    decreases attrs.len(),
{
    if attrs.len() == 0 {
        Seq::empty()
    } else {
        let init = missing_attrs(existing, attrs.drop_last());
        if has_attr(existing, attrs.last().name) {
            init
        } else {
            init.push(attrs.last())
        }
    }
}

/// A node, with attributes added whose names it does not have. Only elements have
/// attributes.
pub open spec fn with_attrs(node: NodeEnumView, attrs: Seq<AttributeView>) -> NodeEnumView {
    match node {
        NodeEnumView::Element(name, existing) => NodeEnumView::Element(
            name,
            existing + missing_attrs(existing, attrs),
        ),
        _ => node,
    }
}

/// The tree during parsing.
pub struct Sink {
    nodes: Vec<SquishyNode>,
    document: Handle,
    errors: Vec<MaybeOwned>,
    quirks_mode: QuirksMode,
    log: Ghost<Seq<TreeCall<Handle>>>,
}

/// The texts of messages.
pub open spec fn texts(errors: Seq<MaybeOwned>) -> Seq<Seq<char>> {
    errors.map_values(|e: MaybeOwned| e@)
}

impl View for Sink {
    type V = Dom;

    closed spec fn view(&self) -> Dom {
        Dom {
            cells: self.nodes@.map_values(|n: SquishyNode| n@),
            document: self.document@->0,
            errors: texts(self.errors@),
            quirks_mode: self.quirks_mode,
        }
    }
}

impl Default for Sink {
    fn default() -> (r: Sink)
        ensures
            r.inv(),
            r@ == (Dom {
                cells: seq![lone(NodeEnumView::Document)],
                document: 0,
                errors: Seq::empty(),
                quirks_mode: QuirksMode::NoQuirks,
            }),
            r.calls().len() == 0,
    {
        let mut nodes: Vec<SquishyNode> = Vec::new();
        nodes.push(SquishyNode::new(NodeEnum::Document));
        let r = Sink {
            nodes,
            document: Handle::new(0),
            errors: Vec::new(),
            quirks_mode: QuirksMode::NoQuirks,
            log: Ghost(Seq::empty()),
        };
        assert(r@.cells =~= seq![lone(NodeEnumView::Document)]);
        assert(r@.errors =~= Seq::<Seq<char>>::empty());
        r
    }
}

impl Sink {
    /// The references in the nodes refer to nodes.
    closed spec fn refers(&self) -> bool {
        &&& self.document@ is Some
        &&& forall|i: int| 0 <= i < self.nodes@.len() ==> (#[trigger] self.nodes@[i]).wf()
    }

    /// Has the tree become `cells`, and has nothing else changed?
    closed spec fn became(&self, pre: &Sink, cells: Seq<Cell>) -> bool {
        &&& self.refers()
        &&& self@ == pre@.with(cells)
        &&& self.document == pre.document
        &&& self.log == pre.log
    }

    /// Add a node, and refer to it.
    fn new_node(&mut self, node: NodeEnum) -> (r: Handle)
        requires
            old(self).refers(),
        ensures
            final(self).became(old(self), old(self)@.cells.push(lone(node@))),
            r@ == Some(old(self)@.cells.len() as int),
    {
        let r = Handle::new(self.nodes.len());
        self.nodes.push(SquishyNode::new(node));
        assert(self@.cells =~= old(self)@.cells.push(lone(node@)));
        r
    }

    /// Put a node without a parent among the children of `parent`.
    fn insert_child(&mut self, parent: Handle, i: usize, child: Handle)
        requires
            old(self).refers(),
            old(self)@.has(parent@),
            old(self)@.has(child@),
            i <= old(self)@.cells[parent@->0].children.len(),
        ensures
            final(self).became(
                old(self),
                inserted(old(self)@.cells, parent@->0, i as int, child@->0),
            ),
    {
        let p = parent.place();
        let c = child.place();
        let ghost kids = self.nodes@[p as int].children@;
        assert(self.nodes@[p as int].wf());
        self.nodes[p].children.insert(i, child);
        assert(places(self.nodes@[p as int].children@) =~= places(kids).insert(i as int, c as int));
        let ghost mid = self.nodes@;
        self.nodes[c].parent = parent;
        proof {
            assert(self@.cells =~= inserted(old(self)@.cells, p as int, i as int, c as int));
            assert forall|k: int| 0 <= k < self.nodes@.len() implies (
            #[trigger] self.nodes@[k]).wf() by {
                assert(old(self).nodes@[k].wf());
                assert(self.nodes@[k].children@ == mid[k].children@);
            }
        }
    }

    /// The parent of a node, and where the node stands among its children.
    fn get_parent_and_index(&self, child: Handle) -> (r: Option<(Handle, usize)>)
        requires
            self.refers(),
            consistent(self@.cells),
            self@.has(child@),
        ensures
            self@.cells[child@->0].parent is None ==> r is None,
            self@.cells[child@->0].parent is Some ==> r is Some && (r->0).0@
                == self@.cells[child@->0].parent && (r->0).1 == rank_among(
                self@.cells,
                child@->0,
            ),
    {
        let c = child.place();
        let parent = self.nodes[c].parent;
        assert(self@.cells[c as int] == self.nodes@[c as int]@);
        if parent.is_null() {
            return None;
        }
        proof {
            lemma_rank(self@.cells, c as int);
        }
        let p = parent.place();
        assert(self@.cells[p as int] == self.nodes@[p as int]@);
        let ghost kids = self@.cells[p as int].children;
        let ghost at = rank_among(self@.cells, c as int);
        let len: usize = self.nodes[p].children.len();
        let mut i: usize = 0;
        while self.nodes[p].children[i] != child
            invariant
                p < self.nodes@.len(),
                len == kids.len(),
                kids == places(self.nodes@[p as int].children@),
                self.nodes@[p as int].wf(),
                child@ == Some(c as int),
                0 <= i <= at < kids.len(),
                kids[at] == c,
            decreases at - i,
        {
            proof {
                lemma_handle(self.nodes@[p as int].children@[i as int], child);
                assert(self.nodes@[p as int].children@[i as int]@ is Some);
                if i == at {
                    assert(kids[at] == self.nodes@[p as int].children@[i as int]@->0);
                }
            }
            i += 1;
        }
        proof {
            assert(kids[i as int] == c);
            assert(self@.cells[p as int].children[i as int] == c);
        }
        Some((parent, i))
    }

    /// Add text to a text node. Is it one?
    fn append_to_existing_text(&mut self, prev: Handle, text: &str) -> (r: bool)
        requires
            old(self).refers(),
            old(self)@.has(prev@),
        ensures
            ({
                let c = prev@->0;
                let node = old(self)@.cells[c].node;
                &&& r == node is Text
                &&& final(self).became(
                    old(self),
                    if r {
                        changed(old(self)@.cells, c, more_text(node, text@))
                    } else {
                        old(self)@.cells
                    },
                )
            }),
    {
        let c = prev.place();
        assert(self@.cells[c as int] == self.nodes@[c as int]@);
        let is_text = match &mut self.nodes[c].node {
            NodeEnum::Text(existing) => {
                existing.append(text);
                true
            },
            _ => false,
        };
        if !is_text {
            assert(self.nodes@ =~= old(self).nodes@);
            return false;
        }
        proof {
            assert(self@.cells =~= changed(
                old(self)@.cells,
                c as int,
                more_text(old(self)@.cells[c as int].node, text@),
            ));
            assert forall|k: int| 0 <= k < self.nodes@.len() implies (
            #[trigger] self.nodes@[k]).wf() by {
                assert(old(self).nodes@[k].wf());
            }
        }
        true
    }

    /// Take a node from its parent, if it has one.
    fn detach(&mut self, target: Handle)
        requires
            old(self).refers(),
            consistent(old(self)@.cells),
            old(self)@.has(target@),
        ensures
            final(self).became(old(self), detached(old(self)@.cells, target@->0)),
    {
        let c = target.place();
        match self.get_parent_and_index(target) {
            None => {},
            Some((parent, i)) => {
                proof {
                    lemma_rank(self@.cells, c as int);
                }
                let p = parent.place();
                assert(self@.cells[p as int] == self.nodes@[p as int]@);
                let ghost kids = self.nodes@[p as int].children@;
                assert(self.nodes@[p as int].wf());
                self.nodes[p].children.remove(i);
                assert(places(self.nodes@[p as int].children@) =~= places(kids).remove(i as int));
                let ghost mid = self.nodes@;
                self.nodes[c].parent = Handle::null();
                proof {
                    assert(self@.cells =~= detached(old(self)@.cells, c as int));
                    assert forall|k: int| 0 <= k < self.nodes@.len() implies (
                    #[trigger] self.nodes@[k]).wf() by {
                        assert(old(self).nodes@[k].wf());
                        assert(self.nodes@[k].children@ == mid[k].children@);
                    }
                }
            },
        }
    }

    /// Put text among the children of `parent`.
    fn insert_text(&mut self, parent: Handle, i: usize, text: String)
        requires
            old(self).refers(),
            consistent(old(self)@.cells),
            old(self)@.has(parent@),
            i <= old(self)@.cells[parent@->0].children.len(),
        ensures
            final(self).became(
                old(self),
                text_inserted(old(self)@.cells, parent@->0, i as int, text@),
            ),
    {
        let p = parent.place();
        assert(self@.cells[p as int] == self.nodes@[p as int]@);
        if i > 0 {
            let prev = self.nodes[p].children[i - 1];
            proof {
                assert(self.nodes@[p as int].wf());
                assert(prev@ == Some(self@.cells[p as int].children[i - 1]));
            }
            if self.append_to_existing_text(prev, text.as_str()) {
                return ;
            }
        }
        let node = self.new_node(NodeEnum::Text(text));
        self.insert_child(parent, i, node);
    }
}

/// Every operation keeps the tree well-formed.
proof fn lemma_dom_kept(dom: Dom, cells: Seq<Cell>)
    requires
        dom.wf(),
        consistent(cells),
        cells.len() >= dom.cells.len(),
        forall|c: int|
            0 <= c < dom.cells.len() ==> ((#[trigger] cells[c]).node is Document
                <==> dom.cells[c].node is Document),
        forall|c: int| dom.cells.len() <= c < cells.len() ==> !((#[trigger] cells[c]).node is Document),
    ensures
        dom.with(cells).wf(),
{
}

/// Putting text among the children of a node.
pub proof fn lemma_text_inserted(cells: Seq<Cell>, p: int, i: int, t: Seq<char>)
    requires
        consistent(cells),
        0 <= p < cells.len(),
        0 <= i <= cells[p].children.len(),
    ensures
        consistent(text_inserted(cells, p, i, t)),
{
    let prev = cells[p].children[i - 1];
    if i > 0 && cells[prev].node is Text {
        lemma_changed(cells, prev, more_text(cells[prev].node, t));
    } else {
        let node = NodeEnumView::Text(t);
        lemma_pushed(cells, node);
        lemma_inserted(cells.push(lone(node)), p, i, cells.len() as int);
    }
}

impl TreeSink<Handle> for Sink {
    closed spec fn calls(&self) -> Seq<TreeCall<Handle>> {
        self.log@
    }

    closed spec fn inv(&self) -> bool {
        &&& self.refers()
        &&& self@.wf()
    }

    open spec fn is_node(&self, target: Handle) -> bool {
        self@.has(target@)
    }

    open spec fn is_orphan(&self, target: Handle) -> bool {
        self@.has(target@) && self@.cells[target@->0].parent is None
    }

    open spec fn name_of(&self, target: Handle) -> Option<(Namespace, Seq<char>)> {
        if self@.has(target@) {
            match self@.cells[target@->0].node {
                NodeEnumView::Element(name, _) => Some((Namespace::HTML, name)),
                _ => None,
            }
        } else {
            None
        }
    }

    open spec fn has_namespace(&self, ns: Namespace) -> bool {
        ns == Namespace::HTML
    }

    /// Keep the message.
    fn parse_error(&mut self, msg: MaybeOwned)
        ensures
            final(self)@ == (Dom { errors: old(self)@.errors.push(msg@), ..old(self)@ }),
    {
        self.errors.push(msg);
        assert(texts(self.errors@) =~= texts(old(self).errors@).push(msg@));
        self.log = Ghost(self.log@.push(TreeCall::ParseError(msg@)));
    }

    /// The document.
    fn get_document(&mut self) -> (r: Handle)
        ensures
            r@ == Some(old(self)@.document),
            final(self)@ == old(self)@,
    {
        self.log = Ghost(self.log@.push(TreeCall::GetDocument(self.document)));
        self.document
    }

    /// Keep the mode.
    fn set_quirks_mode(&mut self, mode: QuirksMode)
        ensures
            final(self)@ == (Dom { quirks_mode: mode, ..old(self)@ }),
    {
        self.quirks_mode = mode;
        self.log = Ghost(self.log@.push(TreeCall::SetQuirksMode(mode)));
    }

    fn same_node(&self, x: Handle, y: Handle) -> (r: bool) {
        x == y
    }

    /// All elements are in the HTML namespace.
    fn elem_name(&self, target: &Handle) -> (r: (Namespace, Atom)) {
        let c = target.place();
        assert(self@.cells[c as int] == self.nodes@[c as int]@);
        match &self.nodes[c].node {
            NodeEnum::Element(name, _) => (Namespace::HTML, name.clone()),
            _ => (Namespace::HTML, Atom::Static("")),
        }
    }

    /// Add an element without a parent.
    fn create_element(&mut self, ns: Namespace, name: Atom, attrs: Vec<Attribute>) -> (r: Handle)
        ensures
            r@ == Some(old(self)@.cells.len() as int),
            final(self)@ == old(self)@.with(
                old(self)@.cells.push(lone(NodeEnumView::Element(name@, attrs_view(attrs@)))),
            ),
    {
        let ghost node = NodeEnumView::Element(name@, attrs_view(attrs@));
        proof {
            lemma_pushed(self@.cells, node);
            lemma_dom_kept(self@, self@.cells.push(lone(node)));
        }
        let ghost call = (ns, name@, attrs_view(attrs@));
        let r = self.new_node(NodeEnum::Element(name, attrs));
        self.log = Ghost(self.log@.push(TreeCall::CreateElement(call.0, call.1, call.2, r)));
        r
    }

    /// Add a comment without a parent.
    fn create_comment(&mut self, text: String) -> (r: Handle)
        ensures
            r@ == Some(old(self)@.cells.len() as int),
            final(self)@ == old(self)@.with(
                old(self)@.cells.push(lone(NodeEnumView::Comment(text@))),
            ),
    {
        let ghost node = NodeEnumView::Comment(text@);
        proof {
            lemma_pushed(self@.cells, node);
            lemma_dom_kept(self@, self@.cells.push(lone(node)));
        }
        let ghost t = text@;
        let r = self.new_node(NodeEnum::Comment(text));
        self.log = Ghost(self.log@.push(TreeCall::CreateComment(t, r)));
        r
    }

    /// Append to the children of a node. Text is added to an existing text node if there
    /// is one at the end.
    fn append(&mut self, parent: Handle, child: NodeOrText<Handle>)
        ensures
            final(self)@ == old(self)@.with(appended(old(self)@.cells, parent@->0, child@)),
    {
        let p = parent.place();
        assert(self@.cells[p as int] == self.nodes@[p as int]@);
        let n = self.nodes[p].children.len();
        let ghost cells = self@.cells;
        let ghost view = child@;
        proof {
            match view {
                NodeOrTextView::AppendNode(h) => lemma_inserted(cells, p as int, n as int, h@->0),
                NodeOrTextView::AppendText(t) => lemma_text_inserted(cells, p as int, n as int, t),
            }
            lemma_dom_kept(self@, appended(cells, p as int, view));
        }
        match child {
            NodeOrText::AppendText(text) => self.insert_text(parent, n, text),
            NodeOrText::AppendNode(node) => self.insert_child(parent, n, node),
        }
        self.log = Ghost(self.log@.push(TreeCall::Append(parent, view)));
    }

    /// Put a node or text right before `sibling`, among the children of its parent. Text
    /// is added to an existing text node if there is one before. A node is taken from
    /// where it was before. Without a parent of `sibling`, nothing is done, and the new
    /// node is given back.
    fn append_before_sibling(&mut self, sibling: Handle, new_node: NodeOrText<Handle>) -> (r: Result<
        (),
        NodeOrText<Handle>,
    >)
        ensures
            r is Ok <==> old(self)@.cells[sibling@->0].parent is Some,
            r is Ok ==> final(self)@ == old(self)@.with(
                put_before(old(self)@.cells, sibling@->0, new_node@),
            ),
            r is Err ==> final(self)@ == old(self)@,
    {
        let ghost view = new_node@;
        let (parent, i) = match self.get_parent_and_index(sibling) {
            None => {
                self.log = Ghost(
                    self.log@.push(TreeCall::AppendBeforeSibling(sibling, view, false)),
                );
                return Err(new_node);
            },
            Some(found) => found,
        };
        let ghost cells = self@.cells;
        let ghost s = sibling@->0;
        let ghost p = parent@->0;
        proof {
            lemma_rank(cells, s);
            match view {
                NodeOrTextView::AppendNode(h) => {
                    if h@->0 != s {
                        let rest = detached(cells, h@->0);
                        lemma_detached(cells, h@->0);
                        lemma_still_there(cells, h@->0, s);
                        lemma_rank(rest, s);
                        lemma_inserted(rest, p, rank_among(rest, s), h@->0);
                    }
                },
                NodeOrTextView::AppendText(t) => lemma_text_inserted(cells, p, i as int, t),
            }
            lemma_dom_kept(self@, put_before(cells, s, view));
        }
        match new_node {
            NodeOrText::AppendText(text) => self.insert_text(parent, i, text),
            NodeOrText::AppendNode(node) => {
                proof {
                    lemma_handle(node, sibling);
                }
                if node != sibling {
                    self.detach(node);
                    match self.get_parent_and_index(sibling) {
                        Some((_, i)) => self.insert_child(parent, i, node),
                        None => {},
                    }
                }
            },
        }
        self.log = Ghost(self.log@.push(TreeCall::AppendBeforeSibling(sibling, view, true)));
        Ok(())
    }

    /// Append a doctype to the children of the document.
    fn append_doctype_to_document(&mut self, name: String, public_id: String, system_id: String)
        ensures
            ({
                let cells = old(self)@.cells;
                let d = old(self)@.document;
                let node = NodeEnumView::Doctype(name@, public_id@, system_id@);
                final(self)@ == old(self)@.with(
                    inserted(
                        cells.push(lone(node)),
                        d,
                        cells[d].children.len() as int,
                        cells.len() as int,
                    ),
                )
            }),
    {
        let ghost cells = self@.cells;
        let d = self.document.place();
        let ghost node = NodeEnumView::Doctype(name@, public_id@, system_id@);
        let ghost call = (name@, public_id@, system_id@);
        assert(self@.cells[d as int] == self.nodes@[d as int]@);
        let n = self.nodes[d].children.len();
        proof {
            lemma_pushed(cells, node);
            lemma_inserted(cells.push(lone(node)), d as int, n as int, cells.len() as int);
            lemma_dom_kept(
                self@,
                inserted(cells.push(lone(node)), d as int, n as int, cells.len() as int),
            );
        }
        let node = self.new_node(NodeEnum::Doctype(name, public_id, system_id));
        let document = self.document;
        self.insert_child(document, n, node);
        self.log = Ghost(
            self.log@.push(TreeCall::AppendDoctypeToDocument(call.0, call.1, call.2)),
        );
    }

    /// Add the attributes whose names the element does not have. A node that is no
    /// element stays as it is.
    fn add_attrs_if_missing(&mut self, target: Handle, attrs: Vec<Attribute>)
        ensures
            ({
                let cells = old(self)@.cells;
                let c = target@->0;
                final(self)@ == old(self)@.with(
                    changed(cells, c, with_attrs(cells[c].node, attrs_view(attrs@))),
                )
            }),
    {
        let ghost cells = self@.cells;
        let c = target.place();
        let ghost new = attrs_view(attrs@);
        assert(self@.cells[c as int] == self.nodes@[c as int]@);
        proof {
            let node = with_attrs(cells[c as int].node, new);
            lemma_changed(cells, c as int, node);
            lemma_dom_kept(self@, changed(cells, c as int, node));
        }
        match &mut self.nodes[c].node {
            NodeEnum::Element(_, existing) => {
                add_missing(existing, attrs);
            },
            _ => {},
        }
        proof {
            assert(self@.cells =~= changed(
                cells,
                c as int,
                with_attrs(cells[c as int].node, new),
            ));
            assert forall|k: int| 0 <= k < self.nodes@.len() implies (
            #[trigger] self.nodes@[k]).wf() by {
                assert(old(self).nodes@[k].wf());
            }
        }
        self.log = Ghost(self.log@.push(TreeCall::AddAttrsIfMissing(target, new)));
    }

    /// Take a node from its parent, if it has one.
    fn remove_from_parent(&mut self, target: Handle)
        ensures
            final(self)@ == old(self)@.with(detached(old(self)@.cells, target@->0)),
    {
        proof {
            lemma_detached(self@.cells, target@->0);
            lemma_dom_kept(self@, detached(self@.cells, target@->0));
        }
        self.detach(target);
        self.log = Ghost(self.log@.push(TreeCall::RemoveFromParent(target)));
    }

    /// Nothing is kept of this.
    fn mark_script_already_started(&mut self, node: Handle)
        ensures
            final(self)@ == old(self)@,
    {
        self.log = Ghost(self.log@.push(TreeCall::MarkScriptAlreadyStarted(node)));
    }
}

/// Taking a node from its parent leaves the parents of the others, and what all nodes
/// are, as they were.
proof fn lemma_still_there(cells: Seq<Cell>, c: int, s: int)
    requires
        consistent(cells),
        0 <= c < cells.len(),
        0 <= s < cells.len(),
        s != c,
    ensures
        detached(cells, c)[s].parent == cells[s].parent,
        forall|k: int|
            0 <= k < cells.len() ==> (#[trigger] detached(cells, c)[k]).node == cells[k].node,
{
    if cells[c].parent is Some {
        lemma_rank(cells, c);
    }
}

/// Add the attributes of `attrs` whose names do not occur in `existing`.
fn add_missing(existing: &mut Vec<Attribute>, attrs: Vec<Attribute>)
    ensures
        attrs_view(final(existing)@) == attrs_view(old(existing)@) + missing_attrs(
            attrs_view(old(existing)@),
            attrs_view(attrs@),
        ),
{
    let ghost all = attrs_view(attrs@);
    let ghost before = attrs_view(existing@);
    let n = existing.len();
    let mut attrs = attrs;
    let ghost mut done: int = 0;
    assert(all.take(0) =~= Seq::<AttributeView>::empty());
    assert(before + Seq::<AttributeView>::empty() =~= before);
    assert(all.skip(0) =~= all);
    while attrs.len() > 0
        invariant
            0 <= done <= all.len(),
            attrs_view(attrs@) == all.skip(done),
            n == before.len(),
            attrs_view(existing@) == before + missing_attrs(before, all.take(done)),
        decreases attrs@.len(),
    {
        let ghost rest = attrs@;
        assert(attrs_view(rest).len() == rest.len());
        assert(attrs_view(existing@).len() == existing@.len());
        let attr = attrs.remove(0);
        let mut found = false;
        let mut k: usize = 0;
        while k < n
            invariant
                k <= n <= existing@.len(),
                n == before.len(),
                attrs_view(existing@) == before + missing_attrs(before, all.take(done)),
                found ==> has_attr(before, attr@.name),
                !found ==> forall|j: int| 0 <= j < k ==> (#[trigger] before[j]).name != attr@.name,
            decreases n - k,
        {
            assert(attrs_view(existing@)[k as int] == existing@[k as int]@);
            assert(before[k as int] == existing@[k as int]@);
            if existing[k].name == attr.name {
                found = true;
            }
            k += 1;
        }
        let ghost pre = existing@;
        if !found {
            existing.push(attr);
        }
        proof {
            assert(attrs_view(rest)[0] == attr@);
            assert(all[done] == all.skip(done)[0]);
            assert(all.take(done + 1).drop_last() =~= all.take(done));
            assert(all.take(done + 1).last() == attr@);
            assert(attrs@ =~= rest.drop_first());
            assert(attrs_view(attrs@) =~= attrs_view(rest).drop_first());
            assert(all.skip(done).drop_first() =~= all.skip(done + 1));
            if !found {
                assert(attrs_view(existing@) =~= attrs_view(pre).push(attr@));
            }
            assert(attrs_view(existing@) =~= before + missing_attrs(before, all.take(done + 1)));
            done = done + 1;
        }
    }
    assert(all.take(done) =~= all);
}

/// A node of a finished tree, which owns its children.
#[derive(Debug)]
pub struct Node {
    pub node: NodeEnum,
    pub children: Vec<Box<Node>>,
}

/// A finished tree.
#[derive(Debug)]
pub struct OwnedDom {
    pub document: Box<Node>,
    pub errors: Vec<MaybeOwned>,
    pub quirks_mode: QuirksMode,
}

/// Does the finished node `n` look like the node at the place `c`, with all that is
/// below it?
pub open spec fn mirrors(n: Node, cells: Seq<Cell>, c: int) -> bool
    decreases n,
{
    &&& n.node@ == cells[c].node
    &&& n.children@.len() == cells[c].children.len()
    &&& forall|i: int|
        0 <= i < n.children@.len() ==> mirrors(
            *(#[trigger] n.children@[i]),
            cells,
            cells[c].children[i],
        )
}

/// The `k`th node on the way up from `c`.
pub open spec fn above(cells: Seq<Cell>, c: int, k: nat) -> Option<int>
    decreases k,
{
    if k == 0 {
        Some(c)
    } else {
        match above(cells, c, (k - 1) as nat) {
            Some(d) => cells[d].parent,
            None => None,
        }
    }
}

impl Dom {
    /// Is the document nowhere above itself?
    pub open spec fn ends_above(self) -> bool {
        forall|k: nat| k > 0 ==> #[trigger] above(self.cells, self.document, k) != Some(
            self.document,
        )
    }
}

/// A document without a parent is nowhere above itself.
pub proof fn law_root_is_not_above_itself(dom: Dom)
    requires
        dom.cells[dom.document].parent is None,
    ensures
        dom.ends_above(),
{
    assert forall|k: nat| k > 0 implies #[trigger] above(dom.cells, dom.document, k) != Some(
        dom.document,
    ) by {
        lemma_nothing_above(dom.cells, dom.document, k);
    }
}

/// Above a node without a parent there is nothing.
proof fn lemma_nothing_above(cells: Seq<Cell>, c: int, k: nat)
    requires
        cells[c].parent is None,
        k > 0,
    ensures
        above(cells, c, k) is None,
    decreases k,
{
    if k > 1 {
        lemma_nothing_above(cells, c, (k - 1) as nat);
    } else {
        assert(above(cells, c, 0) == Some(c));
    }
}

/// The way up, taken in two parts.
proof fn lemma_above_above(cells: Seq<Cell>, c: int, j: nat, k: nat)
    ensures
        above(cells, c, j + k) == (match above(cells, c, j) {
            Some(d) => above(cells, d, k),
            None => None,
        }),
    decreases k,
{
    if k > 0 {
        lemma_above_above(cells, c, j, (k - 1) as nat);
    }
}

/// What is above a node is a node.
proof fn lemma_above_in(cells: Seq<Cell>, c: int, k: nat)
    requires
        consistent(cells),
        0 <= c < cells.len(),
    ensures
        above(cells, c, k) matches Some(d) ==> 0 <= d < cells.len(),
    decreases k,
{
    if k > 0 {
        lemma_above_in(cells, c, (k - 1) as nat);
    }
}

/// If the way up does not come back within as many steps as there are nodes, it never
/// does.
proof fn lemma_no_return(cells: Seq<Cell>, c: int, k: nat)
    requires
        consistent(cells),
        0 <= c < cells.len(),
        k > 0,
        forall|j: nat| 1 <= j <= cells.len() ==> #[trigger] above(cells, c, j) != Some(c),
    ensures
        above(cells, c, k) != Some(c),
    decreases k,
{
    if k > cells.len() && above(cells, c, k) == Some(c) {
        let way = Seq::new(k, |i: int| above(cells, c, (i + 1) as nat)->0);
        assert forall|i: int| 0 <= i < k implies 0 <= #[trigger] way[i] < cells.len() && above(
            cells,
            c,
            (i + 1) as nat,
        ) == Some(way[i]) by {
            lemma_above_above(cells, c, (i + 1) as nat, (k - (i + 1)) as nat);
            lemma_above_in(cells, c, (i + 1) as nat);
        }
        if way.no_duplicates() {
            lemma_few(way, cells.len() as int);
        }
        let (a, b) = choose|a: int, b: int| 0 <= a < k && 0 <= b < k && a != b && way[a] == way[b];
        let (i, j) = if a < b {
            (a, b)
        } else {
            (b, a)
        };
        let rest = (k - (j + 1)) as nat;
        lemma_above_above(cells, c, (i + 1) as nat, rest);
        lemma_above_above(cells, c, (j + 1) as nat, rest);
        lemma_no_return(cells, c, (i + 1 + rest) as nat);
    }
}

/// Is `path` the way down from the document to its last node, over nodes that all
/// differ?
spec fn way_down(dom: Dom, path: Seq<int>) -> bool {
    &&& path.len() > 0
    &&& path[0] == dom.document
    &&& path.no_duplicates()
    &&& forall|i: int| 0 <= i < path.len() ==> 0 <= #[trigger] path[i] < dom.cells.len()
    &&& forall|i: int|
        0 < i < path.len() ==> dom.cells[#[trigger] path[i]].parent == Some(path[i - 1])
}

/// The way up from the document, if it is a child of the last node of a way down.
proof fn lemma_around(dom: Dom, path: Seq<int>, k: nat)
    requires
        way_down(dom, path),
        dom.cells[dom.document].parent == Some(path.last()),
        0 < k <= path.len(),
    ensures
        above(dom.cells, dom.document, k) == Some(path[path.len() - k]),
    decreases k,
{
    if k == 1 {
        assert(above(dom.cells, dom.document, 0) == Some(dom.document));
    } else {
        lemma_around(dom, path, (k - 1) as nat);
        let c = path[path.len() - (k - 1)];
        assert(dom.cells[c].parent == Some(path[path.len() - k]));
    }
}

/// A way down can be continued by any child of its last node, and no way down has more
/// nodes than there are.
proof fn lemma_way_down(dom: Dom, path: Seq<int>, i: int)
    requires
        dom.wf(),
        dom.ends_above(),
        way_down(dom, path),
        0 <= i < dom.cells[path.last()].children.len(),
    ensures
        way_down(dom, path.push(dom.cells[path.last()].children[i])),
        path.len() < dom.cells.len(),
{
    let c = path.last();
    let x = dom.cells[c].children[i];
    assert(dom.cells[x].parent == Some(c));
    assert(!path.contains(x)) by {
        if path.contains(x) {
            let j = path.index_of(x);
            if j == 0 {
                lemma_around(dom, path, path.len());
                assert(above(dom.cells, dom.document, path.len()) == Some(dom.document));
            } else {
                assert(dom.cells[path[j]].parent == Some(path[j - 1]));
                assert(path[j - 1] == path[path.len() - 1]);
            }
        }
    }
    let longer = path.push(x);
    assert(longer.no_duplicates()) by {
        assert forall|a: int, b: int|
            0 <= a < longer.len() && 0 <= b < longer.len() && a != b implies longer[a]
            != longer[b] by {
            if a == path.len() {
                assert(path.contains(path[b]));
            } else if b == path.len() {
                assert(path.contains(path[a]));
            }
        }
    }
    assert forall|j: int| 0 < j < longer.len() implies dom.cells[#[trigger] longer[j]].parent
        == Some(longer[j - 1]) by {
        if j < path.len() {
            assert(longer[j] == path[j]);
        }
    }
    lemma_few(longer, dom.cells.len() as int);
}

/// Different numbers below `n` are no more than `n`.
proof fn lemma_few(s: Seq<int>, n: int)
    requires
        s.no_duplicates(),
        forall|i: int| 0 <= i < s.len() ==> 0 <= #[trigger] s[i] < n,
        n >= 0,
    ensures
        s.len() <= n,
{
    let all = vstd::set_lib::set_int_range(0, n);
    vstd::set_lib::lemma_int_range(0, n);
    s.unique_seq_to_set();
    assert(s.to_set().subset_of(all)) by {
        assert forall|x: int| s.to_set().contains(x) implies all.contains(x) by {
            let i = s.index_of(x);
            assert(s[i] == x);
        }
    }
    vstd::set_lib::lemma_len_subset(s.to_set(), all);
}

impl Sink {
    /// The tree of a sink is well-formed.
    pub proof fn law_tree_is_well_formed(&self)
        requires
            self.inv(),
        ensures
            self@.wf(),
    {
    }

    /// Is the document somewhere above itself?
    pub fn document_is_above_itself(&self) -> (r: bool)
        requires
            self.inv(),
        ensures
            r == !self@.ends_above(),
    {
        let ghost cells = self@.cells;
        let ghost doc = self@.document;
        let n = self.nodes.len();
        let d = self.document.place();
        assert(cells[d as int] == self.nodes@[d as int]@);
        assert(above(cells, doc, 0) == Some(doc));
        let mut h = self.nodes[d].parent;
        let mut left: usize = n;
        while left > 0
            invariant
                self.inv(),
                cells == self@.cells,
                doc == self@.document,
                n == cells.len(),
                n == self.nodes@.len(),
                0 <= left <= n,
                self.document@ == Some(doc),
                h@ == above(cells, doc, (n - left + 1) as nat),
                forall|j: nat|
                    1 <= j <= n - left ==> (#[trigger] above(cells, doc, j)) is Some && above(
                        cells,
                        doc,
                        j,
                    ) != Some(doc),
            decreases left,
        {
            let ghost k = (n - left + 1) as nat;
            if h.is_null() {
                assert forall|j: nat| j > 0 implies #[trigger] above(cells, doc, j) != Some(doc) by {
                    if j >= k {
                        lemma_above_above(cells, doc, k, (j - k) as nat);
                    }
                }
                return false;
            }
            proof {
                lemma_handle(h, self.document);
                lemma_above_in(cells, doc, k);
            }
            if h == self.document {
                return true;
            }
            let c = h.place();
            assert(cells[c as int] == self.nodes@[c as int]@);
            h = self.nodes[c].parent;
            left -= 1;
        }
        proof {
            assert forall|k: nat| k > 0 implies #[trigger] above(cells, doc, k) != Some(doc) by {
                lemma_no_return(cells, doc, k);
            }
        }
        false
    }

    /// The finished node for the node that `h` refers to, with all that is below it.
    fn walk(&self, h: Handle, Ghost(path): Ghost<Seq<int>>) -> (r: Box<Node>)
        requires
            self.inv(),
            self@.ends_above(),
            self@.has(h@),
            way_down(self@, path),
            h@ == Some(path.last()),
            path.len() <= self@.cells.len(),
        ensures
            mirrors(*r, self@.cells, h@->0),
        decreases self@.cells.len() - path.len(),
    {
        let c = h.place();
        assert(self@.cells[c as int] == self.nodes@[c as int]@);
        assert(self.nodes@[c as int].wf());
        let mut children: Vec<Box<Node>> = Vec::new();
        let mut i: usize = 0;
        while i < self.nodes[c].children.len()
            invariant
                self.inv(),
                self@.ends_above(),
                c < self.nodes@.len(),
                self@.cells.len() == self.nodes@.len(),
                self@.cells[c as int] == self.nodes@[c as int]@,
                self.nodes@[c as int].wf(),
                way_down(self@, path),
                path.last() == c,
                i <= self.nodes@[c as int].children@.len(),
                children@.len() == i,
                forall|j: int|
                    0 <= j < i ==> mirrors(
                        *(#[trigger] children@[j]),
                        self@.cells,
                        self@.cells[c as int].children[j],
                    ),
            decreases self.nodes@[c as int].children@.len() - i,
        {
            let child = self.nodes[c].children[i];
            let ghost x = self@.cells[c as int].children[i as int];
            proof {
                assert(child@ == Some(x));
                lemma_way_down(self@, path, i as int);
            }
            let node = self.walk(child, Ghost(path.push(x)));
            children.push(node);
            i += 1;
        }
        Box::new(Node { node: self.nodes[c].node.clone(), children })
    }
}

impl OwnedDom {
    /// The finished tree: the document and all that is below it. Nodes that are
    /// elsewhere are dropped.
    pub fn get_result(sink: Sink) -> (r: OwnedDom)
        requires
            sink.inv(),
            sink@.ends_above(),
        ensures
            mirrors(*r.document, sink@.cells, sink@.document),
            texts(r.errors@) == sink@.errors,
            r.quirks_mode == sink@.quirks_mode,
    {
        let ghost path = seq![sink@.document];
        assert(path.no_duplicates());
        assert(way_down(sink@, path));
        let document = sink.walk(sink.document, Ghost(path));
        OwnedDom { document, errors: sink.errors, quirks_mode: sink.quirks_mode }
    }
}

/// Can this node be serialized, or what is below it if not `incl_self`? A document
/// itself cannot.
pub open spec fn serializable(n: Node, incl_self: bool) -> bool
    decreases n,
{
    &&& !(incl_self && n.node is Document)
    &&& n.node is Element || n.node is Document ==> forall|i: int|
        0 <= i < n.children@.len() ==> serializable(*(#[trigger] n.children@[i]), true)
}

/// The calls for the first `k` children of a node.
pub open spec fn children_serialized(n: Node, k: nat) -> Seq<SerializeCallView>
    decreases n, k,
{
    if k == 0 || k > n.children@.len() {
        Seq::empty()
    } else {
        children_serialized(n, (k - 1) as nat) + serialized(*n.children@[k - 1], true)
    }
}

/// The calls for a node, or for what is below it if not `incl_self`.
pub open spec fn serialized(n: Node, incl_self: bool) -> Seq<SerializeCallView>
    decreases n, n.children@.len() + 1,
{
    match n.node {
        NodeEnum::Element(name, attrs) => {
            let inside = children_serialized(n, n.children@.len());
            if incl_self {
                seq![SerializeCallView::StartElem(Namespace::HTML, name@, attrs_view(attrs@))]
                    + inside + seq![SerializeCallView::EndElem(Namespace::HTML, name@)]
            } else {
                inside
            }
        },
        NodeEnum::Document => children_serialized(n, n.children@.len()),
        NodeEnum::Doctype(name, _, _) => if incl_self {
            seq![SerializeCallView::WriteDoctype(name@)]
        } else {
            Seq::empty()
        },
        NodeEnum::Text(text) => if incl_self {
            seq![SerializeCallView::WriteText(text@)]
        } else {
            Seq::empty()
        },
        NodeEnum::Comment(text) => if incl_self {
            seq![SerializeCallView::WriteComment(text@)]
        } else {
            Seq::empty()
        },
    }
}

/// Add a call to a list.
fn push_call<'a>(out: &mut Vec<SerializeCall<'a>>, call: SerializeCall<'a>)
    ensures
        calls_view(final(out)@) == calls_view(old(out)@).push(call@),
{
    out.push(call);
    assert(calls_view(out@) =~= calls_view(old(out)@).push(call@));
}

impl Node {
    /// Can this node be serialized, or what is below it if not `incl_self`?
    pub fn can_serialize(&self, incl_self: bool) -> (r: bool)
        ensures
            r == serializable(*self, incl_self),
        decreases *self,
    {
        match &self.node {
            NodeEnum::Element(_, _) => {},
            NodeEnum::Document => {
                if incl_self {
                    return false;
                }
            },
            _ => {
                return true;
            },
        }
        let mut i: usize = 0;
        while i < self.children.len()
            invariant
                self.node is Element || self.node is Document,
                i <= self.children@.len(),
                forall|j: int|
                    0 <= j < i ==> serializable(*(#[trigger] self.children@[j]), true),
            decreases self.children@.len() - i,
        {
            assert(decreases_to!(*self => *self.children@[i as int]));
            if !self.children[i].can_serialize(true) {
                return false;
            }
            i += 1;
        }
        true
    }

    /// The calls that serialize this node, or what is below it if not `incl_self`, in
    /// order.
    pub fn serialize(&self, incl_self: bool) -> (r: Vec<SerializeCall<'_>>)
        requires
            serializable(*self, incl_self),
        ensures
            calls_view(r@) == serialized(*self, incl_self),
    {
        let mut out: Vec<SerializeCall<'_>> = Vec::new();
        self.serialize_into(&mut out, incl_self);
        assert(calls_view(Seq::<SerializeCall<'_>>::empty()) =~= Seq::<SerializeCallView>::empty());
        assert(calls_view(out@) =~= serialized(*self, incl_self));
        out
    }

    /// Add the calls for this node to `out`.
    fn serialize_into<'a>(&'a self, out: &mut Vec<SerializeCall<'a>>, incl_self: bool)
        requires
            serializable(*self, incl_self),
        ensures
            calls_view(final(out)@) == calls_view(old(out)@) + serialized(*self, incl_self),
        decreases *self, self.children@.len() + 1,
    {
        let ghost before = calls_view(out@);
        match &self.node {
            NodeEnum::Element(name, attrs) => {
                if incl_self {
                    push_call(out, SerializeCall::StartElem(Namespace::HTML, name, attrs));
                }
                self.serialize_children(out);
                if incl_self {
                    push_call(out, SerializeCall::EndElem(Namespace::HTML, name));
                }
            },
            NodeEnum::Document => self.serialize_children(out),
            NodeEnum::Doctype(name, _, _) => {
                if incl_self {
                    push_call(out, SerializeCall::WriteDoctype(name.as_str()));
                }
            },
            NodeEnum::Text(text) => {
                if incl_self {
                    push_call(out, SerializeCall::WriteText(text.as_str()));
                }
            },
            NodeEnum::Comment(text) => {
                if incl_self {
                    push_call(out, SerializeCall::WriteComment(text.as_str()));
                }
            },
        }
        assert(calls_view(out@) =~= before + serialized(*self, incl_self));
    }

    /// Add the calls for the children of this node to `out`.
    fn serialize_children<'a>(&'a self, out: &mut Vec<SerializeCall<'a>>)
        requires
            forall|i: int|
                0 <= i < self.children@.len() ==> serializable(
                    *(#[trigger] self.children@[i]),
                    true,
                ),
        ensures
            calls_view(final(out)@) == calls_view(old(out)@) + children_serialized(
                *self,
                self.children@.len(),
            ),
        decreases *self, self.children@.len(),
    {
        let ghost before = calls_view(out@);
        let mut i: usize = 0;
        assert(before + children_serialized(*self, 0) =~= before);
        while i < self.children.len()
            invariant
                i <= self.children@.len(),
                forall|j: int|
                    0 <= j < self.children@.len() ==> serializable(
                        *(#[trigger] self.children@[j]),
                        true,
                    ),
                calls_view(out@) == before + children_serialized(*self, i as nat),
            decreases self.children@.len() - i,
        {
            assert(decreases_to!(*self => *self.children@[i as int]));
            self.children[i].serialize_into(out, true);
            i += 1;
            assert(calls_view(out@) =~= before + children_serialized(*self, i as nat));
        }
    }
}

/// Serialization ends every element that it starts, in the order that elements are
/// nested, and ends no other.
pub proof fn law_serialization_is_balanced(
    n: Node,
    incl_self: bool,
    open: Seq<(Namespace, Seq<char>)>,
)
    ensures
        open_after(serialized(n, incl_self), open) == Some(open),
    decreases n, n.children@.len() + 1,
{
    let calls = serialized(n, incl_self);
    let none = Seq::<SerializeCallView>::empty();
    assert(open_after(none, open) == Some(open));
    match n.node {
        NodeEnum::Element(name, attrs) => {
            let inside = children_serialized(n, n.children@.len());
            if incl_self {
                let start = seq![
                    SerializeCallView::StartElem(Namespace::HTML, name@, attrs_view(attrs@)),
                ];
                let end = seq![SerializeCallView::EndElem(Namespace::HTML, name@)];
                let inner = open.push((Namespace::HTML, name@));
                assert(start.drop_last() =~= none);
                assert(end.drop_last() =~= none);
                assert(open_after(start, open) == Some(inner));
                assert(open_after(none, inner) == Some(inner));
                lemma_children_balanced(n, n.children@.len(), inner);
                lemma_open_after(start, inside, open);
                lemma_open_after(start + inside, end, open);
                assert(inner.drop_last() =~= open);
            } else {
                lemma_children_balanced(n, n.children@.len(), open);
            }
        },
        NodeEnum::Document => lemma_children_balanced(n, n.children@.len(), open),
        _ => {
            if incl_self {
                assert(calls.drop_last() =~= none);
            }
        },
    }
}

/// The calls for the children of a node leave open what was open.
proof fn lemma_children_balanced(n: Node, k: nat, open: Seq<(Namespace, Seq<char>)>)
    requires
        k <= n.children@.len(),
    ensures
        open_after(children_serialized(n, k), open) == Some(open),
    decreases n, k,
{
    if k > 0 {
        lemma_children_balanced(n, (k - 1) as nat, open);
        law_serialization_is_balanced(*n.children@[k - 1], true, open);
        lemma_open_after(
            children_serialized(n, (k - 1) as nat),
            serialized(*n.children@[k - 1], true),
            open,
        );
    }
}

/// A finished tree can be serialized, without the document itself.
pub proof fn law_result_can_be_serialized(n: Node, dom: Dom)
    requires
        dom.wf(),
        dom.ends_above(),
        mirrors(n, dom.cells, dom.document),
    ensures
        serializable(n, false),
{
    lemma_serializable(n, dom, seq![dom.document]);
}

/// What looks like a node below the document can be serialized.
proof fn lemma_serializable(n: Node, dom: Dom, path: Seq<int>)
    requires
        dom.wf(),
        dom.ends_above(),
        way_down(dom, path),
        mirrors(n, dom.cells, path.last()),
    ensures
        serializable(n, path.len() > 1),
    decreases n,
{
    let c = path.last();
    assert(n.node@ == dom.cells[c].node);
    if path.len() > 1 {
        assert(c != dom.document);
    }
    assert forall|i: int| 0 <= i < n.children@.len() implies serializable(
        *(#[trigger] n.children@[i]),
        true,
    ) by {
        lemma_way_down(dom, path, i);
        let longer = path.push(dom.cells[c].children[i]);
        lemma_serializable(*n.children@[i], dom, longer);
    }
}

/// Appending a node that has no parent, and then taking it from its parent, changes
/// nothing.
pub proof fn law_remove_undoes_append(cells: Seq<Cell>, p: int, h: Handle)
    requires
        consistent(cells),
        0 <= p < cells.len(),
        h@ is Some,
        0 <= h@->0 < cells.len(),
        cells[h@->0].parent is None,
    ensures
        detached(appended(cells, p, NodeOrTextView::AppendNode(h)), h@->0) == cells,
{
    let c = h@->0;
    let n = cells[p].children.len() as int;
    let new = appended(cells, p, NodeOrTextView::AppendNode(h));
    lemma_inserted(cells, p, n, c);
    lemma_rank(new, c);
    let i = rank_among(new, c);
    assert(new[p].children[n] == c);
    assert(i == n);
    assert(new[p].children.remove(n) =~= cells[p].children);
    assert(detached(new, c) =~= cells);
}

/// A node that is put before another comes right before it, among the children of the
/// same parent, wherever it stood before.
pub proof fn law_put_before_is_right_before(cells: Seq<Cell>, s: int, h: Handle)
    requires
        consistent(cells),
        0 <= s < cells.len(),
        cells[s].parent is Some,
        h@ is Some,
        0 <= h@->0 < cells.len(),
        h@->0 != s,
    ensures
        ({
            let new = put_before(cells, s, NodeOrTextView::AppendNode(h));
            let p = cells[s].parent->0;
            let i = rank_among(new, s);
            &&& consistent(new)
            &&& new[s].parent == Some(p)
            &&& new[h@->0].parent == Some(p)
            &&& 0 < i < new[p].children.len()
            &&& new[p].children[i] == s
            &&& new[p].children[i - 1] == h@->0
        }),
{
    let c = h@->0;
    let p = cells[s].parent->0;
    let rest = detached(cells, c);
    lemma_rank(cells, s);
    lemma_detached(cells, c);
    lemma_still_there(cells, c, s);
    lemma_rank(rest, s);
    let at = rank_among(rest, s);
    lemma_inserted(rest, p, at, c);
    let new = inserted(rest, p, at, c);
    lemma_rank(new, s);
    let i = rank_among(new, s);
    assert(new[p].children[at] == c);
    assert(new[p].children[at + 1] == rest[p].children[at]);
    assert(new[p].children[i] == new[p].children[at + 1]);
    assert(i == at + 1);
}

/// Are no two text nodes next to each other?
pub open spec fn texts_apart(cells: Seq<Cell>) -> bool {
    forall|p: int, i: int|
        0 <= p < cells.len() && 0 < i < cells[p].children.len() ==> !(cells[cells[p].children[i
            - 1]].node is Text && cells[#[trigger] cells[p].children[i]].node is Text)
}

/// Appending text never leaves two text nodes next to each other.
pub proof fn law_appended_text_is_merged(cells: Seq<Cell>, p: int, t: Seq<char>)
    requires
        consistent(cells),
        texts_apart(cells),
        0 <= p < cells.len(),
    ensures
        texts_apart(appended(cells, p, NodeOrTextView::AppendText(t))),
{
    lemma_texts_apart(cells, p, cells[p].children.len() as int, t);
}

/// Putting text before a node that is no text node never leaves two text nodes next to
/// each other.
pub proof fn law_text_put_before_is_merged(cells: Seq<Cell>, s: int, t: Seq<char>)
    requires
        consistent(cells),
        texts_apart(cells),
        0 <= s < cells.len(),
        cells[s].parent is Some,
        !(cells[s].node is Text),
    ensures
        texts_apart(put_before(cells, s, NodeOrTextView::AppendText(t))),
{
    lemma_rank(cells, s);
    lemma_texts_apart(cells, cells[s].parent->0, rank_among(cells, s), t);
}

/// Putting text where no text node follows.
proof fn lemma_texts_apart(cells: Seq<Cell>, p: int, at: int, t: Seq<char>)
    requires
        consistent(cells),
        texts_apart(cells),
        0 <= p < cells.len(),
        0 <= at <= cells[p].children.len(),
        at < cells[p].children.len() ==> !(cells[cells[p].children[at]].node is Text),
    ensures
        texts_apart(text_inserted(cells, p, at, t)),
{
    let new = text_inserted(cells, p, at, t);
    let merged = at > 0 && cells[cells[p].children[at - 1]].node is Text;
    assert forall|q: int, i: int|
        0 <= q < new.len() && 0 < i < new[q].children.len() implies !(new[new[q].children[i
        - 1]].node is Text && new[#[trigger] new[q].children[i]].node is Text) by {
        if q < cells.len() {
            let moved = !merged && q == p;
            if !moved || i < at {
                assert(new[q].children[i] == cells[q].children[i]);
                assert(new[q].children[i - 1] == cells[q].children[i - 1]);
            } else if i == at {
                assert(new[q].children[i - 1] == cells[q].children[i - 1]);
            } else if i == at + 1 {
                assert(new[q].children[i] == cells[q].children[at]);
            } else {
                assert(new[q].children[i] == cells[q].children[i - 1]);
                assert(new[q].children[i - 1] == cells[q].children[i - 2]);
            }
        }
    }
}

/// Have the nodes `new` all that `old_cells` has, but for what is said of `p` and `c`?
pub open spec fn same_but(old_cells: Seq<Cell>, new: Seq<Cell>, p: int, c: int) -> bool {
    &&& old_cells.len() <= new.len()
    &&& forall|d: int|
        0 <= d < old_cells.len() && d != p && d != c ==> #[trigger] new[d] == old_cells[d]
}

/// A node that is appended becomes the last child of its new parent, and keeps what it is
/// and what is below it. Nothing else changes.
pub proof fn law_appended_node_is_last(cells: Seq<Cell>, p: int, h: Handle)
    requires
        consistent(cells),
        0 <= p < cells.len(),
        h@ is Some,
        0 <= h@->0 < cells.len(),
        h@->0 != p,
        cells[h@->0].parent is None,
    ensures
        ({
            let c = h@->0;
            let new = appended(cells, p, NodeOrTextView::AppendNode(h));
            &&& new.len() == cells.len()
            &&& same_but(cells, new, p, c)
            &&& new[p].children == cells[p].children.push(c)
            &&& new[p].node == cells[p].node && new[p].parent == cells[p].parent
            &&& new[c].parent == Some(p)
            &&& new[c].node == cells[c].node && new[c].children == cells[c].children
        }),
{
    let c = h@->0;
    let n = cells[p].children.len() as int;
    assert(cells[p].children.insert(n, c) =~= cells[p].children.push(c));
}

/// The text that is below a node in order, if only its own text nodes are looked at.
pub open spec fn child_text(cells: Seq<Cell>, kids: Seq<int>) -> Seq<char>
    decreases kids.len(),
{
    if kids.len() == 0 {
        Seq::empty()
    } else {
        child_text(cells, kids.drop_last()) + (match cells[kids.last()].node {
            NodeEnumView::Text(t) => t,
            _ => Seq::empty(),
        })
    }
}

/// Text that is appended comes at the end: the text of the children grows by it, whether it
/// gets into a text node that is there or into one of its own.
pub proof fn law_appended_text_is_last(cells: Seq<Cell>, p: int, t: Seq<char>)
    requires
        consistent(cells),
        0 <= p < cells.len(),
    ensures
        ({
            let new = appended(cells, p, NodeOrTextView::AppendText(t));
            let kids = cells[p].children;
            let merged = kids.len() > 0 && cells[kids.last()].node is Text;
            &&& child_text(new, new[p].children) == child_text(cells, kids) + t
            &&& merged ==> new.len() == cells.len() && new[p].children == kids
            &&& !merged ==> new.len() == cells.len() + 1 && new[p].children == kids.push(
                cells.len() as int,
            )
            &&& same_but(
                cells,
                new,
                p,
                if merged {
                    kids.last()
                } else {
                    p
                },
            )
            &&& forall|d: int|
                0 <= d < cells.len() ==> (#[trigger] new[d]).parent == cells[d].parent
        }),
{
    let new = appended(cells, p, NodeOrTextView::AppendText(t));
    let kids = cells[p].children;
    let n = kids.len() as int;
    let merged = n > 0 && cells[kids.last()].node is Text;
    if merged {
        let c = kids.last();
        assert(kids[n - 1] == c);
        assert(0 <= c < cells.len());
        assert forall|i: int| 0 <= i < n - 1 implies (#[trigger] kids[i]) != c && 0 <= kids[i]
            < cells.len() by {
            assert(cells[p].children[i] != cells[p].children[n - 1]);
        }
        lemma_same_text(cells, new, kids.drop_last());
        assert(new[p].children == kids);
        assert(child_text(new, kids) =~= child_text(cells, kids) + t);
    } else {
        assert(kids.insert(n, cells.len() as int) =~= kids.push(cells.len() as int));
        let all = kids.push(cells.len() as int);
        assert(new[p].children == all);
        assert(all.drop_last() =~= kids);
        assert forall|i: int| 0 <= i < kids.len() implies 0 <= #[trigger] kids[i]
            < cells.len() by {
            assert(0 <= cells[p].children[i] < cells.len());
        }
        lemma_same_text(cells, new, kids);
    }
}

/// Children that have not become something else have the same text.
proof fn lemma_same_text(cells: Seq<Cell>, new: Seq<Cell>, kids: Seq<int>)
    requires
        forall|i: int| 0 <= i < kids.len() ==> new[#[trigger] kids[i]].node == cells[kids[i]].node,
    ensures
        child_text(new, kids) == child_text(cells, kids),
    decreases kids.len(),
{
    if kids.len() > 0 {
        let init = kids.drop_last();
        assert forall|i: int| 0 <= i < init.len() implies new[#[trigger] init[i]].node
            == cells[init[i]].node by {
            assert(init[i] == kids[i]);
        }
        lemma_same_text(cells, new, init);
        assert(new[kids[kids.len() - 1]].node == cells[kids[kids.len() - 1]].node);
    }
}

/// A node that is taken from its parent keeps what it is and what is below it. Its former
/// parent keeps its other children in order. Nothing else changes.
pub proof fn law_remove_takes_only_the_node(cells: Seq<Cell>, c: int)
    requires
        consistent(cells),
        0 <= c < cells.len(),
        cells[c].parent matches Some(p) ==> p != c,
    ensures
        ({
            let new = detached(cells, c);
            &&& new[c].parent is None
            &&& new[c].node == cells[c].node && new[c].children == cells[c].children
            &&& cells[c].parent is None ==> new == cells
            &&& cells[c].parent matches Some(p) ==> {
                &&& same_but(cells, new, p, c)
                &&& !new[p].children.contains(c)
                &&& cells[p].children == new[p].children.insert(rank_among(cells, c), c)
                &&& new[p].node == cells[p].node && new[p].parent == cells[p].parent
            }
        }),
{
    if let Some(p) = cells[c].parent {
        lemma_rank(cells, c);
        let i = rank_among(cells, c);
        let kids = cells[p].children;
        let left = kids.remove(i);
        assert(kids =~= left.insert(i, c));
        if left.contains(c) {
            let j = choose|j: int| 0 <= j < left.len() && left[j] == c;
            let k = if j < i {
                j
            } else {
                j + 1
            };
            assert(kids[k] == c && k != i);
            assert(cells[p].children[k] == c && cells[p].children[i] == c);
            if k < i {
                assert(cells[p].children[k] != cells[p].children[i]);
            } else {
                assert(cells[p].children[i] != cells[p].children[k]);
            }
        }
    }
}

/// Adding attributes to an element leaves alone those that it has, and its name. It then has
/// an attribute with each of the new names: the one that it had, or else one of the new ones.
/// What is added comes from the new ones.
pub proof fn law_attributes_stay(
    name: Seq<char>,
    existing: Seq<AttributeView>,
    attrs: Seq<AttributeView>,
)
    ensures
        with_attrs(NodeEnumView::Element(name, existing), attrs) matches NodeEnumView::Element(
            n,
            all,
        ) && {
            &&& n == name
            &&& existing.len() <= all.len() && all.take(existing.len() as int) == existing
            &&& forall|i: int|
                0 <= i < attrs.len() && !has_attr(existing, attrs[i].name) ==> all.contains(
                    #[trigger] attrs[i],
                )
            &&& forall|i: int|
                existing.len() <= i < all.len() ==> attrs.contains(#[trigger] all[i]) && !has_attr(
                    existing,
                    all[i].name,
                )
        },
{
    let missing = missing_attrs(existing, attrs);
    let all = existing + missing;
    assert(all.take(existing.len() as int) =~= existing);
    lemma_missing(existing, attrs);
    assert forall|i: int|
        0 <= i < attrs.len() && !has_attr(existing, attrs[i].name) implies all.contains(
        #[trigger] attrs[i],
    ) by {
        let j = choose|j: int| 0 <= j < missing.len() && missing[j] == attrs[i];
        assert(all[existing.len() + j] == attrs[i]);
    }
    assert forall|i: int| existing.len() <= i < all.len() implies attrs.contains(
        #[trigger] all[i],
    ) && !has_attr(existing, all[i].name) by {
        assert(all[i] == missing[i - existing.len()]);
    }
}

/// Which attributes are missing.
proof fn lemma_missing(existing: Seq<AttributeView>, attrs: Seq<AttributeView>)
    ensures
        ({
            let missing = missing_attrs(existing, attrs);
            &&& forall|i: int|
                0 <= i < attrs.len() && !has_attr(existing, attrs[i].name) ==> missing.contains(
                    #[trigger] attrs[i],
                )
            &&& forall|i: int|
                0 <= i < missing.len() ==> attrs.contains(#[trigger] missing[i]) && !has_attr(
                    existing,
                    missing[i].name,
                )
        }),
    decreases attrs.len(),
{
    if attrs.len() > 0 {
        let init = attrs.drop_last();
        let some = missing_attrs(existing, init);
        let missing = missing_attrs(existing, attrs);
        lemma_missing(existing, init);
        assert forall|i: int|
            0 <= i < attrs.len() && !has_attr(existing, attrs[i].name) implies missing.contains(
            #[trigger] attrs[i],
        ) by {
            if i == attrs.len() - 1 {
                assert(missing[missing.len() - 1] == attrs[i]);
            } else {
                assert(init[i] == attrs[i]);
                let j = choose|j: int| 0 <= j < some.len() && some[j] == init[i];
                assert(missing[j] == attrs[i]);
            }
        }
        assert forall|i: int| 0 <= i < missing.len() implies attrs.contains(
            #[trigger] missing[i],
        ) && !has_attr(existing, missing[i].name) by {
            if i < some.len() {
                assert(missing[i] == some[i]);
                let j = choose|j: int| 0 <= j < init.len() && init[j] == some[i];
                assert(attrs[j] == missing[i]);
            } else {
                assert(attrs[attrs.len() - 1] == missing[i]);
            }
        }
    }
}

/// What the node is that one comes to from `n` by a path: which child to take, at each step.
pub open spec fn node_at(n: Node, path: Seq<int>) -> Option<NodeEnumView>
    decreases path.len(),
{
    if path.len() == 0 {
        Some(n.node@)
    } else if 0 <= path[0] < n.children@.len() {
        node_at(*n.children@[path[0]], path.drop_first())
    } else {
        None
    }
}

/// The same, in a tree that is being built.
pub open spec fn cell_at(cells: Seq<Cell>, c: int, path: Seq<int>) -> Option<NodeEnumView>
    decreases path.len(),
{
    if path.len() == 0 {
        Some(cells[c].node)
    } else if 0 <= path[0] < cells[c].children.len() {
        cell_at(cells, cells[c].children[path[0]], path.drop_first())
    } else {
        None
    }
}

/// Every path in the finished tree leads to what it leads to in the tree that was built, and
/// the finished tree has no other paths.
pub proof fn law_result_has_the_same_paths(n: Node, cells: Seq<Cell>, c: int, path: Seq<int>)
    requires
        mirrors(n, cells, c),
    ensures
        node_at(n, path) == cell_at(cells, c, path),
    decreases path.len(),
{
    if path.len() > 0 && 0 <= path[0] < n.children@.len() {
        assert(mirrors(*n.children@[path[0]], cells, cells[c].children[path[0]]));
        law_result_has_the_same_paths(
            *n.children@[path[0]],
            cells,
            cells[c].children[path[0]],
            path.drop_first(),
        );
    }
}

/// An element is serialized as its start, with its name and its attributes, then all that is
/// below it, then its end, with its name. Text, a comment and the name of a doctype are
/// written as they are.
pub proof fn law_serialization_of_one_node(n: Node)
    ensures
        ({
            let calls = serialized(n, true);
            match n.node {
                NodeEnum::Element(name, attrs) => {
                    &&& calls.len() == serialized(n, false).len() + 2
                    &&& calls[0] == SerializeCallView::StartElem(
                        Namespace::HTML,
                        name@,
                        attrs_view(attrs@),
                    )
                    &&& calls.last() == SerializeCallView::EndElem(Namespace::HTML, name@)
                    &&& calls.subrange(1, calls.len() - 1) == serialized(n, false)
                },
                NodeEnum::Document => calls == serialized(n, false),
                NodeEnum::Text(t) => calls == seq![SerializeCallView::WriteText(t@)],
                NodeEnum::Comment(t) => calls == seq![SerializeCallView::WriteComment(t@)],
                NodeEnum::Doctype(name, _, _) => calls == seq![
                    SerializeCallView::WriteDoctype(name@),
                ],
            }
        }),
{
    if n.node is Element {
        let calls = serialized(n, true);
        assert(calls.subrange(1, calls.len() - 1) =~= serialized(n, false));
    }
}

/// What is below a node is serialized child by child, in order.
pub proof fn law_children_are_serialized_in_order(n: Node)
    ensures
        serialized(n, false) == (if n.node is Element || n.node is Document {
            Seq::new(
                n.children@.len(),
                |i: int| serialized(*n.children@[i], true),
            ).flatten()
        } else {
            Seq::empty()
        }),
{
    if n.node is Element || n.node is Document {
        lemma_children_serialized(n, n.children@.len());
    }
}

/// The first `k` children in order.
proof fn lemma_children_serialized(n: Node, k: nat)
    requires
        k <= n.children@.len(),
    ensures
        children_serialized(n, k) == Seq::new(
            k,
            |i: int| serialized(*n.children@[i], true),
        ).flatten(),
    decreases k,
{
    let parts = Seq::new(k, |i: int| serialized(*n.children@[i], true));
    parts.lemma_flatten_and_flatten_alt_are_equivalent();
    if k > 0 {
        lemma_children_serialized(n, (k - 1) as nat);
        let init = Seq::new((k - 1) as nat, |i: int| serialized(*n.children@[i], true));
        init.lemma_flatten_and_flatten_alt_are_equivalent();
        assert(parts.drop_last() =~= init);
    }
}

} // verus!
