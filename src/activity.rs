use vstd::prelude::*;

use crate::error::DiagramError;
use crate::primitive::{halves_of, whole, CircleKind, LineKind, MarkerKind, Primitive, RectKind, Rotation, TextKind};
use crate::text::{byte_len, half_toward_zero, halve, text_len, MAX_TEXT};

verus! {

/// The largest number of nodes an activity may hold, branches included.
pub const MAX_NODES: usize = 1_000_000;

/// The kind of an activity node.
#[allow(non_camel_case_types)]
#[derive(Debug, Clone, Copy, PartialEq, Eq, Structural)]
pub enum Type {
    STEP,
    IF,
    START,
    END,
}

/// One node of an activity path.
pub struct Node {
    pub kind: Type,
    pub name: String,
    pub arrow_label: String,
}

/// A decision's two branches: the main one, drawn to the right, and the alternative one,
/// drawn to the left.
pub struct Condition {
    pub main_path: Path,
    pub alternative_path: Path,
}

/// A sequence of nodes; the i-th decision node among them owns the i-th condition.
pub struct Path {
    pub nodes: Vec<Node>,
    pub alternatives: Vec<Condition>,
}

/// The number of decision nodes in `nodes`.
pub open spec fn if_count(nodes: Seq<Node>) -> nat
    decreases nodes.len(),
{
    if nodes.len() == 0 {
        0
    } else {
        if_count(nodes.drop_last()) + if nodes.last().kind == Type::IF { 1nat } else { 0nat }
    }
}

/// The largest `max_left` among the conditions `cs`, or 0 when there are none.
pub open spec fn conds_max_left(cs: Seq<Condition>) -> nat
    decreases cs,
{
    if cs.len() == 0 {
        0
    } else {
        let rest = conds_max_left(cs.subrange(0, cs.len() - 1));
        let last = cs[cs.len() - 1].spec_max_left();
        if last > rest { last } else { rest }
    }
}

/// The largest `max_right` among the conditions `cs`, or 0 when there are none.
pub open spec fn conds_max_right(cs: Seq<Condition>) -> nat
    decreases cs,
{
    if cs.len() == 0 {
        0
    } else {
        let rest = conds_max_right(cs.subrange(0, cs.len() - 1));
        let last = cs[cs.len() - 1].spec_max_right();
        if last > rest { last } else { rest }
    }
}

/// The largest left depth among the conditions `cs`, or 0 when there are none.
pub open spec fn conds_left_depth(cs: Seq<Condition>) -> nat
    decreases cs,
{
    if cs.len() == 0 {
        0
    } else {
        let rest = conds_left_depth(cs.subrange(0, cs.len() - 1));
        let last = cs[cs.len() - 1].spec_left_depth();
        if last > rest { last } else { rest }
    }
}

/// The largest right depth among the conditions `cs`, or 0 when there are none.
pub open spec fn conds_right_depth(cs: Seq<Condition>) -> nat
    decreases cs,
{
    if cs.len() == 0 {
        0
    } else {
        let rest = conds_right_depth(cs.subrange(0, cs.len() - 1));
        let last = cs[cs.len() - 1].spec_right_depth();
        if last > rest { last } else { rest }
    }
}

/// The summed heights of the conditions `cs`.
pub open spec fn conds_height(cs: Seq<Condition>) -> int
    decreases cs,
{
    if cs.len() == 0 {
        0
    } else {
        conds_height(cs.subrange(0, cs.len() - 1)) + cs[cs.len() - 1].spec_height()
    }
}

/// The summed node counts of the conditions `cs`.
pub open spec fn conds_nodes_count(cs: Seq<Condition>) -> nat
    decreases cs,
{
    if cs.len() == 0 {
        0
    } else {
        conds_nodes_count(cs.subrange(0, cs.len() - 1)) + cs[cs.len() - 1].spec_nodes_count()
    }
}

/// Every condition of `cs` is well formed.
pub open spec fn conds_wf(cs: Seq<Condition>) -> bool
    decreases cs,
{
    if cs.len() == 0 {
        true
    } else {
        conds_wf(cs.subrange(0, cs.len() - 1)) && cs[cs.len() - 1].wf()
    }
}

impl Condition {
    /// Both branches are well formed and hold at least one node.
    pub open spec fn wf(&self) -> bool
        decreases self,
    {
        self.main_path.wf() && self.alternative_path.wf() && self.main_path.nodes@.len() > 0
            && self.alternative_path.nodes@.len() > 0
    }

    pub open spec fn spec_left_depth(&self) -> nat
        decreases self,
    {
        self.main_path.spec_left_depth()
    }

    pub open spec fn spec_right_depth(&self) -> nat
        decreases self,
    {
        self.alternative_path.spec_right_depth()
    }

    pub open spec fn spec_max_right(&self) -> nat
        decreases self,
    {
        1 + self.main_path.spec_max_right()
    }

    pub open spec fn spec_max_left(&self) -> nat
        decreases self,
    {
        1 + self.alternative_path.spec_max_left()
    }

    pub open spec fn spec_height(&self) -> int
        decreases self,
    {
        let m = self.main_path.spec_height();
        let a = self.alternative_path.spec_height();
        if m >= a { m } else { a }
    }

    pub open spec fn spec_nodes_count(&self) -> nat
        decreases self,
    {
        self.main_path.spec_nodes_count() + self.alternative_path.spec_nodes_count()
    }
}

impl Path {
    /// Decision nodes and conditions pair up one to one, and every condition is well formed.
    pub open spec fn wf(&self) -> bool
        decreases self,
    {
        if_count(self.nodes@) == self.alternatives@.len() && conds_wf(self.alternatives@)
            && forall|i: int| 0 <= i < self.nodes@.len() ==> text_len(self.nodes@[i].name) <= MAX_TEXT
    }

    pub open spec fn spec_left_depth(&self) -> nat
        decreases self,
    {
        1 + conds_left_depth(self.alternatives@)
    }

    pub open spec fn spec_right_depth(&self) -> nat
        decreases self,
    {
        1 + conds_right_depth(self.alternatives@)
    }

    pub open spec fn spec_max_right(&self) -> nat
        decreases self,
    {
        conds_max_right(self.alternatives@)
    }

    pub open spec fn spec_max_left(&self) -> nat
        decreases self,
    {
        conds_max_left(self.alternatives@)
    }

    /// 130 for each node, plus each condition's height, less 130 for each condition.
    pub open spec fn spec_height(&self) -> int
        decreases self,
    {
        130 * self.nodes@.len() + conds_height(self.alternatives@) - 130 * self.alternatives@.len()
    }

    pub open spec fn spec_nodes_count(&self) -> nat
        decreases self,
    {
        self.nodes@.len() + conds_nodes_count(self.alternatives@)
    }

    /// The kind of the last node, looking through a final decision into its main branch.
    pub open spec fn spec_last_node_type(&self) -> Type
        decreases self,
    {
        if self.nodes@.len() > 0 && self.nodes@.last().kind == Type::IF && self.alternatives@.len() > 0 {
            self.alternatives@.last().main_path.spec_last_node_type()
        } else if self.nodes@.len() > 0 {
            self.nodes@.last().kind
        } else {
            Type::START
        }
    }
}

proof fn lemma_if_count_le(nodes: Seq<Node>)
    ensures
        if_count(nodes) <= nodes.len(),
        nodes.len() > 0 && nodes.last().kind == Type::IF ==> if_count(nodes) >= 1,
    decreases nodes.len(),
{
    if nodes.len() > 0 {
        lemma_if_count_le(nodes.drop_last());
    }
}

proof fn lemma_if_count_push(nodes: Seq<Node>, n: Node)
    ensures
        if_count(nodes.push(n)) == if_count(nodes) + if n.kind == Type::IF { 1nat } else { 0nat },
{
    assert(nodes.push(n).drop_last() =~= nodes);
}

/// What holds of a prefix of a list of conditions holds of the list: aggregates only grow.
proof fn lemma_conds_prefix(cs: Seq<Condition>, i: int)
    requires
        0 <= i <= cs.len(),
        conds_wf(cs),
    ensures
        conds_wf(cs.subrange(0, i)),
        conds_nodes_count(cs.subrange(0, i)) <= conds_nodes_count(cs),
        0 <= conds_height(cs.subrange(0, i)) <= conds_height(cs),
        conds_max_left(cs.subrange(0, i)) <= conds_max_left(cs),
        conds_max_right(cs.subrange(0, i)) <= conds_max_right(cs),
        conds_left_depth(cs.subrange(0, i)) <= conds_left_depth(cs),
        conds_right_depth(cs.subrange(0, i)) <= conds_right_depth(cs),
    decreases cs.len(),
{
    if i == cs.len() {
        assert(cs.subrange(0, i) =~= cs);
        lemma_conds_bounds(cs);
    } else {
        let rest = cs.subrange(0, cs.len() - 1);
        assert(rest.subrange(0, i) =~= cs.subrange(0, i));
        lemma_conds_prefix(rest, i);
        assert(cs[cs.len() - 1].wf());
        assert(cs[cs.len() - 1].main_path.wf() && cs[cs.len() - 1].alternative_path.wf());
        lemma_path_bounds(cs[cs.len() - 1].main_path);
        lemma_path_bounds(cs[cs.len() - 1].alternative_path);
        lemma_condition_unfold(cs[cs.len() - 1]);
        assert(conds_height(cs) == conds_height(rest) + cs[cs.len() - 1].spec_height());
    }
}

proof fn lemma_condition_unfold(c: Condition)
    ensures
        c.spec_height() == (if c.main_path.spec_height() >= c.alternative_path.spec_height() {
            c.main_path.spec_height()
        } else {
            c.alternative_path.spec_height()
        }),
        c.spec_nodes_count() == c.main_path.spec_nodes_count() + c.alternative_path.spec_nodes_count(),
        c.spec_max_left() == 1 + c.alternative_path.spec_max_left(),
        c.spec_max_right() == 1 + c.main_path.spec_max_right(),
        c.spec_left_depth() == c.main_path.spec_left_depth(),
        c.spec_right_depth() == c.alternative_path.spec_right_depth(),
{
}

/// The i-th condition of a well-formed list is well formed and counted in its total.
proof fn lemma_conds_elem(cs: Seq<Condition>, i: int)
    requires
        0 <= i < cs.len(),
        conds_wf(cs),
    ensures
        cs[i].wf(),
        cs[i].spec_nodes_count() <= conds_nodes_count(cs),
    decreases cs.len(),
{
    if i < cs.len() - 1 {
        let rest = cs.subrange(0, cs.len() - 1);
        assert(rest[i] == cs[i]);
        lemma_conds_elem(rest, i);
    }
}

proof fn lemma_conds_bounds(cs: Seq<Condition>)
    requires
        conds_wf(cs),
    ensures
        0 <= conds_height(cs) <= 130 * conds_nodes_count(cs),
        conds_max_left(cs) <= conds_nodes_count(cs),
        conds_max_right(cs) <= conds_nodes_count(cs),
        conds_left_depth(cs) <= conds_nodes_count(cs),
        conds_right_depth(cs) <= conds_nodes_count(cs),
        conds_nodes_count(cs) >= cs.len(),
    decreases cs,
{
    if cs.len() > 0 {
        let rest = cs.subrange(0, cs.len() - 1);
        let c = cs[cs.len() - 1];
        assert(c.wf());
        assert(c.main_path.wf() && c.alternative_path.wf());
        lemma_conds_bounds(rest);
        lemma_path_bounds(c.main_path);
        lemma_path_bounds(c.alternative_path);
        lemma_condition_unfold(c);
        assert(conds_height(cs) == conds_height(rest) + c.spec_height());
        assert(conds_nodes_count(cs) == conds_nodes_count(rest) + c.spec_nodes_count());
    }
}

/// The metrics of a well-formed path are bounded by its node count.
pub proof fn lemma_path_bounds(p: Path)
    requires
        p.wf(),
    ensures
        0 <= p.spec_height() <= 130 * p.spec_nodes_count(),
        p.spec_max_left() <= p.spec_nodes_count(),
        p.spec_max_right() <= p.spec_nodes_count(),
        p.spec_left_depth() <= p.spec_nodes_count() + 1,
        p.spec_right_depth() <= p.spec_nodes_count() + 1,
        p.spec_nodes_count() >= p.nodes@.len(),
    decreases p,
{
    lemma_if_count_le(p.nodes@);
    lemma_conds_bounds(p.alternatives@);
}

impl Node {
    /// A node of the given kind; decisions are made with `if_node`.
    pub fn new(kind: Type, name: String, arrow_label: String) -> (r: Node)
        ensures
            r.kind == kind,
            r.name@ == name@,
            r.arrow_label@ == arrow_label@,
    {
        Node { kind, name, arrow_label }
    }

    /// A decision node named by its condition.
    pub fn if_node(name: String) -> (r: Node)
        ensures
            r.kind == Type::IF,
            r.name@ == name@,
            r.arrow_label@ == Seq::<char>::empty(),
    {
        Node { kind: Type::IF, name, arrow_label: String::new() }
    }

    /// The implicit node that every activity starts with.
    pub fn start_node() -> (r: Node)
        ensures
            r.kind == Type::START,
            r.name@ == Seq::<char>::empty(),
            r.arrow_label@ == Seq::<char>::empty(),
    {
        Node { kind: Type::START, name: String::new(), arrow_label: String::new() }
    }

    pub fn get_kind(&self) -> (r: Type)
        ensures
            r == self.kind,
    {
        self.kind
    }

    pub fn get_name(&self) -> (r: String)
        ensures
            r@ == self.name@,
    {
        self.name.clone()
    }

    pub fn get_arrow_label(&self) -> (r: String)
        ensures
            r@ == self.arrow_label@,
    {
        self.arrow_label.clone()
    }
}

impl Condition {
    /// The decision's branches; both must hold a node.
    pub fn new(main_path: Path, alternative_path: Path) -> (r: Result<Condition, DiagramError>)
        requires
            main_path.wf(),
            alternative_path.wf(),
        ensures
            r is Ok <==> main_path.nodes@.len() > 0 && alternative_path.nodes@.len() > 0,
            r is Ok ==> r->Ok_0.wf() && r->Ok_0.main_path == main_path
                && r->Ok_0.alternative_path == alternative_path,
            r is Err ==> r == Err::<Condition, DiagramError>(DiagramError::StructuralViolation),
    {
        if main_path.nodes.len() == 0 || alternative_path.nodes.len() == 0 {
            Err(DiagramError::StructuralViolation)
        } else {
            Ok(Condition { main_path, alternative_path })
        }
    }

    pub fn get_left_depth(&self) -> (r: usize)
        requires
            self.wf(),
            self.spec_nodes_count() <= MAX_NODES,
        ensures
            r == self.spec_left_depth(),
        decreases self,
    {
        self.main_path.get_left_depth()
    }

    pub fn get_right_depth(&self) -> (r: usize)
        requires
            self.wf(),
            self.spec_nodes_count() <= MAX_NODES,
        ensures
            r == self.spec_right_depth(),
        decreases self,
    {
        self.alternative_path.get_right_depth()
    }

    pub fn max_right(&self) -> (r: usize)
        requires
            self.wf(),
            self.spec_nodes_count() <= MAX_NODES,
        ensures
            r == self.spec_max_right(),
        decreases self,
    {
        proof {
            lemma_path_bounds(self.main_path);
        }
        1 + self.main_path.max_right()
    }

    pub fn max_left(&self) -> (r: usize)
        requires
            self.wf(),
            self.spec_nodes_count() <= MAX_NODES,
        ensures
            r == self.spec_max_left(),
        decreases self,
    {
        proof {
            lemma_path_bounds(self.alternative_path);
        }
        1 + self.alternative_path.max_left()
    }

    pub fn get_height(&self) -> (r: usize)
        requires
            self.wf(),
            self.spec_nodes_count() <= MAX_NODES,
        ensures
            r == self.spec_height(),
        decreases self,
    {
        proof {
            lemma_path_bounds(self.main_path);
            lemma_path_bounds(self.alternative_path);
        }
        let m = self.main_path.get_height();
        let a = self.alternative_path.get_height();
        if m >= a { m } else { a }
    }

    pub fn nodes_count(&self) -> (r: usize)
        requires
            self.wf(),
            self.spec_nodes_count() <= MAX_NODES,
        ensures
            r == self.spec_nodes_count(),
        decreases self,
    {
        self.main_path.nodes_count() + self.alternative_path.nodes_count()
    }
}

impl Path {
    /// An empty path; the main path of an activity starts with the implicit start node.
    pub fn new(main: bool) -> (r: Path)
        ensures
            r.wf(),
            r.alternatives@.len() == 0,
            main ==> r.nodes@.len() == 1 && r.nodes@[0].kind == Type::START
                && r.nodes@[0].name@.len() == 0 && r.nodes@[0].arrow_label@.len() == 0,
            !main ==> r.nodes@.len() == 0,
            r.spec_nodes_count() == r.nodes@.len(),
    {
        let mut nodes: Vec<Node> = Vec::new();
        if main {
            nodes.push(Node::start_node());
        }
        let r = Path { nodes, alternatives: Vec::new() };
        proof {
            lemma_if_count_le(r.nodes@);
            if main {
                assert(r.nodes@.drop_last() =~= Seq::<Node>::empty());
                assert(if_count(r.nodes@.drop_last()) == 0);
            }
            assert(if_count(r.nodes@) == 0);
            assert(conds_wf(r.alternatives@));
        }
        r
    }

    /// Appends a node that is not a decision; a decision without its branches is refused.
    pub fn push_node(&mut self, node: Node) -> (r: Result<(), DiagramError>)
        requires
            old(self).wf(),
            text_len(node.name) <= MAX_TEXT,
        ensures
            final(self).wf(),
            r is Ok <==> node.kind != Type::IF,
            r is Ok ==> final(self).nodes@ == old(self).nodes@.push(node)
                && final(self).alternatives@ == old(self).alternatives@,
            r is Ok ==> final(self).spec_nodes_count() == old(self).spec_nodes_count() + 1,
            r is Err ==> r == Err::<(), DiagramError>(DiagramError::StructuralViolation)
                && *final(self) == *old(self),
    {
        if node.kind == Type::IF {
            return Err(DiagramError::StructuralViolation);
        }
        proof {
            lemma_if_count_push(self.nodes@, node);
        }
        self.nodes.push(node);
        assert(forall|i: int| 0 <= i < self.nodes@.len() ==> text_len(self.nodes@[i].name) <= MAX_TEXT) by {
            assert(forall|i: int| 0 <= i < old(self).nodes@.len() ==> self.nodes@[i] == old(self).nodes@[i]);
        }
        Ok(())
    }

    /// Appends a decision node named `name` together with its branches.
    pub fn push_decision(&mut self, name: String, condition: Condition)
        requires
            old(self).wf(),
            text_len(name) <= MAX_TEXT,
            condition.wf(),
        ensures
            final(self).wf(),
            final(self).nodes@.len() == old(self).nodes@.len() + 1,
            final(self).nodes@.drop_last() == old(self).nodes@,
            final(self).nodes@.last().kind == Type::IF,
            final(self).nodes@.last().name@ == name@,
            final(self).nodes@.last().arrow_label@.len() == 0,
            final(self).alternatives@ == old(self).alternatives@.push(condition),
            final(self).spec_nodes_count() == old(self).spec_nodes_count() + 1
                + condition.spec_nodes_count(),
    {
        let node = Node::if_node(name);
        let ghost old_alts = self.alternatives@;
        proof {
            lemma_if_count_push(self.nodes@, node);
        }
        self.nodes.push(node);
        self.alternatives.push(condition);
        proof {
            let alts = self.alternatives@;
            assert(alts.subrange(0, alts.len() - 1) =~= old_alts);
            assert(self.nodes@.drop_last() =~= old(self).nodes@);
            assert(forall|i: int| 0 <= i < old(self).nodes@.len() ==> self.nodes@[i] == old(self).nodes@[i]);
        }
    }

    pub fn get_left_depth(&self) -> (r: usize)
        requires
            self.wf(),
            self.spec_nodes_count() <= MAX_NODES,
        ensures
            r == self.spec_left_depth(),
        decreases self,
    {
        let mut max_depth: usize = 0;
        let mut i: usize = 0;
        proof {
            lemma_path_bounds(*self);
        }
        while i < self.alternatives.len()
            invariant
                self.wf(),
                self.spec_nodes_count() <= MAX_NODES,
                0 <= i <= self.alternatives@.len(),
                max_depth == conds_left_depth(self.alternatives@.subrange(0, i as int)),
            decreases self.alternatives@.len() - i,
        {
            proof {
                lemma_conds_elem(self.alternatives@, i as int);
                lemma_conds_prefix(self.alternatives@, i as int + 1);
                lemma_conds_bounds(self.alternatives@);
                assert(self.alternatives@.subrange(0, i + 1).subrange(0, i as int)
                    =~= self.alternatives@.subrange(0, i as int));
            }
            let d = self.alternatives[i].get_left_depth();
            if d > max_depth {
                max_depth = d;
            }
            i += 1;
        }
        proof {
            assert(self.alternatives@.subrange(0, i as int) =~= self.alternatives@);
        }
        1 + max_depth
    }

    pub fn get_right_depth(&self) -> (r: usize)
        requires
            self.wf(),
            self.spec_nodes_count() <= MAX_NODES,
        ensures
            r == self.spec_right_depth(),
        decreases self,
    {
        let mut max_depth: usize = 0;
        let mut i: usize = 0;
        proof {
            lemma_path_bounds(*self);
        }
        while i < self.alternatives.len()
            invariant
                self.wf(),
                self.spec_nodes_count() <= MAX_NODES,
                0 <= i <= self.alternatives@.len(),
                max_depth == conds_right_depth(self.alternatives@.subrange(0, i as int)),
            decreases self.alternatives@.len() - i,
        {
            proof {
                lemma_conds_elem(self.alternatives@, i as int);
                lemma_conds_prefix(self.alternatives@, i as int + 1);
                lemma_conds_bounds(self.alternatives@);
                assert(self.alternatives@.subrange(0, i + 1).subrange(0, i as int)
                    =~= self.alternatives@.subrange(0, i as int));
            }
            let d = self.alternatives[i].get_right_depth();
            if d > max_depth {
                max_depth = d;
            }
            i += 1;
        }
        proof {
            assert(self.alternatives@.subrange(0, i as int) =~= self.alternatives@);
        }
        1 + max_depth
    }

    pub fn max_right(&self) -> (r: usize)
        requires
            self.wf(),
            self.spec_nodes_count() <= MAX_NODES,
        ensures
            r == self.spec_max_right(),
        decreases self,
    {
        let mut n: usize = 0;
        let mut i: usize = 0;
        while i < self.alternatives.len()
            invariant
                self.wf(),
                self.spec_nodes_count() <= MAX_NODES,
                0 <= i <= self.alternatives@.len(),
                n == conds_max_right(self.alternatives@.subrange(0, i as int)),
            decreases self.alternatives@.len() - i,
        {
            proof {
                lemma_conds_elem(self.alternatives@, i as int);
                assert(self.alternatives@.subrange(0, i + 1).subrange(0, i as int)
                    =~= self.alternatives@.subrange(0, i as int));
            }
            let m = self.alternatives[i].max_right();
            if m > n {
                n = m;
            }
            i += 1;
        }
        proof {
            assert(self.alternatives@.subrange(0, i as int) =~= self.alternatives@);
        }
        n
    }

    pub fn max_left(&self) -> (r: usize)
        requires
            self.wf(),
            self.spec_nodes_count() <= MAX_NODES,
        ensures
            r == self.spec_max_left(),
        decreases self,
    {
        let mut n: usize = 0;
        let mut i: usize = 0;
        while i < self.alternatives.len()
            invariant
                self.wf(),
                self.spec_nodes_count() <= MAX_NODES,
                0 <= i <= self.alternatives@.len(),
                n == conds_max_left(self.alternatives@.subrange(0, i as int)),
            decreases self.alternatives@.len() - i,
        {
            proof {
                lemma_conds_elem(self.alternatives@, i as int);
                assert(self.alternatives@.subrange(0, i + 1).subrange(0, i as int)
                    =~= self.alternatives@.subrange(0, i as int));
            }
            let m = self.alternatives[i].max_left();
            if m > n {
                n = m;
            }
            i += 1;
        }
        proof {
            assert(self.alternatives@.subrange(0, i as int) =~= self.alternatives@);
        }
        n
    }

    pub fn get_height(&self) -> (r: usize)
        requires
            self.wf(),
            self.spec_nodes_count() <= MAX_NODES,
        ensures
            r == self.spec_height(),
        decreases self,
    {
        proof {
            lemma_if_count_le(self.nodes@);
            lemma_conds_bounds(self.alternatives@);
        }
        let mut n: usize = 130 * self.nodes.len();
        let mut i: usize = 0;
        while i < self.alternatives.len()
            invariant
                self.wf(),
                self.spec_nodes_count() <= MAX_NODES,
                self.alternatives@.len() <= self.nodes@.len(),
                0 <= i <= self.alternatives@.len(),
                n == 130 * self.nodes@.len() + conds_height(self.alternatives@.subrange(0, i as int)),
            decreases self.alternatives@.len() - i,
        {
            proof {
                lemma_conds_elem(self.alternatives@, i as int);
                lemma_conds_prefix(self.alternatives@, i as int + 1);
                lemma_conds_bounds(self.alternatives@);
                assert(self.alternatives@.subrange(0, i + 1).subrange(0, i as int)
                    =~= self.alternatives@.subrange(0, i as int));
            }
            let h = self.alternatives[i].get_height();
            n = n + h;
            i += 1;
        }
        proof {
            assert(self.alternatives@.subrange(0, i as int) =~= self.alternatives@);
        }
        n - 130 * self.alternatives.len()
    }

    /// The kind of the last node; a final decision is looked through into its main branch.
    pub fn get_last_node_type(&self) -> (r: Type)
        requires
            self.wf(),
            self.nodes@.len() > 0,
        ensures
            r == self.spec_last_node_type(),
        decreases self,
    {
        let last = self.nodes.len() - 1;
        if self.nodes[last].kind == Type::IF {
            proof {
                lemma_if_count_le(self.nodes@);
                lemma_conds_elem(self.alternatives@, self.alternatives@.len() - 1);
            }
            let k = self.alternatives.len() - 1;
            self.alternatives[k].main_path.get_last_node_type()
        } else {
            self.nodes[last].kind
        }
    }

    pub fn nodes_count(&self) -> (r: usize)
        requires
            self.wf(),
            self.spec_nodes_count() <= MAX_NODES,
        ensures
            r == self.spec_nodes_count(),
        decreases self,
    {
        let mut n: usize = self.nodes.len();
        let mut i: usize = 0;
        while i < self.alternatives.len()
            invariant
                self.wf(),
                self.spec_nodes_count() <= MAX_NODES,
                0 <= i <= self.alternatives@.len(),
                n == self.nodes@.len() + conds_nodes_count(self.alternatives@.subrange(0, i as int)),
            decreases self.alternatives@.len() - i,
        {
            proof {
                lemma_conds_elem(self.alternatives@, i as int);
                lemma_conds_prefix(self.alternatives@, i as int + 1);
                assert(self.alternatives@.subrange(0, i + 1).subrange(0, i as int)
                    =~= self.alternatives@.subrange(0, i as int));
            }
            let c = self.alternatives[i].nodes_count();
            n = n + c;
            i += 1;
        }
        proof {
            assert(self.alternatives@.subrange(0, i as int) =~= self.alternatives@);
        }
        n
    }
}


/// How far from the origin a coordinate may lie, in any direction.
pub const MAX_COORD: i64 = 1_000_000_000_000_000;

/// How far from the origin a path of `n` nodes may be drawn: every nested branch
/// moves its coordinates by less than `300 * MAX_NODES`.
pub open spec fn room(n: int) -> int {
    MAX_COORD - 300_000_000 * n
}

/// The primitives of an activity connector from `(x1, y1)` to `(x2, y2)`: the arrowhead
/// definition, the label turned along the line, and the line.
#[verifier::opaque]
pub open spec fn arrow_prims(x1: int, y1: int, x2: int, y2: int, label: String) -> Seq<Primitive> {
    let cx = half_toward_zero(x1 + x2);
    let cy = half_toward_zero(y1 + y2);
    seq![
        Primitive::Marker(MarkerKind::Activity),
        Primitive::Text {
            x: whole(cx - 20),
            y: (cy - 20) as i64,
            content: label,
            kind: TextKind::ArrowCaption,
            rotation: Some(Rotation { dx: (x2 - x1) as i64, dy: (y2 - y1) as i64, cx: cx as i64, cy: cy as i64 }),
        },
        Primitive::Line { x1: whole(x1), y1: y1 as i64, x2: x2 as i64, y2: y2 as i64, kind: LineKind::Activity },
    ]
}

/// The primitives of node `n` centred at `(x, y)`.
#[verifier::opaque]
pub open spec fn node_prims(n: Node, x: int, y: int) -> Seq<Primitive> {
    match n.kind {
        Type::IF => seq![
            Primitive::Rect { x: (x - 25) as i64, y: (y - 25) as i64, width: 35, height: 35, kind: RectKind::DecisionDiamond },
            Primitive::Text { x: whole(x), y: (y + 39) as i64, content: n.name, kind: TextKind::NodeCaption, rotation: None },
        ],
        Type::STEP => {
            let width = 16 * text_len(n.name);
            seq![
                Primitive::Rect { x: (x - width / 2) as i64, y: (y - 32) as i64, width: width as i64, height: 50, kind: RectKind::StepBox },
                Primitive::Text { x: whole(x), y: y as i64, content: n.name, kind: TextKind::NodeCaption, rotation: None },
            ]
        },
        Type::END => seq![
            Primitive::Circle { cx: x as i64, cy: y as i64, r: 25, kind: CircleKind::EndRing },
            Primitive::Circle { cx: x as i64, cy: y as i64, r: 20, kind: CircleKind::EndDot },
        ],
        Type::START => seq![Primitive::Circle { cx: x as i64, cy: y as i64, r: 25, kind: CircleKind::StartDot }],
    }
}

/// The primitives of the nodes of `p` from the `i`-th on, the first of them centred at
/// `(x, y)`, where `ci` conditions were passed before the `i`-th node.
#[verifier::opaque]
pub open spec fn path_prims(p: Path, x: int, y: int, i: int, ci: int) -> Seq<Primitive>
    decreases p, p.nodes@.len() - i,
{
    if i < 0 || i >= p.nodes@.len() {
        Seq::empty()
    } else {
        let node = p.nodes@[i];
        let here = conn_prims(p, x, y, i) + node_prims(node, x, y);
        if node.kind == Type::IF && 0 <= ci < p.alternatives@.len() {
            let c = p.alternatives@[ci];
            here + cond_prims(c, x, y, branch_label(p, i)) + path_prims(p, x, y + c.spec_height(), i + 1, ci + 1)
        } else {
            here + path_prims(p, x, y + 130, i + 1, ci)
        }
    }
}

/// The connector drawn above the `i`-th node of `p` at `(x, y)`: none above the first node
/// or below a decision, whose branches connect instead.
pub open spec fn conn_prims(p: Path, x: int, y: int, i: int) -> Seq<Primitive> {
    if i != 0 && p.nodes@[i - 1].kind != Type::IF {
        arrow_prims(x, y - 110, x, y - 20, p.nodes@[i].arrow_label)
    } else {
        Seq::empty()
    }
}

/// The label of the connectors that join the branches of the decision at index `i`: that
/// of the node after it.
pub open spec fn branch_label(p: Path, i: int) -> String {
    p.nodes@[i + 1].arrow_label
}

/// No path, `p` or any branch within it, ends in a decision: each decision is followed by
/// the node its branches join.
pub open spec fn decisions_closed(p: Path) -> bool
    decreases p,
{
    (p.nodes@.len() > 0 ==> p.nodes@.last().kind != Type::IF) && conds_closed(p.alternatives@)
}

/// The branches of every condition of `cs` have their decisions closed.
pub open spec fn conds_closed(cs: Seq<Condition>) -> bool
    decreases cs,
{
    if cs.len() == 0 {
        true
    } else {
        conds_closed(cs.subrange(0, cs.len() - 1)) && decisions_closed(cs[cs.len() - 1].main_path)
            && decisions_closed(cs[cs.len() - 1].alternative_path)
    }
}

proof fn lemma_conds_closed_elem(cs: Seq<Condition>, i: int)
    requires
        0 <= i < cs.len(),
        conds_closed(cs),
    ensures
        decisions_closed(cs[i].main_path) && decisions_closed(cs[i].alternative_path),
    decreases cs.len(),
{
    if i < cs.len() - 1 {
        let rest = cs.subrange(0, cs.len() - 1);
        assert(rest[i] == cs[i]);
        lemma_conds_closed_elem(rest, i);
    }
}

proof fn lemma_path_prims_unfold(p: Path, x: int, y: int, i: int, ci: int)
    requires
        0 <= i < p.nodes@.len(),
    ensures
        p.nodes@[i].kind == Type::IF && 0 <= ci < p.alternatives@.len() ==> path_prims(p, x, y, i, ci)
            == conn_prims(p, x, y, i) + node_prims(p.nodes@[i], x, y)
            + cond_prims(p.alternatives@[ci], x, y, branch_label(p, i))
            + path_prims(p, x, y + p.alternatives@[ci].spec_height(), i + 1, ci + 1),
        !(p.nodes@[i].kind == Type::IF && 0 <= ci < p.alternatives@.len()) ==> path_prims(p, x, y, i, ci)
            == conn_prims(p, x, y, i) + node_prims(p.nodes@[i], x, y) + path_prims(p, x, y + 130, i + 1, ci),
{
    reveal_with_fuel(path_prims, 2);
    reveal_with_fuel(cond_prims, 2);
}

proof fn lemma_if_count_step(nodes: Seq<Node>, i: int)
    requires
        0 <= i < nodes.len(),
    ensures
        if_count(nodes.subrange(0, i + 1)) == if_count(nodes.subrange(0, i))
            + if nodes[i].kind == Type::IF { 1nat } else { 0nat },
        if_count(nodes.subrange(0, i + 1)) <= if_count(nodes),
{
    assert(nodes.subrange(0, i + 1).drop_last() =~= nodes.subrange(0, i));
    lemma_if_count_prefix(nodes, i + 1);
}

/// The primitives of decision `c` at `(x, y)`: the main branch to the right, the
/// alternative to the left, each with the connector into its first node, and the
/// connectors back from both branches.
#[verifier::opaque]
pub open spec fn cond_prims(c: Condition, x: int, y: int, label: String) -> Seq<Primitive>
    decreases c, 0int,
{
    let right_x = x + c.main_path.spec_max_left() * 250 + 250;
    let right_first = c.main_path.nodes@[0];
    let right_width = text_len(right_first.name) * 16;
    let left_x = x - c.alternative_path.spec_max_right() * 250 - 250;
    let left_first = c.alternative_path.nodes@[0];
    let left_width = text_len(left_first.name) * 16;
    path_prims(c.main_path, right_x, y, 0, 0)
        + arrow_prims(x + 20, y - 12, right_x - right_width / 2, y - 12, right_first.arrow_label)
        + path_prims(c.alternative_path, left_x, y, 0, 0)
        + arrow_prims(x - 20, y - 12, left_x + left_width / 2, y - 12, left_first.arrow_label)
        + bound_prims(c, x, y, label)
}

/// The connectors from the last node of each branch of `c` back to the point below the
/// decision at `x2`; a branch that ends in an end node gets none.
#[verifier::opaque]
pub open spec fn bound_prims(c: Condition, x2: int, y: int, label: String) -> Seq<Primitive> {
    let y2 = y + c.spec_height() - 25;
    let main_x1 = x2 + c.main_path.spec_max_right() * 250 + 250;
    let main_y1 = y + c.main_path.spec_height() - 110;
    let alt_x1 = x2 - c.alternative_path.spec_max_right() * 250 - 250;
    let alt_y1 = y + c.alternative_path.spec_height() - 110;
    (if c.main_path.spec_last_node_type() != Type::END {
        arrow_prims(main_x1, main_y1, x2, y2, label)
    } else {
        Seq::empty()
    }) + (if c.alternative_path.spec_last_node_type() != Type::END {
        arrow_prims(alt_x1, alt_y1, x2, y2, label)
    } else {
        Seq::empty()
    })
}

/// A branch that ends in an end node gets no connector back to the merge point, and a
/// branch that ends otherwise (in a step, say) gets exactly one: three primitives each.
pub proof fn lemma_terminal_branch_connectors(c: Condition, x2: int, y: int, label: String)
    ensures
        bound_prims(c, x2, y, label).len() == 3 * ((if c.main_path.spec_last_node_type() != Type::END { 1int } else { 0 })
            + (if c.alternative_path.spec_last_node_type() != Type::END { 1int } else { 0 })),
        c.main_path.spec_last_node_type() == Type::END && c.alternative_path.spec_last_node_type() == Type::END
            ==> bound_prims(c, x2, y, label) == Seq::<Primitive>::empty(),
        c.main_path.spec_last_node_type() != Type::END && c.alternative_path.spec_last_node_type() == Type::END
            ==> bound_prims(c, x2, y, label) == arrow_prims(x2 + c.main_path.spec_max_right() * 250 + 250,
                y + c.main_path.spec_height() - 110, x2, y + c.spec_height() - 25, label),
        c.main_path.spec_last_node_type() == Type::END && c.alternative_path.spec_last_node_type() != Type::END
            ==> bound_prims(c, x2, y, label) == arrow_prims(x2 - c.alternative_path.spec_max_right() * 250 - 250,
                y + c.alternative_path.spec_height() - 110, x2, y + c.spec_height() - 25, label),
{
    reveal(bound_prims);
    reveal(arrow_prims);
    let e = Seq::<Primitive>::empty();
    assert(e + e =~= e);
    assert forall|s: Seq<Primitive>| s + e =~= s && e + s =~= s by {}
}

/// Draws an activity connector from `(x1, y1)` to `(x2, y2)` labelled with `label`.
pub fn draw_line(x1: i64, y1: i64, x2: i64, y2: i64, doc: &mut Vec<Primitive>, label: String)
    requires
        -MAX_COORD <= x1 <= MAX_COORD,
        -MAX_COORD <= y1 <= MAX_COORD,
        -MAX_COORD <= x2 <= MAX_COORD,
        -MAX_COORD <= y2 <= MAX_COORD,
    ensures
        final(doc)@ == old(doc)@ + arrow_prims(x1 as int, y1 as int, x2 as int, y2 as int, label),
{
    proof {
        reveal(arrow_prims);
    }
    let cx = halve(x1 + x2);
    let cy = halve(y1 + y2);
    doc.push(Primitive::Marker(MarkerKind::Activity));
    doc.push(Primitive::Text {
        x: halves_of(cx - 20),
        y: cy - 20,
        content: label,
        kind: TextKind::ArrowCaption,
        rotation: Some(Rotation { dx: x2 - x1, dy: y2 - y1, cx, cy }),
    });
    doc.push(Primitive::Line { x1: halves_of(x1), y1, x2, y2, kind: LineKind::Activity });
    assert(final(doc)@ =~= old(doc)@ + arrow_prims(x1 as int, y1 as int, x2 as int, y2 as int, label));
}

impl Node {
    /// Draws this node centred at `(x, y)`.
    pub fn draw(&self, x: i64, y: i64, doc: &mut Vec<Primitive>)
        requires
            -MAX_COORD <= x <= MAX_COORD,
            -MAX_COORD <= y <= MAX_COORD,
            text_len(self.name) <= MAX_TEXT,
        ensures
            final(doc)@ == old(doc)@ + node_prims(*self, x as int, y as int),
    {
        proof {
            reveal(node_prims);
        }
        match self.kind {
            Type::IF => {
                doc.push(Primitive::Rect { x: x - 25, y: y - 25, width: 35, height: 35, kind: RectKind::DecisionDiamond });
                doc.push(Primitive::Text { x: halves_of(x), y: y + 39, content: self.name.clone(), kind: TextKind::NodeCaption, rotation: None });
            },
            Type::STEP => {
                let width = 16 * byte_len(&self.name) as i64;
                doc.push(Primitive::Rect { x: x - width / 2, y: y - 32, width, height: 50, kind: RectKind::StepBox });
                doc.push(Primitive::Text { x: halves_of(x), y, content: self.name.clone(), kind: TextKind::NodeCaption, rotation: None });
            },
            Type::END => {
                doc.push(Primitive::Circle { cx: x, cy: y, r: 25, kind: CircleKind::EndRing });
                doc.push(Primitive::Circle { cx: x, cy: y, r: 20, kind: CircleKind::EndDot });
            },
            Type::START => {
                doc.push(Primitive::Circle { cx: x, cy: y, r: 25, kind: CircleKind::StartDot });
            },
        }
        assert(final(doc)@ =~= old(doc)@ + node_prims(*self, x as int, y as int));
    }
}


proof fn lemma_if_count_prefix(nodes: Seq<Node>, k: int)
    requires
        0 <= k <= nodes.len(),
    ensures
        if_count(nodes.subrange(0, k)) <= if_count(nodes),
    decreases nodes.len(),
{
    if k < nodes.len() {
        assert(nodes.drop_last().subrange(0, k) =~= nodes.subrange(0, k));
        lemma_if_count_prefix(nodes.drop_last(), k);
    } else {
        assert(nodes.subrange(0, k) =~= nodes);
    }
}

impl Condition {
    /// Draws the decision's branches around `(x, y)` and the connectors between them.
    pub fn draw(&self, x: i64, y: i64, doc: &mut Vec<Primitive>, label: String)
        requires
            self.wf(),
            decisions_closed(self.main_path),
            decisions_closed(self.alternative_path),
            self.spec_nodes_count() <= MAX_NODES,
            -room(self.spec_nodes_count() as int) <= x <= room(self.spec_nodes_count() as int),
            -room(self.spec_nodes_count() as int) <= y <= room(self.spec_nodes_count() as int),
        ensures
            final(doc)@ == old(doc)@ + cond_prims(*self, x as int, y as int, label),
        decreases self,
    {
        proof {
            lemma_condition_unfold(*self);
            lemma_path_bounds(self.main_path);
            lemma_path_bounds(self.alternative_path);
        }
        let ghost d0 = doc@;
        let right_x = x + self.main_path.max_left() as i64 * 250 + 250;
        let right_width = byte_len(&self.main_path.nodes[0].name) as i64 * 16;
        self.main_path.draw(right_x, y, doc);
        let ghost d1 = doc@;
        let arrow_label_r = self.main_path.nodes[0].arrow_label.clone();
        draw_line(x + 20, y - 12, right_x - right_width / 2, y - 12, doc, arrow_label_r);
        let ghost d2 = doc@;

        let left_x = x - self.alternative_path.max_right() as i64 * 250 - 250;
        let left_width = byte_len(&self.alternative_path.nodes[0].name) as i64 * 16;
        self.alternative_path.draw(left_x, y, doc);
        let ghost d3 = doc@;
        let arrow_label_l = self.alternative_path.nodes[0].arrow_label.clone();
        draw_line(x - 20, y - 12, left_x + left_width / 2, y - 12, doc, arrow_label_l);
        let ghost d4 = doc@;

        self.bound_last_nodes(x, y, doc, label);
        proof {
            reveal_with_fuel(cond_prims, 2);
            reveal_with_fuel(path_prims, 2);
            let a = path_prims(self.main_path, right_x as int, y as int, 0, 0);
            let b = arrow_prims(x + 20, y - 12, right_x - right_width / 2, y - 12, arrow_label_r);
            let c = path_prims(self.alternative_path, left_x as int, y as int, 0, 0);
            let d = arrow_prims(x - 20, y - 12, left_x + left_width / 2, y - 12, arrow_label_l);
            let e = bound_prims(*self, x as int, y as int, label);
            assert(d1 == d0 + a);
            assert(d2 == d1 + b);
            assert(d3 == d2 + c);
            assert(d4 == d3 + d);
            assert(doc@ == d4 + e);
            assert(right_x == x + self.main_path.spec_max_left() * 250 + 250);
            assert(right_width == text_len(self.main_path.nodes@[0].name) * 16);
            assert(arrow_label_r == self.main_path.nodes@[0].arrow_label);
            assert(left_x == x - self.alternative_path.spec_max_right() * 250 - 250);
            assert(left_width == text_len(self.alternative_path.nodes@[0].name) * 16);
            assert(cond_prims(*self, x as int, y as int, label) == a + b + c + d + e);
            assert(doc@ =~= d0 + (a + b + c + d + e));
        }
        assert(doc@ =~= d0 + cond_prims(*self, x as int, y as int, label));
    }

    /// Draws a connector from the last node of each branch to `(x2, y + height - 25)`,
    /// except from a branch that ends in an end node.
    pub fn bound_last_nodes(&self, x2: i64, y: i64, doc: &mut Vec<Primitive>, label: String)
        requires
            self.wf(),
            self.spec_nodes_count() <= MAX_NODES,
            -room(self.spec_nodes_count() as int) <= x2 <= room(self.spec_nodes_count() as int),
            -room(self.spec_nodes_count() as int) <= y <= room(self.spec_nodes_count() as int),
        ensures
            final(doc)@ == old(doc)@ + bound_prims(*self, x2 as int, y as int, label),
            self.main_path.spec_last_node_type() == Type::END
                && self.alternative_path.spec_last_node_type() == Type::END ==> final(doc)@ == old(doc)@,
    {
        proof {
            lemma_condition_unfold(*self);
            lemma_path_bounds(self.main_path);
            lemma_path_bounds(self.alternative_path);
        }
        let ghost d0 = doc@;
        let y2 = y + self.get_height() as i64 - 25;
        let x1 = x2 + self.main_path.max_right() as i64 * 250 + 250;
        let y1 = y + self.main_path.get_height() as i64 - 110;
        if self.main_path.get_last_node_type() != Type::END {
            draw_line(x1, y1, x2, y2, doc, label.clone());
        }
        let x1 = x2 - self.alternative_path.max_right() as i64 * 250 - 250;
        let y1 = y + self.alternative_path.get_height() as i64 - 110;
        if self.alternative_path.get_last_node_type() != Type::END {
            draw_line(x1, y1, x2, y2, doc, label);
        }
        proof {
            reveal(bound_prims);
        }
        assert(doc@ =~= d0 + bound_prims(*self, x2 as int, y as int, label));
    }
}

impl Path {
    /// Draws the nodes top to bottom from `(x, y)`, 130 apart, each decision followed by
    /// its branches and the space they take.
    pub fn draw(&self, x: i64, y: i64, doc: &mut Vec<Primitive>)
        requires
            self.wf(),
            decisions_closed(*self),
            self.spec_nodes_count() <= MAX_NODES,
            -room(self.spec_nodes_count() as int) <= x <= room(self.spec_nodes_count() as int),
            -room(self.spec_nodes_count() as int) <= y <= room(self.spec_nodes_count() as int),
        ensures
            final(doc)@ == old(doc)@ + path_prims(*self, x as int, y as int, 0, 0),
        decreases self,
    {
        let ghost d0 = doc@;
        let ghost nc = self.spec_nodes_count() as int;
        proof {
            lemma_path_bounds(*self);
            lemma_conds_bounds(self.alternatives@);
            assert(self.nodes@.subrange(0, 0) =~= Seq::<Node>::empty());
            assert(self.alternatives@.subrange(0, 0) =~= Seq::<Condition>::empty());
        }
        let mut yy: i64 = y;
        let mut i: usize = 0;
        let mut ci: usize = 0;
        while i < self.nodes.len()
            invariant
                self.wf(),
                decisions_closed(*self),
                nc == self.spec_nodes_count(),
                nc <= MAX_NODES,
                nc >= self.nodes@.len(),
                -room(nc) <= x <= room(nc),
                -room(nc) <= y <= room(nc),
                0 <= conds_height(self.alternatives@) <= 130 * conds_nodes_count(self.alternatives@),
                0 <= i <= self.nodes@.len(),
                ci == if_count(self.nodes@.subrange(0, i as int)),
                ci <= i,
                ci <= self.alternatives@.len(),
                yy == y + 130 * (i - ci) + conds_height(self.alternatives@.subrange(0, ci as int)),
                d0 + path_prims(*self, x as int, y as int, 0, 0) == doc@ + path_prims(*self, x as int, yy as int, i as int, ci as int),
            decreases self.nodes@.len() - i,
        {
            let ghost before = doc@;
            let ghost yy0 = yy as int;
            let ghost i0 = i as int;
            let ghost ci0 = ci as int;
            proof {
                lemma_conds_prefix(self.alternatives@, ci as int);
                lemma_if_count_step(self.nodes@, i as int);
                lemma_path_prims_unfold(*self, x as int, yy0, i0, ci0);
            }
            let node = &self.nodes[i];
            if i != 0 && self.nodes[i - 1].kind != Type::IF {
                draw_line(x, yy - 110, x, yy - 20, doc, node.arrow_label.clone());
            }
            node.draw(x, yy, doc);
            assert(doc@ == before + conn_prims(*self, x as int, yy0, i0) + node_prims(self.nodes@[i0], x as int, yy0));
            if node.kind == Type::IF {
                let label = self.nodes[i + 1].arrow_label.clone();
                proof {
                    lemma_conds_closed_elem(self.alternatives@, ci as int);
                    lemma_conds_elem(self.alternatives@, ci as int);
                    lemma_conds_prefix(self.alternatives@, ci as int + 1);
                    assert(self.alternatives@.subrange(0, ci + 1).subrange(0, ci as int)
                        =~= self.alternatives@.subrange(0, ci as int));
                }
                let h = self.alternatives[ci].get_height();
                self.alternatives[ci].draw(x, yy, doc, label);
                yy = yy + h as i64;
                ci += 1;
            } else {
                yy = yy + 130;
            }
            i += 1;
            proof {
                assert(doc@ + path_prims(*self, x as int, yy as int, i as int, ci as int)
                    =~= before + path_prims(*self, x as int, yy0, i0, ci0));
            }
        }
        proof {
            reveal_with_fuel(path_prims, 1);
            assert(path_prims(*self, x as int, yy as int, i as int, ci as int) =~= Seq::<Primitive>::empty());
            assert(doc@ =~= d0 + path_prims(*self, x as int, y as int, 0, 0));
        }
    }
}

/// An activity diagram: the main path, which starts with the implicit start node.
pub struct Activity {
    pub path: Path,
}

impl Activity {
    pub open spec fn wf(&self) -> bool {
        self.path.wf() && decisions_closed(self.path) && self.path.spec_nodes_count() <= MAX_NODES
    }

    /// The activity of `path`; a path, or a branch, that ends in a decision leaves its
    /// branches nothing to join and is refused.
    pub fn new(path: Path) -> (r: Result<Activity, DiagramError>)
        requires
            path.wf(),
        ensures
            r is Ok <==> decisions_closed(path),
            r is Ok ==> r->Ok_0.path == path,
            r is Err ==> r == Err::<Activity, DiagramError>(DiagramError::StructuralViolation),
    {
        if path.closes_decisions() {
            Ok(Activity { path })
        } else {
            Err(DiagramError::StructuralViolation)
        }
    }

    /// Canvas width: 250 for each unit of left spread, 400 for each unit of right spread, plus 200.
    pub fn width(&self) -> (r: usize)
        requires
            self.wf(),
        ensures
            r == self.path.spec_max_left() * 250 + self.path.spec_max_right() * 400 + 200,
    {
        proof {
            lemma_path_bounds(self.path);
        }
        let left = self.path.max_left() * 250;
        let right = self.path.max_right() * 400;
        left + right + 200
    }

    /// Canvas height: the path's height plus 50.
    pub fn height(&self) -> (r: usize)
        requires
            self.wf(),
        ensures
            r == self.path.spec_height() + 50,
    {
        proof {
            lemma_path_bounds(self.path);
        }
        self.path.get_height() + 50
    }

    pub fn nodes_count(&self) -> (r: usize)
        requires
            self.wf(),
        ensures
            r == self.path.spec_nodes_count(),
    {
        self.path.nodes_count()
    }

    /// Draws a white background, then the path from `(max_left * 250 + 100, 25)`.
    pub fn draw(&self, doc: &mut Vec<Primitive>)
        requires
            self.wf(),
        ensures
            final(doc)@ == old(doc)@ + seq![Primitive::Background]
                + path_prims(self.path, (self.path.spec_max_left() * 250 + 100) as int, 25, 0, 0),
    {
        proof {
            lemma_path_bounds(self.path);
        }
        let left = self.path.max_left() as i64 * 250;
        doc.push(Primitive::Background);
        let ghost mid = doc@;
        self.path.draw(left + 100, 25, doc);
        assert(doc@ =~= old(doc)@ + seq![Primitive::Background]
            + path_prims(self.path, (self.path.spec_max_left() * 250 + 100) as int, 25, 0, 0));
    }
}

/// Lays out an activity diagram: a canvas as wide and high as the activity asks for, with
/// the activity drawn on it.
pub fn layout_activity_diagram(activity: &Activity) -> (d: crate::primitive::Document)
    requires
        activity.wf(),
    ensures
        d.width == activity.path.spec_max_left() * 250 + activity.path.spec_max_right() * 400 + 200,
        d.height == activity.path.spec_height() + 50,
        d.primitives@ == seq![Primitive::Background]
            + path_prims(activity.path, (activity.path.spec_max_left() * 250 + 100) as int, 25, 0, 0),
{
    proof {
        lemma_path_bounds(activity.path);
    }
    let mut primitives: Vec<Primitive> = Vec::new();
    activity.draw(&mut primitives);
    assert(primitives@ =~= seq![Primitive::Background]
        + path_prims(activity.path, (activity.path.spec_max_left() * 250 + 100) as int, 25, 0, 0));
    crate::primitive::Document { width: activity.width() as i64, height: activity.height() as i64, primitives }
}

impl Path {
    /// Whether no path, this one or a branch within it, ends in a decision.
    pub fn closes_decisions(&self) -> (r: bool)
        requires
            self.wf(),
        ensures
            r == decisions_closed(*self),
        decreases self,
    {
        let n = self.nodes.len();
        if n > 0 && self.nodes[n - 1].kind == Type::IF {
            return false;
        }
        let mut i: usize = 0;
        while i < self.alternatives.len()
            invariant
                self.wf(),
                !(self.nodes@.len() > 0 && self.nodes@.last().kind == Type::IF),
                0 <= i <= self.alternatives@.len(),
                conds_closed(self.alternatives@.subrange(0, i as int)),
            decreases self.alternatives@.len() - i,
        {
            proof {
                lemma_conds_elem(self.alternatives@, i as int);
                assert(self.alternatives@.subrange(0, i + 1).subrange(0, i as int)
                    =~= self.alternatives@.subrange(0, i as int));
                assert(self.alternatives@.subrange(0, i + 1)[i as int] == self.alternatives@[i as int]);
            }
            if !self.alternatives[i].main_path.closes_decisions() {
                proof {
                    lemma_closed_prefix_fails(self.alternatives@, i as int);
                }
                return false;
            }
            if !self.alternatives[i].alternative_path.closes_decisions() {
                proof {
                    lemma_closed_prefix_fails(self.alternatives@, i as int);
                }
                return false;
            }
            i += 1;
        }
        proof {
            assert(self.alternatives@.subrange(0, i as int) =~= self.alternatives@);
        }
        true
    }
}

proof fn lemma_closed_prefix_fails(cs: Seq<Condition>, i: int)
    requires
        0 <= i < cs.len(),
        !(decisions_closed(cs[i].main_path) && decisions_closed(cs[i].alternative_path)),
    ensures
        !conds_closed(cs),
{
    if conds_closed(cs) {
        lemma_conds_closed_elem(cs, i);
    }
}

} // verus!
