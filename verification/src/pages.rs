//! The pages of a document in order: a depth-first walk of the page tree
//! that resolves each kid, descends into `/Pages` nodes with the attributes
//! they pass on, and reads each `/Page` leaf.

use vstd::prelude::*;

use crate::objects::{
    extends, lemma_extends_trans, lemma_lookup_failure_earlier, lemma_obtainable_stays, lookup_failure,
    obtainable, resolved, Objects, ObjectsError,
};
use crate::structures::page::{lookups_good, page_read, spec_boxes, spec_tail, Page, PageError};
use crate::structures::pages_tree::{
    spec_node, AttributesModel, InheritableAttributes, PagesTreeError, PagesTreeNode,
};
use crate::text::same_text;
use crate::types::dictionary::dict_get;
use crate::types::indirect_object::IndirectReference;
use crate::types::object::{spec_as_dictionary, spec_as_name, ObjectError, ObjectModel};

verus! {

/// Why the walk could not go on.
#[derive(Debug, PartialEq)]
pub enum PagesError {
    /// A kid has no `Type` name.
    FieldNotFound,
    /// A kid is not a dictionary.
    InvalidKidType { indirect_reference: IndirectReference, source: ObjectError },
    /// The object of a kid could not be had.
    ObjectNotFound { reference: IndirectReference, source: ObjectsError },
    /// A kid is neither a `Page` nor a `Pages` node.
    UnexpectedNodeType { got: String },
    /// A page could not be read.
    InvalidPage(PageError),
    /// A `Pages` node could not be read.
    InvalidPageNode(PagesTreeError),
    /// The next page would take more steps than `usize` counts.
    TooManySteps,
}

/// A walk over the pages of a page tree.
#[derive(Debug)]
pub struct Pages {
    leaf_count: usize,
    stack: Vec<(Vec<IndirectReference>, usize, InheritableAttributes)>,
    current: Vec<IndirectReference>,
    position: usize,
    current_inheritable: InheritableAttributes,
}

/// The value of a [`Pages`] walk: the nodes above the current one (their
/// kids, the next position and their attributes), the kids of the current
/// node, the next position among them, and its attributes.
pub struct PagesModel {
    pub leaf_count: usize,
    pub stack: Seq<(Seq<IndirectReference>, int, AttributesModel)>,
    pub current: Seq<IndirectReference>,
    pub position: int,
    pub attributes: AttributesModel,
}

impl View for Pages {
    type V = PagesModel;

    closed spec fn view(&self) -> PagesModel {
        PagesModel {
            leaf_count: self.leaf_count,
            stack: self.stack@.map_values(
                |e: (Vec<IndirectReference>, usize, InheritableAttributes)| (e.0@, e.1 as int, e.2@),
            ),
            current: self.current@,
            position: self.position as int,
            attributes: self.current_inheritable@,
        }
    }
}

/// What one step of the walk does.
pub enum Step {
    /// There are no more kids anywhere: the walk is over.
    Finished,
    /// The current node is done; the walk went back to the node above.
    Ascended,
    /// A `Pages` kid was entered.
    Descended,
    /// A `Page` kid was read.
    Leaf(Page),
}

/// The walk after the next kid of the current node is taken.
pub open spec fn taken(o: PagesModel) -> PagesModel {
    PagesModel {
        leaf_count: o.leaf_count,
        stack: o.stack,
        current: o.current,
        position: o.position + 1,
        attributes: o.attributes,
    }
}

/// Reading the page dictionary `d` with the attributes `a` may fail: its
/// boxes or other entries are wrong, or an entry that is looked up does not
/// give what it must from what `m` held when the reading began.
#[verifier::opaque]
pub open spec fn page_may_fail(m: crate::objects::ObjectsModel, d: Seq<(Seq<char>, ObjectModel)>, a: AttributesModel) -> bool {
    !(spec_boxes(d, a) is Ok && spec_tail(d) is Ok && lookups_good(m, d, a))
}

/// A page that may fail where a later reading began may fail where an
/// earlier one began.
proof fn lemma_may_fail_earlier(
    m0: crate::objects::ObjectsModel,
    m1: crate::objects::ObjectsModel,
    d: Seq<(Seq<char>, ObjectModel)>,
    a: AttributesModel,
)
    requires
        extends(m0, m1),
        page_may_fail(m1, d, a),
    ensures
        page_may_fail(m0, d, a),
{
    reveal(page_may_fail);
    if lookups_good(m0, d, a) {
        crate::structures::page::lemma_lookups_stay(m0, m1, d, a);
    }
}

/// A visit stated from where a later reading began holds from where an
/// earlier one began.
proof fn lemma_dict_step_earlier(
    m0: crate::objects::ObjectsModel,
    m1: crate::objects::ObjectsModel,
    o: PagesModel,
    kid: IndirectReference,
    d: Seq<(Seq<char>, ObjectModel)>,
    s: PagesModel,
    r: Result<Step, PagesError>,
    m: crate::objects::ObjectsModel,
)
    requires
        extends(m0, m1),
        dict_step(m1, o, kid, d, s, r, m),
    ensures
        dict_step(m0, o, kid, d, s, r, m),
{
    if r matches Err(PagesError::InvalidPage(_)) {
        if page_may_fail(m1, d, o.attributes) {
            lemma_may_fail_earlier(m0, m1, d, o.attributes);
        }
    }
}

/// A step stated from where a later reading began holds from where an
/// earlier one began.
proof fn lemma_step_earlier(
    m0: crate::objects::ObjectsModel,
    m1: crate::objects::ObjectsModel,
    o: PagesModel,
    s: PagesModel,
    r: Result<Step, PagesError>,
    m: crate::objects::ObjectsModel,
)
    requires
        extends(m0, m1),
        extends(m1, m),
        step_rel(m1, o, s, r, m),
    ensures
        step_rel(m0, o, s, r, m),
{
    if o.position < o.current.len() && r matches Err(PagesError::ObjectNotFound { .. }) {
        let kid = o.current[o.position];
        let key = (kid.id, kid.gen_id);
        if obtainable(m0, key) is Some {
            lemma_obtainable_stays(m0, m1, key);
        }
        if let Err(PagesError::ObjectNotFound { source, .. }) = r {
            lemma_lookup_failure_earlier(m0, m1, m, kid, source);
        }
    }
    if o.position < o.current.len() && !(r matches Err(PagesError::ObjectNotFound { .. })) {
        let kid = o.current[o.position];
        let t = resolved(m, (kid.id, kid.gen_id))->Some_0;
        if let Ok(d) = spec_as_dictionary(t) {
            lemma_dict_step_earlier(m0, m1, taken(o), kid, d, s, r, m);
        }
    }
}

/// What visiting the kid `kid` with dictionary `d` does to the walk `o`
/// (its kid already taken), the walk being `s` after it: a `Pages` node is
/// entered with `o` pushed, a `Page` is read, another kind fails.
pub open spec fn dict_step(
    m0: crate::objects::ObjectsModel,
    o: PagesModel,
    kid: IndirectReference,
    d: Seq<(Seq<char>, ObjectModel)>,
    s: PagesModel,
    r: Result<Step, PagesError>,
    m: crate::objects::ObjectsModel,
) -> bool {
    match dict_get(d, "Type"@) {
        None => r == Err::<Step, PagesError>(PagesError::FieldNotFound) && s == o,
        Some(x) => match spec_as_name(x) {
            Err(_) => r == Err::<Step, PagesError>(PagesError::FieldNotFound) && s == o,
            Ok(n) => if n == "Page"@ {
                s == o && match r {
                    Ok(Step::Leaf(p)) => page_read(m, d, o.attributes, p),
                    Err(PagesError::InvalidPage(_)) => page_may_fail(m0, d, o.attributes),
                    _ => false,
                }
            } else if n == "Pages"@ {
                match spec_node(d, o.attributes) {
                    Err(e) => r == Err::<Step, PagesError>(PagesError::InvalidPageNode(e)) && s == o,
                    Ok((_, kids, a)) => (r matches Ok(Step::Descended)) && s == (PagesModel {
                        leaf_count: o.leaf_count,
                        stack: o.stack.push((o.current, o.position, o.attributes)),
                        current: kids,
                        position: 0,
                        attributes: a,
                    }),
                }
            } else {
                (r matches Err(PagesError::UnexpectedNodeType { got })) && s == o && r->Err_0->got@ == n
            },
        },
    }
}

/// What a step from `o` does when the object of its next kid is `t`, the
/// walk being `s` after it.
pub open spec fn kid_step(
    m0: crate::objects::ObjectsModel,
    o: PagesModel,
    t: ObjectModel,
    s: PagesModel,
    r: Result<Step, PagesError>,
    m: crate::objects::ObjectsModel,
) -> bool {
    let kid = o.current[o.position];
    match spec_as_dictionary(t) {
        Err(e) => r == Err::<Step, PagesError>(
            PagesError::InvalidKidType { indirect_reference: kid, source: e },
        ) && s == taken(o),
        Ok(d) => dict_step(m0, taken(o), kid, d, s, r, m),
    }
}

/// No kid is left in the current node nor in any node above it.
pub open spec fn finished(s: PagesModel) -> bool {
    s.position >= s.current.len() && s.stack.len() == 0
}

/// One step of the walk from `o`, the walk being `s` after it, with
/// outcome `r` and the objects `m`: the next kid of the current node is
/// looked up and visited; when the node has no kid left, the walk goes
/// back to the node above, or is over when there is none.
pub open spec fn step_rel(m0: crate::objects::ObjectsModel, o: PagesModel, s: PagesModel, r: Result<Step, PagesError>, m: crate::objects::ObjectsModel) -> bool {
    if o.position < o.current.len() {
        let kid = o.current[o.position];
        match r {
            Err(PagesError::ObjectNotFound { reference, source }) => reference == kid && s == taken(o)
                && obtainable(m0, (kid.id, kid.gen_id)) is None && lookup_failure(m0, m, kid, source),
            _ => resolved(m, (kid.id, kid.gen_id)) matches Some(t) && kid_step(m0, o, t, s, r, m),
        }
    } else if o.stack.len() == 0 {
        (r matches Ok(Step::Finished)) && s == o
    } else {
        let top = o.stack.last();
        &&& r matches Ok(Step::Ascended)
        &&& s.stack == o.stack.drop_last()
        &&& s.current == top.0
        &&& s.position == top.1
        &&& s.attributes == top.2
        &&& s.leaf_count == o.leaf_count
    }
}

/// A step from `o` to `s` that enters a `Pages` node or goes back up.
pub open spec fn inner_step(o: PagesModel, s: PagesModel, m: crate::objects::ObjectsModel) -> bool {
    step_rel(m, o, s, Ok(Step::Descended), m) || step_rel(m, o, s, Ok(Step::Ascended), m)
}

/// The walk goes through the states `trace`, each reached from the one
/// before by an inner step.
pub open spec fn walk_trace(trace: Seq<PagesModel>, m: crate::objects::ObjectsModel) -> bool
    decreases trace.len(),
{
    if trace.len() <= 1 {
        true
    } else {
        walk_trace(trace.drop_last(), m) && inner_step(trace[trace.len() - 2], trace.last(), m)
    }
}

/// What the step that ends a call of `compute_next` does: from `o` to `s`
/// with outcome `r`.
pub open spec fn last_step(m0: crate::objects::ObjectsModel, o: PagesModel, s: PagesModel, r: Result<Option<Page>, PagesError>, m: crate::objects::ObjectsModel) -> bool {
    match r {
        Ok(None) => step_rel(m0, o, s, Ok(Step::Finished), m),
        Ok(Some(p)) => step_rel(m0, o, s, Ok(Step::Leaf(p)), m),
        Err(PagesError::TooManySteps) => s == o,
        Err(e) => step_rel(m0, o, s, Err(e), m),
    }
}

/// An inner step does not depend on where the reading began.
proof fn lemma_inner_any(
    m0: crate::objects::ObjectsModel,
    m1: crate::objects::ObjectsModel,
    o: PagesModel,
    s: PagesModel,
    r: Result<Step, PagesError>,
    m: crate::objects::ObjectsModel,
)
    requires
        step_rel(m0, o, s, r, m),
        r matches Ok(Step::Ascended) || r matches Ok(Step::Descended),
    ensures
        step_rel(m1, o, s, r, m),
{
}

/// An inner step stays so while more is read.
proof fn lemma_inner_step_stays(o: PagesModel, s: PagesModel, a: crate::objects::ObjectsModel, b: crate::objects::ObjectsModel)
    requires
        extends(a, b),
        inner_step(o, s, a),
    ensures
        inner_step(o, s, b),
{
    if o.position < o.current.len() {
        let kid = o.current[o.position];
        crate::objects::lemma_resolved_stays(a, b, (kid.id, kid.gen_id));
    }
}

/// A walk stays so while more is read.
proof fn lemma_walk_stays(trace: Seq<PagesModel>, a: crate::objects::ObjectsModel, b: crate::objects::ObjectsModel)
    requires
        extends(a, b),
        walk_trace(trace, a),
    ensures
        walk_trace(trace, b),
    decreases trace.len(),
{
    if trace.len() > 1 {
        lemma_walk_stays(trace.drop_last(), a, b);
        lemma_inner_step_stays(trace[trace.len() - 2], trace.last(), a, b);
    }
}

/// The dictionary of the kid `kid` in `m`.
#[verifier::opaque]
pub open spec fn kid_dictionary(m: crate::objects::ObjectsModel, kid: IndirectReference) -> Option<
    Seq<(Seq<char>, ObjectModel)>,
> {
    match resolved(m, (kid.id, kid.gen_id)) {
        Some(t) => match spec_as_dictionary(t) {
            Ok(d) => Some(d),
            Err(_) => None,
        },
        None => None,
    }
}

/// The `Type` name of a page tree node.
#[verifier::opaque]
pub open spec fn node_type(d: Seq<(Seq<char>, ObjectModel)>) -> Option<Seq<char>> {
    match dict_get(d, "Type"@) {
        Some(x) => match spec_as_name(x) {
            Ok(n) => Some(n),
            Err(_) => None,
        },
        None => None,
    }
}

/// The page leaves under the kids `kids[from..]` of a node with attributes
/// `a`, in depth-first order from left to right, each with the attributes
/// that it inherits; `Pages` nodes are entered at most `depth` levels down.
/// `None` when a kid is not a dictionary that `m` gives, is neither a `Page`
/// nor a `Pages` node, or is a `Pages` node that cannot be read or lies
/// deeper.
pub open spec fn leaves(
    m: crate::objects::ObjectsModel,
    kids: Seq<IndirectReference>,
    from: int,
    a: AttributesModel,
    depth: nat,
) -> Option<Seq<(Seq<(Seq<char>, ObjectModel)>, AttributesModel)>>
    decreases depth, kids.len() - from,
{
    if from < 0 {
        None
    } else if from >= kids.len() {
        Some(Seq::empty())
    } else {
        match kid_dictionary(m, kids[from]) {
            None => None,
            Some(d) => match node_type(d) {
                None => None,
                Some(n) => if n == "Page"@ {
                    match leaves(m, kids, from + 1, a, depth) {
                        Some(rest) => Some(seq![(d, a)] + rest),
                        None => None,
                    }
                } else if n == "Pages"@ && depth > 0 {
                    match spec_node(d, a) {
                        Ok((_, k2, a2)) => match (
                            leaves(m, k2, 0, a2, (depth - 1) as nat),
                            leaves(m, kids, from + 1, a, depth),
                        ) {
                            (Some(x), Some(y)) => Some(x + y),
                            _ => None,
                        },
                        Err(_) => None,
                    }
                } else {
                    None
                },
            },
        }
    }
}

/// The page leaves still to come from the nodes on the stack `stack`, the
/// top one first; the node at height `i` is entered at most `depth - i`
/// levels down.
pub open spec fn frames_leaves(
    m: crate::objects::ObjectsModel,
    stack: Seq<(Seq<IndirectReference>, int, AttributesModel)>,
    depth: nat,
) -> Option<Seq<(Seq<(Seq<char>, ObjectModel)>, AttributesModel)>>
    decreases stack.len(),
{
    if stack.len() == 0 {
        Some(Seq::empty())
    } else if depth < stack.len() - 1 {
        None
    } else {
        let f = stack.last();
        match (
            leaves(m, f.0, f.1, f.2, (depth - (stack.len() - 1)) as nat),
            frames_leaves(m, stack.drop_last(), depth),
        ) {
            (Some(x), Some(y)) => Some(x + y),
            _ => None,
        }
    }
}

/// The page leaves that the walk `s` still has to give, in order, with
/// `depth` levels of `Pages` nodes below the root.
pub open spec fn pages_left(m: crate::objects::ObjectsModel, s: PagesModel, depth: nat) -> Option<
    Seq<(Seq<(Seq<char>, ObjectModel)>, AttributesModel)>,
> {
    if depth < s.stack.len() {
        None
    } else {
        match (
            leaves(m, s.current, s.position, s.attributes, (depth - s.stack.len()) as nat),
            frames_leaves(m, s.stack, depth),
        ) {
            (Some(x), Some(y)) => Some(x + y),
            _ => None,
        }
    }
}

/// Reading a `Page` kid gives the first of the leaves still to come.
proof fn lemma_leaf_in_order(
    m: crate::objects::ObjectsModel,
    o: PagesModel,
    d: Seq<(Seq<char>, ObjectModel)>,
    depth: nat,
)
    requires
        0 <= o.position < o.current.len(),
        kid_dictionary(m, o.current[o.position]) == Some(d),
        node_type(d) == Some("Page"@),
        pages_left(m, o, depth) is Some,
    ensures
        pages_left(m, taken(o), depth) is Some,
        pages_left(m, o, depth) == Some(seq![(d, o.attributes)] + pages_left(m, taken(o), depth)->Some_0),
{
    let k = o.stack.len();
    let rest = leaves(m, o.current, o.position + 1, o.attributes, (depth - k) as nat)->Some_0;
    let fr = frames_leaves(m, o.stack, depth)->Some_0;
    assert(leaves(m, o.current, o.position, o.attributes, (depth - k) as nat) == Some(seq![(d, o.attributes)] + rest));
    assert(seq![(d, o.attributes)] + rest + fr =~= seq![(d, o.attributes)] + (rest + fr));
}

/// Entering a `Pages` kid keeps the leaves still to come.
#[verifier::rlimit(50)]
proof fn lemma_descend_in_order(
    m: crate::objects::ObjectsModel,
    o: PagesModel,
    d: Seq<(Seq<char>, ObjectModel)>,
    c: usize,
    k2: Seq<IndirectReference>,
    a2: AttributesModel,
    depth: nat,
)
    requires
        0 <= o.position < o.current.len(),
        kid_dictionary(m, o.current[o.position]) == Some(d),
        node_type(d) == Some("Pages"@),
        spec_node(d, o.attributes) == Ok::<(usize, Seq<IndirectReference>, AttributesModel), PagesTreeError>((c, k2, a2)),
        pages_left(m, o, depth) is Some,
    ensures
        pages_left(
            m,
            PagesModel {
                leaf_count: o.leaf_count,
                stack: o.stack.push((o.current, o.position + 1, o.attributes)),
                current: k2,
                position: 0,
                attributes: a2,
            },
            depth,
        ) == pages_left(m, o, depth),
{
    let k = o.stack.len();
    let dk = (depth - k) as nat;
    let fr = frames_leaves(m, o.stack, depth)->Some_0;
    reveal_strlit("Page");
    reveal_strlit("Pages");
    assert("Pages"@ != "Page"@) by {
        assert("Pages"@.len() != "Page"@.len());
    }
    assert(leaves(m, o.current, o.position, o.attributes, dk) is Some);
    assert(dk > 0);
    let x = leaves(m, k2, 0, a2, (dk - 1) as nat)->Some_0;
    let y = leaves(m, o.current, o.position + 1, o.attributes, dk)->Some_0;
    assert(leaves(m, o.current, o.position, o.attributes, dk) == Some(x + y));
    let pushed = o.stack.push((o.current, o.position + 1, o.attributes));
    assert(pushed.drop_last() =~= o.stack);
    assert(pushed.last() == (o.current, o.position + 1, o.attributes));
    assert((depth - (pushed.len() - 1)) as nat == dk);
    assert(frames_leaves(m, pushed, depth) == Some(y + fr));
    assert((depth - pushed.len()) as nat == (dk - 1) as nat);
    assert(x + (y + fr) =~= x + y + fr);
}

/// Going back up keeps the leaves still to come.
proof fn lemma_ascend_in_order(m: crate::objects::ObjectsModel, o: PagesModel, s: PagesModel, depth: nat)
    requires
        o.position >= o.current.len(),
        o.stack.len() > 0,
        s.stack == o.stack.drop_last(),
        s.current == o.stack.last().0,
        s.position == o.stack.last().1,
        s.attributes == o.stack.last().2,
        pages_left(m, o, depth) is Some,
    ensures
        pages_left(m, s, depth) == pages_left(m, o, depth),
{
    let k = o.stack.len();
    let fr = frames_leaves(m, o.stack, depth)->Some_0;
    assert(leaves(m, o.current, o.position, o.attributes, (depth - k) as nat) == Some(
        Seq::<(Seq<(Seq<char>, ObjectModel)>, AttributesModel)>::empty(),
    ));
    assert(Seq::<(Seq<(Seq<char>, ObjectModel)>, AttributesModel)>::empty() + fr =~= fr);
}

/// A step of the walk that succeeds keeps the leaves still to come, or
/// gives the first of them.
proof fn lemma_step_in_order(
    m0: crate::objects::ObjectsModel,
    o: PagesModel,
    s: PagesModel,
    r: Result<Step, PagesError>,
    m: crate::objects::ObjectsModel,
    depth: nat,
)
    requires
        step_rel(m0, o, s, r, m),
        r is Ok,
        pages_left(m, o, depth) is Some,
    ensures
        match r {
            Ok(Step::Finished) => pages_left(m, o, depth) == Some(
                Seq::<(Seq<(Seq<char>, ObjectModel)>, AttributesModel)>::empty(),
            ),
            Ok(Step::Leaf(p)) => {
                let l = pages_left(m, o, depth)->Some_0;
                &&& l.len() > 0
                &&& page_read(m, l[0].0, l[0].1, p)
                &&& pages_left(m, s, depth) == Some(l.skip(1))
            },
            _ => pages_left(m, s, depth) == pages_left(m, o, depth),
        },
{
    if o.position < o.current.len() {
        assert(o.position >= 0) by {
            if o.position < 0 {
                assert(leaves(m, o.current, o.position, o.attributes, (depth - o.stack.len()) as nat) is None);
            }
        }
        let kid = o.current[o.position];
        let t = resolved(m, (kid.id, kid.gen_id))->Some_0;
        let d = spec_as_dictionary(t)->Ok_0;
        assert(kid_dictionary(m, kid) == Some(d)) by {
            reveal(kid_dictionary);
        }
        let n = spec_as_name(dict_get(d, "Type"@)->Some_0)->Ok_0;
        assert(node_type(d) == Some(n)) by {
            reveal(node_type);
        }
        if n == "Page"@ {
            lemma_leaf_in_order(m, o, d, depth);
            let l = pages_left(m, o, depth)->Some_0;
            assert(l.skip(1) =~= pages_left(m, s, depth)->Some_0);
        } else {
            let (c, k2, a2) = spec_node(d, o.attributes)->Ok_0;
            lemma_descend_in_order(m, o, d, c, k2, a2, depth);
        }
    } else if o.stack.len() == 0 {
        assert(Seq::<(Seq<(Seq<char>, ObjectModel)>, AttributesModel)>::empty()
            + Seq::<(Seq<(Seq<char>, ObjectModel)>, AttributesModel)>::empty()
            =~= Seq::<(Seq<(Seq<char>, ObjectModel)>, AttributesModel)>::empty());
    } else {
        lemma_ascend_in_order(m, o, s, depth);
    }
}

/// Steps that enter a node or go back up keep the leaves still to come.
proof fn lemma_trace_in_order(trace: Seq<PagesModel>, m: crate::objects::ObjectsModel, depth: nat)
    requires
        walk_trace(trace, m),
        trace.len() >= 1,
        pages_left(m, trace[0], depth) is Some,
    ensures
        pages_left(m, trace.last(), depth) == pages_left(m, trace[0], depth),
    decreases trace.len(),
{
    if trace.len() > 1 {
        let t = trace.drop_last();
        lemma_trace_in_order(t, m, depth);
        let o = trace[trace.len() - 2];
        assert(o == t.last());
        if step_rel(m, o, trace.last(), Ok(Step::Descended), m) {
            lemma_step_in_order(m, o, trace.last(), Ok(Step::Descended), m, depth);
        } else {
            lemma_step_in_order(m, o, trace.last(), Ok(Step::Ascended), m, depth);
        }
    }
}

/// The leaves under kids stay the same while more is read.
proof fn lemma_leaves_stay(
    a: crate::objects::ObjectsModel,
    b: crate::objects::ObjectsModel,
    kids: Seq<IndirectReference>,
    from: int,
    at: AttributesModel,
    depth: nat,
)
    requires
        crate::objects::grows(a, b),
        leaves(a, kids, from, at, depth) is Some,
    ensures
        leaves(b, kids, from, at, depth) == leaves(a, kids, from, at, depth),
    decreases depth, kids.len() - from,
{
    if 0 <= from < kids.len() {
        let kid = kids[from];
        assert(kid_dictionary(b, kid) == kid_dictionary(a, kid)) by {
            reveal(kid_dictionary);
            crate::objects::lemma_resolved_stays(a, b, (kid.id, kid.gen_id));
        }
        let d = kid_dictionary(a, kid)->Some_0;
        let n = node_type(d)->Some_0;
        lemma_leaves_stay(a, b, kids, from + 1, at, depth);
        if n != "Page"@ {
            let (_, k2, a2) = spec_node(d, at)->Ok_0;
            lemma_leaves_stay(a, b, k2, 0, a2, (depth - 1) as nat);
        }
    }
}

/// The leaves of the nodes on a stack stay the same while more is read.
proof fn lemma_frames_stay(
    a: crate::objects::ObjectsModel,
    b: crate::objects::ObjectsModel,
    stack: Seq<(Seq<IndirectReference>, int, AttributesModel)>,
    depth: nat,
)
    requires
        crate::objects::grows(a, b),
        frames_leaves(a, stack, depth) is Some,
    ensures
        frames_leaves(b, stack, depth) == frames_leaves(a, stack, depth),
    decreases stack.len(),
{
    if stack.len() > 0 {
        let f = stack.last();
        lemma_leaves_stay(a, b, f.0, f.1, f.2, (depth - (stack.len() - 1)) as nat);
        lemma_frames_stay(a, b, stack.drop_last(), depth);
    }
}

/// The page leaves that a walk still has to give stay the same while more
/// is read: what one call of [`Pages::compute_next`] leaves to come is what
/// the next call starts from.
pub proof fn lemma_pages_left_stay(
    a: crate::objects::ObjectsModel,
    b: crate::objects::ObjectsModel,
    s: PagesModel,
    depth: nat,
)
    requires
        extends(a, b),
        pages_left(a, s, depth) is Some,
    ensures
        pages_left(b, s, depth) == pages_left(a, s, depth),
{
    lemma_leaves_stay(a, b, s.current, s.position, s.attributes, (depth - s.stack.len()) as nat);
    lemma_frames_stay(a, b, s.stack, depth);
}

/// The walk gives the pages in depth-first order: when the page leaves that
/// a walk still has to give are `l`, the page that the next call of
/// [`Pages::compute_next`] returns is read from the first of them, with the
/// attributes it inherits, and the rest are still to come; when it returns
/// `None`, none were left. The walk and its outcome are those that
/// `compute_next` ensures, over the objects `m` after the call.
pub proof fn lemma_next_page_in_order(
    m0: crate::objects::ObjectsModel,
    m: crate::objects::ObjectsModel,
    trace: Seq<PagesModel>,
    s: PagesModel,
    r: Result<Option<Page>, PagesError>,
    depth: nat,
)
    requires
        walk_trace(trace, m),
        trace.len() >= 1,
        last_step(m0, trace.last(), s, r, m),
        pages_left(m, trace[0], depth) is Some,
    ensures
        match r {
            Ok(None) => pages_left(m, trace[0], depth) == Some(
                Seq::<(Seq<(Seq<char>, ObjectModel)>, AttributesModel)>::empty(),
            ),
            Ok(Some(p)) => {
                let l = pages_left(m, trace[0], depth)->Some_0;
                &&& l.len() > 0
                &&& page_read(m, l[0].0, l[0].1, p)
                &&& pages_left(m, s, depth) == Some(l.skip(1))
            },
            Err(_) => true,
        },
{
    lemma_trace_in_order(trace, m, depth);
    match r {
        Ok(None) => {
            lemma_step_in_order(m0, trace.last(), s, Ok(Step::Finished), m, depth);
        },
        Ok(Some(p)) => {
            lemma_step_in_order(m0, trace.last(), s, Ok(Step::Leaf(p)), m, depth);
        },
        Err(_) => {},
    }
}

impl Pages {
    /// A walk over the kids of the page tree root `pages`, with the
    /// attributes that it passes on.
    pub fn new(pages: &PagesTreeNode) -> (r: Pages)
        ensures
            r@.leaf_count == pages.leaf_count,
            r@.stack.len() == 0,
            r@.current == pages.kids@,
            r@.position == 0,
            r@.attributes == pages.inheritable_attributes@,
    {
        let r = Pages {
            leaf_count: pages.leaf_count,
            stack: Vec::new(),
            current: pages.kids.clone(),
            position: 0,
            current_inheritable: pages.inheritable_attributes.copy(),
        };
        assert(r@.stack =~= Seq::<(Seq<IndirectReference>, int, AttributesModel)>::empty());
        r
    }

    /// Bounds on the pages left: none may be left, and at most the leaf
    /// count that the root gives.
    pub fn size_hint(&self) -> (r: (usize, Option<usize>))
        ensures
            r == (0usize, Some(self@.leaf_count)),
    {
        (0, Some(self.leaf_count))
    }

    /// Visits a kid with dictionary `dictionary`: a `Page` is read with the
    /// current attributes, a `Pages` node is entered.
    fn visit(&mut self, kid: IndirectReference, dictionary: &crate::types::dictionary::Dictionary, objects: &mut Objects) -> (r: Result<Step, PagesError>)
        ensures
            extends(old(objects)@, final(objects)@),
            dict_step(old(objects)@, old(self)@, kid, dictionary@, final(self)@, r, final(objects)@),
    {
        let node_type = match dictionary.get("Type") {
            None => {
                return Err(PagesError::FieldNotFound);
            },
            Some(x) => match x.as_name() {
                Ok(n) => n,
                Err(_) => {
                    return Err(PagesError::FieldNotFound);
                },
            },
        };
        if same_text(node_type, "Page") {
            let ghost m0 = objects@;
            match Page::from_dictionary(dictionary, &self.current_inheritable, objects) {
                Ok(p) => Ok(Step::Leaf(p)),
                Err(e) => {
                    proof {
                        reveal(page_may_fail);
                        assert(page_may_fail(m0, dictionary@, self@.attributes));
                    }
                    Err(PagesError::InvalidPage(e))
                },
            }
        } else if same_text(node_type, "Pages") {
            let new_node = match PagesTreeNode::from_dictionary(
                dictionary,
                Some(self.current_inheritable.copy()),
            ) {
                Ok(n) => n,
                Err(e) => {
                    return Err(PagesError::InvalidPageNode(e));
                },
            };
            let ghost o = self@;
            let mut old_kids = new_node.kids;
            std::mem::swap(&mut self.current, &mut old_kids);
            let old_position = self.position;
            let mut old_inheritable = new_node.inheritable_attributes;
            std::mem::swap(&mut self.current_inheritable, &mut old_inheritable);
            self.position = 0;
            self.stack.push((old_kids, old_position, old_inheritable));
            assert(self@.stack =~= o.stack.push((o.current, o.position, o.attributes)));
            Ok(Step::Descended)
        } else {
            Err(PagesError::UnexpectedNodeType { got: node_type.to_string() })
        }
    }

    /// Takes the next kid of the current node and visits it.
    fn advance_kid(&mut self, objects: &mut Objects) -> (r: Result<Step, PagesError>)
        requires
            old(self)@.position < old(self)@.current.len(),
        ensures
            extends(old(objects)@, final(objects)@),
            ({
                let kid = old(self)@.current[old(self)@.position];
                match r {
                    Err(PagesError::ObjectNotFound { reference, source }) => reference == kid && final(self)@
                        == taken(old(self)@) && obtainable(old(objects)@, (kid.id, kid.gen_id)) is None
                        && lookup_failure(old(objects)@, final(objects)@, kid, source),
                    _ => resolved(final(objects)@, (kid.id, kid.gen_id)) matches Some(t) && kid_step(
                        old(objects)@,
                        old(self)@,
                        t,
                        final(self)@,
                        r,
                        final(objects)@,
                    ),
                }
            }),
    {
        let n = self.current.len();
        assert(self.position < n);
        let kid_ref = self.current[self.position];
        self.position = self.position + 1;
        let kid_obj = match objects.get_object(&kid_ref) {
            Ok(o) => o,
            Err(e) => {
                assert(obtainable(old(objects)@, (kid_ref.id, kid_ref.gen_id)) is None);
                return Err(PagesError::ObjectNotFound { reference: kid_ref, source: e });
            },
        };
        let dictionary = match kid_obj.as_dictionary() {
            Ok(d) => d,
            Err(e) => {
                return Err(PagesError::InvalidKidType { indirect_reference: kid_ref, source: e });
            },
        };
        let ghost before = objects@;
        let ghost s1 = self@;
        let r = self.visit(kid_ref, dictionary, objects);
        proof {
            lemma_extends_trans(old(objects)@, before, objects@);
            crate::objects::lemma_resolved_stays(before, objects@, (kid_ref.id, kid_ref.gen_id));
            lemma_dict_step_earlier(old(objects)@, before, s1, kid_ref, dictionary@, self@, r, objects@);
        }
        r
    }

    /// One step of the walk: the next kid of the current node is looked up
    /// and entered or read; when the node has no kid left, the walk goes
    /// back to the node above; when there is none, it is over.
    pub fn advance(&mut self, objects: &mut Objects) -> (r: Result<Step, PagesError>)
        ensures
            extends(old(objects)@, final(objects)@),
            step_rel(old(objects)@, old(self)@, final(self)@, r, final(objects)@),
            old(self)@.position >= old(self)@.current.len() ==> final(objects)@ == old(objects)@,
    {
        if self.position < self.current.len() {
            self.advance_kid(objects)
        } else {
            let ghost o = self@;
            match self.stack.pop() {
                Some((kids, position, inheritable)) => {
                    self.current = kids;
                    self.position = position;
                    self.current_inheritable = inheritable;
                    assert(self@.stack =~= o.stack.drop_last());
                    Ok(Step::Ascended)
                },
                None => Ok(Step::Finished),
            }
        }
    }

    /// The next page of the walk, or `None` when the walk is over. Kids are
    /// looked up and `Pages` nodes entered until a `Page` is read.
    pub fn compute_next(&mut self, objects: &mut Objects) -> (r: Result<Option<Page>, PagesError>)
        ensures
            extends(old(objects)@, final(objects)@),
            r matches Ok(None) ==> finished(final(self)@),
            finished(old(self)@) ==> (r matches Ok(None) && final(self)@ == old(self)@ && final(objects)@
                == old(objects)@),
            r matches Ok(Some(p)) ==> exists|d: Seq<(Seq<char>, ObjectModel)>, a: AttributesModel|
                #[trigger] page_read(final(objects)@, d, a, p),
            exists|trace: Seq<PagesModel>|
                #[trigger] walk_trace(trace, final(objects)@) && trace.len() >= 1 && trace[0] == old(self)@
                    && last_step(old(objects)@, trace.last(), final(self)@, r, final(objects)@)
                    && (r matches Err(PagesError::TooManySteps) ==> trace.len() == usize::MAX as int + 1),
    {
        let mut fuel: usize = usize::MAX;
        let ghost mut trace: Seq<PagesModel> = seq![self@];
        loop
            invariant
                extends(old(objects)@, objects@),
                walk_trace(trace, objects@),
                trace.len() >= 1,
                trace[0] == old(self)@,
                trace.last() == self@,
                trace.len() + fuel == usize::MAX as int + 1,
                finished(old(self)@) ==> trace.len() == 1 && self@ == old(self)@ && objects@ == old(objects)@,
            decreases fuel,
        {
            if fuel == 0 {
                assert(last_step(old(objects)@, trace.last(), self@, Err::<Option<Page>, PagesError>(PagesError::TooManySteps), objects@));
                return Err(PagesError::TooManySteps);
            }
            fuel = fuel - 1;
            let ghost before = objects@;
            let ghost s0 = self@;
            let step = self.advance(objects);
            proof {
                lemma_extends_trans(old(objects)@, before, objects@);
                lemma_walk_stays(trace, before, objects@);
                lemma_step_earlier(old(objects)@, before, s0, self@, step, objects@);
                if step matches Ok(Step::Ascended) || step matches Ok(Step::Descended) {
                    lemma_inner_any(before, objects@, s0, self@, step, objects@);
                }
            }
            match step {
                Ok(Step::Finished) => {
                    return Ok(None);
                },
                Ok(Step::Leaf(p)) => {
                    proof {
                        let r = Ok::<Step, PagesError>(Step::Leaf(p));
                        if s0.position < s0.current.len() {
                            let kid = s0.current[s0.position];
                            let t = resolved(objects@, (kid.id, kid.gen_id))->Some_0;
                            let d = spec_as_dictionary(t)->Ok_0;
                            assert(page_read(objects@, d, taken(s0).attributes, p));
                        }
                    }
                    return Ok(Some(p));
                },
                Ok(Step::Ascended) => {
                    proof {
                        let t2 = trace.push(self@);
                        assert(t2.drop_last() =~= trace);
                        trace = t2;
                    }
                },
                Ok(Step::Descended) => {
                    proof {
                        let t2 = trace.push(self@);
                        assert(t2.drop_last() =~= trace);
                        trace = t2;
                    }
                },
                Err(e) => {
                    return Err(e);
                },
            }
        }
    }
}

} // verus!
