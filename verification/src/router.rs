//! The routing tree: registration, matching, and the laws they obey.

use vstd::prelude::*;

use crate::method::{Method, MethodTable};
use crate::paths::{join_from, join_tail, pair_views, seq_views, spec_segments, split_path};

verus! {

/// One segment of a registration pattern: an exact segment, a one-segment
/// wildcard (`:name`, or `:` without a capture), or a catch-all for the whole
/// remaining path (`*name`, or `*` without a capture).
pub enum SegmentPattern {
    Concrete(String),
    Wildcard(Option<String>),
    CatchAll(Option<String>),
}

/// The mathematical form of one pattern segment.
pub enum PatKey {
    Concrete(Seq<char>),
    Wildcard(Option<Seq<char>>),
    CatchAll(Option<Seq<char>>),
}

pub open spec fn opt_view(n: Option<String>) -> Option<Seq<char>> {
    match n {
        Some(s) => Some(s@),
        None => None,
    }
}

impl SegmentPattern {
    /// The mathematical form of this pattern segment.
    pub open spec fn key(self) -> PatKey {
        match self {
            SegmentPattern::Concrete(s) => PatKey::Concrete(s@),
            SegmentPattern::Wildcard(n) => PatKey::Wildcard(opt_view(n)),
            SegmentPattern::CatchAll(n) => PatKey::CatchAll(opt_view(n)),
        }
    }
}

impl Clone for SegmentPattern {
    fn clone(&self) -> (r: Self)
        ensures
            r == *self,
    {
        match self {
            SegmentPattern::Concrete(s) => SegmentPattern::Concrete(s.clone()),
            SegmentPattern::Wildcard(n) => SegmentPattern::Wildcard(clone_name(n)),
            SegmentPattern::CatchAll(n) => SegmentPattern::CatchAll(clone_name(n)),
        }
    }
}

fn clone_name(n: &Option<String>) -> (r: Option<String>)
    ensures
        r == *n,
{
    match n {
        Some(s) => Some(s.clone()),
        None => None,
    }
}

pub open spec fn pat_views(ps: Seq<SegmentPattern>) -> Seq<PatKey> {
    ps.map_values(|p: SegmentPattern| p.key())
}

/// A registration that the routing tree cannot accept: a handler already
/// stands at the same path and method, or a wildcard or catch-all at this
/// position was registered before under another capture name.
#[derive(Clone, Copy, PartialEq, Eq, Structural, Debug)]
pub enum RouteError {
    Occupied,
    NameClash,
}

/// One node of the routing tree: its children, each behind a pattern
/// segment, and the handlers registered at this node, one slot per method.
pub struct Node<E> {
    pub children: Vec<(SegmentPattern, Node<E>)>,
    pub table: MethodTable<E>,
}

/// The mathematical form of a routing-tree node.
pub struct NodeView<E> {
    pub children: Seq<(PatKey, NodeView<E>)>,
    pub table: MethodTable<E>,
}

pub open spec fn node_view<E>(n: Node<E>) -> NodeView<E>
    decreases n,
    via node_view_dec::<E>
{
    NodeView { children: children_view(n.children@), table: n.table }
}

pub open spec fn children_view<E>(cs: Seq<(SegmentPattern, Node<E>)>) -> Seq<(PatKey, NodeView<E>)>
    decreases cs,
{
    if cs.len() == 0 {
        Seq::empty()
    } else {
        seq![(cs[0].0.key(), node_view(cs[0].1))] + children_view(cs.skip(1))
    }
}

#[via_fn]
proof fn node_view_dec<E>(n: Node<E>) {
    assert(decreases_to!(n => n.children));
    assert(decreases_to!(n.children => n.children@));
}

pub proof fn lemma_children_view<E>(cs: Seq<(SegmentPattern, Node<E>)>)
    ensures
        children_view(cs).len() == cs.len(),
        forall|k: int|
            0 <= k < cs.len() ==> children_view(cs)[k] == (cs[k].0.key(), node_view(cs[k].1)),
    decreases cs.len(),
{
    if cs.len() > 0 {
        lemma_children_view(cs.skip(1));
    }
}

impl<E> View for Node<E> {
    type V = NodeView<E>;

    open spec fn view(&self) -> NodeView<E> {
        node_view(*self)
    }
}

/// The routing tree, grown during registration and immutable while serving.
pub struct Router<E> {
    pub root: Node<E>,
}

impl<E> View for Router<E> {
    type V = NodeView<E>;

    open spec fn view(&self) -> NodeView<E> {
        node_view(self.root)
    }
}

/// The index of the first child held by `p`, or -1 when none is.
pub open spec fn idx_first<E>(cs: Seq<(PatKey, NodeView<E>)>, p: spec_fn(PatKey) -> bool) -> int
    decreases cs.len(),
{
    if cs.len() == 0 {
        -1
    } else if p(cs[0].0) {
        0
    } else {
        let r = idx_first(cs.skip(1), p);
        if r < 0 {
            -1int
        } else {
            r + 1
        }
    }
}

pub proof fn lemma_idx_first<E>(cs: Seq<(PatKey, NodeView<E>)>, p: spec_fn(PatKey) -> bool)
    ensures
        idx_first(cs, p) >= 0 ==> 0 <= idx_first(cs, p) < cs.len() && p(cs[idx_first(cs, p)].0),
        idx_first(cs, p) >= 0 ==> forall|k: int| 0 <= k < idx_first(cs, p) ==> !p(cs[k].0),
        idx_first(cs, p) < 0 ==> forall|k: int| 0 <= k < cs.len() ==> !p(cs[k].0),
    decreases cs.len(),
{
    if cs.len() > 0 && !p(cs[0].0) {
        lemma_idx_first(cs.skip(1), p);
        assert(forall|k: int| 1 <= k < cs.len() ==> cs[k] == cs.skip(1)[k - 1]);
    }
}

/// The index of the concrete child named `name`, or -1.
pub open spec fn idx_concrete<E>(cs: Seq<(PatKey, NodeView<E>)>, name: Seq<char>) -> int {
    idx_first(cs, |k: PatKey| k == PatKey::Concrete(name))
}

/// The index of the wildcard child, or -1.
pub open spec fn idx_wildcard<E>(cs: Seq<(PatKey, NodeView<E>)>) -> int {
    idx_first(cs, |k: PatKey| k is Wildcard)
}

/// The index of the catch-all child, or -1.
pub open spec fn idx_catch_all<E>(cs: Seq<(PatKey, NodeView<E>)>) -> int {
    idx_first(cs, |k: PatKey| k is CatchAll)
}

/// What routing produces: the registered handler with the captured
/// parameters, or the report that no node matched the path, or that a node
/// matched but carries no handler for the method.
pub enum RouteOutcome<E> {
    Found { endpoint: E, params: Seq<(Seq<char>, Seq<char>)> },
    MethodNotAllowed,
    NotFound,
}

/// The matching walk. At each node, with segments left, the precedence is
/// strict: a concrete child named like the segment, else the wildcard child
/// (consuming one segment and capturing it under its name), else the
/// catch-all child, which ends the walk and captures the whole remaining
/// path. With the segments exhausted, the node's own handler serves; failing
/// that, a catch-all child still matches the empty remainder.
pub open spec fn spec_route<E>(n: NodeView<E>, segs: Seq<Seq<char>>, i: int, m: Method) -> RouteOutcome<
    E,
>
    decreases segs.len() - i,
{
    if i < 0 || i >= segs.len() {
        match n.table.entry(m) {
            Some(e) => RouteOutcome::Found { endpoint: e, params: Seq::empty() },
            None => {
                let ci = idx_catch_all(n.children);
                if ci >= 0 {
                    catch_all_outcome(n.children[ci].0, n.children[ci].1, segs, i, m)
                } else {
                    RouteOutcome::MethodNotAllowed
                }
            },
        }
    } else {
        let c = idx_concrete(n.children, segs[i]);
        if c >= 0 {
            spec_route(n.children[c].1, segs, i + 1, m)
        } else {
            let w = idx_wildcard(n.children);
            if w >= 0 {
                let name = n.children[w].0->Wildcard_0;
                match spec_route(n.children[w].1, segs, i + 1, m) {
                    RouteOutcome::Found { endpoint, params } => RouteOutcome::Found {
                        endpoint,
                        params: match name {
                            Some(nm) => seq![(nm, segs[i])] + params,
                            None => params,
                        },
                    },
                    r => r,
                }
            } else {
                let ci = idx_catch_all(n.children);
                if ci >= 0 {
                    catch_all_outcome(n.children[ci].0, n.children[ci].1, segs, i, m)
                } else {
                    RouteOutcome::NotFound
                }
            }
        }
    }
}

/// What a catch-all child yields: its node's handler for `m`, with the
/// joined remaining path captured under its name, if it has one.
pub open spec fn catch_all_outcome<E>(
    key: PatKey,
    c: NodeView<E>,
    segs: Seq<Seq<char>>,
    i: int,
    m: Method,
) -> RouteOutcome<E> {
    match c.table.entry(m) {
        Some(e) => RouteOutcome::Found {
            endpoint: e,
            params: match key->CatchAll_0 {
                Some(nm) => seq![(nm, join_from(segs, i))],
                None => Seq::empty(),
            },
        },
        None => RouteOutcome::MethodNotAllowed,
    }
}

/// A node with no children and no handlers.
pub open spec fn empty_node_view<E>() -> NodeView<E> {
    NodeView { children: Seq::empty(), table: crate::method::table_empty::<E>() }
}

pub proof fn lemma_idx_concrete<E>(cs: Seq<(PatKey, NodeView<E>)>, name: Seq<char>)
    ensures
        idx_concrete(cs, name) >= 0 ==> 0 <= idx_concrete(cs, name) < cs.len()
            && cs[idx_concrete(cs, name)].0 == PatKey::Concrete(name),
        idx_concrete(cs, name) >= 0 ==> forall|k: int|
            0 <= k < idx_concrete(cs, name) ==> cs[k].0 != PatKey::Concrete(name),
        idx_concrete(cs, name) < 0 ==> forall|k: int|
            0 <= k < cs.len() ==> cs[k].0 != PatKey::Concrete(name),
{
    lemma_idx_first(cs, |k: PatKey| k == PatKey::Concrete(name));
}

pub proof fn lemma_idx_wildcard<E>(cs: Seq<(PatKey, NodeView<E>)>)
    ensures
        idx_wildcard(cs) >= 0 ==> 0 <= idx_wildcard(cs) < cs.len()
            && cs[idx_wildcard(cs)].0 is Wildcard,
        idx_wildcard(cs) >= 0 ==> forall|k: int|
            0 <= k < idx_wildcard(cs) ==> !(cs[k].0 is Wildcard),
        idx_wildcard(cs) < 0 ==> forall|k: int| 0 <= k < cs.len() ==> !(cs[k].0 is Wildcard),
{
    lemma_idx_first(cs, |k: PatKey| k is Wildcard);
}

pub proof fn lemma_idx_catch_all<E>(cs: Seq<(PatKey, NodeView<E>)>)
    ensures
        idx_catch_all(cs) >= 0 ==> 0 <= idx_catch_all(cs) < cs.len()
            && cs[idx_catch_all(cs)].0 is CatchAll,
        idx_catch_all(cs) >= 0 ==> forall|k: int|
            0 <= k < idx_catch_all(cs) ==> !(cs[k].0 is CatchAll),
        idx_catch_all(cs) < 0 ==> forall|k: int| 0 <= k < cs.len() ==> !(cs[k].0 is CatchAll),
{
    lemma_idx_first(cs, |k: PatKey| k is CatchAll);
}

/// The registration walk. It descends along the pattern, reusing a child
/// whose key agrees and creating empty nodes where none stands, and puts the
/// handler in the method slot of the final node. It refuses a slot already
/// taken, and a wildcard or catch-all whose capture name differs from the
/// one registered at this position before.
pub open spec fn view_insert<E>(
    n: NodeView<E>,
    pats: Seq<PatKey>,
    j: int,
    m: Method,
    e: E,
) -> Result<NodeView<E>, RouteError>
    decreases pats.len() - j,
{
    if j < 0 || j >= pats.len() {
        if n.table.entry(m) is Some {
            Err(RouteError::Occupied)
        } else {
            Ok(NodeView { table: n.table.with_entry(m, e), ..n })
        }
    } else {
        match pats[j] {
            PatKey::Concrete(name) => {
                let c = idx_concrete(n.children, name);
                if c >= 0 {
                    match view_insert(n.children[c].1, pats, j + 1, m, e) {
                        Ok(c2) => Ok(
                            NodeView {
                                children: n.children.update(c, (PatKey::Concrete(name), c2)),
                                ..n
                            },
                        ),
                        Err(er) => Err(er),
                    }
                } else {
                    match view_insert(empty_node_view(), pats, j + 1, m, e) {
                        Ok(c2) => Ok(
                            NodeView {
                                children: n.children.push((PatKey::Concrete(name), c2)),
                                ..n
                            },
                        ),
                        Err(er) => Err(er),
                    }
                }
            },
            PatKey::Wildcard(name) => {
                let w = idx_wildcard(n.children);
                if w >= 0 {
                    if n.children[w].0 == PatKey::Wildcard(name) {
                        match view_insert(n.children[w].1, pats, j + 1, m, e) {
                            Ok(c2) => Ok(
                                NodeView {
                                    children: n.children.update(w, (PatKey::Wildcard(name), c2)),
                                    ..n
                                },
                            ),
                            Err(er) => Err(er),
                        }
                    } else {
                        Err(RouteError::NameClash)
                    }
                } else {
                    match view_insert(empty_node_view(), pats, j + 1, m, e) {
                        Ok(c2) => Ok(
                            NodeView {
                                children: n.children.push((PatKey::Wildcard(name), c2)),
                                ..n
                            },
                        ),
                        Err(er) => Err(er),
                    }
                }
            },
            PatKey::CatchAll(name) => {
                let w = idx_catch_all(n.children);
                if w >= 0 {
                    if n.children[w].0 == PatKey::CatchAll(name) {
                        match view_insert(n.children[w].1, pats, j + 1, m, e) {
                            Ok(c2) => Ok(
                                NodeView {
                                    children: n.children.update(w, (PatKey::CatchAll(name), c2)),
                                    ..n
                                },
                            ),
                            Err(er) => Err(er),
                        }
                    } else {
                        Err(RouteError::NameClash)
                    }
                } else {
                    match view_insert(empty_node_view(), pats, j + 1, m, e) {
                        Ok(c2) => Ok(
                            NodeView {
                                children: n.children.push((PatKey::CatchAll(name), c2)),
                                ..n
                            },
                        ),
                        Err(er) => Err(er),
                    }
                }
            },
        }
    }
}


/// What routing hands back to the dispatcher: a reference to the registered
/// handler with the captured parameters, or one of the two failures, kept
/// distinct so that the boundary can answer 404 and 405 apart.
pub enum RouteMatch<'a, E> {
    Found { endpoint: &'a E, params: Vec<(String, String)> },
    MethodNotAllowed,
    NotFound,
}

impl<'a, E> RouteMatch<'a, E> {
    /// The mathematical form of this match.
    pub open spec fn outcome(self) -> RouteOutcome<E> {
        match self {
            RouteMatch::Found { endpoint, params } => RouteOutcome::Found {
                endpoint: *endpoint,
                params: pair_views(params@),
            },
            RouteMatch::MethodNotAllowed => RouteOutcome::MethodNotAllowed,
            RouteMatch::NotFound => RouteOutcome::NotFound,
        }
    }
}

fn find_concrete_child<'a, E>(children: &'a Vec<(SegmentPattern, Node<E>)>, seg: &String) -> (r:
    Option<&'a Node<E>>)
    ensures
        ({
            let cs = children_view(children@);
            match r {
                Some(c) => idx_concrete(cs, seg@) >= 0 && node_view(*c) == cs[idx_concrete(
                    cs,
                    seg@,
                )].1,
                None => idx_concrete(cs, seg@) < 0,
            }
        }),
{
    proof {
        lemma_children_view(children@);
        lemma_idx_concrete(children_view(children@), seg@);
    }
    let ghost cs = children_view(children@);
    let n = children.len();
    let mut k: usize = 0;
    while k < n
        invariant
            n == children@.len(),
            k <= n,
            cs == children_view(children@),
            cs.len() == n,
            forall|t: int| 0 <= t < n ==> cs[t] == (children@[t].0.key(), node_view(children@[t].1)),
            forall|t: int| 0 <= t < k ==> cs[t].0 != PatKey::Concrete(seg@),
        decreases n - k,
    {
        match &children[k].0 {
            SegmentPattern::Concrete(s) => {
                if *s == *seg {
                    proof {
                        lemma_idx_concrete(cs, seg@);
                        assert(cs[k as int].0 == PatKey::Concrete(seg@));
                        assert(idx_concrete(cs, seg@) == k);
                    }
                    return Some(&children[k].1);
                }
            },
            _ => {},
        }
        k = k + 1;
    }
    proof {
        lemma_idx_concrete(cs, seg@);
    }
    None
}

fn find_wildcard_child<'a, E>(children: &'a Vec<(SegmentPattern, Node<E>)>) -> (r: Option<
    (&'a Option<String>, &'a Node<E>),
>)
    ensures
        ({
            let cs = children_view(children@);
            match r {
                Some((name, c)) => idx_wildcard(cs) >= 0 && cs[idx_wildcard(cs)].0
                    == PatKey::Wildcard(opt_view(*name)) && node_view(*c) == cs[idx_wildcard(cs)].1,
                None => idx_wildcard(cs) < 0,
            }
        }),
{
    proof {
        lemma_children_view(children@);
        lemma_idx_wildcard(children_view(children@));
    }
    let ghost cs = children_view(children@);
    let n = children.len();
    let mut k: usize = 0;
    while k < n
        invariant
            n == children@.len(),
            k <= n,
            cs == children_view(children@),
            cs.len() == n,
            forall|t: int| 0 <= t < n ==> cs[t] == (children@[t].0.key(), node_view(children@[t].1)),
            forall|t: int| 0 <= t < k ==> !(cs[t].0 is Wildcard),
        decreases n - k,
    {
        match &children[k].0 {
            SegmentPattern::Wildcard(name) => {
                proof {
                    assert(cs[k as int].0 == children@[k as int].0.key());
                    assert(cs[k as int].0 is Wildcard);
                    lemma_idx_wildcard(cs);
                    assert(idx_wildcard(cs) == k);
                }
                return Some((name, &children[k].1));
            },
            _ => {},
        }
        k = k + 1;
    }
    proof {
        lemma_idx_wildcard(cs);
    }
    None
}

fn find_catch_all_child<'a, E>(children: &'a Vec<(SegmentPattern, Node<E>)>) -> (r: Option<
    (&'a Option<String>, &'a Node<E>),
>)
    ensures
        ({
            let cs = children_view(children@);
            match r {
                Some((name, c)) => idx_catch_all(cs) >= 0 && cs[idx_catch_all(cs)].0
                    == PatKey::CatchAll(opt_view(*name)) && node_view(*c) == cs[idx_catch_all(
                    cs,
                )].1,
                None => idx_catch_all(cs) < 0,
            }
        }),
{
    proof {
        lemma_children_view(children@);
        lemma_idx_catch_all(children_view(children@));
    }
    let ghost cs = children_view(children@);
    let n = children.len();
    let mut k: usize = 0;
    while k < n
        invariant
            n == children@.len(),
            k <= n,
            cs == children_view(children@),
            cs.len() == n,
            forall|t: int| 0 <= t < n ==> cs[t] == (children@[t].0.key(), node_view(children@[t].1)),
            forall|t: int| 0 <= t < k ==> !(cs[t].0 is CatchAll),
        decreases n - k,
    {
        match &children[k].0 {
            SegmentPattern::CatchAll(name) => {
                proof {
                    assert(cs[k as int].0 == children@[k as int].0.key());
                    assert(cs[k as int].0 is CatchAll);
                    lemma_idx_catch_all(cs);
                    assert(idx_catch_all(cs) == k);
                }
                return Some((name, &children[k].1));
            },
            _ => {},
        }
        k = k + 1;
    }
    proof {
        lemma_idx_catch_all(cs);
    }
    None
}

fn catch_all_found<'a, E>(
    name: &Option<String>,
    c: &'a Node<E>,
    segs: &Vec<String>,
    i: usize,
    m: Method,
) -> (r: RouteMatch<'a, E>)
    requires
        i <= segs@.len(),
    ensures
        r.outcome() == catch_all_outcome(
            PatKey::CatchAll(opt_view(*name)),
            node_view(*c),
            seq_views(segs@),
            i as int,
            m,
        ),
{
    match c.table.find(m) {
        Some(e) => {
            let mut params: Vec<(String, String)> = Vec::new();
            match name {
                Some(nm) => {
                    let tail = join_tail(segs, i);
                    params.push((nm.clone(), tail));
                    proof {
                        assert(pair_views(params@) =~= seq![
                            (nm@, join_from(seq_views(segs@), i as int)),
                        ]);
                    }
                },
                None => {
                    proof {
                        assert(pair_views(params@) =~= Seq::<(Seq<char>, Seq<char>)>::empty());
                    }
                },
            }
            RouteMatch::Found { endpoint: e, params }
        },
        None => RouteMatch::MethodNotAllowed,
    }
}

fn route_node<'a, E>(n: &'a Node<E>, segs: &Vec<String>, i: usize, m: Method) -> (r: RouteMatch<
    'a,
    E,
>)
    requires
        i <= segs@.len(),
    ensures
        r.outcome() == spec_route(n@, seq_views(segs@), i as int, m),
    decreases segs@.len() - i,
{
    proof {
        lemma_children_view(n.children@);
    }
    if i >= segs.len() {
        match n.table.find(m) {
            Some(e) => {
                let params: Vec<(String, String)> = Vec::new();
                proof {
                    assert(pair_views(params@) =~= Seq::<(Seq<char>, Seq<char>)>::empty());
                }
                RouteMatch::Found { endpoint: e, params }
            },
            None => {
                match find_catch_all_child(&n.children) {
                    Some((name, c)) => catch_all_found(name, c, segs, i, m),
                    None => RouteMatch::MethodNotAllowed,
                }
            },
        }
    } else {
        let seg = &segs[i];
        match find_concrete_child(&n.children, seg) {
            Some(c) => route_node(c, segs, i + 1, m),
            None => {
                match find_wildcard_child(&n.children) {
                    Some((name, c)) => {
                        let rest = route_node(c, segs, i + 1, m);
                        match rest {
                            RouteMatch::Found { endpoint, params } => {
                                let mut params = params;
                                match name {
                                    Some(nm) => {
                                        let ghost before = params@;
                                        params.insert(0, (nm.clone(), seg.clone()));
                                        proof {
                                            assert(pair_views(params@) =~= seq![(nm@, seg@)]
                                                + pair_views(before));
                                        }
                                    },
                                    None => {},
                                }
                                RouteMatch::Found { endpoint, params }
                            },
                            other => other,
                        }
                    },
                    None => {
                        match find_catch_all_child(&n.children) {
                            Some((name, c)) => catch_all_found(name, c, segs, i, m),
                            None => RouteMatch::NotFound,
                        }
                    },
                }
            },
        }
    }
}

impl<E> Router<E> {
    /// A routing tree with no routes.
    pub fn new() -> (r: Router<E>)
        ensures
            r@ == empty_node_view::<E>(),
    {
        let r = Router { root: Node { children: Vec::new(), table: MethodTable::empty() } };
        proof {
            assert(r@.children =~= empty_node_view::<E>().children);
        }
        r
    }

    /// Matches `path` under `m` against the tree, per `spec_route`.
    pub fn route(&self, path: &str, m: Method) -> (r: RouteMatch<'_, E>)
        ensures
            r.outcome() == spec_route(self@, spec_segments(path@), 0, m),
    {
        let segs = split_path(path);
        route_node(&self.root, &segs, 0, m)
    }
}


fn eq_names(a: &Option<String>, b: &Option<String>) -> (r: bool)
    ensures
        r == (opt_view(*a) == opt_view(*b)),
{
    match (a, b) {
        (None, None) => true,
        (Some(x), Some(y)) => *x == *y,
        _ => false,
    }
}

/// Whether a child key can serve a registration under `key`: a concrete key
/// must agree on the name; one wildcard or catch-all child stands per node,
/// whatever its capture name.
pub open spec fn key_matches(child: PatKey, key: PatKey) -> bool {
    match key {
        PatKey::Concrete(nm) => child == PatKey::Concrete(nm),
        PatKey::Wildcard(_) => child is Wildcard,
        PatKey::CatchAll(_) => child is CatchAll,
    }
}

/// The index of the child that a registration under `key` descends into.
pub open spec fn idx_for<E>(cs: Seq<(PatKey, NodeView<E>)>, key: PatKey) -> int {
    match key {
        PatKey::Concrete(nm) => idx_concrete(cs, nm),
        PatKey::Wildcard(_) => idx_wildcard(cs),
        PatKey::CatchAll(_) => idx_catch_all(cs),
    }
}

pub proof fn lemma_idx_for<E>(cs: Seq<(PatKey, NodeView<E>)>, key: PatKey)
    ensures
        idx_for(cs, key) >= 0 ==> 0 <= idx_for(cs, key) < cs.len() && key_matches(
            cs[idx_for(cs, key)].0,
            key,
        ),
        idx_for(cs, key) >= 0 ==> forall|k: int|
            0 <= k < idx_for(cs, key) ==> !key_matches(cs[k].0, key),
        idx_for(cs, key) < 0 ==> forall|k: int| 0 <= k < cs.len() ==> !key_matches(cs[k].0, key),
{
    match key {
        PatKey::Concrete(nm) => lemma_idx_concrete(cs, nm),
        PatKey::Wildcard(_) => lemma_idx_wildcard(cs),
        PatKey::CatchAll(_) => lemma_idx_catch_all(cs),
    }
}

fn find_child_index<E>(children: &Vec<(SegmentPattern, Node<E>)>, pat: &SegmentPattern) -> (r:
    Option<usize>)
    ensures
        ({
            let cs = children_view(children@);
            match r {
                Some(k) => k == idx_for(cs, pat.key()),
                None => idx_for(cs, pat.key()) < 0,
            }
        }),
{
    proof {
        lemma_children_view(children@);
        lemma_idx_for(children_view(children@), pat.key());
    }
    let ghost cs = children_view(children@);
    let n = children.len();
    let mut k: usize = 0;
    while k < n
        invariant
            n == children@.len(),
            k <= n,
            cs == children_view(children@),
            cs.len() == n,
            forall|t: int| 0 <= t < n ==> cs[t] == (children@[t].0.key(), node_view(children@[t].1)),
            forall|t: int| 0 <= t < k ==> !key_matches(cs[t].0, pat.key()),
        decreases n - k,
    {
        let hit = match (pat, &children[k].0) {
            (SegmentPattern::Concrete(a), SegmentPattern::Concrete(b)) => *a == *b,
            (SegmentPattern::Wildcard(_), SegmentPattern::Wildcard(_)) => true,
            (SegmentPattern::CatchAll(_), SegmentPattern::CatchAll(_)) => true,
            _ => false,
        };
        if hit {
            proof {
                assert(cs[k as int].0 == children@[k as int].0.key());
                assert(key_matches(cs[k as int].0, pat.key()));
                lemma_idx_for(cs, pat.key());
                assert(idx_for(cs, pat.key()) == k);
            }
            return Some(k);
        }
        proof {
            assert(cs[k as int].0 == children@[k as int].0.key());
            assert(!key_matches(cs[k as int].0, pat.key()));
        }
        k = k + 1;
    }
    proof {
        lemma_idx_for(cs, pat.key());
    }
    None
}

fn build_chain<E>(pats: &Vec<SegmentPattern>, j: usize, m: Method, e: E) -> (r: Node<E>)
    requires
        j <= pats@.len(),
    ensures
        Ok::<NodeView<E>, RouteError>(r@) == view_insert(
            empty_node_view::<E>(),
            pat_views(pats@),
            j as int,
            m,
            e,
        ),
    decreases pats@.len() - j,
{
    proof {
        assert(pat_views(pats@).len() == pats@.len());
    }
    if j == pats.len() {
        let mut t = MethodTable::empty();
        let ok = t.try_set(m, e);
        let r = Node { children: Vec::new(), table: t };
        proof {
            assert(r@.children =~= empty_node_view::<E>().children);
        }
        r
    } else {
        proof {
            assert(pat_views(pats@)[j as int] == pats@[j as int].key());
        }
        let child = build_chain(pats, j + 1, m, e);
        let ghost childv = child@;
        let key = pats[j].clone();
        let ghost keyk = key.key();
        let mut children: Vec<(SegmentPattern, Node<E>)> = Vec::new();
        children.push((key, child));
        let r = Node { children, table: MethodTable::empty() };
        proof {
            lemma_children_view(r.children@);
            assert(r@.children =~= empty_node_view::<E>().children.push((keyk, childv)));
        }
        r
    }
}

fn insert_node<E>(n: &mut Node<E>, pats: &Vec<SegmentPattern>, j: usize, m: Method, e: E) -> (r:
    Result<(), RouteError>)
    requires
        j <= pats@.len(),
    ensures
        ({
            let vi = view_insert(old(n)@, pat_views(pats@), j as int, m, e);
            match r {
                Ok(_) => vi == Ok::<NodeView<E>, RouteError>(final(n)@),
                Err(er) => vi == Err::<NodeView<E>, RouteError>(er) && final(n)@ == old(n)@,
            }
        }),
    decreases pats@.len() - j,
{
    proof {
        lemma_children_view(n.children@);
        assert(pat_views(pats@).len() == pats@.len());
    }
    if j == pats.len() {
        if n.table.try_set(m, e) {
            Ok(())
        } else {
            Err(RouteError::Occupied)
        }
    } else {
        proof {
            assert(pat_views(pats@)[j as int] == pats@[j as int].key());
        }
        let ghost keyj = pats@[j as int].key();
        let pat = &pats[j];
        match find_child_index(&n.children, pat) {
            Some(k) => {
                proof {
                    lemma_idx_for(children_view(n.children@), keyj);
                }
                let clash = match (pat, &n.children[k].0) {
                    (SegmentPattern::Wildcard(a), SegmentPattern::Wildcard(b)) => !eq_names(b, a),
                    (SegmentPattern::CatchAll(a), SegmentPattern::CatchAll(b)) => !eq_names(b, a),
                    _ => false,
                };
                proof {
                    assert(children_view(n.children@)[k as int].0 == n.children@[k as int].0.key());
                    assert(!clash ==> children_view(n.children@)[k as int].0 == keyj);
                    assert(clash ==> children_view(n.children@)[k as int].0 != keyj);
                }
                if clash {
                    return Err(RouteError::NameClash);
                }
                let ghost oldcs = n.children@;
                let ghost oldview = node_view(*n);
                let res = insert_node(&mut n.children[k].1, pats, j + 1, m, e);
                proof {
                    lemma_children_view(oldcs);
                    lemma_children_view(n.children@);
                    assert(children_view(n.children@) =~= children_view(oldcs).update(
                        k as int,
                        (keyj, node_view(n.children@[k as int].1)),
                    ));
                }
                match res {
                    Ok(u) => {
                        proof {
                            assert(node_view(*n) == NodeView {
                                children: oldview.children.update(
                                    k as int,
                                    (keyj, node_view(n.children@[k as int].1)),
                                ),
                                ..oldview
                            });
                        }
                        Ok(u)
                    },
                    Err(er) => {
                        proof {
                            assert(children_view(n.children@) =~= children_view(oldcs));
                            assert(node_view(*n) == oldview);
                        }
                        Err(er)
                    },
                }
            },
            None => {
                proof {
                    lemma_idx_for(children_view(n.children@), keyj);
                }
                let child = build_chain(pats, j + 1, m, e);
                let ghost childv = child@;
                let key = pat.clone();
                let ghost oldcs = n.children@;
                let ghost oldview = node_view(*n);
                n.children.push((key, child));
                proof {
                    lemma_children_view(oldcs);
                    lemma_children_view(n.children@);
                    assert(children_view(n.children@) =~= children_view(oldcs).push(
                        (keyj, childv),
                    ));
                    assert(node_view(*n) == NodeView {
                        children: oldview.children.push((keyj, childv)),
                        ..oldview
                    });
                }
                Ok(())
            },
        }
    }
}

impl<E> Router<E> {
    /// Registers `e` for `m` at the node that `pattern` leads to, growing the
    /// tree as `view_insert` says; on a refused registration the tree is left
    /// as it was.
    pub fn register(&mut self, pattern: &Vec<SegmentPattern>, m: Method, e: E) -> (r: Result<
        (),
        RouteError,
    >)
        ensures
            ({
                let vi = view_insert(old(self)@, pat_views(pattern@), 0, m, e);
                match r {
                    Ok(_) => vi == Ok::<NodeView<E>, RouteError>(final(self)@),
                    Err(er) => vi == Err::<NodeView<E>, RouteError>(er) && final(self)@ == old(
                        self,
                    )@,
                }
            }),
    {
        insert_node(&mut self.root, pattern, 0, m, e)
    }
}


/// The pattern segment that one path segment denotes: `:name` a wildcard,
/// `*name` a catch-all, a bare `:` or `*` the same without a capture, and
/// anything else an exact match.
pub open spec fn spec_parse_segment(s: Seq<char>) -> PatKey {
    if s.len() > 0 && s[0] == ':' {
        if s.len() == 1 {
            PatKey::Wildcard(None)
        } else {
            PatKey::Wildcard(Some(s.skip(1)))
        }
    } else if s.len() > 0 && s[0] == '*' {
        if s.len() == 1 {
            PatKey::CatchAll(None)
        } else {
            PatKey::CatchAll(Some(s.skip(1)))
        }
    } else {
        PatKey::Concrete(s)
    }
}

/// The pattern that a whole path denotes, segment by segment.
pub open spec fn spec_parse(segs: Seq<Seq<char>>) -> Seq<PatKey> {
    segs.map_values(|s: Seq<char>| spec_parse_segment(s))
}

/// Parses a path into its pattern segments, as `spec_parse` says.
pub fn parse_pattern(path: &str) -> (r: Vec<SegmentPattern>)
    ensures
        pat_views(r@) == spec_parse(spec_segments(path@)),
{
    let segs = split_path(path);
    let ghost views = seq_views(segs@);
    let mut out: Vec<SegmentPattern> = Vec::new();
    let n = segs.len();
    proof {
        assert(pat_views(out@) =~= spec_parse(views).take(0));
    }
    let mut k: usize = 0;
    while k < n
        invariant
            k <= n,
            n == segs@.len(),
            views == seq_views(segs@),
            views.len() == n,
            forall|t: int| 0 <= t < n ==> views[t] == segs@[t]@,
            pat_views(out@) == spec_parse(views).take(k as int),
        decreases n - k,
    {
        let seg = &segs[k];
        let len = seg.as_str().unicode_len();
        let p: SegmentPattern = if len > 0 {
            let c0 = seg.as_str().get_char(0);
            if c0 == ':' {
                if len == 1 {
                    SegmentPattern::Wildcard(None)
                } else {
                    SegmentPattern::Wildcard(Some(seg.as_str().substring_char(1, len).to_owned()))
                }
            } else if c0 == '*' {
                if len == 1 {
                    SegmentPattern::CatchAll(None)
                } else {
                    SegmentPattern::CatchAll(Some(seg.as_str().substring_char(1, len).to_owned()))
                }
            } else {
                SegmentPattern::Concrete(seg.clone())
            }
        } else {
            SegmentPattern::Concrete(seg.clone())
        };
        proof {
            assert(seg@.skip(1) =~= seg@.subrange(1, seg@.len() as int));
            assert(p.key() == spec_parse_segment(views[k as int]));
            assert(pat_views(out@.push(p)) =~= pat_views(out@).push(p.key()));
            assert(spec_parse(views).take(k as int + 1) =~= spec_parse(views).take(k as int).push(
                spec_parse_segment(views[k as int]),
            ));
        }
        out.push(p);
        k = k + 1;
    }
    proof {
        assert(spec_parse(views).take(n as int) =~= spec_parse(views));
    }
    out
}


/// Whether the pattern from `j` on matches the path segments from `i` on: a
/// concrete key needs its exact segment, a wildcard any one segment, and a
/// catch-all whatever remains, the empty remainder included.
pub open spec fn pattern_matches(pats: Seq<PatKey>, j: int, segs: Seq<Seq<char>>, i: int) -> bool
    decreases pats.len() - j,
{
    if j < 0 || j >= pats.len() {
        i >= segs.len()
    } else {
        match pats[j] {
            PatKey::Concrete(nm) => i < segs.len() && segs[i] == nm && pattern_matches(
                pats,
                j + 1,
                segs,
                i + 1,
            ),
            PatKey::Wildcard(_) => i < segs.len() && pattern_matches(pats, j + 1, segs, i + 1),
            PatKey::CatchAll(_) => true,
        }
    }
}

/// What a matching walk captures: each named wildcard its one segment, a
/// named catch-all the joined remainder of the path.
pub open spec fn pattern_captures(pats: Seq<PatKey>, j: int, segs: Seq<Seq<char>>, i: int) -> Seq<
    (Seq<char>, Seq<char>),
>
    decreases pats.len() - j,
{
    if j < 0 || j >= pats.len() {
        Seq::empty()
    } else {
        match pats[j] {
            PatKey::Concrete(_) => pattern_captures(pats, j + 1, segs, i + 1),
            PatKey::Wildcard(nm) => match nm {
                Some(name) => seq![(name, segs[i])] + pattern_captures(pats, j + 1, segs, i + 1),
                None => pattern_captures(pats, j + 1, segs, i + 1),
            },
            PatKey::CatchAll(nm) => match nm {
                Some(name) => seq![(name, join_from(segs, i))],
                None => Seq::empty(),
            },
        }
    }
}

/// Whether the path runs out strictly inside the pattern, every consumed
/// position matching: the walk then stops at a handler-less intermediate
/// node, which reports the method, not the route.
pub open spec fn pattern_stalls(pats: Seq<PatKey>, j: int, segs: Seq<Seq<char>>, i: int) -> bool
    decreases pats.len() - j,
{
    if j < 0 || j >= pats.len() {
        false
    } else if i >= segs.len() {
        !(pats[j] is CatchAll)
    } else {
        match pats[j] {
            PatKey::Concrete(nm) => segs[i] == nm && pattern_stalls(pats, j + 1, segs, i + 1),
            PatKey::Wildcard(_) => pattern_stalls(pats, j + 1, segs, i + 1),
            PatKey::CatchAll(_) => false,
        }
    }
}

/// A catch-all ends a pattern; anything behind it could never be reached.
pub open spec fn wf_pattern_from(pats: Seq<PatKey>, j: int) -> bool {
    forall|t: int| j <= t < pats.len() - 1 ==> !(pats[t] is CatchAll)
}

/// How a tree holding exactly one registration routes: a matching path under
/// the registered method finds the handler with the pattern's captures, a
/// matching path under another method is refused as a method failure, a path
/// that stalls inside the pattern likewise, and any other path finds no
/// route. Concrete patterns match their own path with no captures, a named
/// wildcard captures its one segment, and a catch-all takes any remainder,
/// the empty one included, capturing the joined tail.
pub proof fn lemma_single_pattern_route<E>(
    pats: Seq<PatKey>,
    j: int,
    m: Method,
    e: E,
    segs: Seq<Seq<char>>,
    i: int,
    m2: Method,
)
    requires
        0 <= j <= pats.len(),
        0 <= i <= segs.len(),
        wf_pattern_from(pats, j),
    ensures
        view_insert(empty_node_view::<E>(), pats, j, m, e) is Ok,
        ({
            let node = view_insert(empty_node_view::<E>(), pats, j, m, e)->Ok_0;
            spec_route(node, segs, i, m2) == (if pattern_matches(pats, j, segs, i) {
                if m2 == m {
                    RouteOutcome::Found { endpoint: e, params: pattern_captures(pats, j, segs, i) }
                } else {
                    RouteOutcome::<E>::MethodNotAllowed
                }
            } else if pattern_stalls(pats, j, segs, i) {
                RouteOutcome::<E>::MethodNotAllowed
            } else {
                RouteOutcome::<E>::NotFound
            })
        }),
    decreases pats.len() - j,
{
    let node = view_insert(empty_node_view::<E>(), pats, j, m, e)->Ok_0;
    if j >= pats.len() {
        assert(node.children.len() == 0);
        if i < segs.len() {
            assert(idx_concrete(node.children, segs[i]) == -1);
            assert(idx_wildcard(node.children) == -1);
            assert(idx_catch_all(node.children) == -1);
        }
    } else {
        lemma_single_pattern_route(pats, j + 1, m, e, segs, if i < segs.len() {
            i + 1
        } else {
            i
        }, m2);
        let c = view_insert(empty_node_view::<E>(), pats, j + 1, m, e)->Ok_0;
        let cs = Seq::<(PatKey, NodeView<E>)>::empty().push((pats[j], c));
        assert(node.children =~= cs);
        assert(cs.len() == 1 && cs[0] == (pats[j], c));
        assert(cs.skip(1).len() == 0);
        assert(idx_first(cs.skip(1), |k: PatKey| k == PatKey::Concrete(segs[i])) == -1);
        assert(idx_first(cs.skip(1), |k: PatKey| k is Wildcard) == -1);
        assert(idx_first(cs.skip(1), |k: PatKey| k is CatchAll) == -1);
        match pats[j] {
            PatKey::Concrete(nm) => {
                assert(node.table == crate::method::table_empty::<E>());
                if i < segs.len() {
                    if segs[i] == nm {
                        assert(idx_concrete(cs, segs[i]) == 0);
                    } else {
                        assert(idx_concrete(cs, segs[i]) == -1);
                        assert(idx_wildcard(cs) == -1);
                        assert(idx_catch_all(cs) == -1);
                    }
                } else {
                    assert(idx_catch_all(cs) == -1);
                }
            },
            PatKey::Wildcard(nm) => {
                if i < segs.len() {
                    assert(idx_concrete(cs, segs[i]) == -1);
                    assert(idx_wildcard(cs) == 0);
                } else {
                    assert(idx_catch_all(cs) == -1);
                }
            },
            PatKey::CatchAll(nm) => {
                assert(j == pats.len() - 1);
                assert(c.table == crate::method::table_empty::<E>().with_entry(m, e));
                if i < segs.len() {
                    assert(idx_concrete(cs, segs[i]) == -1);
                    assert(idx_wildcard(cs) == -1);
                }
                assert(idx_catch_all(cs) == 0);
            },
        }
    }
}


proof fn lemma_all_concrete_matches(pats: Seq<PatKey>, segs: Seq<Seq<char>>, j: int)
    requires
        pats.len() == segs.len(),
        forall|t: int| 0 <= t < pats.len() ==> pats[t] == PatKey::Concrete(segs[t]),
        0 <= j <= pats.len(),
    ensures
        pattern_matches(pats, j, segs, j),
        pattern_captures(pats, j, segs, j) == Seq::<(Seq<char>, Seq<char>)>::empty(),
    decreases pats.len() - j,
{
    if j < pats.len() {
        lemma_all_concrete_matches(pats, segs, j + 1);
    }
}

/// A concrete path registered under a method routes to its handler, under
/// that method, with no captures at all.
pub proof fn lemma_concrete_route<E>(pats: Seq<PatKey>, m: Method, e: E, segs: Seq<Seq<char>>)
    requires
        pats.len() == segs.len(),
        forall|t: int| 0 <= t < pats.len() ==> pats[t] == PatKey::Concrete(segs[t]),
    ensures
        view_insert(empty_node_view::<E>(), pats, 0, m, e) is Ok,
        spec_route(view_insert(empty_node_view::<E>(), pats, 0, m, e)->Ok_0, segs, 0, m)
            == (RouteOutcome::Found {
            endpoint: e,
            params: Seq::<(Seq<char>, Seq<char>)>::empty(),
        }),
{
    lemma_all_concrete_matches(pats, segs, 0);
    lemma_single_pattern_route(pats, 0, m, e, segs, 0, m);
}

proof fn lemma_wildcard_tail_matches(
    pats: Seq<PatKey>,
    segs: Seq<Seq<char>>,
    nm: Seq<char>,
    j: int,
)
    requires
        pats.len() == segs.len(),
        pats.len() >= 1,
        forall|t: int| 0 <= t < pats.len() - 1 ==> pats[t] == PatKey::Concrete(segs[t]),
        pats[pats.len() - 1] == PatKey::Wildcard(Some(nm)),
        0 <= j <= pats.len(),
    ensures
        pattern_matches(pats, j, segs, j),
        j < pats.len() ==> pattern_captures(pats, j, segs, j) == seq![
            (nm, segs[segs.len() - 1]),
        ],
    decreases pats.len() - j,
{
    if j < pats.len() {
        lemma_wildcard_tail_matches(pats, segs, nm, j + 1);
        if j == pats.len() - 1 {
            assert(pattern_captures(pats, j + 1, segs, j + 1) == Seq::<(
                Seq<char>,
                Seq<char>,
            )>::empty());
            assert(pattern_captures(pats, j, segs, j) == seq![(nm, segs[j])] + pattern_captures(
                pats,
                j + 1,
                segs,
                j + 1,
            ));
            assert(pattern_captures(pats, j, segs, j) =~= seq![(nm, segs[segs.len() - 1])]);
        }
    }
}

/// A pattern ending in `:name` routes a path of the same segment count to
/// its handler and captures exactly that last segment under the name.
pub proof fn lemma_wildcard_capture<E>(
    pats: Seq<PatKey>,
    m: Method,
    e: E,
    segs: Seq<Seq<char>>,
    nm: Seq<char>,
)
    requires
        pats.len() == segs.len(),
        pats.len() >= 1,
        forall|t: int| 0 <= t < pats.len() - 1 ==> pats[t] == PatKey::Concrete(segs[t]),
        pats[pats.len() - 1] == PatKey::Wildcard(Some(nm)),
    ensures
        view_insert(empty_node_view::<E>(), pats, 0, m, e) is Ok,
        spec_route(view_insert(empty_node_view::<E>(), pats, 0, m, e)->Ok_0, segs, 0, m)
            == (RouteOutcome::Found { endpoint: e, params: seq![(nm, segs[segs.len() - 1])] }),
{
    lemma_wildcard_tail_matches(pats, segs, nm, 0);
    lemma_single_pattern_route(pats, 0, m, e, segs, 0, m);
}

proof fn lemma_catch_all_tail_matches(
    pats: Seq<PatKey>,
    segs: Seq<Seq<char>>,
    nm: Seq<char>,
    j: int,
)
    requires
        pats.len() >= 1,
        segs.len() >= pats.len() - 1,
        forall|t: int| 0 <= t < pats.len() - 1 ==> pats[t] == PatKey::Concrete(segs[t]),
        pats[pats.len() - 1] == PatKey::CatchAll(Some(nm)),
        0 <= j <= pats.len() - 1,
    ensures
        pattern_matches(pats, j, segs, j),
        pattern_captures(pats, j, segs, j) == seq![(nm, join_from(segs, pats.len() - 1))],
    decreases pats.len() - j,
{
    if j < pats.len() - 1 {
        lemma_catch_all_tail_matches(pats, segs, nm, j + 1);
    }
}

/// A pattern ending in `*name` routes every path that carries its concrete
/// prefix, however many segments remain — none included — and captures the
/// joined remainder under the name.
pub proof fn lemma_catch_all_capture<E>(
    pats: Seq<PatKey>,
    m: Method,
    e: E,
    segs: Seq<Seq<char>>,
    nm: Seq<char>,
)
    requires
        pats.len() >= 1,
        segs.len() >= pats.len() - 1,
        forall|t: int| 0 <= t < pats.len() - 1 ==> pats[t] == PatKey::Concrete(segs[t]),
        pats[pats.len() - 1] == PatKey::CatchAll(Some(nm)),
    ensures
        view_insert(empty_node_view::<E>(), pats, 0, m, e) is Ok,
        spec_route(view_insert(empty_node_view::<E>(), pats, 0, m, e)->Ok_0, segs, 0, m)
            == (RouteOutcome::Found { endpoint: e, params: seq![(nm, join_from(segs, pats.len() - 1))] }),
{
    lemma_catch_all_tail_matches(pats, segs, nm, 0);
    lemma_single_pattern_route(pats, 0, m, e, segs, 0, m);
}


proof fn lemma_idx_first_same_keys<E>(
    cs1: Seq<(PatKey, NodeView<E>)>,
    cs2: Seq<(PatKey, NodeView<E>)>,
    p: spec_fn(PatKey) -> bool,
)
    requires
        cs1.len() == cs2.len(),
        forall|t: int| 0 <= t < cs1.len() ==> cs1[t].0 == cs2[t].0,
    ensures
        idx_first(cs1, p) == idx_first(cs2, p),
    decreases cs1.len(),
{
    if cs1.len() > 0 {
        lemma_idx_first_same_keys(cs1.skip(1), cs2.skip(1), p);
        assert(forall|t: int| 1 <= t < cs1.len() ==> cs1[t] == cs1.skip(1)[t - 1]);
        assert(forall|t: int| 1 <= t < cs2.len() ==> cs2[t] == cs2.skip(1)[t - 1]);
    }
}

proof fn lemma_idx_for_same_keys<E>(
    cs1: Seq<(PatKey, NodeView<E>)>,
    cs2: Seq<(PatKey, NodeView<E>)>,
    key: PatKey,
)
    requires
        cs1.len() == cs2.len(),
        forall|t: int| 0 <= t < cs1.len() ==> cs1[t].0 == cs2[t].0,
    ensures
        idx_for(cs1, key) == idx_for(cs2, key),
{
    match key {
        PatKey::Concrete(nm) => lemma_idx_first_same_keys(
            cs1,
            cs2,
            |k: PatKey| k == PatKey::Concrete(nm),
        ),
        PatKey::Wildcard(_) => lemma_idx_first_same_keys(cs1, cs2, |k: PatKey| k is Wildcard),
        PatKey::CatchAll(_) => lemma_idx_first_same_keys(cs1, cs2, |k: PatKey| k is CatchAll),
    }
}

proof fn lemma_idx_first_push<E>(
    cs: Seq<(PatKey, NodeView<E>)>,
    x: (PatKey, NodeView<E>),
    p: spec_fn(PatKey) -> bool,
)
    requires
        idx_first(cs, p) < 0,
        p(x.0),
    ensures
        idx_first(cs.push(x), p) == cs.len(),
    decreases cs.len(),
{
    lemma_idx_first(cs, p);
    if cs.len() == 0 {
        assert(cs.push(x)[0] == x);
    } else {
        assert(cs.push(x).skip(1) =~= cs.skip(1).push(x));
        assert(idx_first(cs.skip(1), p) < 0) by {
            lemma_idx_first(cs.skip(1), p);
            assert(forall|t: int| 1 <= t < cs.len() ==> cs[t] == cs.skip(1)[t - 1]);
        }
        lemma_idx_first_push(cs.skip(1), x, p);
    }
}

proof fn lemma_idx_for_push<E>(
    cs: Seq<(PatKey, NodeView<E>)>,
    x: (PatKey, NodeView<E>),
    key: PatKey,
)
    requires
        idx_for(cs, key) < 0,
        key_matches(x.0, key),
    ensures
        idx_for(cs.push(x), key) == cs.len(),
{
    match key {
        PatKey::Concrete(nm) => lemma_idx_first_push(cs, x, |k: PatKey| k == PatKey::Concrete(nm)),
        PatKey::Wildcard(_) => lemma_idx_first_push(cs, x, |k: PatKey| k is Wildcard),
        PatKey::CatchAll(_) => lemma_idx_first_push(cs, x, |k: PatKey| k is CatchAll),
    }
}

/// A fresh subtree accepts any registration: nothing there can be occupied
/// or clash.
pub proof fn lemma_insert_into_empty_ok<E>(pats: Seq<PatKey>, j: int, m: Method, e: E)
    requires
        0 <= j <= pats.len(),
    ensures
        view_insert(empty_node_view::<E>(), pats, j, m, e) is Ok,
    decreases pats.len() - j,
{
    if j < pats.len() {
        lemma_insert_into_empty_ok(pats, j + 1, m, e);
    }
}

/// Registration order never changes the tree for two handlers under the
/// same path and different methods: either order of the two registrations
/// is accepted and builds the same routing tree, so matching cannot tell
/// them apart.
pub proof fn lemma_method_order_commutes<E>(
    n: NodeView<E>,
    pats: Seq<PatKey>,
    j: int,
    m1: Method,
    e1: E,
    m2: Method,
    e2: E,
)
    requires
        0 <= j <= pats.len(),
        m1 != m2,
        view_insert(n, pats, j, m1, e1) is Ok,
        view_insert(n, pats, j, m2, e2) is Ok,
    ensures
        view_insert(view_insert(n, pats, j, m1, e1)->Ok_0, pats, j, m2, e2) is Ok,
        view_insert(view_insert(n, pats, j, m2, e2)->Ok_0, pats, j, m1, e1) is Ok,
        view_insert(view_insert(n, pats, j, m1, e1)->Ok_0, pats, j, m2, e2)->Ok_0 == view_insert(
            view_insert(n, pats, j, m2, e2)->Ok_0,
            pats,
            j,
            m1,
            e1,
        )->Ok_0,
    decreases pats.len() - j,
{
    let a1 = view_insert(n, pats, j, m1, e1)->Ok_0;
    let b1 = view_insert(n, pats, j, m2, e2)->Ok_0;
    if j >= pats.len() {
    } else {
        let key = pats[j];
        let k = idx_for(n.children, key);
        lemma_idx_for(n.children, key);
        if k >= 0 {
            let child = n.children[k].1;
            lemma_method_order_commutes(child, pats, j + 1, m1, e1, m2, e2);
            let c1 = view_insert(child, pats, j + 1, m1, e1)->Ok_0;
            let c2 = view_insert(child, pats, j + 1, m2, e2)->Ok_0;
            assert(a1.children == n.children.update(k, (key, c1)));
            assert(b1.children == n.children.update(k, (key, c2)));
            assert(forall|t: int|
                0 <= t < n.children.len() ==> a1.children[t].0 == n.children[t].0);
            assert(forall|t: int|
                0 <= t < n.children.len() ==> b1.children[t].0 == n.children[t].0);
            lemma_idx_for_same_keys(a1.children, n.children, key);
            lemma_idx_for_same_keys(b1.children, n.children, key);
            let c12 = view_insert(c1, pats, j + 1, m2, e2)->Ok_0;
            let c21 = view_insert(c2, pats, j + 1, m1, e1)->Ok_0;
            assert(c12 == c21);
            assert(a1.children.update(k, (key, c12)) =~= b1.children.update(k, (key, c21)));
        } else {
            lemma_insert_into_empty_ok(pats, j + 1, m1, e1);
            lemma_insert_into_empty_ok(pats, j + 1, m2, e2);
            let chain1 = view_insert(empty_node_view::<E>(), pats, j + 1, m1, e1)->Ok_0;
            let chain2 = view_insert(empty_node_view::<E>(), pats, j + 1, m2, e2)->Ok_0;
            assert(a1.children == n.children.push((key, chain1)));
            assert(b1.children == n.children.push((key, chain2)));
            assert(key_matches(key, key));
            lemma_idx_for_push(n.children, (key, chain1), key);
            lemma_idx_for_push(n.children, (key, chain2), key);
            assert(a1.children[n.children.len() as int] == (key, chain1));
            assert(b1.children[n.children.len() as int] == (key, chain2));
            lemma_method_order_commutes(empty_node_view::<E>(), pats, j + 1, m1, e1, m2, e2);
            let c12 = view_insert(chain1, pats, j + 1, m2, e2)->Ok_0;
            let c21 = view_insert(chain2, pats, j + 1, m1, e1)->Ok_0;
            assert(c12 == c21);
            assert(a1.children.update(n.children.len() as int, (key, c12)) =~= b1.children.update(
                n.children.len() as int,
                (key, c21),
            ));
        }
    }
}

} // verus!
