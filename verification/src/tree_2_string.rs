//! Tree-to-string reconstruction: renders a labeled tree back to a bracketed
//! constituency string, the inverse of the bracket parser.  Node entry emits
//! `(LABEL`, every finished child list emits `)`, and a leaf emits `(LEAF)`;
//! chunks after the first are separated by single spaces.  `ser_sub` is the
//! direct specification of a subtree's rendering, and the walk is proved to
//! produce exactly `ser_sub` of the root.
//!
//! Rendering always writes every leaf in the singular `(LEAF)` form.  The
//! `inverse` mode of `get_constituency` re-joins each double leaf — a
//! `(word)` chunk that closed a part-of-speech wrapper — back into the
//! original `word)` spelling, for round trips over double-leaf inputs.

use vstd::prelude::*;
use id_tree::Tree;
use crate::errors::LibError;
use crate::generic_traits::Structure2PlotBuilder;
use crate::text::find_char;
use crate::text::is_ws;
use crate::text::strip_edges;
use crate::text::count_char;
use crate::text::lemma_find_char_none;
use crate::text::lemma_leading_len_eq;
use crate::text::lemma_trailing_len_eq;
use crate::text::lemma_count_char_concat;
use crate::text::lemma_count_char_zero;
use crate::string_2_tree::ParseState;
use crate::string_2_tree::chunk_step;
use crate::string_2_tree::parse_chunks;
use crate::text::find_char_range;
use crate::text::split_seq;
use crate::text::join_seq;
use crate::text::views_of;
use crate::text::split_char;
use crate::text::join_char;
use crate::text::subvec;
use crate::text::str_to_chars;
use crate::text::chars_to_string;
use crate::tree_model::TreeShape;
use crate::tree_model::shape_wf;
use crate::tree_model::child_indexes;
use crate::tree_model::lemma_children_upto;
use crate::tree_store::tree_nodes;
use crate::tree_store::tree_canon;
use crate::tree_store::id_in_tree;
use crate::tree_store::node_index;
use crate::tree_store::tree_try_root;
use crate::tree_store::tree_try_label;
use crate::tree_store::tree_try_children;
use crate::tree_store::tree_node_count;
use crate::walk_tree::Accumulator;
use crate::walk_tree::AccModel;
use crate::walk_tree::acc_view;
use crate::walk_tree::Element;
use crate::walk_tree::ElemModel;
use crate::walk_tree::elem_model;
use crate::walk_tree::WalkActions;
use crate::walk_tree::WalkParams;
use crate::walk_tree::WalkTree;
use crate::walk_tree::walk;
use crate::walk_tree::walk_spec;
use crate::walk_tree::walk_children_spec;

verus! {

/// The separator written before a chunk: nothing at the very start, one
/// space afterwards.
pub open spec fn sep_for(s: Seq<char>) -> Seq<char> {
    if s.len() == 0 {
        Seq::<char>::empty()
    } else {
        seq![' ']
    }
}

/// The rendering of the subtree rooted at node `i`: its label in brackets,
/// children in order, each preceded by one space.
pub open spec fn ser_sub(nodes: TreeShape, i: int) -> Seq<char>
    decreases nodes.len() - i, 1int, 0int,
{
    if 0 <= i < nodes.len() {
        seq!['('] + nodes[i].0 + ser_kids(nodes, i, child_indexes(nodes, i), 0) + seq![')']
    } else {
        Seq::<char>::empty()
    }
}

/// The renderings of the children `ks[t..]` of node `i`, each preceded by a
/// space.  Indexes not strictly between `i` and the node count cannot arise
/// in a well-formed shape and render nothing.
pub open spec fn ser_kids(nodes: TreeShape, i: int, ks: Seq<int>, t: int) -> Seq<char>
    decreases nodes.len() - i, 0int, (if ks.len() - t >= 0 {
        ks.len() - t
    } else {
        0int
    }),
{
    if t >= ks.len() {
        Seq::<char>::empty()
    } else if i < ks[t] < nodes.len() {
        seq![' '] + ser_sub(nodes, ks[t]) + ser_kids(nodes, i, ks, t + 1)
    } else {
        ser_kids(nodes, i, ks, t + 1)
    }
}

/// Rebuilds the constituency string from a built tree.
pub struct Tree2String {
    pub tree: Tree<String>,
    pub output: Option<String>,
}

impl WalkActions for Tree2String {
    open spec fn wf(&self) -> bool {
        tree_canon(self.tree) && shape_wf(tree_nodes(self.tree))
    }

    open spec fn elem_ok(&self, e: Element) -> bool {
        match e {
            Element::Nid(id) => id_in_tree(self.tree, id) && 0 <= node_index(id) < tree_nodes(
                self.tree,
            ).len(),
            Element::Tid(_) => false,
        }
    }

    open spec fn init_walk_spec(&self, e: ElemModel, acc: AccModel) -> Result<AccModel, LibError> {
        Ok(acc)
    }

    /// A leaf emits its whole `(LABEL)` form at once.
    open spec fn finish_trajectory_spec(&self, e: ElemModel, acc: AccModel) -> Result<
        AccModel,
        LibError,
    > {
        match (e, acc) {
            (ElemModel::Node(i), AccModel::T2S(s)) => {
                if 0 <= i < tree_nodes(self.tree).len() {
                    Ok(
                        AccModel::T2S(
                            s + sep_for(s) + seq!['('] + tree_nodes(self.tree)[i].0 + seq![')'],
                        ),
                    )
                } else {
                    Err(LibError::ElementMismatch)
                }
            },
            (ElemModel::Node(_), _) => Err(LibError::AccumulatorMismatch),
            (ElemModel::Tok(_), _) => Err(LibError::ElementMismatch),
        }
    }

    /// An inner node emits its opening bracket and label on entry.
    open spec fn on_node_spec(&self, e: ElemModel, params: WalkParams, acc: AccModel) -> Result<
        (WalkParams, AccModel),
        LibError,
    > {
        match (e, acc) {
            (ElemModel::Node(i), AccModel::T2S(s)) => {
                if 0 <= i < tree_nodes(self.tree).len() {
                    Ok(
                        (
                            params,
                            AccModel::T2S(s + sep_for(s) + seq!['('] + tree_nodes(self.tree)[i].0),
                        ),
                    )
                } else {
                    Err(LibError::ElementMismatch)
                }
            },
            (ElemModel::Node(_), _) => Err(LibError::AccumulatorMismatch),
            (ElemModel::Tok(_), _) => Err(LibError::ElementMismatch),
        }
    }

    open spec fn on_child_spec(&self, e: ElemModel, params: WalkParams, acc: AccModel) -> Result<
        (WalkParams, AccModel),
        LibError,
    > {
        Ok((params, acc))
    }

    open spec fn post_walk_spec(&self, e: ElemModel, acc: AccModel) -> Result<AccModel, LibError> {
        Ok(acc)
    }

    /// A finished child list closes its node's bracket.
    open spec fn finish_recursion_spec(&self, acc: AccModel) -> Result<AccModel, LibError> {
        match acc {
            AccModel::T2S(s) => Ok(AccModel::T2S(s + seq![')'])),
            _ => Err(LibError::AccumulatorMismatch),
        }
    }

    fn init_walk(&self, element_id: &Element, data: &mut Accumulator) -> (r: Result<(), LibError>) {
        Ok(())
    }

    fn finish_trajectory(&self, element_id: &Element, data: &mut Accumulator) -> (r: Result<
        (),
        LibError,
    >) {
        let nid = match element_id {
            Element::Nid(id) => id,
            Element::Tid(_) => {
                return Err(LibError::ElementMismatch);
            },
        };
        let label: String = match tree_try_label(&self.tree, nid) {
            Some(l) => l,
            None => {
                return Err(LibError::ElementMismatch);
            },
        };
        let mut s: String = match &*data {
            Accumulator::T2S(s) => s.clone(),
            _ => {
                return Err(LibError::AccumulatorMismatch);
            },
        };
        proof {
            reveal_strlit(" ");
            reveal_strlit("(");
            reveal_strlit(")");
        }
        let ghost s0 = s@;
        if !s.as_str().is_empty() {
            s.append(" ");
        }
        s.append("(");
        s.append(label.as_str());
        s.append(")");
        proof {
            assert(" "@ =~= seq![' ']);
            assert("("@ =~= seq!['(']);
            assert(")"@ =~= seq![')']);
            assert(s@ =~= s0 + sep_for(s0) + seq!['('] + label@ + seq![')']);
        }
        *data = Accumulator::T2S(s);
        Ok(())
    }

    fn on_node(&self, element_id: &Element, parameters: &mut WalkParams, data: &mut Accumulator)
        -> (r: Result<(), LibError>) {
        let nid = match element_id {
            Element::Nid(id) => id,
            Element::Tid(_) => {
                return Err(LibError::ElementMismatch);
            },
        };
        let label: String = match tree_try_label(&self.tree, nid) {
            Some(l) => l,
            None => {
                return Err(LibError::ElementMismatch);
            },
        };
        let mut s: String = match &*data {
            Accumulator::T2S(s) => s.clone(),
            _ => {
                return Err(LibError::AccumulatorMismatch);
            },
        };
        proof {
            reveal_strlit(" ");
            reveal_strlit("(");
        }
        let ghost s0 = s@;
        if !s.as_str().is_empty() {
            s.append(" ");
        }
        s.append("(");
        s.append(label.as_str());
        proof {
            assert(" "@ =~= seq![' ']);
            assert("("@ =~= seq!['(']);
            assert(s@ =~= s0 + sep_for(s0) + seq!['('] + label@);
        }
        *data = Accumulator::T2S(s);
        Ok(())
    }

    fn on_child(
        &self,
        child_element_id: &Element,
        parameters: &mut WalkParams,
        data: &mut Accumulator,
    ) -> (r: Result<(), LibError>) {
        Ok(())
    }

    fn post_walk_update(&self, element_id: &Element, data: &mut Accumulator) -> (r: Result<
        (),
        LibError,
    >) {
        Ok(())
    }

    fn finish_recursion(&self, data: &mut Accumulator) -> (r: Result<(), LibError>) {
        let mut s: String = match &*data {
            Accumulator::T2S(s) => s.clone(),
            _ => {
                return Err(LibError::AccumulatorMismatch);
            },
        };
        proof {
            reveal_strlit(")");
        }
        let ghost s0 = s@;
        s.append(")");
        proof {
            assert(")"@ =~= seq![')']);
            assert(s@ =~= s0 + seq![')']);
        }
        *data = Accumulator::T2S(s);
        Ok(())
    }
}

impl WalkTree for Tree2String {
    /// The tree's root node, at slot zero; an empty tree has none.
    open spec fn root_spec(&self) -> Result<ElemModel, LibError> {
        if tree_nodes(self.tree).len() == 0 {
            Err(LibError::EmptyStructure)
        } else {
            Ok(ElemModel::Node(0))
        }
    }

    fn get_root_element(&self) -> (r: Result<Element, LibError>) {
        match tree_try_root(&self.tree) {
            Some(id) => Ok(Element::Nid(id)),
            None => Err(LibError::EmptyStructure),
        }
    }

    /// A node's children are the slots naming it as parent, in order.
    open spec fn children_spec(&self, e: ElemModel) -> Result<Seq<ElemModel>, LibError> {
        match e {
            ElemModel::Node(i) => {
                if 0 <= i < tree_nodes(self.tree).len() {
                    Ok(
                        child_indexes(tree_nodes(self.tree), i).map_values(
                            |j: int| ElemModel::Node(j),
                        ),
                    )
                } else {
                    Err(LibError::ElementMismatch)
                }
            },
            ElemModel::Tok(_) => Err(LibError::ElementMismatch),
        }
    }

    fn get_children_ids(&self, element_id: &Element) -> (r: Result<Vec<Element>, LibError>) {
        let nid = match element_id {
            Element::Nid(id) => id,
            Element::Tid(_) => {
                return Err(LibError::ElementMismatch);
            },
        };
        let ids: Vec<id_tree::NodeId> = match tree_try_children(&self.tree, nid) {
            Some(v) => v,
            None => {
                return Err(LibError::ElementMismatch);
            },
        };
        let mut out: Vec<Element> = Vec::new();
        let mut k: usize = 0;
        while k < ids.len()
            invariant
                k <= ids@.len(),
                out@.len() == k,
                forall|j: int| 0 <= j < k ==> #[trigger] out@[j] == Element::Nid(ids@[j]),
            decreases ids@.len() - k,
        {
            let e: Element = Element::Nid(ids[k].clone());
            out.push(e);
            k = k + 1;
        }
        proof {
            if self.wf() && self.elem_ok(*element_id) {
                let nodes = tree_nodes(self.tree);
                let i = node_index(*nid);
                lemma_children_upto(nodes, i, nodes.len() as int);
                assert(out@.map_values(|c: Element| elem_model(c)) =~= child_indexes(
                    nodes,
                    i,
                ).map_values(|j: int| ElemModel::Node(j)));
                assert forall|j: int| 0 <= j < out@.len() implies self.elem_ok(
                    #[trigger] out@[j],
                ) by {
                    assert(out@[j] == Element::Nid(ids@[j]));
                    assert(node_index(ids@[j]) == child_indexes(nodes, i)[j]);
                }
            }
        }
        Ok(out)
    }
}

/// The walk from node `i` appends exactly the rendering of `i`'s subtree,
/// preceded by a space when something has been written already.
proof fn lemma_tree_walk_ser(w: &Tree2String, i: int, s: Seq<char>, fuel: nat)
    requires
        w.wf(),
        0 <= i < tree_nodes(w.tree).len(),
        fuel >= tree_nodes(w.tree).len() - i,
    ensures
        walk_spec(w, Some(ElemModel::Node(i)), AccModel::T2S(s), fuel) == Result::<
            AccModel,
            LibError,
        >::Ok(AccModel::T2S(s + sep_for(s) + ser_sub(tree_nodes(w.tree), i))),
    decreases tree_nodes(w.tree).len() - i, 1int, 0int,
{
    let nodes = tree_nodes(w.tree);
    let ks = child_indexes(nodes, i);
    let ksm = ks.map_values(|j: int| ElemModel::Node(j));
    lemma_children_upto(nodes, i, nodes.len() as int);
    assert(w.children_spec(ElemModel::Node(i)) == Result::<Seq<ElemModel>, LibError>::Ok(ksm));
    if ks.len() == 0 {
        assert(ser_kids(nodes, i, ks, 0) =~= Seq::<char>::empty());
        assert(s + sep_for(s) + seq!['('] + nodes[i].0 + seq![')'] =~= s + sep_for(s) + ser_sub(
            nodes,
            i,
        ));
    } else {
        let s1 = s + sep_for(s) + seq!['('] + nodes[i].0;
        assert(w.on_node_spec(ElemModel::Node(i), WalkParams::zero_spec(), AccModel::T2S(s))
            == Result::<(WalkParams, AccModel), LibError>::Ok(
            (WalkParams::zero_spec(), AccModel::T2S(s1)),
        ));
        assert(s1.len() > 0);
        lemma_tree_walk_kids(w, i, ks, 0, WalkParams::zero_spec(), s1, fuel);
        assert(walk_children_spec(w, ksm, 0, WalkParams::zero_spec(), AccModel::T2S(s1), fuel)
            == Result::<AccModel, LibError>::Ok(AccModel::T2S(s1 + ser_kids(nodes, i, ks, 0))));
        assert(s1 + ser_kids(nodes, i, ks, 0) + seq![')'] =~= s + sep_for(s) + ser_sub(nodes, i));
    }
}

/// The children fold from position `t` appends exactly the renderings of the
/// remaining children, each preceded by a space.
proof fn lemma_tree_walk_kids(
    w: &Tree2String,
    i: int,
    ks: Seq<int>,
    t: int,
    params: WalkParams,
    s: Seq<char>,
    fuel: nat,
)
    requires
        w.wf(),
        0 <= i < tree_nodes(w.tree).len(),
        ks == child_indexes(tree_nodes(w.tree), i),
        0 <= t <= ks.len(),
        s.len() > 0,
        fuel >= tree_nodes(w.tree).len() - i,
    ensures
        walk_children_spec(
            w,
            ks.map_values(|j: int| ElemModel::Node(j)),
            t,
            params,
            AccModel::T2S(s),
            fuel,
        ) == Result::<AccModel, LibError>::Ok(
            AccModel::T2S(s + ser_kids(tree_nodes(w.tree), i, ks, t)),
        ),
    decreases tree_nodes(w.tree).len() - i, 0int, ks.len() - t,
{
    let nodes = tree_nodes(w.tree);
    let ksm = ks.map_values(|j: int| ElemModel::Node(j));
    lemma_children_upto(nodes, i, nodes.len() as int);
    if t >= ks.len() {
        assert(ser_kids(nodes, i, ks, t) =~= Seq::<char>::empty());
        assert(s + ser_kids(nodes, i, ks, t) =~= s);
    } else {
        let c = ks[t];
        assert(i < c < nodes.len());
        assert(fuel >= 1);
        assert(ksm[t] == ElemModel::Node(c));
        lemma_tree_walk_ser(w, c, s, (fuel - 1) as nat);
        assert(sep_for(s) == seq![' ']);
        let s2 = s + seq![' '] + ser_sub(nodes, c);
        assert(s2.len() > 0);
        lemma_tree_walk_kids(w, i, ks, t + 1, params, s2, fuel);
        assert(s2 + ser_kids(nodes, i, ks, t + 1) =~= s + ser_kids(nodes, i, ks, t));
    }
}

impl Structure2PlotBuilder<Tree<String>> for Tree2String {
    open spec fn new_req(structure: &Tree<String>) -> bool {
        tree_canon(*structure) && shape_wf(tree_nodes(*structure))
    }

    open spec fn made_from(&self, structure: &Tree<String>) -> bool {
        &&& tree_nodes(self.tree) == tree_nodes(*structure)
        &&& self.wf()
        &&& self.output is None
    }

    open spec fn build_req(&self) -> bool {
        self.wf()
    }

    open spec fn build_rel(pre: &Self, post: &Self, r: Result<(), LibError>) -> bool {
        &&& tree_nodes(post.tree) == tree_nodes(pre.tree)
        &&& match r {
            Ok(()) => tree_nodes(pre.tree).len() > 0 && match post.output {
                Option::Some(o) => o@ == ser_sub(tree_nodes(pre.tree), 0),
                Option::None => false,
            },
            Err(e) => e == LibError::EmptyStructure && tree_nodes(pre.tree).len() == 0,
        }
    }

    /// Wraps a built tree, with no output yet.
    fn new(structure: Tree<String>) -> (s: Self) {
        Tree2String { tree: structure, output: None }
    }

    /// Renders the tree through one walk and stores the string.  Owes
    /// success exactly when the tree has a root.
    fn build(&mut self) -> (r: Result<(), LibError>) {
        let n: usize = tree_node_count(&self.tree);
        let mut accumulator: Accumulator = Accumulator::T2S(String::new());
        let ghost a0 = acc_view(&accumulator);
        let walk_r: Result<(), LibError> = walk(self, None, &mut accumulator, n);
        proof {
            if tree_nodes(self.tree).len() == 0 {
                assert(walk_spec(self, None, a0, n as nat) == Result::<AccModel, LibError>::Err(
                    LibError::EmptyStructure,
                ));
            } else {
                lemma_tree_walk_ser(self, 0, Seq::<char>::empty(), n as nat);
                assert(Seq::<char>::empty() + sep_for(Seq::<char>::empty()) + ser_sub(
                    tree_nodes(self.tree),
                    0,
                ) =~= ser_sub(tree_nodes(self.tree), 0));
                assert(walk_spec(self, None, a0, n as nat) == Result::<AccModel, LibError>::Ok(
                    AccModel::T2S(ser_sub(tree_nodes(self.tree), 0)),
                ));
            }
        }
        match walk_r {
            Err(e) => Err(e),
            Ok(()) => {
                match accumulator {
                    Accumulator::T2S(s) => {
                        self.output = Some(s);
                        Ok(())
                    },
                    Accumulator::TPD(_) => {
                        proof {
                            assert(false);
                        }
                        Err(LibError::AccumulatorMismatch)
                    },
                    Accumulator::WD(_) => {
                        proof {
                            assert(false);
                        }
                        Err(LibError::AccumulatorMismatch)
                    },
                    Accumulator::C2S(_) => {
                        proof {
                            assert(false);
                        }
                        Err(LibError::AccumulatorMismatch)
                    },
                }
            },
        }
    }
}

/// One chunk of the inverse reconstruction: a chunk that both opens and
/// closes, such as `(word)` or `(word))))`, loses its own wrapping pair so
/// the word rejoins the part-of-speech bracket before it.
pub open spec fn inverse_chunk(c: Seq<char>) -> Seq<char> {
    if c.len() > 0 && c[0] == '(' && c.last() == ')' {
        let p = find_char(c, ')');
        c.subrange(1, p) + c.subrange(p + 1, c.len() as int)
    } else {
        c
    }
}

/// The inverse reconstruction of a rendered string: every opening-closing
/// chunk re-joined, the rest untouched.
pub open spec fn inverse_view(s: Seq<char>) -> Seq<char> {
    join_seq(split_seq(s, ' ').map_values(|c: Seq<char>| inverse_chunk(c)), ' ')
}

impl Tree2String {
    /// The rendered constituency string; `build` must have run first.  With
    /// `inverse` set, double-leaf wrappers are re-joined as `inverse_view`
    /// says; plain output is returned unchanged.
    pub fn get_constituency(self, inverse: bool) -> (r: String)
        requires
            self.output is Some,
        ensures
            (match self.output {
                Option::Some(o) => if inverse {
                    r@ == inverse_view(o@)
                } else {
                    r@ == o@
                },
                Option::None => false,
            }),
    {
        let out: String = match self.output {
            Some(o) => o,
            None => String::new(),
        };
        if !inverse {
            return out;
        }
        let parts: Vec<String> = split_char(out.as_str(), ' ');
        let mut mapped: Vec<String> = Vec::new();
        let mut k: usize = 0;
        while k < parts.len()
            invariant
                k <= parts@.len(),
                views_of(mapped@) == views_of(parts@).subrange(0, k as int).map_values(
                    |c: Seq<char>| inverse_chunk(c),
                ),
            decreases parts@.len() - k,
        {
            let m: String = inverse_chunk_exec(&parts[k]);
            proof {
                assert(views_of(mapped@.push(m)) =~~= views_of(mapped@) + seq![m@]);
                assert(views_of(parts@).subrange(0, k as int + 1).map_values(
                    |c: Seq<char>| inverse_chunk(c),
                ) =~~= views_of(parts@).subrange(0, k as int).map_values(
                    |c: Seq<char>| inverse_chunk(c),
                ) + seq![inverse_chunk(views_of(parts@)[k as int])]);
            }
            mapped.push(m);
            k = k + 1;
        }
        proof {
            assert(views_of(parts@).subrange(0, parts@.len() as int) =~~= views_of(parts@));
            assert(views_of(mapped@) =~~= split_seq(out@, ' ').map_values(
                |c: Seq<char>| inverse_chunk(c),
            ));
        }
        join_char(&mapped, ' ')
    }
}

/// Applies `inverse_chunk` to one chunk.
fn inverse_chunk_exec(c: &String) -> (r: String)
    ensures
        r@ == inverse_chunk(c@),
{
    let v: Vec<char> = str_to_chars(c.as_str());
    let n: usize = v.len();
    if n == 0 {
        return c.clone();
    }
    if !(v[0] == '(' && v[n - 1] == ')') {
        return c.clone();
    }
    let p: usize = match find_char_range(&v, 0, n, ')') {
        Some(p) => p,
        None => {
            proof {
                assert(v@.subrange(0, n as int) =~= v@);
                crate::text::lemma_find_char_exists(v@, ')', n - 1);
                assert(false);
            }
            return c.clone();
        },
    };
    proof {
        assert(v@.subrange(0, n as int) =~= v@);
    }
    let left: Vec<char> = subvec(&v, 1, p);
    let right: Vec<char> = subvec(&v, p + 1, n);
    let mut joined: Vec<char> = left;
    let mut k: usize = 0;
    while k < right.len()
        invariant
            k <= right@.len(),
            joined@ == v@.subrange(1, p as int) + right@.subrange(0, k as int),
            right@ == v@.subrange(p as int + 1, v@.len() as int),
            p < v@.len(),
        decreases right@.len() - k,
    {
        proof {
            assert(joined@.push(right@[k as int]) =~= v@.subrange(1, p as int) + right@.subrange(
                0,
                k as int + 1,
            ));
        }
        joined.push(right[k]);
        k = k + 1;
    }
    proof {
        assert(right@.subrange(0, right@.len() as int) =~= right@);
    }
    chars_to_string(&joined)
}

/// One proved record of the constituency round trip: a single-leaf string
/// `(LABEL)` with a non-empty label free of brackets and whitespace parses
/// to the one-node tree shape, and that shape renders back to the very same
/// string.
pub proof fn lemma_single_leaf_round_trip(label: Seq<char>)
    requires
        label.len() > 0,
        forall|k: int|
            0 <= k < label.len() ==> !(#[trigger] label[k] == '(' || label[k] == ')' || is_ws(
                label[k],
            )),
    ensures
        ({
            let s = seq!['('] + label + seq![')'];
            let start = ParseState {
                nodes: Seq::<(Seq<char>, int)>::empty(),
                parent: -1,
                opens: 0,
                closes: 0,
            };
            match parse_chunks(start, s) {
                Ok(st) => st.nodes == seq![(label, -1int)] && ser_sub(st.nodes, 0) == s,
                Err(_) => false,
            }
        }),
{
    let s = seq!['('] + label + seq![')'];
    let start = ParseState {
        nodes: Seq::<(Seq<char>, int)>::empty(),
        parent: -1,
        opens: 0,
        closes: 0,
    };
    assert(s.len() == label.len() + 2);
    assert(s[0] == '(');
    assert(s.last() == ')');
    assert forall|k: int| 0 <= k < s.len() implies #[trigger] s[k] != ' ' by {
        if 1 <= k < s.len() - 1 {
            assert(s[k] == label[k - 1]);
        }
    }
    lemma_find_char_none(s, ' ');
    // the whole string is the one chunk, trimmed of nothing
    lemma_leading_len_eq(s, None, 0);
    lemma_trailing_len_eq(s, None, 0);
    assert(strip_edges(s, None) =~= s);
    assert(strip_edges(Seq::<char>::empty(), None) =~= Seq::<char>::empty());
    // exactly one opener and one closer
    assert(seq![')'].drop_last() =~= Seq::<char>::empty());
    assert(seq!['('].drop_last() =~= Seq::<char>::empty());
    assert(count_char(Seq::<char>::empty(), '(') == 0);
    assert(count_char(Seq::<char>::empty(), ')') == 0);
    assert(count_char(seq![')'], '(') == count_char(seq![')'].drop_last(), '(') + 0);
    assert(count_char(seq!['('], '(') == count_char(seq!['('].drop_last(), '(') + 1);
    assert(count_char(seq![')'], ')') == count_char(seq![')'].drop_last(), ')') + 1);
    assert(count_char(seq!['('], ')') == count_char(seq!['('].drop_last(), ')') + 0);
    lemma_count_char_concat(seq!['('] + label, seq![')'], '(');
    lemma_count_char_concat(seq!['('], label, '(');
    lemma_count_char_zero(label, '(');
    assert(count_char(seq![')'], '(') == 0);
    assert(count_char(seq!['('], '(') == 1);
    assert(count_char(s, '(') == 1);
    lemma_count_char_concat(seq!['('] + label, seq![')'], ')');
    lemma_count_char_concat(seq!['('], label, ')');
    lemma_count_char_zero(label, ')');
    assert(count_char(seq![')'], ')') == 1);
    assert(count_char(seq!['('], ')') == 0);
    assert(count_char(s, ')') == 1);
    // the chunk strips to the bare label
    assert(label.last() != ')');
    lemma_leading_len_eq(s, Some(')'), 0);
    assert(s[s.len() - 2] == label.last() || label.len() == 0);
    lemma_trailing_len_eq(s, Some(')'), 1);
    let s1 = strip_edges(s, Some(')'));
    assert(s1 =~= seq!['('] + label);
    lemma_leading_len_eq(s1, Some('('), 1);
    lemma_trailing_len_eq(s1, Some('('), 0);
    assert(strip_edges(s1, Some('(')) =~= label);
    // one leaf chunk, closing nothing beyond the root
    let nodes2 = start.nodes.push((label, -1int));
    assert(nodes2 =~~= seq![(label, -1int)]);
    let stepped = chunk_step(start, s, true);
    assert(stepped matches Ok(st2) && st2.nodes == nodes2 && st2.opens == 1 && st2.closes == 1);
    let st2v = (match stepped {
        Ok(st2) => st2,
        Err(_) => arbitrary(),
    });
    assert(parse_chunks(st2v, Seq::<char>::empty()) == Result::<ParseState, LibError>::Ok(st2v));
    assert(parse_chunks(start, s) == Result::<ParseState, LibError>::Ok(st2v));
    match parse_chunks(start, s) {
        Ok(st) => {
            assert(st.nodes == nodes2);
            // the one node is childless and renders as its bracketed label
            crate::tree_model::lemma_children_upto(nodes2, 0, nodes2.len() as int);
            let ks = child_indexes(nodes2, 0);
            if ks.len() > 0 {
                assert(0 <= ks[0] < 1 && nodes2[ks[0]].1 == 0);
                assert(false);
            }
            assert(ser_kids(nodes2, 0, ks, 0) =~= Seq::<char>::empty());
            assert(ser_sub(nodes2, 0) =~= s);
        },
        Err(_) => {
            assert(false);
        },
    }
}

} // verus!
