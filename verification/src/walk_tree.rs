//! The generic depth-first walk engine.  A structure exposes a root and a
//! children relation over `Element` handles; a component supplies six hooks
//! that thread an `Accumulator`.  Every implementor also supplies spec
//! functions mirroring its hooks, and the engine's `walk` is proved to fold
//! them exactly as `walk_spec` says, errors included.  A depth budget bounds
//! the recursion; exhausting it reports an error rather than overflowing.

use vstd::prelude::*;
use crate::errors::LibError;
use crate::tree_2_plot::TreePlotData;
use crate::tree_2_plot::PlotModel;
use crate::tree_2_plot::plot_models;
use crate::conll_2_plot::WalkData;
use crate::conll_2_plot::WdModel;
use id_tree::NodeId;

verus! {

/// A non-owning handle to one element of a walkable structure: a tree node's
/// id, or a token's position in its sequence.
pub enum Element {
    Nid(NodeId),
    Tid(usize),
}

impl Element {
    /// An equal copy of the handle.
    pub fn dup(&self) -> (e: Element)
        ensures
            e == *self,
    {
        match self {
            Element::Nid(id) => Element::Nid(id.clone()),
            Element::Tid(i) => Element::Tid(*i),
        }
    }
}

/// The mathematical identity of an element: the slot index of a tree node,
/// or the position of a token.
pub enum ElemModel {
    Node(int),
    Tok(int),
}

/// The model an element denotes.
pub open spec fn elem_model(e: Element) -> ElemModel {
    match e {
        Element::Nid(id) => ElemModel::Node(crate::tree_store::node_index(id)),
        Element::Tid(i) => ElemModel::Tok(i as int),
    }
}

/// The model an optional element denotes.
pub open spec fn opt_model(item: Option<Element>) -> Option<ElemModel> {
    match item {
        Option::Some(e) => Some(elem_model(e)),
        Option::None => None,
    }
}

/// The output carried through one walk; one variant per consumer: tree plot
/// records, a tree rendered to a string, dependency plot state, and a
/// dependency rendered to lines.
pub enum Accumulator {
    TPD(Vec<TreePlotData>),
    T2S(String),
    WD(WalkData),
    C2S(Vec<String>),
}

/// The mathematical value of an `Accumulator`.
pub enum AccModel {
    TPD(Seq<PlotModel>),
    T2S(Seq<char>),
    WD(WdModel),
    C2S(Seq<Seq<char>>),
}

/// The model an accumulator denotes.
pub open spec fn acc_view(acc: &Accumulator) -> AccModel {
    match acc {
        Accumulator::TPD(v) => AccModel::TPD(plot_models(v@)),
        Accumulator::T2S(s) => AccModel::T2S(s@),
        Accumulator::WD(w) => AccModel::WD(w.model()),
        Accumulator::C2S(v) => AccModel::C2S(v@.map_values(|x: String| x@)),
    }
}

/// The fixed six-slot scratch buffer handed from `on_node` to each
/// `on_child`: the parent's point, the span bounds, the subtree's leaf
/// total, and the space already allocated to earlier siblings.
#[derive(Clone, Copy, PartialEq, Eq, Structural, Debug)]
pub struct WalkParams {
    pub x: u64,
    pub y: u64,
    pub lo: u64,
    pub hi: u64,
    pub total: u64,
    pub used: u64,
}

impl WalkParams {
    /// The all-zero buffer every node starts from.
    pub open spec fn zero_spec() -> WalkParams {
        WalkParams { x: 0, y: 0, lo: 0, hi: 0, total: 0, used: 0 }
    }

    /// The all-zero buffer, executably.
    pub fn zero() -> (p: WalkParams)
        ensures
            p == WalkParams::zero_spec(),
    {
        WalkParams { x: 0, y: 0, lo: 0, hi: 0, total: 0, used: 0 }
    }
}

/// The six hooks a walk component implements, each pinned to its own spec
/// function.  On an error the hook's in-place data is left unspecified; the
/// walk aborts and the caller discards it.
pub trait WalkActions {
    /// The component's own well-formedness; every contract below holds under
    /// it.
    spec fn wf(&self) -> bool;

    /// Which element handles belong to this structure.
    spec fn elem_ok(&self, e: Element) -> bool;

    /// What `init_walk` does to the accumulator.
    spec fn init_walk_spec(&self, e: ElemModel, acc: AccModel) -> Result<AccModel, LibError>;

    /// What `finish_trajectory` does to the accumulator at a leaf.
    spec fn finish_trajectory_spec(&self, e: ElemModel, acc: AccModel) -> Result<
        AccModel,
        LibError,
    >;

    /// What `on_node` does to the scratch buffer and the accumulator.
    spec fn on_node_spec(&self, e: ElemModel, params: WalkParams, acc: AccModel) -> Result<
        (WalkParams, AccModel),
        LibError,
    >;

    /// What `on_child` does to the scratch buffer and the accumulator.
    spec fn on_child_spec(&self, e: ElemModel, params: WalkParams, acc: AccModel) -> Result<
        (WalkParams, AccModel),
        LibError,
    >;

    /// What `post_walk_update` does to the accumulator after an element's
    /// subtree is finished.
    spec fn post_walk_spec(&self, e: ElemModel, acc: AccModel) -> Result<AccModel, LibError>;

    /// What `finish_recursion` does to the accumulator after all children.
    spec fn finish_recursion_spec(&self, acc: AccModel) -> Result<AccModel, LibError>;

    fn init_walk(&self, element_id: &Element, data: &mut Accumulator) -> (r: Result<(), LibError>)
        ensures
            self.wf() && self.elem_ok(*element_id) ==> (match self.init_walk_spec(
                elem_model(*element_id),
                acc_view(&*old(data)),
            ) {
                Ok(a) => r is Ok && acc_view(&*final(data)) == a,
                Err(e) => r == Result::<(), LibError>::Err(e),
            }),
    ;

    fn finish_trajectory(&self, element_id: &Element, data: &mut Accumulator) -> (r: Result<
        (),
        LibError,
    >)
        ensures
            self.wf() && self.elem_ok(*element_id) ==> (match self.finish_trajectory_spec(
                elem_model(*element_id),
                acc_view(&*old(data)),
            ) {
                Ok(a) => r is Ok && acc_view(&*final(data)) == a,
                Err(e) => r == Result::<(), LibError>::Err(e),
            }),
    ;

    fn on_node(&self, element_id: &Element, parameters: &mut WalkParams, data: &mut Accumulator)
        -> (r: Result<(), LibError>)
        ensures
            self.wf() && self.elem_ok(*element_id) ==> (match self.on_node_spec(
                elem_model(*element_id),
                *old(parameters),
                acc_view(&*old(data)),
            ) {
                Ok(pa) => r is Ok && *final(parameters) == pa.0 && acc_view(&*final(data))
                    == pa.1,
                Err(e) => r == Result::<(), LibError>::Err(e),
            }),
    ;

    fn on_child(
        &self,
        child_element_id: &Element,
        parameters: &mut WalkParams,
        data: &mut Accumulator,
    ) -> (r: Result<(), LibError>)
        ensures
            self.wf() && self.elem_ok(*child_element_id) ==> (match self.on_child_spec(
                elem_model(*child_element_id),
                *old(parameters),
                acc_view(&*old(data)),
            ) {
                Ok(pa) => r is Ok && *final(parameters) == pa.0 && acc_view(&*final(data))
                    == pa.1,
                Err(e) => r == Result::<(), LibError>::Err(e),
            }),
    ;

    fn post_walk_update(&self, element_id: &Element, data: &mut Accumulator) -> (r: Result<
        (),
        LibError,
    >)
        ensures
            self.wf() && self.elem_ok(*element_id) ==> (match self.post_walk_spec(
                elem_model(*element_id),
                acc_view(&*old(data)),
            ) {
                Ok(a) => r is Ok && acc_view(&*final(data)) == a,
                Err(e) => r == Result::<(), LibError>::Err(e),
            }),
    ;

    fn finish_recursion(&self, data: &mut Accumulator) -> (r: Result<(), LibError>)
        ensures
            self.wf() ==> (match self.finish_recursion_spec(acc_view(&*old(data))) {
                Ok(a) => r is Ok && acc_view(&*final(data)) == a,
                Err(e) => r == Result::<(), LibError>::Err(e),
            }),
    ;
}

/// What the walk computes from `item` onward: the exact fold of the hooks
/// over the structure in depth-first order, child lists in reported order.
pub open spec fn walk_spec<W: WalkTree>(
    w: &W,
    item: Option<ElemModel>,
    acc: AccModel,
    fuel: nat,
) -> Result<AccModel, LibError>
    decreases fuel, (if item is None {
        2int
    } else {
        1int
    }), 0int,
{
    match item {
        Option::None => match w.root_spec() {
            Err(e) => Err(e),
            Ok(root) => match w.init_walk_spec(root, acc) {
                Err(e) => Err(e),
                Ok(a1) => match walk_spec(w, Some(root), a1, fuel) {
                    Err(e) => Err(e),
                    Ok(a2) => w.post_walk_spec(root, a2),
                },
            },
        },
        Option::Some(e) => match w.children_spec(e) {
            Err(er) => Err(er),
            Ok(children) => {
                if children.len() == 0 {
                    w.finish_trajectory_spec(e, acc)
                } else {
                    match w.on_node_spec(e, WalkParams::zero_spec(), acc) {
                        Err(er) => Err(er),
                        Ok(pa) => match walk_children_spec(w, children, 0, pa.0, pa.1, fuel) {
                            Err(er) => Err(er),
                            Ok(a2) => w.finish_recursion_spec(a2),
                        },
                    }
                }
            },
        },
    }
}

/// The fold over the children from position `k` on: each child sees
/// `on_child`, its own subtree walk with one unit less fuel, and
/// `post_walk_update`.
pub open spec fn walk_children_spec<W: WalkTree>(
    w: &W,
    children: Seq<ElemModel>,
    k: int,
    params: WalkParams,
    acc: AccModel,
    fuel: nat,
) -> Result<AccModel, LibError>
    decreases fuel, 0int, (if children.len() - k >= 0 {
        children.len() - k
    } else {
        0int
    }),
{
    if k >= children.len() {
        Ok(acc)
    } else if fuel == 0 {
        Err(LibError::TooDeep)
    } else {
        match w.on_child_spec(children[k], params, acc) {
            Err(e) => Err(e),
            Ok(pa) => match walk_spec(w, Some(children[k]), pa.1, (fuel - 1) as nat) {
                Err(e) => Err(e),
                Ok(a2) => match w.post_walk_spec(children[k], a2) {
                    Err(e) => Err(e),
                    Ok(a3) => walk_children_spec(w, children, k + 1, pa.0, a3, fuel),
                },
            },
        }
    }
}

/// A walkable structure: a root and a children relation, with the engine's
/// `walk` provided for every implementor.
pub trait WalkTree: WalkActions + Sized {
    /// Which element is the root, or why there is none.
    spec fn root_spec(&self) -> Result<ElemModel, LibError>;

    fn get_root_element(&self) -> (r: Result<Element, LibError>)
        ensures
            self.wf() ==> (match self.root_spec() {
                Ok(m) => r is Ok && (r matches Ok(e) ==> elem_model(e) == m && self.elem_ok(e)),
                Err(e) => r == Result::<Element, LibError>::Err(e),
            }),
    ;

    /// Which elements are `e`'s children, in the structure's order.
    spec fn children_spec(&self, e: ElemModel) -> Result<Seq<ElemModel>, LibError>;

    fn get_children_ids(&self, element_id: &Element) -> (r: Result<Vec<Element>, LibError>)
        ensures
            self.wf() && self.elem_ok(*element_id) ==> (match self.children_spec(
                elem_model(*element_id),
            ) {
                Ok(cs) => r is Ok && (r matches Ok(v) ==> v@.map_values(|c: Element| elem_model(c))
                    == cs && (forall|k: int|
                    0 <= k < v@.len() ==> self.elem_ok(#[trigger] v@[k]))),
                Err(e) => r == Result::<Vec<Element>, LibError>::Err(e),
            }),
    ;
}

/// The engine itself: one depth-first walk from `item` (`None` starts at the
/// root), spending at most `fuel` levels of nesting and folding the hooks in
/// depth-first order, exactly as `walk_spec` says.
pub fn walk<W: WalkTree>(
    w: &W,
    item: Option<Element>,
    data: &mut Accumulator,
    fuel: usize,
) -> (r: Result<(), LibError>)
    requires
        w.wf(),
        (match item {
            Option::Some(e) => w.elem_ok(e),
            Option::None => true,
        }),
    ensures
        (match walk_spec(w, opt_model(item), acc_view(&*old(data)), fuel as nat) {
            Ok(a) => r is Ok && acc_view(&*final(data)) == a,
            Err(e) => r == Result::<(), LibError>::Err(e),
        }),
    decreases fuel, (if item is None {
        1int
    } else {
        0int
    }),
{
    match item {
        None => {
            let root: Element = match w.get_root_element() {
                Ok(root) => root,
                Err(e) => {
                    return Err(e);
                },
            };
            match w.init_walk(&root, data) {
                Ok(()) => (),
                Err(e) => {
                    return Err(e);
                },
            }
            match walk(w, Some(root.dup()), data, fuel) {
                Ok(()) => (),
                Err(e) => {
                    return Err(e);
                },
            }
            w.post_walk_update(&root, data)
        },
        Some(element_id) => {
            let ghost item0 = Some(elem_model(element_id));
            let ghost acc0 = acc_view(&*data);
            let children: Vec<Element> = match w.get_children_ids(&element_id) {
                Ok(cs) => cs,
                Err(e) => {
                    return Err(e);
                },
            };
            let ghost cs = children@.map_values(|c: Element| elem_model(c));
            if children.len() == 0 {
                return w.finish_trajectory(&element_id, data);
            }
            let mut parameters: WalkParams = WalkParams::zero();
            match w.on_node(&element_id, &mut parameters, data) {
                Ok(()) => (),
                Err(e) => {
                    return Err(e);
                },
            }
            let ghost whole = walk_children_spec(w, cs, 0, parameters, acc_view(&*data), fuel as nat);
            proof {
                assert(walk_spec(w, item0, acc0, fuel as nat) == (match whole {
                    Ok(a2) => w.finish_recursion_spec(a2),
                    Err(e) => Result::<AccModel, LibError>::Err(e),
                }));
            }
            let mut k: usize = 0;
            while k < children.len()
                invariant
                    k <= children@.len(),
                    item0 == opt_model(item),
                    acc0 == acc_view(&*old(data)),
                    cs == children@.map_values(|c: Element| elem_model(c)),
                    w.wf(),
                    forall|j: int| 0 <= j < children@.len() ==> w.elem_ok(#[trigger] children@[j]),
                    whole == walk_children_spec(
                        w,
                        cs,
                        k as int,
                        parameters,
                        acc_view(&*data),
                        fuel as nat,
                    ),
                    (walk_spec(w, item0, acc0, fuel as nat) == (match whole {
                        Ok(a2) => w.finish_recursion_spec(a2),
                        Err(e) => Result::<AccModel, LibError>::Err(e),
                    })),
                decreases children@.len() - k,
            {
                if fuel == 0 {
                    proof {
                        assert(whole == Result::<AccModel, LibError>::Err(LibError::TooDeep));
                    }
                    return Err(LibError::TooDeep);
                }
                let child: &Element = &children[k];
                proof {
                    assert(cs[k as int] == elem_model(children@[k as int]));
                }
                match w.on_child(child, &mut parameters, data) {
                    Ok(()) => (),
                    Err(e) => {
                        proof {
                            assert(whole == Result::<AccModel, LibError>::Err(e));
                        }
                        return Err(e);
                    },
                }
                match walk(w, Some(child.dup()), data, fuel - 1) {
                    Ok(()) => (),
                    Err(e) => {
                        proof {
                            assert(whole == Result::<AccModel, LibError>::Err(e));
                        }
                        return Err(e);
                    },
                }
                match w.post_walk_update(child, data) {
                    Ok(()) => (),
                    Err(e) => {
                        proof {
                            assert(whole == Result::<AccModel, LibError>::Err(e));
                        }
                        return Err(e);
                    },
                }
                k = k + 1;
            }
            proof {
                assert(whole == Result::<AccModel, LibError>::Ok(acc_view(&*data)));
            }
            w.finish_recursion(data)
        },
    }
}

/// The elements a walk from `e` visits, in order: the element itself, then
/// its children's subtrees in the structure's reported order, within the
/// depth budget.  Only the structure's root and children relations matter;
/// no component hook can change this order.
pub open spec fn visit_order<W: WalkTree>(w: &W, e: ElemModel, fuel: nat) -> Seq<ElemModel>
    decreases fuel, 1int, 0int,
{
    match w.children_spec(e) {
        Err(_) => seq![e],
        Ok(cs) => {
            if cs.len() == 0 {
                seq![e]
            } else {
                seq![e] + visit_kids(w, cs, 0, fuel)
            }
        },
    }
}

/// The concatenated visit orders of the children `cs[k..]`.
pub open spec fn visit_kids<W: WalkTree>(
    w: &W,
    cs: Seq<ElemModel>,
    k: int,
    fuel: nat,
) -> Seq<ElemModel>
    decreases fuel, 0int, (if cs.len() - k >= 0 {
        cs.len() - k
    } else {
        0int
    }),
{
    if k >= cs.len() || fuel == 0 {
        Seq::<ElemModel>::empty()
    } else {
        visit_order(w, cs[k], (fuel - 1) as nat) + visit_kids(w, cs, k + 1, fuel)
    }
}

/// Traversal order is deterministic: two structures that report the same
/// children for every element are walked in the same element order, whatever
/// components ride along.  In particular, repeated walks over one structure
/// visit its elements identically.
pub proof fn lemma_visit_order_deterministic<W1: WalkTree, W2: WalkTree>(
    w1: &W1,
    w2: &W2,
    e: ElemModel,
    fuel: nat,
)
    requires
        forall|m: ElemModel| #[trigger] w1.children_spec(m) == w2.children_spec(m),
    ensures
        visit_order(w1, e, fuel) == visit_order(w2, e, fuel),
    decreases fuel, 1int, 0int,
{
    match w1.children_spec(e) {
        Err(_) => {
        },
        Ok(cs) => {
            if cs.len() != 0 {
                lemma_visit_kids_deterministic(w1, w2, cs, 0, fuel);
            }
        },
    }
}

proof fn lemma_visit_kids_deterministic<W1: WalkTree, W2: WalkTree>(
    w1: &W1,
    w2: &W2,
    cs: Seq<ElemModel>,
    k: int,
    fuel: nat,
)
    requires
        forall|m: ElemModel| #[trigger] w1.children_spec(m) == w2.children_spec(m),
    ensures
        visit_kids(w1, cs, k, fuel) == visit_kids(w2, cs, k, fuel),
    decreases fuel, 0int, (if cs.len() - k >= 0 {
        cs.len() - k
    } else {
        0int
    }),
{
    if k < cs.len() && fuel != 0 {
        lemma_visit_order_deterministic(w1, w2, cs[k], (fuel - 1) as nat);
        lemma_visit_kids_deterministic(w1, w2, cs, k + 1, fuel);
    }
}

} // verus!
