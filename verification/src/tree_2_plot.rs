//! Tree-to-plot layout: assigns each tree node a point and an edge from its
//! parent, partitioning horizontal space proportionally to the number of
//! leaves in each subtree.
//!
//! Coordinates are exact integers in *half leaf units*: the root owns the
//! span `[0, 2 * leaves]`, a child's span is as wide as twice its own leaf
//! count, and a node sits at the midpoint of its span, one depth unit below
//! its parent.  A renderer scales these to pixels.

use vstd::prelude::*;
use id_tree::Tree;
use crate::errors::LibError;
use crate::generic_traits::Structure2PlotBuilder;
use crate::sub_tree_children::count_fuel;
use crate::sub_tree_children::subtree_count_fuel;
use crate::sub_tree_children::lemma_count_fuel_range;
use crate::tree_model::shape_wf;
use crate::tree_model::child_indexes;
use crate::tree_model::lemma_children_upto;
use crate::tree_store::tree_nodes;
use crate::tree_store::tree_canon;
use crate::tree_store::id_in_tree;
use crate::tree_store::node_index;
use crate::tree_store::tree_try_root;
use crate::tree_store::tree_try_label;
use crate::tree_store::tree_try_children;
use crate::tree_store::tree_node_count;
use crate::walk_tree::Accumulator;
use crate::walk_tree::AccModel;
use crate::walk_tree::acc_view;
use crate::walk_tree::Element;
use crate::walk_tree::ElemModel;
use crate::walk_tree::elem_model;
use crate::walk_tree::WalkActions;
use crate::walk_tree::WalkParams;
use crate::walk_tree::WalkTree;
use crate::walk_tree::walk;
use crate::walk_tree::walk_spec;

verus! {

/// The drawing data of one node: the parent's point, the node's own point,
/// and the node's span, all in half leaf units except the depths `py`, `y`;
/// plus the node's label.
pub struct TreePlotData {
    pub px: u64,
    pub py: u64,
    pub x: u64,
    pub y: u64,
    pub lo: u64,
    pub hi: u64,
    pub label: String,
}

/// The mathematical value of one `TreePlotData`.
pub struct PlotModel {
    pub px: int,
    pub py: int,
    pub x: int,
    pub y: int,
    pub lo: int,
    pub hi: int,
    pub label: Seq<char>,
}

impl TreePlotData {
    /// The model this record denotes.
    pub open spec fn model(&self) -> PlotModel {
        PlotModel {
            px: self.px as int,
            py: self.py as int,
            x: self.x as int,
            y: self.y as int,
            lo: self.lo as int,
            hi: self.hi as int,
            label: self.label@,
        }
    }
}

/// The models of a vector of plot records.
pub open spec fn plot_models(v: Seq<TreePlotData>) -> Seq<PlotModel> {
    v.map_values(|d: TreePlotData| d.model())
}

impl TreePlotData {
    /// An equal copy of the record.
    pub fn duplicate(&self) -> (r: TreePlotData)
        ensures
            r.model() == self.model(),
    {
        TreePlotData {
            px: self.px,
            py: self.py,
            x: self.x,
            y: self.y,
            lo: self.lo,
            hi: self.hi,
            label: self.label.clone(),
        }
    }
}

/// A copy of a vector of plot records, model for model.
fn copy_tpd(v: &Vec<TreePlotData>) -> (r: Vec<TreePlotData>)
    ensures
        plot_models(r@) == plot_models(v@),
{
    let mut r: Vec<TreePlotData> = Vec::new();
    let mut k: usize = 0;
    while k < v.len()
        invariant
            k <= v@.len(),
            plot_models(r@) == plot_models(v@.subrange(0, k as int)),
        decreases v@.len() - k,
    {
        let d: TreePlotData = v[k].duplicate();
        proof {
            assert(plot_models(r@.push(d)) =~~= plot_models(r@) + seq![d.model()]);
            assert(plot_models(v@.subrange(0, k as int + 1)) =~~= plot_models(
                v@.subrange(0, k as int),
            ) + seq![v@[k as int].model()]);
        }
        r.push(d);
        k = k + 1;
    }
    proof {
        assert(v@.subrange(0, v@.len() as int) =~= v@);
        assert(plot_models(r@) =~~= plot_models(v@));
    }
    r
}

/// Computes the node points and spans of a built tree.
pub struct Tree2Plot {
    pub tree: Tree<String>,
    pub budget: usize,
    pub output: Option<Vec<TreePlotData>>,
}

impl WalkActions for Tree2Plot {
    open spec fn wf(&self) -> bool {
        &&& tree_canon(self.tree)
        &&& shape_wf(tree_nodes(self.tree))
        &&& self.budget as int == tree_nodes(self.tree).len()
    }

    open spec fn elem_ok(&self, e: Element) -> bool {
        match e {
            Element::Nid(id) => id_in_tree(self.tree, id) && 0 <= node_index(id) < tree_nodes(
                self.tree,
            ).len(),
            Element::Tid(_) => false,
        }
    }

    /// The root's record: it owns the span `[0, 2 * leaves]` in half leaf
    /// units, sits at its midpoint at depth zero, with a degenerate edge.
    open spec fn init_walk_spec(&self, e: ElemModel, acc: AccModel) -> Result<AccModel, LibError> {
        match (e, acc) {
            (ElemModel::Node(i), AccModel::TPD(v)) => {
                match count_fuel(tree_nodes(self.tree), i, true, self.budget as nat) {
                    Err(er) => Err(er),
                    Ok(l) => {
                        if 2 * l > u64::MAX {
                            Err(LibError::ArithmeticOverflow)
                        } else {
                            Ok(
                                AccModel::TPD(
                                    v.push(
                                        PlotModel {
                                            px: l,
                                            py: 0,
                                            x: l,
                                            y: 0,
                                            lo: 0,
                                            hi: 2 * l,
                                            label: tree_nodes(self.tree)[i].0,
                                        },
                                    ),
                                ),
                            )
                        }
                    },
                }
            },
            (ElemModel::Node(_), _) => Err(LibError::AccumulatorMismatch),
            (ElemModel::Tok(_), _) => Err(LibError::ElementMismatch),
        }
    }

    open spec fn finish_trajectory_spec(&self, e: ElemModel, acc: AccModel) -> Result<
        AccModel,
        LibError,
    > {
        Ok(acc)
    }

    /// Entering a node loads the scratch buffer: the node's own point and
    /// span from its record (the last one pushed), its subtree's leaf total,
    /// and no space allocated yet.
    open spec fn on_node_spec(&self, e: ElemModel, params: WalkParams, acc: AccModel) -> Result<
        (WalkParams, AccModel),
        LibError,
    > {
        match (e, acc) {
            (ElemModel::Node(i), AccModel::TPD(v)) => {
                if v.len() == 0 {
                    Err(LibError::EmptyStructure)
                } else {
                    match count_fuel(tree_nodes(self.tree), i, true, self.budget as nat) {
                        Err(er) => Err(er),
                        Ok(l) => Ok(
                            (
                                WalkParams {
                                    x: v.last().x as u64,
                                    y: v.last().y as u64,
                                    lo: v.last().lo as u64,
                                    hi: v.last().hi as u64,
                                    total: l as u64,
                                    used: 0,
                                },
                                AccModel::TPD(v),
                            ),
                        ),
                    }
                }
            },
            (ElemModel::Node(_), _) => Err(LibError::AccumulatorMismatch),
            (ElemModel::Tok(_), _) => Err(LibError::ElementMismatch),
        }
    }

    /// Each child takes the next slice of the parent's span, twice its own
    /// leaf count wide, and sits at that slice's midpoint one level below.
    open spec fn on_child_spec(&self, e: ElemModel, params: WalkParams, acc: AccModel) -> Result<
        (WalkParams, AccModel),
        LibError,
    > {
        match (e, acc) {
            (ElemModel::Node(c), AccModel::TPD(v)) => {
                match count_fuel(tree_nodes(self.tree), c, true, self.budget as nat) {
                    Err(er) => Err(er),
                    Ok(l) => {
                        if 2 * l > u64::MAX {
                            Err(LibError::ArithmeticOverflow)
                        } else if params.lo + params.used > u64::MAX {
                            Err(LibError::ArithmeticOverflow)
                        } else if params.lo + params.used + 2 * l > u64::MAX {
                            Err(LibError::ArithmeticOverflow)
                        } else if params.y + 1 > u64::MAX {
                            Err(LibError::ArithmeticOverflow)
                        } else if params.used + 2 * l > u64::MAX {
                            Err(LibError::ArithmeticOverflow)
                        } else {
                            let new_lo = params.lo + params.used;
                            let rec = PlotModel {
                                px: params.x as int,
                                py: params.y as int,
                                x: new_lo + l,
                                y: params.y + 1,
                                lo: new_lo as int,
                                hi: new_lo + 2 * l,
                                label: tree_nodes(self.tree)[c].0,
                            };
                            Ok(
                                (
                                    WalkParams { used: (params.used + 2 * l) as u64, ..params },
                                    AccModel::TPD(v.push(rec)),
                                ),
                            )
                        }
                    },
                }
            },
            (ElemModel::Node(_), _) => Err(LibError::AccumulatorMismatch),
            (ElemModel::Tok(_), _) => Err(LibError::ElementMismatch),
        }
    }

    /// A pass-through that also checks the accumulator variant, so a
    /// finished walk is known to carry tree plot records.
    open spec fn post_walk_spec(&self, e: ElemModel, acc: AccModel) -> Result<AccModel, LibError> {
        match acc {
            AccModel::TPD(v) => Ok(AccModel::TPD(v)),
            _ => Err(LibError::AccumulatorMismatch),
        }
    }

    open spec fn finish_recursion_spec(&self, acc: AccModel) -> Result<AccModel, LibError> {
        Ok(acc)
    }

    fn init_walk(&self, element_id: &Element, data: &mut Accumulator) -> (r: Result<(), LibError>) {
        let nid = match element_id {
            Element::Nid(id) => id,
            Element::Tid(_) => {
                return Err(LibError::ElementMismatch);
            },
        };
        let mut v: Vec<TreePlotData> = match &*data {
            Accumulator::TPD(v) => copy_tpd(v),
            _ => {
                return Err(LibError::AccumulatorMismatch);
            },
        };
        let label: String = match tree_try_label(&self.tree, nid) {
            Some(l) => l,
            None => {
                return Err(LibError::ElementMismatch);
            },
        };
        let leaves: usize = match subtree_count_fuel(&self.tree, nid, true, self.budget) {
            Ok(l) => l,
            Err(e) => {
                return Err(e);
            },
        };
        let twice: u64 = match (leaves as u64).checked_mul(2) {
            Some(x) => x,
            None => {
                return Err(LibError::ArithmeticOverflow);
            },
        };
        let rec = TreePlotData {
            px: leaves as u64,
            py: 0,
            x: leaves as u64,
            y: 0,
            lo: 0,
            hi: twice,
            label,
        };
        proof {
            if self.wf() && self.elem_ok(*element_id) {
                let nodes = tree_nodes(self.tree);
                let i = node_index(*nid);
                let l = (match count_fuel(nodes, i, true, self.budget as nat) {
                    Ok(l) => l,
                    Err(_) => 0int,
                });
                assert(rec.model() == PlotModel {
                    px: l,
                    py: 0,
                    x: l,
                    y: 0,
                    lo: 0,
                    hi: 2 * l,
                    label: nodes[i].0,
                });
                assert(plot_models(v@.push(rec)) =~~= plot_models(v@) + seq![rec.model()]);
            }
        }
        v.push(rec);
        *data = Accumulator::TPD(v);
        proof {
            if self.wf() && self.elem_ok(*element_id) {
                let nodes = tree_nodes(self.tree);
                let i = node_index(*nid);
                let l = (match count_fuel(nodes, i, true, self.budget as nat) {
                    Ok(l) => l,
                    Err(_) => 0int,
                });
                let v0 = (match acc_view(&*old(data)) {
                    AccModel::TPD(v0) => v0,
                    _ => arbitrary(),
                });
                assert(plot_models(v@) =~~= v0.push(PlotModel {
                    px: l,
                    py: 0,
                    x: l,
                    y: 0,
                    lo: 0,
                    hi: 2 * l,
                    label: nodes[i].0,
                }));
            }
        }
        Ok(())
    }

    fn finish_trajectory(&self, element_id: &Element, data: &mut Accumulator) -> (r: Result<
        (),
        LibError,
    >) {
        Ok(())
    }

    fn on_node(&self, element_id: &Element, parameters: &mut WalkParams, data: &mut Accumulator)
        -> (r: Result<(), LibError>) {
        let nid = match element_id {
            Element::Nid(id) => id,
            Element::Tid(_) => {
                return Err(LibError::ElementMismatch);
            },
        };
        let last: TreePlotData = match &*data {
            Accumulator::TPD(v) => {
                if v.len() == 0 {
                    return Err(LibError::EmptyStructure);
                }
                v[v.len() - 1].duplicate()
            },
            _ => {
                return Err(LibError::AccumulatorMismatch);
            },
        };
        let leaves: usize = match subtree_count_fuel(&self.tree, nid, true, self.budget) {
            Ok(l) => l,
            Err(e) => {
                return Err(e);
            },
        };
        proof {
            if self.wf() && self.elem_ok(*element_id) {
                lemma_count_fuel_range(
                    tree_nodes(self.tree),
                    node_index(*nid),
                    true,
                    self.budget as nat,
                );
            }
        }
        *parameters = WalkParams {
            x: last.x,
            y: last.y,
            lo: last.lo,
            hi: last.hi,
            total: leaves as u64,
            used: 0,
        };
        Ok(())
    }

    fn on_child(
        &self,
        child_element_id: &Element,
        parameters: &mut WalkParams,
        data: &mut Accumulator,
    ) -> (r: Result<(), LibError>) {
        let nid = match child_element_id {
            Element::Nid(id) => id,
            Element::Tid(_) => {
                return Err(LibError::ElementMismatch);
            },
        };
        let mut v: Vec<TreePlotData> = match &*data {
            Accumulator::TPD(v) => copy_tpd(v),
            _ => {
                return Err(LibError::AccumulatorMismatch);
            },
        };
        let label: String = match tree_try_label(&self.tree, nid) {
            Some(l) => l,
            None => {
                return Err(LibError::ElementMismatch);
            },
        };
        let leaves: usize = match subtree_count_fuel(&self.tree, nid, true, self.budget) {
            Ok(l) => l,
            Err(e) => {
                return Err(e);
            },
        };
        let alloc: u64 = match (leaves as u64).checked_mul(2) {
            Some(x) => x,
            None => {
                return Err(LibError::ArithmeticOverflow);
            },
        };
        let new_lo: u64 = match parameters.lo.checked_add(parameters.used) {
            Some(x) => x,
            None => {
                return Err(LibError::ArithmeticOverflow);
            },
        };
        let new_hi: u64 = match new_lo.checked_add(alloc) {
            Some(x) => x,
            None => {
                return Err(LibError::ArithmeticOverflow);
            },
        };
        let new_y: u64 = match parameters.y.checked_add(1) {
            Some(x) => x,
            None => {
                return Err(LibError::ArithmeticOverflow);
            },
        };
        let new_used: u64 = match parameters.used.checked_add(alloc) {
            Some(x) => x,
            None => {
                return Err(LibError::ArithmeticOverflow);
            },
        };
        proof {
            assert(new_lo + (leaves as u64) <= new_hi);
        }
        let rec = TreePlotData {
            px: parameters.x,
            py: parameters.y,
            x: new_lo + (leaves as u64),
            y: new_y,
            lo: new_lo,
            hi: new_hi,
            label,
        };
        proof {
            if self.wf() && self.elem_ok(*child_element_id) {
                let nodes = tree_nodes(self.tree);
                let c = node_index(*nid);
                let l = (match count_fuel(nodes, c, true, self.budget as nat) {
                    Ok(l) => l,
                    Err(_) => 0int,
                });
                assert(rec.model() == PlotModel {
                    px: parameters.x as int,
                    py: parameters.y as int,
                    x: new_lo as int + l,
                    y: parameters.y as int + 1,
                    lo: new_lo as int,
                    hi: new_lo as int + 2 * l,
                    label: nodes[c].0,
                });
                assert(plot_models(v@.push(rec)) =~~= plot_models(v@) + seq![rec.model()]);
            }
        }
        v.push(rec);
        *data = Accumulator::TPD(v);
        *parameters = WalkParams { used: new_used, ..*parameters };
        proof {
            if self.wf() && self.elem_ok(*child_element_id) {
                let nodes = tree_nodes(self.tree);
                let c = node_index(*nid);
                let l = (match count_fuel(nodes, c, true, self.budget as nat) {
                    Ok(l) => l,
                    Err(_) => 0int,
                });
                let v0 = (match acc_view(&*old(data)) {
                    AccModel::TPD(v0) => v0,
                    _ => arbitrary(),
                });
                let p0 = *old(parameters);
                assert(plot_models(v@) =~~= v0.push(PlotModel {
                    px: p0.x as int,
                    py: p0.y as int,
                    x: p0.lo + p0.used + l,
                    y: p0.y as int + 1,
                    lo: p0.lo + p0.used,
                    hi: p0.lo + p0.used + 2 * l,
                    label: nodes[c].0,
                }));
                assert(*parameters == WalkParams { used: (p0.used + 2 * l) as u64, ..p0 });
            }
        }
        Ok(())
    }

    fn post_walk_update(&self, element_id: &Element, data: &mut Accumulator) -> (r: Result<
        (),
        LibError,
    >) {
        match &*data {
            Accumulator::TPD(_) => Ok(()),
            _ => Err(LibError::AccumulatorMismatch),
        }
    }

    fn finish_recursion(&self, data: &mut Accumulator) -> (r: Result<(), LibError>) {
        Ok(())
    }
}

impl WalkTree for Tree2Plot {
    /// The tree's root node, at slot zero; an empty tree has none.
    open spec fn root_spec(&self) -> Result<ElemModel, LibError> {
        if tree_nodes(self.tree).len() == 0 {
            Err(LibError::EmptyStructure)
        } else {
            Ok(ElemModel::Node(0))
        }
    }

    fn get_root_element(&self) -> (r: Result<Element, LibError>) {
        match tree_try_root(&self.tree) {
            Some(id) => Ok(Element::Nid(id)),
            None => Err(LibError::EmptyStructure),
        }
    }

    /// A node's children are the slots naming it as parent, in order.
    open spec fn children_spec(&self, e: ElemModel) -> Result<Seq<ElemModel>, LibError> {
        match e {
            ElemModel::Node(i) => {
                if 0 <= i < tree_nodes(self.tree).len() {
                    Ok(
                        child_indexes(tree_nodes(self.tree), i).map_values(
                            |j: int| ElemModel::Node(j),
                        ),
                    )
                } else {
                    Err(LibError::ElementMismatch)
                }
            },
            ElemModel::Tok(_) => Err(LibError::ElementMismatch),
        }
    }

    fn get_children_ids(&self, element_id: &Element) -> (r: Result<Vec<Element>, LibError>) {
        let nid = match element_id {
            Element::Nid(id) => id,
            Element::Tid(_) => {
                return Err(LibError::ElementMismatch);
            },
        };
        let ids: Vec<id_tree::NodeId> = match tree_try_children(&self.tree, nid) {
            Some(v) => v,
            None => {
                return Err(LibError::ElementMismatch);
            },
        };
        let mut out: Vec<Element> = Vec::new();
        let mut k: usize = 0;
        while k < ids.len()
            invariant
                k <= ids@.len(),
                out@.len() == k,
                forall|j: int| 0 <= j < k ==> #[trigger] out@[j] == Element::Nid(ids@[j]),
            decreases ids@.len() - k,
        {
            let e: Element = Element::Nid(ids[k].clone());
            out.push(e);
            k = k + 1;
        }
        proof {
            if self.wf() && self.elem_ok(*element_id) {
                let nodes = tree_nodes(self.tree);
                let i = node_index(*nid);
                lemma_children_upto(nodes, i, nodes.len() as int);
                assert(out@.map_values(|c: Element| elem_model(c)) =~= child_indexes(
                    nodes,
                    i,
                ).map_values(|j: int| ElemModel::Node(j)));
                assert forall|j: int| 0 <= j < out@.len() implies self.elem_ok(
                    #[trigger] out@[j],
                ) by {
                    assert(out@[j] == Element::Nid(ids@[j]));
                    assert(node_index(ids@[j]) == child_indexes(nodes, i)[j]);
                }
            }
        }
        Ok(out)
    }
}

impl Tree2Plot {
    /// The computed plot records; `build` must have run first.
    pub fn get_plot_data(self) -> (r: Vec<TreePlotData>)
        requires
            self.output is Some,
        ensures
            (match self.output {
                Option::Some(o) => plot_models(r@) == plot_models(o@),
                Option::None => false,
            }),
    {
        match self.output {
            Some(o) => o,
            None => Vec::new(),
        }
    }
}

impl Structure2PlotBuilder<Tree<String>> for Tree2Plot {
    open spec fn new_req(structure: &Tree<String>) -> bool {
        tree_canon(*structure) && shape_wf(tree_nodes(*structure))
    }

    open spec fn made_from(&self, structure: &Tree<String>) -> bool {
        &&& tree_nodes(self.tree) == tree_nodes(*structure)
        &&& self.wf()
        &&& self.output is None
    }

    open spec fn build_req(&self) -> bool {
        self.wf()
    }

    open spec fn build_rel(pre: &Self, post: &Self, r: Result<(), LibError>) -> bool {
        &&& tree_nodes(post.tree) == tree_nodes(pre.tree)
        &&& (tree_nodes(pre.tree).len() == 0 ==> r == Result::<(), LibError>::Err(
            LibError::EmptyStructure,
        ))
        &&& match r {
            Ok(()) => (match walk_spec(
                pre,
                None,
                AccModel::TPD(Seq::<PlotModel>::empty()),
                pre.budget as nat,
            ) {
                Ok(a) => (a matches AccModel::TPD(m)) && (match post.output {
                    Option::Some(o) => AccModel::TPD(plot_models(o@)) == a,
                    Option::None => false,
                }),
                Err(_) => false,
            }),
            Err(e) => walk_spec(
                pre,
                None,
                AccModel::TPD(Seq::<PlotModel>::empty()),
                pre.budget as nat,
            ) == Result::<AccModel, LibError>::Err(e),
        }
    }

    /// Wraps a built tree; remembers its node count as the walk budget.
    fn new(structure: Tree<String>) -> (s: Self) {
        let budget: usize = tree_node_count(&structure);
        Tree2Plot { tree: structure, budget, output: None }
    }

    /// Computes every node's point and span through one walk and stores the
    /// records.
    fn build(&mut self) -> (r: Result<(), LibError>) {
        let empty_rec: Vec<TreePlotData> = Vec::new();
        proof {
            assert(plot_models(empty_rec@) =~~= Seq::<PlotModel>::empty());
        }
        let mut accumulator: Accumulator = Accumulator::TPD(empty_rec);
        let ghost a0 = acc_view(&accumulator);
        let walk_r: Result<(), LibError> = walk(self, None, &mut accumulator, self.budget);
        proof {
            if tree_nodes(self.tree).len() == 0 {
                assert(walk_spec(self, None, a0, self.budget as nat) == Result::<
                    AccModel,
                    LibError,
                >::Err(LibError::EmptyStructure));
            }
        }
        match walk_r {
            Err(e) => Err(e),
            Ok(()) => {
                match accumulator {
                    Accumulator::TPD(out) => {
                        self.output = Some(out);
                        Ok(())
                    },
                    Accumulator::T2S(_) => {
                        proof {
                            assert(false);
                        }
                        Err(LibError::AccumulatorMismatch)
                    },
                    Accumulator::WD(_) => {
                        proof {
                            assert(false);
                        }
                        Err(LibError::AccumulatorMismatch)
                    },
                    Accumulator::C2S(_) => {
                        proof {
                            assert(false);
                        }
                        Err(LibError::AccumulatorMismatch)
                    },
                }
            },
        }
    }
}

} // verus!
