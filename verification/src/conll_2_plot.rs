//! Dependency-to-plot extraction: assigns every dependency arc a stacking
//! height so that nested arcs rise above the arcs they span, by a greedy
//! scan in traversal order.
//!
//! Per token position two slots remember the greatest height of an arc that
//! ends there from the left and from the right; a new arc rises one above
//! everything recorded strictly inside its span and at its own endpoints.
//! The root token gets the sentinel height `-1`: no arc is drawn for it.
//! Children are visited nearest first, so heights grow outward from each
//! token, the way nested parentheses close.

use vstd::prelude::*;
use crate::errors::LibError;
use crate::generic_traits::Structure2PlotBuilder;
use crate::string_2_conll::Token;
use crate::string_2_conll::TokenModel;
use crate::string_2_conll::token_models;
use crate::walk_tree::Accumulator;
use crate::walk_tree::AccModel;
use crate::walk_tree::acc_view;
use crate::walk_tree::Element;
use crate::walk_tree::ElemModel;
use crate::walk_tree::elem_model;
use crate::walk_tree::WalkActions;
use crate::walk_tree::WalkParams;
use crate::walk_tree::WalkTree;
use crate::walk_tree::walk;
use crate::walk_tree::walk_spec;

verus! {

/// The drawing data of one token: the arc runs from position `start` (the
/// head) to `end` (the token itself) at `height`; `-1` means no arc.  The
/// labels are the token's dependency relation, part of speech and form.
pub struct ConllPlotData {
    pub start: u64,
    pub end: u64,
    pub deprel: String,
    pub pos: String,
    pub form: String,
    pub height: i64,
}

/// The mathematical value of one `ConllPlotData`.
pub struct ConllPlotModel {
    pub start: int,
    pub end: int,
    pub deprel: Seq<char>,
    pub pos: Seq<char>,
    pub form: Seq<char>,
    pub height: int,
}

impl ConllPlotData {
    /// The model this record denotes.
    pub open spec fn model(&self) -> ConllPlotModel {
        ConllPlotModel {
            start: self.start as int,
            end: self.end as int,
            deprel: self.deprel@,
            pos: self.pos@,
            form: self.form@,
            height: self.height as int,
        }
    }
}

/// The two height slots of one token position: the greatest height yet
/// assigned to an arc ending here from the left, and from the right.
#[derive(Clone, Copy, PartialEq, Eq, Structural, Debug)]
pub struct HeightSlots {
    pub from_left: u64,
    pub from_right: u64,
}

/// The working state of one dependency walk: the plot records produced so
/// far and the height slots per token position.
pub struct WalkData {
    pub conll_plot_data: Vec<ConllPlotData>,
    pub walk_args: Vec<HeightSlots>,
}

/// The mathematical value of a `WalkData`.
pub struct WdModel {
    pub plot: Seq<ConllPlotModel>,
    pub slots: Seq<HeightSlots>,
}

impl WalkData {
    /// The model this state denotes.
    pub open spec fn model(&self) -> WdModel {
        WdModel {
            plot: self.conll_plot_data@.map_values(|d: ConllPlotData| d.model()),
            slots: self.walk_args@,
        }
    }
}

/// The positions among the first `n` tokens whose head equals their id: the
/// root candidates.
pub open spec fn roots_upto(ts: Seq<TokenModel>, n: int) -> Seq<int>
    decreases n,
{
    if n <= 0 {
        Seq::<int>::empty()
    } else if ts[n - 1].head == ts[n - 1].id {
        roots_upto(ts, n - 1).push(n - 1)
    } else {
        roots_upto(ts, n - 1)
    }
}

/// Root candidates found in a prefix stay found in the whole.
pub proof fn lemma_roots_upto(ts: Seq<TokenModel>, n: int)
    requires
        n <= ts.len(),
    ensures
        forall|k: int|
            0 <= k < roots_upto(ts, n).len() ==> {
                let j = #[trigger] roots_upto(ts, n)[k];
                0 <= j < n && ts[j].head == ts[j].id
            },
        forall|j: int| 0 <= j < n && ts[j].head == ts[j].id ==> roots_upto(ts, n).contains(j),
        forall|k1: int, k2: int|
            0 <= k1 < k2 < roots_upto(ts, n).len() ==> #[trigger] roots_upto(ts, n)[k1]
                < #[trigger] roots_upto(ts, n)[k2],
    decreases n,
{
    if n > 0 {
        lemma_roots_upto(ts, n - 1);
        let prev = roots_upto(ts, n - 1);
        let cur = roots_upto(ts, n);
        assert forall|j: int| 0 <= j < n && ts[j].head == ts[j].id implies cur.contains(j) by {
            if j < n - 1 {
                assert(prev.contains(j));
                let k = choose|k: int| 0 <= k < prev.len() && prev[k] == j;
                assert(cur[k] == j);
            } else {
                assert(cur[cur.len() - 1] == j);
            }
        }
    }
}

/// Whether token `j` hangs off token `i`: its head names `i`'s id and it is
/// not `i` itself.
pub open spec fn arc_cand(ts: Seq<TokenModel>, i: int, j: int) -> bool {
    0 <= j < ts.len() && j != i && ts[j].head == ts[i].id
}

/// The children of token `i` from distance `d` outward: for each distance
/// the left candidate first, then the right, matching a stable sort of the
/// candidates by ascending distance.
pub open spec fn arc_kids(ts: Seq<TokenModel>, i: int, d: int) -> Seq<ElemModel>
    decreases ts.len() + 1 - d,
{
    if d < 1 || d > ts.len() {
        Seq::<ElemModel>::empty()
    } else {
        (if arc_cand(ts, i, i - d) {
            seq![ElemModel::Tok(i - d)]
        } else {
            Seq::<ElemModel>::empty()
        }) + (if arc_cand(ts, i, i + d) {
            seq![ElemModel::Tok(i + d)]
        } else {
            Seq::<ElemModel>::empty()
        }) + arc_kids(ts, i, d + 1)
    }
}

/// The larger of two heights.
pub open spec fn max2(x: int, y: int) -> int {
    if x >= y {
        x
    } else {
        y
    }
}

/// The greatest height recorded in either slot of positions `[a, b)`.
pub open spec fn max_slots(slots: Seq<HeightSlots>, a: int, b: int) -> int
    decreases b - a,
{
    if !(0 <= a < b <= slots.len()) {
        0
    } else {
        max2(
            max2(slots[a].from_left as int, slots[a].from_right as int),
            max_slots(slots, a + 1, b),
        )
    }
}

/// The plot record of one token at a given arc height.
pub open spec fn arc_plot_model(t: TokenModel, h: int) -> ConllPlotModel {
    ConllPlotModel {
        start: t.head,
        end: t.id,
        deprel: t.deprel,
        pos: t.pos,
        form: t.form,
        height: h,
    }
}

/// What visiting token `i` adds to the walk state: the root gets height
/// `-1`; any other token's arc rises one above everything recorded inside
/// its span and at its endpoints, which both remember the new height.
pub open spec fn extract_spec(ts: Seq<TokenModel>, i: int, wd: WdModel) -> Result<
    WdModel,
    LibError,
> {
    if !(0 <= i < ts.len()) {
        Err(LibError::TokenIdOutOfRange)
    } else {
        let id = ts[i].id;
        let head = ts[i].head;
        if id == head {
            Ok(WdModel { plot: wd.plot.push(arc_plot_model(ts[i], -1)), slots: wd.slots })
        } else if !(0 <= id < wd.slots.len() && 0 <= head < wd.slots.len()) {
            Err(LibError::TokenIdOutOfRange)
        } else {
            let m = if id < head {
                max2(
                    max_slots(wd.slots, id + 1, head),
                    max2(wd.slots[id].from_right as int, wd.slots[head].from_left as int),
                )
            } else {
                max2(
                    max_slots(wd.slots, head + 1, id),
                    max2(wd.slots[id].from_left as int, wd.slots[head].from_right as int),
                )
            };
            if m + 1 > i64::MAX {
                Err(LibError::ArithmeticOverflow)
            } else {
                let h = m + 1;
                let slots2 = if id < head {
                    wd.slots.update(
                        id,
                        HeightSlots { from_right: h as u64, ..wd.slots[id] },
                    ).update(head, HeightSlots { from_left: h as u64, ..wd.slots[head] })
                } else {
                    wd.slots.update(
                        id,
                        HeightSlots { from_left: h as u64, ..wd.slots[id] },
                    ).update(head, HeightSlots { from_right: h as u64, ..wd.slots[head] })
                };
                Ok(WdModel { plot: wd.plot.push(arc_plot_model(ts[i], h)), slots: slots2 })
            }
        }
    }
}

impl ConllPlotData {
    /// An equal copy of the record.
    pub fn duplicate(&self) -> (r: ConllPlotData)
        ensures
            r.model() == self.model(),
    {
        ConllPlotData {
            start: self.start,
            end: self.end,
            deprel: self.deprel.clone(),
            pos: self.pos.clone(),
            form: self.form.clone(),
            height: self.height,
        }
    }
}

/// Computes the arc heights and plot records of a dependency sequence.
pub struct Conll2Plot {
    pub tokens: Vec<Token>,
    pub output: Option<WalkData>,
}

impl Conll2Plot {
    /// The greatest height recorded in either slot of `v[a..b]`.
    fn max_slots_exec(v: &Vec<HeightSlots>, a: usize, b: usize) -> (m: u64)
        requires
            b <= v@.len(),
        ensures
            m as int == max_slots(v@, a as int, b as int),
    {
        let mut m: u64 = 0;
        let mut j: usize = b;
        while j > a
            invariant
                b <= v@.len(),
                a <= j <= b || (j == b && b <= a),
                m as int == max_slots(v@, j as int, b as int),
            decreases j,
        {
            let x: u64 = if v[j - 1].from_left >= v[j - 1].from_right {
                v[j - 1].from_left
            } else {
                v[j - 1].from_right
            };
            if x > m {
                m = x;
            }
            j = j - 1;
            proof {
                lemma_max_slots_step(v@, j as int, b as int);
            }
        }
        m
    }

    /// Visits one token: pushes its plot record and raises its endpoints'
    /// slots, exactly as `extract_spec` says.
    fn extract(&self, i: usize, wd: &WalkData) -> (r: Result<WalkData, LibError>)
        requires
            i < self.tokens@.len(),
        ensures
            (match r {
                Ok(w2) => extract_spec(token_models(self.tokens@), i as int, wd.model())
                    == Result::<WdModel, LibError>::Ok(w2.model()),
                Err(e) => extract_spec(token_models(self.tokens@), i as int, wd.model())
                    == Result::<WdModel, LibError>::Err(e),
            }),
    {
        let ghost ts = token_models(self.tokens@);
        let t: &Token = &self.tokens[i];
        let id: usize = t.id;
        let head: usize = t.head;
        if id == head {
            let mut plot: Vec<ConllPlotData> = Self::copy_plot(&wd.conll_plot_data);
            let rec: ConllPlotData = ConllPlotData {
                start: head as u64,
                end: id as u64,
                deprel: t.deprel.clone(),
                pos: t.pos.clone(),
                form: t.form.clone(),
                height: -1,
            };
            proof {
                assert((wd.model().plot.push(rec.model())) =~~= (wd.model().plot + seq![
                    arc_plot_model(ts[i as int], -1),
                ]));
                assert(plot@.map_values(|d: ConllPlotData| d.model()).push(rec.model())
                    =~~= wd.model().plot.push(arc_plot_model(ts[i as int], -1)));
            }
            plot.push(rec);
            let slots: Vec<HeightSlots> = Self::copy_slots(&wd.walk_args);
            let out = WalkData { conll_plot_data: plot, walk_args: slots };
            proof {
                assert(out.model().plot =~~= wd.model().plot.push(arc_plot_model(ts[i as int], -1)));
                assert(out.model().slots =~= wd.model().slots);
            }
            return Ok(out);
        }
        if !(id < wd.walk_args.len() && head < wd.walk_args.len()) {
            return Err(LibError::TokenIdOutOfRange);
        }
        let (lo, hi): (usize, usize) = if id < head {
            (id, head)
        } else {
            (head, id)
        };
        let interior: u64 = Self::max_slots_exec(&wd.walk_args, lo + 1, hi);
        let bound_a: u64 = if id < head {
            wd.walk_args[id].from_right
        } else {
            wd.walk_args[id].from_left
        };
        let bound_b: u64 = if id < head {
            wd.walk_args[head].from_left
        } else {
            wd.walk_args[head].from_right
        };
        let mut m: u64 = interior;
        if bound_a > m {
            m = bound_a;
        }
        if bound_b > m {
            m = bound_b;
        }
        if m >= i64::MAX as u64 {
            return Err(LibError::ArithmeticOverflow);
        }
        let h: u64 = m + 1;
        let mut slots: Vec<HeightSlots> = Self::copy_slots(&wd.walk_args);
        let old_id_slot: HeightSlots = slots[id];
        let old_head_slot: HeightSlots = slots[head];
        if id < head {
            slots.set(id, HeightSlots { from_right: h, ..old_id_slot });
            slots.set(head, HeightSlots { from_left: h, ..old_head_slot });
        } else {
            slots.set(id, HeightSlots { from_left: h, ..old_id_slot });
            slots.set(head, HeightSlots { from_right: h, ..old_head_slot });
        }
        let mut plot: Vec<ConllPlotData> = Self::copy_plot(&wd.conll_plot_data);
        let rec: ConllPlotData = ConllPlotData {
            start: head as u64,
            end: id as u64,
            deprel: t.deprel.clone(),
            pos: t.pos.clone(),
            form: t.form.clone(),
            height: h as i64,
        };
        proof {
            assert(plot@.map_values(|d: ConllPlotData| d.model()).push(rec.model())
                =~~= wd.model().plot.push(arc_plot_model(ts[i as int], h as int)));
        }
        plot.push(rec);
        let out = WalkData { conll_plot_data: plot, walk_args: slots };
        proof {
            assert(out.model().plot =~~= wd.model().plot.push(arc_plot_model(ts[i as int], h as int)));
            let spec_slots = (match extract_spec(ts, i as int, wd.model()) {
                Ok(w2) => w2.slots,
                Err(_) => Seq::<HeightSlots>::empty(),
            });
            assert(out.model().slots =~= spec_slots);
        }
        Ok(out)
    }

    /// A copy of the height slots, value for value.
    fn copy_slots(v: &Vec<HeightSlots>) -> (r: Vec<HeightSlots>)
        ensures
            r@ == v@,
    {
        let mut r: Vec<HeightSlots> = Vec::new();
        let mut k: usize = 0;
        while k < v.len()
            invariant
                k <= v@.len(),
                r@ == v@.subrange(0, k as int),
            decreases v@.len() - k,
        {
            r.push(v[k]);
            k = k + 1;
            proof {
                assert(r@ =~= v@.subrange(0, k as int));
            }
        }
        proof {
            assert(r@ =~= v@);
        }
        r
    }

    /// A copy of the plot records, model for model.
    fn copy_plot(v: &Vec<ConllPlotData>) -> (r: Vec<ConllPlotData>)
        ensures
            r@.map_values(|d: ConllPlotData| d.model()) == v@.map_values(
                |d: ConllPlotData| d.model(),
            ),
    {
        let mut r: Vec<ConllPlotData> = Vec::new();
        let mut k: usize = 0;
        while k < v.len()
            invariant
                k <= v@.len(),
                (r@.map_values(|d: ConllPlotData| d.model()) == v@.subrange(0, k as int).map_values(
                    |d: ConllPlotData| d.model(),
                )),
            decreases v@.len() - k,
        {
            let d: ConllPlotData = v[k].duplicate();
            proof {
                assert(r@.push(d).map_values(|x: ConllPlotData| x.model()) =~~= r@.map_values(
                    |x: ConllPlotData| x.model(),
                ) + seq![d.model()]);
                assert(v@.subrange(0, k as int + 1).map_values(|x: ConllPlotData| x.model())
                    =~~= v@.subrange(0, k as int).map_values(|x: ConllPlotData| x.model()) + seq![
                    v@[k as int].model(),
                ]);
            }
            r.push(d);
            k = k + 1;
        }
        proof {
            assert(v@.subrange(0, v@.len() as int) =~= v@);
            assert(r@.map_values(|d: ConllPlotData| d.model()) =~~= v@.map_values(
                |d: ConllPlotData| d.model(),
            ));
        }
        r
    }
}

/// Unfolding one step of `max_slots` from the left.
proof fn lemma_max_slots_step(slots: Seq<HeightSlots>, a: int, b: int)
    requires
        0 <= a < b <= slots.len(),
    ensures
        max_slots(slots, a, b) == max2(
            max2(slots[a].from_left as int, slots[a].from_right as int),
            max_slots(slots, a + 1, b),
        ),
{
}

impl WalkActions for Conll2Plot {
    open spec fn wf(&self) -> bool {
        true
    }

    open spec fn elem_ok(&self, e: Element) -> bool {
        match e {
            Element::Tid(i) => i < self.tokens@.len(),
            Element::Nid(_) => false,
        }
    }

    open spec fn init_walk_spec(&self, e: ElemModel, acc: AccModel) -> Result<AccModel, LibError> {
        Ok(acc)
    }

    open spec fn finish_trajectory_spec(&self, e: ElemModel, acc: AccModel) -> Result<
        AccModel,
        LibError,
    > {
        Ok(acc)
    }

    open spec fn on_node_spec(&self, e: ElemModel, params: WalkParams, acc: AccModel) -> Result<
        (WalkParams, AccModel),
        LibError,
    > {
        Ok((params, acc))
    }

    open spec fn on_child_spec(&self, e: ElemModel, params: WalkParams, acc: AccModel) -> Result<
        (WalkParams, AccModel),
        LibError,
    > {
        Ok((params, acc))
    }

    /// All the work happens here, once per token, after its subtree.
    open spec fn post_walk_spec(&self, e: ElemModel, acc: AccModel) -> Result<AccModel, LibError> {
        match (e, acc) {
            (ElemModel::Tok(i), AccModel::WD(wd)) => match extract_spec(
                token_models(self.tokens@),
                i,
                wd,
            ) {
                Ok(w2) => Ok(AccModel::WD(w2)),
                Err(er) => Err(er),
            },
            (ElemModel::Tok(_), _) => Err(LibError::AccumulatorMismatch),
            (ElemModel::Node(_), _) => Err(LibError::ElementMismatch),
        }
    }

    open spec fn finish_recursion_spec(&self, acc: AccModel) -> Result<AccModel, LibError> {
        Ok(acc)
    }

    fn init_walk(&self, element_id: &Element, data: &mut Accumulator) -> (r: Result<(), LibError>) {
        Ok(())
    }

    fn finish_trajectory(&self, element_id: &Element, data: &mut Accumulator) -> (r: Result<
        (),
        LibError,
    >) {
        Ok(())
    }

    fn on_node(&self, element_id: &Element, parameters: &mut WalkParams, data: &mut Accumulator)
        -> (r: Result<(), LibError>) {
        Ok(())
    }

    fn on_child(
        &self,
        child_element_id: &Element,
        parameters: &mut WalkParams,
        data: &mut Accumulator,
    ) -> (r: Result<(), LibError>) {
        Ok(())
    }

    fn post_walk_update(&self, element_id: &Element, data: &mut Accumulator) -> (r: Result<
        (),
        LibError,
    >) {
        let i: usize = match element_id {
            Element::Tid(i) => *i,
            Element::Nid(_) => {
                return Err(LibError::ElementMismatch);
            },
        };
        if i >= self.tokens.len() {
            return Err(LibError::TokenIdOutOfRange);
        }
        let wd_new: WalkData = match &*data {
            Accumulator::WD(wd) => match self.extract(i, wd) {
                Ok(w2) => w2,
                Err(e) => {
                    return Err(e);
                },
            },
            _ => {
                return Err(LibError::AccumulatorMismatch);
            },
        };
        *data = Accumulator::WD(wd_new);
        Ok(())
    }

    fn finish_recursion(&self, data: &mut Accumulator) -> (r: Result<(), LibError>) {
        Ok(())
    }
}

impl WalkTree for Conll2Plot {
    /// The unique token whose head is its own id; zero or several roots are
    /// the structural errors the scan reports.
    open spec fn root_spec(&self) -> Result<ElemModel, LibError> {
        let ts = token_models(self.tokens@);
        let roots = roots_upto(ts, ts.len() as int);
        if roots.len() == 0 {
            Err(LibError::NoRoot)
        } else if roots.len() >= 2 {
            Err(LibError::MultipleRoots)
        } else {
            Ok(ElemModel::Tok(roots[0]))
        }
    }

    fn get_root_element(&self) -> (r: Result<Element, LibError>) {
        let ghost ts = token_models(self.tokens@);
        let mut found: Option<usize> = None;
        let mut i: usize = 0;
        proof {
            lemma_roots_upto(ts, ts.len() as int);
        }
        while i < self.tokens.len()
            invariant
                i <= self.tokens@.len(),
                ts == token_models(self.tokens@),
                (match found {
                    Option::Some(r0) => roots_upto(ts, i as int) == seq![r0 as int] && r0 < i,
                    Option::None => roots_upto(ts, i as int) == Seq::<int>::empty(),
                }),
            decreases self.tokens@.len() - i,
        {
            let t: &Token = &self.tokens[i];
            proof {
                assert(ts[i as int] == self.tokens@[i as int].model());
            }
            if t.id == t.head {
                match found {
                    Some(_) => {
                        proof {
                            lemma_roots_upto(ts, ts.len() as int);
                            let cur = roots_upto(ts, i as int + 1);
                            assert(cur == roots_upto(ts, i as int).push(i as int));
                            lemma_roots_prefix(ts, i as int + 1, ts.len() as int);
                        }
                        return Err(LibError::MultipleRoots);
                    },
                    None => {
                        proof {
                            assert(roots_upto(ts, i as int + 1) =~= Seq::<int>::empty().push(
                                i as int,
                            ));
                        }
                        found = Some(i);
                    },
                }
            } else {
                proof {
                    assert(roots_upto(ts, i as int + 1) == roots_upto(ts, i as int));
                }
            }
            i = i + 1;
        }
        match found {
            Some(r0) => Ok(Element::Tid(r0)),
            None => Err(LibError::NoRoot),
        }
    }

    /// A token's children are the tokens naming it as head, nearest first,
    /// the left one first on equal distance.
    open spec fn children_spec(&self, e: ElemModel) -> Result<Seq<ElemModel>, LibError> {
        match e {
            ElemModel::Tok(i) => {
                if 0 <= i < self.tokens@.len() {
                    Ok(arc_kids(token_models(self.tokens@), i, 1))
                } else {
                    Err(LibError::TokenIdOutOfRange)
                }
            },
            ElemModel::Node(_) => Err(LibError::ElementMismatch),
        }
    }

    fn get_children_ids(&self, element_id: &Element) -> (r: Result<Vec<Element>, LibError>) {
        let ghost ts = token_models(self.tokens@);
        let i: usize = match element_id {
            Element::Tid(i) => *i,
            Element::Nid(_) => {
                return Err(LibError::ElementMismatch);
            },
        };
        let n: usize = self.tokens.len();
        if i >= n {
            return Err(LibError::TokenIdOutOfRange);
        }
        let my_id: usize = self.tokens[i].id;
        let mut out: Vec<Element> = Vec::new();
        let mut step: usize = 0;
        proof {
            assert(out@.map_values(|c: Element| elem_model(c)) =~= Seq::<ElemModel>::empty());
        }
        while step < n
            invariant
                step <= n,
                i < n == self.tokens@.len(),
                ts == token_models(self.tokens@),
                my_id as int == ts[i as int].id,
                (arc_kids(ts, i as int, 1) == out@.map_values(|c: Element| elem_model(c))
                    + arc_kids(ts, i as int, step as int + 1)),
                forall|j: int|
                    0 <= j < out@.len() ==> ((#[trigger] out@[j]) matches Element::Tid(x) && x
                        < self.tokens@.len()),
            decreases n - step,
        {
            let d: usize = step + 1;
            let ghost before = out@;
            if d <= i {
                let j: usize = i - d;
                if self.tokens[j].head == my_id {
                    proof {
                        assert(arc_cand(ts, i as int, i as int - d as int));
                    }
                    out.push(Element::Tid(j));
                }
            }
            if n - i > d {
                let j: usize = i + d;
                if self.tokens[j].head == my_id {
                    proof {
                        assert(arc_cand(ts, i as int, i as int + d as int));
                    }
                    out.push(Element::Tid(j));
                }
            }
            proof {
                assert(arc_kids(ts, i as int, d as int) == (if arc_cand(
                    ts,
                    i as int,
                    i as int - d as int,
                ) {
                    seq![ElemModel::Tok(i as int - d as int)]
                } else {
                    Seq::<ElemModel>::empty()
                }) + (if arc_cand(ts, i as int, i as int + d as int) {
                    seq![ElemModel::Tok(i as int + d as int)]
                } else {
                    Seq::<ElemModel>::empty()
                }) + arc_kids(ts, i as int, d as int + 1));
                if d as int <= i as int {
                    assert(arc_cand(ts, i as int, i as int - d as int) <==> (ts[i as int
                        - d as int].head == my_id as int));
                } else {
                    assert(!arc_cand(ts, i as int, i as int - d as int));
                }
                if (n - i) as int > d as int {
                    assert(arc_cand(ts, i as int, i as int + d as int) <==> (ts[i as int
                        + d as int].head == my_id as int));
                } else {
                    assert(!arc_cand(ts, i as int, i as int + d as int));
                }
                assert(arc_kids(ts, i as int, 1) =~= out@.map_values(|c: Element| elem_model(c))
                    + arc_kids(ts, i as int, d as int + 1));
            }
            step = step + 1;
        }
        proof {
            assert(arc_kids(ts, i as int, (n + 1) as int) =~= Seq::<ElemModel>::empty());
            assert(arc_kids(ts, i as int, 1) =~= out@.map_values(|c: Element| elem_model(c)));
        }
        Ok(out)
    }
}

/// The positions whose head equals their id, over a whole prefix extension.
proof fn lemma_roots_prefix(ts: Seq<TokenModel>, m: int, n: int)
    requires
        0 <= m <= n,
    ensures
        roots_upto(ts, n).len() >= roots_upto(ts, m).len(),
    decreases n - m,
{
    if m < n {
        lemma_roots_prefix(ts, m, n - 1);
    }
}

impl Structure2PlotBuilder<Vec<Token>> for Conll2Plot {
    open spec fn new_req(structure: &Vec<Token>) -> bool {
        true
    }

    open spec fn made_from(&self, structure: &Vec<Token>) -> bool {
        &&& token_models(self.tokens@) == token_models(structure@)
        &&& self.output is None
    }

    open spec fn build_req(&self) -> bool {
        true
    }

    open spec fn build_rel(pre: &Self, post: &Self, r: Result<(), LibError>) -> bool {
        let ts = token_models(pre.tokens@);
        let init = AccModel::WD(
            WdModel {
                plot: Seq::<ConllPlotModel>::empty(),
                slots: Seq::new(ts.len(), |j: int| HeightSlots { from_left: 0, from_right: 0 }),
            },
        );
        &&& token_models(post.tokens@) == token_models(pre.tokens@)
        &&& (roots_upto(ts, ts.len() as int).len() == 0 ==> r == Result::<(), LibError>::Err(
            LibError::NoRoot,
        ))
        &&& (roots_upto(ts, ts.len() as int).len() >= 2 ==> r == Result::<(), LibError>::Err(
            LibError::MultipleRoots,
        ))
        &&& match r {
            Ok(()) => (match walk_spec(pre, None, init, pre.tokens@.len() as nat) {
                Ok(a) => (a matches AccModel::WD(m)) && (match post.output {
                    Option::Some(wd) => wd.model() == (match a {
                        AccModel::WD(m) => m,
                        _ => arbitrary(),
                    }),
                    Option::None => false,
                }),
                Err(_) => false,
            }),
            Err(e) => walk_spec(pre, None, init, pre.tokens@.len() as nat) == Result::<
                AccModel,
                LibError,
            >::Err(e),
        }
    }

    /// Wraps a built token sequence, with no plot data yet.
    fn new(structure: Vec<Token>) -> (s: Self) {
        Conll2Plot { tokens: structure, output: None }
    }

    /// Runs the arc-height walk over the sequence and stores the plot data.
    /// A sequence without exactly one root is refused with the error naming
    /// which way the root count is wrong.
    fn build(&mut self) -> (r: Result<(), LibError>) {
        let ghost pre = *self;
        let n: usize = self.tokens.len();
        let mut slots: Vec<HeightSlots> = Vec::new();
        let mut k: usize = 0;
        while k < n
            invariant
                k <= n,
                slots@ =~= Seq::new(k as nat, |j: int| HeightSlots { from_left: 0, from_right: 0 }),
            decreases n - k,
        {
            slots.push(HeightSlots { from_left: 0, from_right: 0 });
            k = k + 1;
            proof {
                assert(slots@ =~= Seq::new(
                    k as nat,
                    |j: int| HeightSlots { from_left: 0, from_right: 0 },
                ));
            }
        }
        let empty_plot: Vec<ConllPlotData> = Vec::new();
        let wd = WalkData { conll_plot_data: empty_plot, walk_args: slots };
        let mut accumulator: Accumulator = Accumulator::WD(wd);
        let ghost a0 = acc_view(&accumulator);
        proof {
            assert(acc_view(&accumulator) matches AccModel::WD(m) && m.plot
                =~~= Seq::<ConllPlotModel>::empty());
        }
        let walk_r: Result<(), LibError> = walk(self, None, &mut accumulator, n);
        proof {
            let ts = token_models(self.tokens@);
            let roots = roots_upto(ts, ts.len() as int);
            if roots.len() == 0 {
                assert(walk_spec(self, None, a0, n as nat) == Result::<AccModel, LibError>::Err(
                    LibError::NoRoot,
                ));
            } else if roots.len() >= 2 {
                assert(walk_spec(self, None, a0, n as nat) == Result::<AccModel, LibError>::Err(
                    LibError::MultipleRoots,
                ));
            }
        }
        match walk_r {
            Err(e) => Err(e),
            Ok(()) => {
                match accumulator {
                    Accumulator::WD(out) => {
                        self.output = Some(out);
                        Ok(())
                    },
                    Accumulator::TPD(_) => {
                        proof {
                            assert(false);
                        }
                        Err(LibError::AccumulatorMismatch)
                    },
                    Accumulator::T2S(_) => {
                        proof {
                            assert(false);
                        }
                        Err(LibError::AccumulatorMismatch)
                    },
                    Accumulator::C2S(_) => {
                        proof {
                            assert(false);
                        }
                        Err(LibError::AccumulatorMismatch)
                    },
                }
            },
        }
    }
}


} // verus!
