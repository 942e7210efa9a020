//! Dependency-to-string reconstruction: renders every token of a sequence
//! back to its ten tab-joined fields, one line per token, the inverse of the
//! tabular parser.  The walk engine is almost redundant here — the lines can
//! be read straight off the tokens — so the root hook serializes everything
//! and the arbitrary first token has no children, ending the walk at once.

use vstd::prelude::*;
use crate::errors::LibError;
use crate::generic_traits::Structure2PlotBuilder;
use crate::string_2_conll::Token;
use crate::string_2_conll::TokenModel;
use crate::string_2_conll::token_models;
use crate::string_2_conll::token_fields;
use crate::string_2_conll::token_row;
use crate::string_2_conll::parse_lines;
use crate::string_2_conll::parse_token_line;
use crate::string_2_conll::parse_token_fields;
use crate::text::canonical_dec;
use crate::text::split_seq;
use crate::text::join_char;
use crate::text::views_of;
use crate::text::render_dec_exec;
use crate::text::clone_lines;
use crate::text::lemma_join_split;
use crate::walk_tree::Accumulator;
use crate::walk_tree::AccModel;
use crate::walk_tree::acc_view;
use crate::walk_tree::Element;
use crate::walk_tree::ElemModel;
use crate::walk_tree::elem_model;
use crate::walk_tree::WalkActions;
use crate::walk_tree::WalkParams;
use crate::walk_tree::WalkTree;
use crate::walk_tree::walk;
use crate::walk_tree::walk_spec;

verus! {

/// The lines a token sequence serializes to.
pub open spec fn token_rows(ts: Seq<TokenModel>) -> Seq<Seq<char>> {
    ts.map_values(|t: TokenModel| token_row(t))
}

/// Renders one token back to its tab-joined row.
pub fn token_to_row(t: &Token) -> (r: String)
    ensures
        r@ == token_row(t.model()),
{
    let mut fields: Vec<String> = Vec::new();
    fields.push(render_dec_exec(t.get_token_id()));
    fields.push(t.get_token_form());
    fields.push(t.get_token_lemma());
    fields.push(t.get_token_pos());
    fields.push(t.get_token_xpos());
    fields.push(t.get_token_feats());
    fields.push(render_dec_exec(t.get_token_head()));
    fields.push(t.get_token_deprel());
    fields.push(t.get_token_deps());
    fields.push(t.get_token_misc());
    proof {
        assert(views_of(fields@) =~~= token_fields(t.model()));
    }
    join_char(&fields, '\t')
}

/// Rebuilds the dependency lines from a built token sequence.
pub struct Conll2String {
    pub tokens: Vec<Token>,
    pub output: Option<Vec<String>>,
}

impl Conll2String {
    /// The serialized lines; `build` must have run first.
    pub fn get_conll(self) -> (r: Vec<String>)
        requires
            self.output is Some,
        ensures
            (match self.output {
                Option::Some(o) => views_of(r@) == views_of(o@),
                Option::None => false,
            }),
    {
        match self.output {
            Some(o) => o,
            None => Vec::new(),
        }
    }
}

impl WalkActions for Conll2String {
    open spec fn wf(&self) -> bool {
        true
    }

    open spec fn elem_ok(&self, e: Element) -> bool {
        true
    }

    /// Serializing happens wholly here: every token's row is appended.
    open spec fn init_walk_spec(&self, e: ElemModel, acc: AccModel) -> Result<AccModel, LibError> {
        match acc {
            AccModel::C2S(lines) => Ok(AccModel::C2S(lines + token_rows(token_models(self.tokens@)))),
            _ => Err(LibError::AccumulatorMismatch),
        }
    }

    open spec fn finish_trajectory_spec(&self, e: ElemModel, acc: AccModel) -> Result<
        AccModel,
        LibError,
    > {
        Ok(acc)
    }

    open spec fn on_node_spec(&self, e: ElemModel, params: WalkParams, acc: AccModel) -> Result<
        (WalkParams, AccModel),
        LibError,
    > {
        Ok((params, acc))
    }

    open spec fn on_child_spec(&self, e: ElemModel, params: WalkParams, acc: AccModel) -> Result<
        (WalkParams, AccModel),
        LibError,
    > {
        Ok((params, acc))
    }

    open spec fn post_walk_spec(&self, e: ElemModel, acc: AccModel) -> Result<AccModel, LibError> {
        Ok(acc)
    }

    open spec fn finish_recursion_spec(&self, acc: AccModel) -> Result<AccModel, LibError> {
        Ok(acc)
    }

    fn init_walk(&self, element_id: &Element, data: &mut Accumulator) -> (r: Result<(), LibError>) {
        let lines: Vec<String> = match &*data {
            Accumulator::C2S(lines) => clone_lines(lines),
            _ => {
                return Err(LibError::AccumulatorMismatch);
            },
        };
        let ghost lines0 = views_of(lines@);
        let mut lines: Vec<String> = lines;
        let mut i: usize = 0;
        while i < self.tokens.len()
            invariant
                i <= self.tokens@.len(),
                views_of(lines@) == lines0 + token_rows(
                    token_models(self.tokens@.subrange(0, i as int)),
                ),
            decreases self.tokens@.len() - i,
        {
            let row: String = token_to_row(&self.tokens[i]);
            proof {
                assert(views_of(lines@.push(row)) =~~= views_of(lines@) + seq![row@]);
                assert(lines0 + token_rows(token_models(self.tokens@.subrange(0, i as int)))
                    + seq![row@] =~~= lines0 + token_rows(
                    token_models(self.tokens@.subrange(0, i as int + 1)),
                ));
            }
            lines.push(row);
            i = i + 1;
        }
        proof {
            assert(self.tokens@.subrange(0, self.tokens@.len() as int) =~= self.tokens@);
        }
        *data = Accumulator::C2S(lines);
        Ok(())
    }

    fn finish_trajectory(&self, element_id: &Element, data: &mut Accumulator) -> (r: Result<
        (),
        LibError,
    >) {
        Ok(())
    }

    fn on_node(&self, element_id: &Element, parameters: &mut WalkParams, data: &mut Accumulator)
        -> (r: Result<(), LibError>) {
        Ok(())
    }

    fn on_child(
        &self,
        child_element_id: &Element,
        parameters: &mut WalkParams,
        data: &mut Accumulator,
    ) -> (r: Result<(), LibError>) {
        Ok(())
    }

    fn post_walk_update(&self, element_id: &Element, data: &mut Accumulator) -> (r: Result<
        (),
        LibError,
    >) {
        Ok(())
    }

    fn finish_recursion(&self, data: &mut Accumulator) -> (r: Result<(), LibError>) {
        Ok(())
    }
}

impl WalkTree for Conll2String {
    /// The arbitrary first token stands in as root, only for compliance with
    /// the walk shape; an empty sequence has no root.
    open spec fn root_spec(&self) -> Result<ElemModel, LibError> {
        if self.tokens@.len() == 0 {
            Err(LibError::EmptyStructure)
        } else {
            Ok(ElemModel::Tok(0))
        }
    }

    fn get_root_element(&self) -> (r: Result<Element, LibError>) {
        if self.tokens.len() == 0 {
            Err(LibError::EmptyStructure)
        } else {
            Ok(Element::Tid(0))
        }
    }

    /// No element has children here: the walk ends after the root.
    open spec fn children_spec(&self, e: ElemModel) -> Result<Seq<ElemModel>, LibError> {
        Ok(Seq::<ElemModel>::empty())
    }

    fn get_children_ids(&self, element_id: &Element) -> (r: Result<Vec<Element>, LibError>) {
        let none: Vec<Element> = Vec::new();
        proof {
            assert(none@.map_values(|c: Element| elem_model(c)) =~= Seq::<ElemModel>::empty());
        }
        Ok(none)
    }
}

impl Structure2PlotBuilder<Vec<Token>> for Conll2String {
    open spec fn new_req(structure: &Vec<Token>) -> bool {
        true
    }

    open spec fn made_from(&self, structure: &Vec<Token>) -> bool {
        &&& token_models(self.tokens@) == token_models(structure@)
        &&& self.output is None
    }

    open spec fn build_req(&self) -> bool {
        true
    }

    open spec fn build_rel(pre: &Self, post: &Self, r: Result<(), LibError>) -> bool {
        &&& token_models(post.tokens@) == token_models(pre.tokens@)
        &&& match r {
            Ok(()) => pre.tokens@.len() > 0 && match post.output {
                Option::Some(o) => views_of(o@) == token_rows(token_models(pre.tokens@)),
                Option::None => false,
            },
            Err(e) => e == LibError::EmptyStructure && pre.tokens@.len() == 0,
        }
    }

    /// Wraps a built token sequence, with no output yet.
    fn new(structure: Vec<Token>) -> (s: Self) {
        Conll2String { tokens: structure, output: None }
    }

    /// Serializes the tokens through one walk and stores the lines.  Owes
    /// success exactly when the sequence is non-empty.
    fn build(&mut self) -> (r: Result<(), LibError>) {
        let empty_lines: Vec<String> = Vec::new();
        proof {
            assert(views_of(empty_lines@) =~~= Seq::<Seq<char>>::empty());
        }
        let mut accumulator: Accumulator = Accumulator::C2S(empty_lines);
        let ghost a0 = acc_view(&accumulator);
        let walk_r: Result<(), LibError> = walk(self, None, &mut accumulator, 1);
        proof {
            if self.tokens@.len() == 0 {
                assert(walk_spec(self, None, a0, 1nat) == Result::<AccModel, LibError>::Err(
                    LibError::EmptyStructure,
                ));
            } else {
                let rows = token_rows(token_models(self.tokens@));
                assert(self.init_walk_spec(ElemModel::Tok(0), a0) == Result::<
                    AccModel,
                    LibError,
                >::Ok(AccModel::C2S(Seq::<Seq<char>>::empty() + rows)));
                assert(walk_spec(self, Some(ElemModel::Tok(0)), AccModel::C2S(
                    Seq::<Seq<char>>::empty() + rows,
                ), 1nat) == Result::<AccModel, LibError>::Ok(AccModel::C2S(
                    Seq::<Seq<char>>::empty() + rows,
                )));
                assert(walk_spec(self, None, a0, 1nat) == Result::<AccModel, LibError>::Ok(
                    AccModel::C2S(Seq::<Seq<char>>::empty() + rows),
                ));
            }
        }
        match walk_r {
            Err(e) => Err(e),
            Ok(()) => {
                match accumulator {
                    Accumulator::C2S(lines) => {
                        proof {
                            assert(views_of(lines@) =~~= token_rows(token_models(self.tokens@)));
                        }
                        self.output = Some(lines);
                        Ok(())
                    },
                    Accumulator::TPD(_) => {
                        proof {
                            assert(false);
                        }
                        Err(LibError::AccumulatorMismatch)
                    },
                    Accumulator::T2S(_) => {
                        proof {
                            assert(false);
                        }
                        Err(LibError::AccumulatorMismatch)
                    },
                    Accumulator::WD(_) => {
                        proof {
                            assert(false);
                        }
                        Err(LibError::AccumulatorMismatch)
                    },
                }
            },
        }
    }
}

/// Whether a dependency row writes its id and head fields canonically
/// (no redundant leading zeros).
pub open spec fn canonical_row(line: Seq<char>) -> bool {
    canonical_dec(split_seq(line, '\t')[0]) && canonical_dec(split_seq(line, '\t')[6])
}

/// Round trip: parsing well-formed dependency rows and serializing the
/// resulting tokens yields the rows again, provided each row's id and head
/// fields are written canonically.
pub proof fn lemma_dependency_round_trip(lines: Seq<Seq<char>>)
    requires
        parse_lines(lines) is Ok,
        forall|i: int| 0 <= i < lines.len() ==> canonical_row(#[trigger] lines[i]),
    ensures
        token_rows(parse_lines(lines)->Ok_0) == lines,
    decreases lines.len(),
{
    if lines.len() == 0 {
        assert(token_rows(parse_lines(lines)->Ok_0) =~~= lines);
    } else {
        let head_part = lines.drop_last();
        assert(parse_lines(head_part) is Ok);
        assert forall|i: int| 0 <= i < head_part.len() implies canonical_row(
            #[trigger] head_part[i],
        ) by {
            assert(head_part[i] == lines[i]);
            assert(canonical_row(lines[i]));
        }
        lemma_dependency_round_trip(head_part);
        let line = lines.last();
        let fields = split_seq(line, '\t');
        let t = parse_token_line(line)->Ok_0;
        assert(canonical_row(line));
        assert(parse_token_fields(fields) is Ok);
        assert(token_fields(t) =~~= fields);
        lemma_join_split(line, '\t');
        assert(token_row(t) == line);
        assert(parse_lines(lines)->Ok_0 == parse_lines(head_part)->Ok_0.push(t));
        assert(token_rows(parse_lines(lines)->Ok_0) =~~= token_rows(parse_lines(head_part)->Ok_0)
            + seq![token_row(t)]);
        assert(token_rows(parse_lines(lines)->Ok_0) =~~= lines);
    }
}

} // verus!
