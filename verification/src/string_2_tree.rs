//! The bracket-string parser: builds an `id_tree::Tree<String>` from a
//! Lisp-like constituency string such as `(S (NP (det The)))`.
//!
//! The input is consumed chunk by chunk (chunks are separated by single
//! spaces, each chunk trimmed of edge whitespace).  A chunk without closing
//! brackets opens a node under the current parent; a chunk with closers is a
//! leaf, and the count of its closers decides how many levels the current
//! parent moves up, recovered through the new leaf's ancestor chain.
//! `parse_chunks` is the specification of the whole scan; `build` is proved
//! to agree with it exactly, errors included.

use vstd::prelude::*;
use id_tree::Tree;
use id_tree::NodeId;
use crate::errors::LibError;
use crate::generic_traits::String2StructureBuilder;
use crate::text::count_char;
use crate::text::count_char_range;
use crate::text::find_char;
use crate::text::find_char_range;
use crate::text::strip_edges;
use crate::text::strip_range;
use crate::text::lemma_find_char_range;
use crate::text::lemma_strip_len;
use crate::text::lemma_count_char_bounds;
use crate::text::chars_to_string;
use crate::text::subvec;
use crate::text::str_to_chars;
use crate::tree_model::TreeShape;
use crate::tree_model::shape_wf;
use crate::tree_model::ancestor_chain;
use crate::tree_store::tree_nodes;
use crate::tree_store::node_index;
use crate::tree_store::id_in_tree;
use crate::tree_store::tree_canon;
use crate::tree_store::tree_new;
use crate::tree_store::tree_insert_root;
use crate::tree_store::tree_insert_under;
use crate::tree_store::tree_root_id;
use crate::tree_store::tree_ancestors_of;
use crate::tree_store::tree_clone;

verus! {

/// The parser's abstract state: the tree shape built so far, the index of
/// the current insertion parent (`-1` for none), and the running totals of
/// open and close brackets seen.
pub struct ParseState {
    pub nodes: TreeShape,
    pub parent: int,
    pub opens: int,
    pub closes: int,
}

/// What one whitespace-trimmed chunk does to the parser state.  `is_last`
/// says whether nothing follows the chunk, in which case the outermost
/// closer has no ancestor beyond it and closes one level fewer.
pub open spec fn chunk_step(st: ParseState, chunk: Seq<char>, is_last: bool) -> Result<
    ParseState,
    LibError,
> {
    let opens = count_char(chunk, '(');
    let closes = count_char(chunk, ')');
    if opens > 1 {
        Err(LibError::ConsecutiveOpenBrackets)
    } else if opens == 0 && closes == 0 {
        Err(LibError::NoMatchingParenthesis)
    } else if closes == 0 {
        let label = strip_edges(chunk, Some('('));
        if st.parent == -1 && st.nodes.len() > 0 {
            Err(LibError::InconsistentClosers)
        } else {
            Ok(
                ParseState {
                    nodes: st.nodes.push((label, st.parent)),
                    parent: st.nodes.len() as int,
                    opens: st.opens + opens,
                    closes: st.closes + closes,
                },
            )
        }
    } else {
        let label = strip_edges(strip_edges(chunk, Some(')')), Some('('));
        if label.len() == 0 {
            Err(LibError::NullNode)
        } else if st.parent == -1 && st.nodes.len() > 0 {
            Err(LibError::InconsistentClosers)
        } else {
            let idx = st.nodes.len() as int;
            let nodes2 = st.nodes.push((label, st.parent));
            let ups = closes + 1 - opens - (if is_last {
                1int
            } else {
                0int
            });
            let chain = ancestor_chain(nodes2, idx);
            if ups == 0 {
                Ok(
                    ParseState {
                        nodes: nodes2,
                        parent: -1,
                        opens: st.opens + opens,
                        closes: st.closes + closes,
                    },
                )
            } else if ups > chain.len() {
                Err(LibError::InconsistentClosers)
            } else {
                Ok(
                    ParseState {
                        nodes: nodes2,
                        parent: chain[ups - 1],
                        opens: st.opens + opens,
                        closes: st.closes + closes,
                    },
                )
            }
        }
    }
}

/// The whole scan: split the remaining input at the first space, trim both
/// parts, feed the left chunk to `chunk_step`, and continue on the right.
/// An empty remainder ends the scan, owing equal bracket totals.
pub open spec fn parse_chunks(st: ParseState, s: Seq<char>) -> Result<ParseState, LibError>
    decreases s.len(),
    via parse_chunks_dec
{
    if s.len() == 0 {
        if st.opens == st.closes {
            Ok(st)
        } else {
            Err(LibError::UnbalancedBrackets)
        }
    } else {
        let idx = find_char(s, ' ');
        let l_raw = if idx == -1 {
            s
        } else {
            s.subrange(0, idx)
        };
        let r_raw = if idx == -1 {
            Seq::<char>::empty()
        } else {
            s.subrange(idx + 1, s.len() as int)
        };
        let l = strip_edges(l_raw, None);
        let r = strip_edges(r_raw, None);
        match chunk_step(st, l, r.len() == 0) {
            Ok(st2) => parse_chunks(st2, r),
            Err(e) => Err(e),
        }
    }
}

#[via_fn]
proof fn parse_chunks_dec(st: ParseState, s: Seq<char>) {
    if s.len() != 0 {
        lemma_find_char_range(s, ' ');
        let idx = find_char(s, ' ');
        let r_raw = if idx == -1 {
            Seq::<char>::empty()
        } else {
            s.subrange(idx + 1, s.len() as int)
        };
        lemma_strip_len(r_raw, None);
    }
}

/// Builds a labeled tree from a constituency string.  Holds the tree, the
/// id of the current insertion parent, and the bracket totals seen so far.
pub struct String2Tree {
    pub tree: Tree<String>,
    pub parent_node_id: Option<NodeId>,
    pub opens: usize,
    pub closes: usize,
}

impl String2Tree {
    /// The abstract parser state this builder is in.
    pub open spec fn abs(&self) -> ParseState {
        ParseState {
            nodes: tree_nodes(self.tree),
            parent: match self.parent_node_id {
                Option::Some(id) => node_index(id),
                Option::None => -1,
            },
            opens: self.opens as int,
            closes: self.closes as int,
        }
    }

    /// The builder's invariant: the tree is canonical and well formed, and
    /// the remembered parent id is one of its nodes.
    pub open spec fn inv(&self) -> bool {
        &&& tree_canon(self.tree)
        &&& shape_wf(tree_nodes(self.tree))
        &&& match self.parent_node_id {
            Option::Some(id) => id_in_tree(self.tree, id) && 0 <= node_index(id) < tree_nodes(
                self.tree,
            ).len(),
            Option::None => true,
        }
    }

    /// Moves the current parent `closers` levels above the freshly inserted
    /// node, to `None` for zero, and fails when fewer ancestors exist.
    fn update_parent(&mut self, item_id: &NodeId, closers: u128) -> (r: Result<(), LibError>)
        requires
            old(self).inv(),
            id_in_tree(old(self).tree, *item_id),
            0 <= node_index(*item_id) < tree_nodes(old(self).tree).len(),
        ensures
            final(self).inv(),
            final(self).tree == old(self).tree,
            final(self).opens == old(self).opens,
            final(self).closes == old(self).closes,
            (match r {
                Ok(()) => {
                    let chain = ancestor_chain(
                        tree_nodes(old(self).tree),
                        node_index(*item_id),
                    );
                    if closers == 0 {
                        final(self).parent_node_id is None
                    } else {
                        closers <= chain.len() && match final(self).parent_node_id {
                            Option::Some(p) => node_index(p) == chain[closers as int - 1],
                            Option::None => false,
                        }
                    }
                },
                Err(e) => e == LibError::InconsistentClosers && closers > ancestor_chain(
                    tree_nodes(old(self).tree),
                    node_index(*item_id),
                ).len(),
            }),
    {
        if closers == 0 {
            self.parent_node_id = None;
            return Ok(());
        }
        let mut ancestors: Vec<NodeId> = tree_ancestors_of(&self.tree, item_id);
        proof {
            crate::tree_model::lemma_ancestor_chain_bounds(
                tree_nodes(self.tree),
                node_index(*item_id),
            );
        }
        if closers > ancestors.len() as u128 {
            return Err(LibError::InconsistentClosers);
        }
        let k: usize = (closers - 1) as usize;
        let parent_id: NodeId = ancestors.remove(k);
        proof {
            let chain = ancestor_chain(tree_nodes(self.tree), node_index(*item_id));
            assert(node_index(parent_id) == chain[k as int]);
        }
        self.parent_node_id = Some(parent_id);
        Ok(())
    }
}

impl String2StructureBuilder for String2Tree {
    type Input = String;

    type Out = Tree<String>;

    open spec fn init(&self) -> bool {
        &&& self.inv()
        &&& tree_nodes(self.tree).len() == 0
        &&& self.parent_node_id is None
        &&& self.opens == 0
        &&& self.closes == 0
    }

    open spec fn build_req(&self, input: &String) -> bool {
        &&& self.inv()
        &&& self.opens + input@.len() <= usize::MAX
        &&& self.closes + input@.len() <= usize::MAX
    }

    open spec fn build_rel(
        pre: &Self,
        post: &Self,
        input_pre: &String,
        input_post: &String,
        r: Result<(), LibError>,
    ) -> bool {
        &&& input_post@ == input_pre@
        &&& post.inv()
        &&& match r {
            Ok(()) => parse_chunks(pre.abs(), input_pre@) == Result::<
                ParseState,
                LibError,
            >::Ok(post.abs()),
            Err(e) => parse_chunks(pre.abs(), input_pre@) == Result::<
                ParseState,
                LibError,
            >::Err(e),
        }
    }

    open spec fn get_req(&self) -> bool {
        self.inv() && tree_nodes(self.tree).len() > 0
    }

    open spec fn structure_rel(&self, out: &Tree<String>) -> bool {
        tree_canon(*out) && tree_nodes(*out) == tree_nodes(self.tree)
    }

    /// A fresh builder around an empty tree.
    fn new() -> (s: Self) {
        String2Tree { tree: tree_new(), parent_node_id: None, opens: 0, closes: 0 }
    }

    /// A copy of the built tree; `build` must have made at least one node.
    fn get_structure(&self) -> (out: Tree<String>) {
        tree_clone(&self.tree)
    }

    /// Scans the whole input, building the tree chunk by chunk.  Agrees with
    /// `parse_chunks` from the pre-state, in result and in error.
    fn build(&mut self, input: &mut String) -> (r: Result<(), LibError>) {
        let ghost st0 = self.abs();
        let ghost whole = input@;
        let v: Vec<char> = str_to_chars(input.as_str());
        let n: usize = v.len();
        let mut lo: usize = 0;
        let mut hi: usize = n;
        proof {
            assert(v@.subrange(0, n as int) =~= whole);
        }
        loop
            invariant
                st0 == old(self).abs(),
                whole == old(input)@,
                self.inv(),
                lo <= hi <= n,
                n == v@.len(),
                v@ == whole,
                input@ == whole,
                self.opens + (hi - lo) <= usize::MAX,
                self.closes + (hi - lo) <= usize::MAX,
                parse_chunks(st0, whole) == parse_chunks(
                    self.abs(),
                    v@.subrange(lo as int, hi as int),
                ),
            decreases hi - lo + 1,
        {
            let ghost st_pre = self.abs();
            let ghost rem = v@.subrange(lo as int, hi as int);
            if lo == hi {
                if self.opens == self.closes {
                    proof {
                        assert(parse_chunks(st0, whole) == Result::<
                            ParseState,
                            LibError,
                        >::Ok(self.abs()));
                    }
                    return Ok(());
                } else {
                    return Err(LibError::UnbalancedBrackets);
                }
            }
            // split the remainder at the first space
            let space: Option<usize> = find_char_range(&v, lo, hi, ' ');
            let l_lo: usize = lo;
            let l_hi: usize;
            let r_lo0: usize;
            match space {
                Some(k) => {
                    l_hi = k;
                    r_lo0 = k + 1;
                },
                None => {
                    l_hi = hi;
                    r_lo0 = hi;
                },
            }
            let ghost l_raw = v@.subrange(l_lo as int, l_hi as int);
            let ghost r_raw = v@.subrange(r_lo0 as int, hi as int);
            proof {
                let idx = find_char(rem, ' ');
                if space is Some {
                    assert(rem.subrange(0, idx) =~= l_raw);
                    assert(rem.subrange(idx + 1, rem.len() as int) =~= r_raw);
                } else {
                    assert(l_raw =~= rem);
                    assert(r_raw =~= Seq::<char>::empty());
                }
            }
            // trim both parts
            let (tl_lo, tl_hi): (usize, usize) = strip_range(&v, l_lo, l_hi, None);
            let (tr_lo, tr_hi): (usize, usize) = strip_range(&v, r_lo0, hi, None);
            let ghost chunk = v@.subrange(tl_lo as int, tl_hi as int);
            let is_last: bool = tr_lo == tr_hi;
            let ghost step = chunk_step(st_pre, chunk, is_last);
            // count brackets in the chunk
            let copens: usize = count_char_range(&v, tl_lo, tl_hi, '(');
            let ccloses: usize = count_char_range(&v, tl_lo, tl_hi, ')');
            proof {
                lemma_count_char_bounds(chunk, '(');
                lemma_count_char_bounds(chunk, ')');
            }
            if copens > 1 {
                return Err(LibError::ConsecutiveOpenBrackets);
            }
            if copens == 0 && ccloses == 0 {
                return Err(LibError::NoMatchingParenthesis);
            }
            self.opens = self.opens + copens;
            self.closes = self.closes + ccloses;
            if ccloses == 0 {
                // an opening chunk: strip the bracket, insert a node under
                // the current parent, and make it the new parent
                let (s_lo, s_hi): (usize, usize) = strip_range(&v, tl_lo, tl_hi, Some('('));
                let label_vec: Vec<char> = subvec(&v, s_lo, s_hi);
                let label: String = chars_to_string(&label_vec);
                let new_id: NodeId;
                match &self.parent_node_id {
                    Some(pid) => {
                        new_id = tree_insert_under(&mut self.tree, label, pid);
                    },
                    None => {
                        match tree_root_id(&self.tree) {
                            None => {
                                new_id = tree_insert_root(&mut self.tree, label);
                            },
                            Some(_) => {
                                return Err(LibError::InconsistentClosers);
                            },
                        }
                    },
                }
                self.parent_node_id = Some(new_id);
                proof {
                    let spec_label = strip_edges(chunk, Some('('));
                    assert(label@ == spec_label);
                    if st_pre.nodes.len() == 0 {
                        assert(tree_nodes(self.tree) =~= st_pre.nodes.push(
                            (spec_label, st_pre.parent),
                        ));
                    }
                    assert(self.abs().nodes == st_pre.nodes.push((spec_label, st_pre.parent)));
                    assert(self.abs().parent == st_pre.nodes.len() as int);
                    assert(step == Result::<ParseState, LibError>::Ok(self.abs()));
                }
            } else {
                // a leaf chunk: strip both brackets, reject an empty label,
                // insert the leaf, then move the parent up by the closers
                let (s1_lo, s1_hi): (usize, usize) = strip_range(&v, tl_lo, tl_hi, Some(')'));
                let (s_lo, s_hi): (usize, usize) = strip_range(&v, s1_lo, s1_hi, Some('('));
                if s_lo == s_hi {
                    proof {
                        assert(strip_edges(strip_edges(chunk, Some(')')), Some('(')).len() == 0);
                    }
                    return Err(LibError::NullNode);
                }
                let label_vec: Vec<char> = subvec(&v, s_lo, s_hi);
                let label: String = chars_to_string(&label_vec);
                let new_id: NodeId;
                match &self.parent_node_id {
                    Some(pid) => {
                        new_id = tree_insert_under(&mut self.tree, label, pid);
                    },
                    None => {
                        match tree_root_id(&self.tree) {
                            None => {
                                new_id = tree_insert_root(&mut self.tree, label);
                            },
                            Some(_) => {
                                return Err(LibError::InconsistentClosers);
                            },
                        }
                    },
                }
                self.parent_node_id = Some(new_id.clone());
                proof {
                    let spec_label = strip_edges(strip_edges(chunk, Some(')')), Some('('));
                    assert(label@ == spec_label);
                    if st_pre.nodes.len() == 0 {
                        assert(tree_nodes(self.tree) =~= st_pre.nodes.push(
                            (spec_label, st_pre.parent),
                        ));
                    }
                    assert(tree_nodes(self.tree) == st_pre.nodes.push((spec_label, st_pre.parent)));
                    assert(node_index(new_id) == st_pre.nodes.len() as int);
                }
                let ups: u128 = (ccloses as u128) + 1 - (copens as u128) - (if is_last {
                    1
                } else {
                    0
                });
                let ghost nodes2 = tree_nodes(self.tree);
                let step_r: Result<(), LibError> = self.update_parent(&new_id, ups);
                proof {
                    assert(ups as int == count_char(chunk, ')') + 1 - count_char(chunk, '(') - (
                    if is_last {
                        1int
                    } else {
                        0int
                    }));
                }
                match step_r {
                    Ok(()) => {
                        proof {
                            let chain = ancestor_chain(nodes2, node_index(new_id));
                            if ups == 0 {
                                assert(self.abs().parent == -1);
                            } else {
                                assert(self.abs().parent == chain[ups as int - 1]);
                            }
                            assert(step == Result::<ParseState, LibError>::Ok(self.abs()));
                        }
                    },
                    Err(e) => {
                        proof {
                            assert(step == Result::<ParseState, LibError>::Err(e));
                        }
                        return Err(e);
                    },
                }
            }
            proof {
                assert(parse_chunks(st_pre, rem) == parse_chunks(
                    self.abs(),
                    v@.subrange(tr_lo as int, tr_hi as int),
                ));
            }
            lo = tr_lo;
            hi = tr_hi;
        }
    }
}

} // verus!
