//! The tabular (CoNLL-style) dependency parser: each non-blank line holds
//! exactly ten tab-separated fields, of which the first (`id`) and seventh
//! (`head`) are decimal numbers.  A token whose head equals its id is the
//! sentence's root.

use vstd::prelude::*;
use crate::errors::LibError;
use crate::generic_traits::String2StructureBuilder;
use crate::text::all_digits;
use crate::text::dec_value;
use crate::text::render_dec;
use crate::text::split_seq;
use crate::text::join_seq;
use crate::text::views_of;
use crate::text::split_char;
use crate::text::parse_dec;

verus! {

/// One row of tabular dependency data; immutable once constructed.
pub struct Token {
    pub id: usize,
    pub form: String,
    pub lemma: String,
    pub pos: String,
    pub xpos: String,
    pub feats: String,
    pub head: usize,
    pub deprel: String,
    pub deps: String,
    pub misc: String,
}

/// The mathematical value of a token.
pub struct TokenModel {
    pub id: int,
    pub form: Seq<char>,
    pub lemma: Seq<char>,
    pub pos: Seq<char>,
    pub xpos: Seq<char>,
    pub feats: Seq<char>,
    pub head: int,
    pub deprel: Seq<char>,
    pub deps: Seq<char>,
    pub misc: Seq<char>,
}

/// The ten fields of a token, in row order, numbers rendered canonically.
pub open spec fn token_fields(t: TokenModel) -> Seq<Seq<char>> {
    seq![
        render_dec(t.id),
        t.form,
        t.lemma,
        t.pos,
        t.xpos,
        t.feats,
        render_dec(t.head),
        t.deprel,
        t.deps,
        t.misc,
    ]
}

/// The row a token serializes to: its fields joined by tabs.
pub open spec fn token_row(t: TokenModel) -> Seq<char> {
    join_seq(token_fields(t), '\t')
}

/// What a split row parses to: exactly ten fields, with numeric id and head
/// that fit the machine; otherwise the error that reports it.
pub open spec fn parse_token_fields(fields: Seq<Seq<char>>) -> Result<TokenModel, LibError> {
    if fields.len() != 10 {
        Err(LibError::WrongFieldCount)
    } else if !(all_digits(fields[0]) && dec_value(fields[0]) <= usize::MAX) {
        Err(LibError::BadNumber)
    } else if !(all_digits(fields[6]) && dec_value(fields[6]) <= usize::MAX) {
        Err(LibError::BadNumber)
    } else {
        Ok(
            TokenModel {
                id: dec_value(fields[0]),
                form: fields[1],
                lemma: fields[2],
                pos: fields[3],
                xpos: fields[4],
                feats: fields[5],
                head: dec_value(fields[6]),
                deprel: fields[7],
                deps: fields[8],
                misc: fields[9],
            },
        )
    }
}

/// What one raw line parses to: its tab-split fields as a token.
pub open spec fn parse_token_line(line: Seq<char>) -> Result<TokenModel, LibError> {
    parse_token_fields(split_seq(line, '\t'))
}

/// What a sequence of lines parses to: the tokens in order, or the error of
/// the earliest failing line.
pub open spec fn parse_lines(lines: Seq<Seq<char>>) -> Result<Seq<TokenModel>, LibError>
    decreases lines.len(),
{
    if lines.len() == 0 {
        Ok(Seq::<TokenModel>::empty())
    } else {
        match parse_lines(lines.drop_last()) {
            Err(e) => Err(e),
            Ok(ts) => match parse_token_line(lines.last()) {
                Err(e) => Err(e),
                Ok(t) => Ok(ts.push(t)),
            },
        }
    }
}

/// An error in a prefix of the lines is the error of the whole.
pub proof fn lemma_parse_lines_prefix_err(lines: Seq<Seq<char>>, i: int, e: LibError)
    requires
        0 <= i <= lines.len(),
        parse_lines(lines.subrange(0, i)) == Result::<Seq<TokenModel>, LibError>::Err(e),
    ensures
        parse_lines(lines) == Result::<Seq<TokenModel>, LibError>::Err(e),
    decreases lines.len(),
{
    if i < lines.len() {
        assert(lines.drop_last().subrange(0, i) =~~= lines.subrange(0, i));
        lemma_parse_lines_prefix_err(lines.drop_last(), i, e);
    } else {
        assert(lines.subrange(0, i) =~~= lines);
    }
}

/// The models of a sequence of tokens.
pub open spec fn token_models(ts: Seq<Token>) -> Seq<TokenModel> {
    ts.map_values(|t: Token| t.model())
}

impl Token {
    /// The model this token denotes.
    pub open spec fn model(&self) -> TokenModel {
        TokenModel {
            id: self.id as int,
            form: self.form@,
            lemma: self.lemma@,
            pos: self.pos@,
            xpos: self.xpos@,
            feats: self.feats@,
            head: self.head as int,
            deprel: self.deprel@,
            deps: self.deps@,
            misc: self.misc@,
        }
    }

    /// Builds a token from the ten fields of one split row; fails exactly as
    /// `parse_token_fields` says.
    pub fn new(input: Vec<String>) -> (r: Result<Token, LibError>)
        ensures
            (match r {
                Ok(t) => parse_token_fields(views_of(input@)) == Result::<
                    TokenModel,
                    LibError,
                >::Ok(t.model()),
                Err(e) => parse_token_fields(views_of(input@)) == Result::<
                    TokenModel,
                    LibError,
                >::Err(e),
            }),
    {
        if input.len() != 10 {
            return Err(LibError::WrongFieldCount);
        }
        let id: usize = match parse_dec(input[0].as_str()) {
            Ok(n) => n,
            Err(e) => {
                return Err(e);
            },
        };
        let head: usize = match parse_dec(input[6].as_str()) {
            Ok(n) => n,
            Err(e) => {
                return Err(e);
            },
        };
        Ok(
            Token {
                id,
                form: input[1].clone(),
                lemma: input[2].clone(),
                pos: input[3].clone(),
                xpos: input[4].clone(),
                feats: input[5].clone(),
                head,
                deprel: input[7].clone(),
                deps: input[8].clone(),
                misc: input[9].clone(),
            },
        )
    }

    /// An equal copy of the token.
    pub fn duplicate(&self) -> (t: Token)
        ensures
            t.model() == self.model(),
    {
        Token {
            id: self.id,
            form: self.form.clone(),
            lemma: self.lemma.clone(),
            pos: self.pos.clone(),
            xpos: self.xpos.clone(),
            feats: self.feats.clone(),
            head: self.head,
            deprel: self.deprel.clone(),
            deps: self.deps.clone(),
            misc: self.misc.clone(),
        }
    }

    /// The token's id.
    pub fn get_token_id(&self) -> (r: usize)
        ensures
            r as int == self.model().id,
    {
        self.id
    }

    /// The token's head id.
    pub fn get_token_head(&self) -> (r: usize)
        ensures
            r as int == self.model().head,
    {
        self.head
    }

    /// The token's surface form.
    pub fn get_token_form(&self) -> (r: String)
        ensures
            r@ == self.model().form,
    {
        self.form.clone()
    }

    /// The token's part of speech.
    pub fn get_token_pos(&self) -> (r: String)
        ensures
            r@ == self.model().pos,
    {
        self.pos.clone()
    }

    /// The token's dependency relation.
    pub fn get_token_deprel(&self) -> (r: String)
        ensures
            r@ == self.model().deprel,
    {
        self.deprel.clone()
    }

    /// The token's lemma (might be empty).
    pub fn get_token_lemma(&self) -> (r: String)
        ensures
            r@ == self.model().lemma,
    {
        self.lemma.clone()
    }

    /// The token's language-specific part of speech (might be empty).
    pub fn get_token_xpos(&self) -> (r: String)
        ensures
            r@ == self.model().xpos,
    {
        self.xpos.clone()
    }

    /// The token's morphological features (might be empty).
    pub fn get_token_feats(&self) -> (r: String)
        ensures
            r@ == self.model().feats,
    {
        self.feats.clone()
    }

    /// The token's enhanced dependencies (might be empty).
    pub fn get_token_deps(&self) -> (r: String)
        ensures
            r@ == self.model().deps,
    {
        self.deps.clone()
    }

    /// The token's miscellaneous column (might be empty).
    pub fn get_token_misc(&self) -> (r: String)
        ensures
            r@ == self.model().misc,
    {
        self.misc.clone()
    }
}

/// Builds a token sequence from raw dependency lines.
pub struct String2Conll {
    pub tokens: Vec<Token>,
}

impl String2StructureBuilder for String2Conll {
    type Input = Vec<String>;

    type Out = Vec<Token>;

    open spec fn init(&self) -> bool {
        self.tokens@.len() == 0
    }

    open spec fn build_req(&self, input: &Vec<String>) -> bool {
        true
    }

    open spec fn build_rel(
        pre: &Self,
        post: &Self,
        input_pre: &Vec<String>,
        input_post: &Vec<String>,
        r: Result<(), LibError>,
    ) -> bool {
        &&& views_of(input_post@) == views_of(input_pre@)
        &&& match r {
            Ok(()) => match parse_lines(views_of(input_pre@)) {
                Ok(ts) => token_models(post.tokens@) == token_models(pre.tokens@) + ts,
                Err(_) => false,
            },
            Err(e) => parse_lines(views_of(input_pre@)) == Result::<
                Seq<TokenModel>,
                LibError,
            >::Err(e),
        }
    }

    open spec fn get_req(&self) -> bool {
        self.tokens@.len() > 0
    }

    open spec fn structure_rel(&self, out: &Vec<Token>) -> bool {
        token_models(out@) == token_models(self.tokens@)
    }

    /// A fresh builder with no tokens.
    fn new() -> (s: Self) {
        String2Conll { tokens: Vec::new() }
    }

    /// A copy of the token sequence; `build` must have made at least one.
    fn get_structure(&self) -> (out: Vec<Token>) {
        let mut out: Vec<Token> = Vec::new();
        let mut i: usize = 0;
        while i < self.tokens.len()
            invariant
                i <= self.tokens@.len(),
                token_models(out@) == token_models(self.tokens@.subrange(0, i as int)),
            decreases self.tokens@.len() - i,
        {
            let t: Token = self.tokens[i].duplicate();
            proof {
                assert(token_models(out@.push(t)) =~= token_models(out@) + seq![t.model()]);
                assert(token_models(self.tokens@.subrange(0, i as int + 1)) =~= token_models(
                    self.tokens@.subrange(0, i as int),
                ) + seq![self.tokens@[i as int].model()]);
            }
            out.push(t);
            i = i + 1;
        }
        proof {
            assert(self.tokens@.subrange(0, self.tokens@.len() as int) =~= self.tokens@);
        }
        out
    }

    /// Parses every line into a token, appending in order; stops at the
    /// first bad line with its error, exactly as `parse_lines` says.
    fn build(&mut self, input: &mut Vec<String>) -> (r: Result<(), LibError>) {
        let ghost pre_tokens = self.tokens@;
        let ghost lines = views_of(input@);
        let mut i: usize = 0;
        proof {
            assert(lines.subrange(0, 0) =~~= Seq::<Seq<char>>::empty());
            assert(token_models(self.tokens@) =~= token_models(pre_tokens) + Seq::<
                TokenModel,
            >::empty());
        }
        while i < input.len()
            invariant
                i <= input@.len(),
                lines == views_of(input@),
                input@ == old(input)@,
                pre_tokens == old(self).tokens@,
                (match parse_lines(lines.subrange(0, i as int)) {
                    Ok(ts) => token_models(self.tokens@) == token_models(pre_tokens) + ts,
                    Err(_) => false,
                }),
            decreases input@.len() - i,
        {
            let fields: Vec<String> = split_char(input[i].as_str(), '\t');
            let token: Token = match Token::new(fields) {
                Ok(t) => t,
                Err(e) => {
                    proof {
                        let pfx = lines.subrange(0, i as int + 1);
                        assert(pfx.drop_last() =~~= lines.subrange(0, i as int));
                        assert(pfx.last() == lines[i as int]);
                        assert(parse_lines(pfx) == Result::<Seq<TokenModel>, LibError>::Err(e));
                        lemma_parse_lines_prefix_err(lines, i as int + 1, e);
                    }
                    return Err(e);
                },
            };
            proof {
                let pfx = lines.subrange(0, i as int + 1);
                assert(pfx.drop_last() =~~= lines.subrange(0, i as int));
                assert(pfx.last() == lines[i as int]);
                assert(token_models(self.tokens@.push(token)) =~= token_models(self.tokens@)
                    + seq![token.model()]);
                assert(token_models(pre_tokens) + parse_lines(lines.subrange(0, i as int))->Ok_0
                    + seq![token.model()] =~= token_models(pre_tokens) + parse_lines(pfx)->Ok_0);
            }
            self.tokens.push(token);
            i = i + 1;
        }
        proof {
            assert(lines.subrange(0, input@.len() as int) =~~= lines);
        }
        Ok(())
    }
}

} // verus!
