//! The input-selection layer: validates the command line shape, chooses the
//! input kind, and splits raw dependency input into sentences on blank
//! lines.  Reading files and creating directories stay with the caller; this
//! module only decides and reshapes.

use vstd::prelude::*;
use crate::errors::LibError;
use crate::text::strip_edges;
use crate::text::strip_range;
use crate::text::str_to_chars;
use crate::text::views_of;

verus! {

/// The two supported input kinds: dependency sentences (one list of rows per
/// sentence) or constituency strings (one per line).
pub enum DataType {
    Dependency(Vec<Vec<String>>),
    Constituency(Vec<String>),
}

/// The character views of a vector of sentences.
pub open spec fn sentence_views(v: Seq<Vec<String>>) -> Seq<Seq<Seq<char>>> {
    v.map_values(|s: Vec<String>| views_of(s@))
}

/// Whether a line is blank: nothing is left after trimming whitespace.
pub open spec fn is_blank(line: Seq<char>) -> bool {
    strip_edges(line, None).len() == 0
}

/// The sentences and the still-open sentence after the first `n` lines: a
/// blank first line is skipped, any other blank line closes the open
/// sentence, and other lines extend it.
pub open spec fn split_upto(lines: Seq<Seq<char>>, n: int) -> (Seq<Seq<Seq<char>>>, Seq<Seq<char>>)
    decreases n,
{
    if n <= 0 {
        (Seq::<Seq<Seq<char>>>::empty(), Seq::<Seq<char>>::empty())
    } else {
        let (done, cur) = split_upto(lines, n - 1);
        let line = lines[n - 1];
        if is_blank(line) {
            if n - 1 == 0 {
                (done, cur)
            } else {
                (done.push(cur), Seq::<Seq<char>>::empty())
            }
        } else {
            (done, cur.push(line))
        }
    }
}

/// All the sentences of the input, the open one flushed if non-empty.
pub open spec fn split_sentences_spec(lines: Seq<Seq<char>>) -> Seq<Seq<Seq<char>>> {
    let (done, cur) = split_upto(lines, lines.len() as int);
    if cur.len() > 0 {
        done.push(cur)
    } else {
        done
    }
}

/// Whether a line is blank, executably.
pub fn is_blank_exec(line: &String) -> (r: bool)
    ensures
        r == is_blank(line@),
{
    let v: Vec<char> = str_to_chars(line.as_str());
    let (a, b): (usize, usize) = strip_range(&v, 0, v.len(), None);
    proof {
        assert(v@.subrange(0, v@.len() as int) =~= v@);
    }
    a == b
}

/// Splits dependency input lines into sentences on blank lines, skipping a
/// blank first line and flushing a trailing open sentence.
pub fn split_sentences(lines: &Vec<String>) -> (r: Vec<Vec<String>>)
    ensures
        sentence_views(r@) == split_sentences_spec(views_of(lines@)),
{
    let ghost lv = views_of(lines@);
    let mut done: Vec<Vec<String>> = Vec::new();
    let mut cur: Vec<String> = Vec::new();
    let mut i: usize = 0;
    proof {
        assert(sentence_views(done@) =~~= split_upto(lv, 0).0);
        assert(views_of(cur@) =~~= split_upto(lv, 0).1);
    }
    while i < lines.len()
        invariant
            i <= lines@.len(),
            lv == views_of(lines@),
            sentence_views(done@) == split_upto(lv, i as int).0,
            views_of(cur@) == split_upto(lv, i as int).1,
        decreases lines@.len() - i,
    {
        let blank: bool = is_blank_exec(&lines[i]);
        proof {
            assert(lv[i as int] == lines@[i as int]@);
        }
        if blank {
            if i != 0 {
                let finished: Vec<String> = cur;
                proof {
                    assert(sentence_views(done@.push(finished)) =~~= sentence_views(done@) + seq![
                        views_of(finished@),
                    ]);
                }
                done.push(finished);
                cur = Vec::new();
                proof {
                    assert(views_of(cur@) =~~= Seq::<Seq<char>>::empty());
                    assert(sentence_views(done@) =~~= split_upto(lv, i as int + 1).0);
                }
            }
        } else {
            let line: String = lines[i].clone();
            proof {
                assert(views_of(cur@.push(line)) =~~= views_of(cur@) + seq![line@]);
                assert(views_of(cur@.push(line)) =~~= split_upto(lv, i as int + 1).1);
            }
            cur.push(line);
        }
        i = i + 1;
    }
    if cur.len() > 0 {
        proof {
            assert(sentence_views(done@.push(cur)) =~~= sentence_views(done@) + seq![
                views_of(cur@),
            ]);
            assert(sentence_views(done@.push(cur)) =~~= split_sentences_spec(lv));
        }
        done.push(cur);
    } else {
        proof {
            assert(views_of(cur@).len() == 0);
            assert(sentence_views(done@) =~~= split_sentences_spec(lv));
        }
    }
    done
}

/// The configuration protocol: argument validation and input selection.
pub struct Config {}

impl Config {
    /// The complete output path for one image: directory, slash, file name
    /// and the image suffix.
    pub fn get_out_file(out_dir_path: &str, file_name: &str) -> (r: String)
        ensures
            r@ == out_dir_path@ + "/"@ + file_name@ + ".png"@,
    {
        let mut s: String = out_dir_path.to_owned();
        s.append("/");
        s.append(file_name);
        s.append(".png");
        s
    }

    /// Validates the argument shape and picks the input kind: exactly four
    /// arguments, with `c` selecting constituency input (the lines as they
    /// are) and `d` dependency input (the lines split into sentences).  Any
    /// other count or selector is the error that names it.
    pub fn new(args: &Vec<String>, lines: Vec<String>) -> (r: Result<DataType, LibError>)
        ensures
            (match r {
                Ok(DataType::Constituency(v)) => args@.len() == 4 && args@[1]@ == "c"@ && views_of(
                    v@,
                ) == views_of(lines@),
                Ok(DataType::Dependency(v)) => args@.len() == 4 && args@[1]@ != "c"@ && args@[1]@
                    == "d"@ && sentence_views(v@) == split_sentences_spec(views_of(lines@)),
                Err(e) => (e == LibError::WrongArgCount && args@.len() != 4) || (e
                    == LibError::BadSelector && args@.len() == 4 && args@[1]@ != "c"@ && args@[1]@
                    != "d"@),
            }),
    {
        if args.len() != 4 {
            return Err(LibError::WrongArgCount);
        }
        let sel_c: String = "c".to_owned();
        let sel_d: String = "d".to_owned();
        if args[1] == sel_c {
            return Ok(DataType::Constituency(lines));
        }
        if args[1] == sel_d {
            let sentences: Vec<Vec<String>> = split_sentences(&lines);
            return Ok(DataType::Dependency(sentences));
        }
        Err(LibError::BadSelector)
    }
}

} // verus!
