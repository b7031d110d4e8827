//! A parser for interface-definition schema files (`.proto` syntax) that
//! builds a faithful syntax tree, comments included.
use vstd::prelude::*;
use vstd::std_specs::iter::IteratorSpec;

pub mod ast;
pub mod lexer;
pub mod parser;

use crate::ast::RootEntry;
use crate::lexer::skip_space;
use crate::parser::{tokenize, Input, ParseError};

verus! {

broadcast use vstd::string::group_string_axioms;

/// The characters of `data`, in order.
fn chars_of(data: &str) -> (r: Vec<char>)
    ensures
        r@ == data@,
{
    let mut it = data.chars();
    let mut v: Vec<char> = Vec::new();
    loop
        invariant
            v@ + it.remaining() == data@,
        decreases data@.len() - v@.len(),
    {
        match it.next() {
            Some(c) => {
                v.push(c);
            },
            None => {
                return v;
            },
        }
    }
}

/// Parses a whole document into its top-level entries, in source order.
///
/// The document is read token by token, each statement shape chosen by its
/// leading tokens. The result is `Ok` exactly when that reading reaches the
/// end of the tokens, and the tree is then that reading; otherwise the error
/// is the one where the reading first fails, or the lexical error that
/// stopped tokenizing once every token before it was read. No tree is
/// returned with an error. A document that holds only whitespace gives an
/// empty tree.
pub fn parse(data: &str) -> (r: Result<Vec<RootEntry>, ParseError>)
    ensures
        skip_space(data@, 0) == data@.len() ==> r is Ok && r->Ok_0@.len() == 0,
        exists|inp: Input|
            #![trigger inp.scan_root(0)]
            inp.text@ == data@ && inp.wf() && match r {
                Ok(es) => inp.scan_root(0) == Ok::<int, ParseError>(inp.toks@.len() as int)
                    && inp.tail is None && inp.root_body(es@, 0, inp.toks@.len() as int),
                Err(e) => inp.scan_root(0) == Err::<int, ParseError>(e) && inp.reported(e),
            },
{
    let chars = chars_of(data);
    let (toks, tail) = tokenize(&chars);
    let input = Input { text: data, chars, toks, tail };
    proof {
        if skip_space(data@, 0) == data@.len() && input.toks@.len() > 0 {
            assert(input.toks@[0].start == crate::parser::next_start(data@, input.toks@, 0));
        }
    }
    let r = input.root();
    assert(input.text@ == data@);
    assert(input.wf());
    assert(match r {
        Ok(es) => input.scan_root(0) == Ok::<int, ParseError>(input.toks@.len() as int)
            && input.tail is None && input.root_body(es@, 0, input.toks@.len() as int),
        Err(e) => input.scan_root(0) == Err::<int, ParseError>(e) && input.reported(e),
    });
    r
}

} // verus!
