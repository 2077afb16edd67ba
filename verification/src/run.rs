use crate::arithmetic::{ready, Task};
use crate::error::{ErrorView, GlassError};
use crate::interpreter::{evaluates, lemma_evaluates_nowhere, Interpreter, InterpreterResult};
use crate::lexer::{lex, tokenize, views};
use crate::parser::{expression, lemma_keeps_to, Level, Parser};
use crate::text::cuts;
use crate::value::{result_view, ValueView};
use vstd::prelude::*;
use vstd::string::*;
use vstd::utf8::*;

verus! {

/// `out` is an outcome of running a script: a file that could not be read
/// is not found; a text is split into tokens, the tokens are parsed as one
/// expression, and the expression is evaluated. The first stage that fails
/// ends the run with its error.
pub open spec fn script_outcome<N: Fn(Task) -> u64, S: Fn(u64) -> String>(
    filename: Seq<char>,
    src: Option<Seq<char>>,
    num: N,
    show: S,
    out: Result<ValueView, ErrorView>,
) -> bool {
    match src {
        None => out == Err::<ValueView, ErrorView>(ErrorView::FileNotFound { filename }),
        Some(text) => match expression(lex(encode_utf8(text), 0), text, filename).outcome {
            Err(error) => out == Err::<ValueView, ErrorView>(error),
            Ok(tree) => evaluates(tree, num, show, out),
        },
    }
}

/// An error of a run that points into the source text points at a piece of it.
pub open spec fn well_placed(src: Option<Seq<char>>, out: Result<ValueView, ErrorView>) -> bool {
    match (src, out) {
        (Some(text), Err(error)) => error.place() matches Some(span) ==> cuts(
            encode_utf8(text),
            span,
        ),
        _ => true,
    }
}

/// The text of a file as it was read, if it could be read.
pub open spec fn text_view(src: Option<String>) -> Option<Seq<char>> {
    match src {
        Some(text) => Some(text@),
        None => None,
    }
}

/// Runs the script in the file `filename`, whose text is `src`; `None`
/// says that the file could not be read.
pub fn run_script<N: Fn(Task) -> u64, S: Fn(u64) -> String>(
    filename: String,
    src: Option<String>,
    num: &N,
    show: &S,
) -> (result: InterpreterResult)
    requires
        ready(*num, *show),
    ensures
        script_outcome(filename@, text_view(src), *num, *show, result_view(result)),
        well_placed(text_view(src), result_view(result)),
{
    let src = match src {
        Some(text) => text,
        None => {
            return Err(GlassError::FileNotFound { filename });
        },
    };
    let tokens = tokenize(src.as_str());
    proof {
        lemma_keeps_to(Level::Equality, views(tokens@), src@, filename@);
    }
    let mut parser = Parser::new(tokens, src.clone(), filename.clone());
    let ast = match parser.parse() {
        Ok(node) => node,
        Err(error) => {
            return Err(error);
        },
    };
    let ghost tree = ast@;
    let interpreter = Interpreter::new(src, filename, num, show);
    let result = interpreter.visit_node(ast);
    proof {
        if let Err(error) = result_view(result) {
            lemma_evaluates_nowhere(tree, *num, *show, error);
        }
    }
    result
}

/// Runs the script in `file`, given as the name of the file and its text
/// if it could be read. Without a file there is nothing to run yet.
pub fn try_main<N: Fn(Task) -> u64, S: Fn(u64) -> String>(
    file: Option<(String, Option<String>)>,
    num: &N,
    show: &S,
) -> (result: InterpreterResult)
    requires
        ready(*num, *show),
    ensures
        match file {
            Some((filename, src)) => script_outcome(
                filename@,
                text_view(src),
                *num,
                *show,
                result_view(result),
            ) && well_placed(text_view(src), result_view(result)),
            None => result_view(result) == Err::<ValueView, ErrorView>(
                ErrorView::PlaceholderError { message: "REPL not implemented yet"@ },
            ),
        },
{
    match file {
        Some((filename, src)) => run_script(filename, src, num, show),
        None => Err(
            GlassError::PlaceholderError { message: "REPL not implemented yet".to_owned() },
        ),
    }
}

} // verus!
