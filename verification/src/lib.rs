//! Converts Bash scripts into Amber code.
use vstd::prelude::*;

pub mod amber;
pub mod bash;
pub mod text;
use amber::render::context::Warning;
use amber::render::render_program_with_warnings;
use bash::parser::parse;

verus! {

/// Whether a script lexes to nothing but separators and comments.
pub open spec fn blank_script(source: Seq<char>) -> bool {
    bash::rules::lexer_accepts(bash::parser::get_rules_view(), source) && match bash::rules::heraclitus_tokens(bash::parser::get_rules_view(), source) {
        Ok(ts) => {
            let ws = ts.map_values(|t: (Seq<char>, usize, usize)| t.0);
            bash::parser::separators_end(ws, 0) == ws.len()
        },
        Err(_) => false,
    }
}

/// Whether a parsed command always renders to a statement with some text: `if`, loops, `&`
/// and `&&`/`||` lists.
pub open spec fn yields_text_view(v: bash::ast::CommandView) -> bool {
    v is If || v is While || v is For || v is CStyleFor || v is Background || v is Connection
}

/// `text` is the rendering of parsed statements whose plain values are `vs`, with the type
/// comments of `source` and with `path` as the source path.
pub open spec fn converted(vs: Seq<bash::ast::CommandView>, source: Seq<char>, path: Option<String>, text: Seq<char>) -> bool {
    exists|statements: Seq<bash::ast::Command>| #[trigger] bash::ast::trees(statements) == vs
        && amber::render::program_rendered(statements, Some(source), match path {
            Some(p) => Some(p@),
            None => None,
        }, text)
}

/// Converts a Bash script into Amber source text, with the warnings met on the way; the
/// error of a script that does not parse.
pub fn convert_bash_to_amber_with_warnings(source: &str, path: Option<String>) -> (r: Result<(String, Vec<Warning>), String>)
    ensures
        !bash::rules::lexer_accepts(bash::parser::get_rules_view(), source@) ==> (r matches Err(e)
            && e@ == bash::parser::lexer_refusal_text(source@.last())),
        bash::rules::lexer_accepts(bash::parser::get_rules_view(), source@) ==> (
        bash::rules::heraclitus_tokens(bash::parser::get_rules_view(), source@) matches Err((unclosed, row, col)) ==> (
        r matches Err(e) && e@ == bash::parser::lexer_error_text(unclosed, row, col))),
        blank_script(source@) ==> (r matches Ok((text, _)) && text@.len() == 0),
        bash::parser::parse_failure(source@) matches Some(f) ==> (r matches Err(e) && e@ == bash::parser::failure_message(f)),
        bash::parser::parsed_statements(source@) is Some ==> r is Ok,
        bash::parser::parsed_statements(source@) matches Some(vs) ==> ((exists|k: int| 0 <= k < vs.len() && yields_text_view(#[trigger] vs[k]))
            ==> (r matches Ok((text, _)) && text@.len() > 0)),
        bash::parser::parsed_statements(source@) matches Some(vs) ==> (r matches Ok((text, _)) && converted(vs, source@, path, text@)),
{
    let program = match parse(source, match &path {
        Some(p) => Some(p.clone()),
        None => None,
    }) {
        Ok(p) => p,
        Err(e) => return Err(e),
    };
    let rendered = match &path {
        Some(p) => render_program_with_warnings(&program, Some(source), Some(p.as_str())),
        None => render_program_with_warnings(&program, Some(source), None),
    };
    proof {
        if let Some(vs) = bash::parser::parsed_statements(source@) {
            assert(bash::ast::trees(program.statements@) == vs);
            assert(converted(vs, source@, path, rendered.0@));
            if exists|k: int| 0 <= k < vs.len() && yields_text_view(#[trigger] vs[k]) {
                let k = choose|k: int| 0 <= k < vs.len() && yields_text_view(#[trigger] vs[k]);
                bash::ast::lemma_trees_index(program.statements@);
                assert(program.statements@[k].tree() == vs[k]);
                assert(amber::render::yields_text(program.statements@[k]));
            }
        }
    }
    Ok(rendered)
}

/// Converts a Bash script into Amber source text; the error of a script that does not parse.
pub fn convert_bash_to_amber(source: &str, path: Option<String>) -> (r: Result<String, String>)
    ensures
        !bash::rules::lexer_accepts(bash::parser::get_rules_view(), source@) ==> (r matches Err(e)
            && e@ == bash::parser::lexer_refusal_text(source@.last())),
        bash::rules::lexer_accepts(bash::parser::get_rules_view(), source@) ==> (
        bash::rules::heraclitus_tokens(bash::parser::get_rules_view(), source@) matches Err((unclosed, row, col)) ==> (
        r matches Err(e) && e@ == bash::parser::lexer_error_text(unclosed, row, col))),
        blank_script(source@) ==> (r matches Ok(text) && text@.len() == 0),
        bash::parser::parse_failure(source@) matches Some(f) ==> (r matches Err(e) && e@ == bash::parser::failure_message(f)),
        bash::parser::parsed_statements(source@) is Some ==> r is Ok,
        bash::parser::parsed_statements(source@) matches Some(vs) ==> ((exists|k: int| 0 <= k < vs.len() && yields_text_view(#[trigger] vs[k]))
            ==> (r matches Ok(text) && text@.len() > 0)),
        bash::parser::parsed_statements(source@) matches Some(vs) ==> (r matches Ok(text) && converted(vs, source@, path, text@)),
{
    match convert_bash_to_amber_with_warnings(source, path) {
        Ok((text, _)) => Ok(text),
        Err(e) => Err(e),
    }
}

} // verus!
