//! Checks that a source function's documented parameters match its declared
//! parameters — name, order and optionally type — flagging drift between
//! code and documentation. Two interchangeable signature extractors feed a
//! rule engine: one walks a syntax tree, one scans tokens forward; the
//! docstring section parsers read the Google and NumPy conventions.

pub mod ast_parsing;
pub mod lexing;
pub mod parsing;
pub mod rules_checking;
pub mod text;

pub use crate::ast_parsing::{FunctionInfo, FunctionLocation};

use vstd::prelude::*;

use crate::rules_checking::{respects_rules, DocstringStyle};

verus! {

/// Checks a whole source file with the syntax-tree strategy under the
/// Google convention: every function definition in the parsed tree must
/// carry a docstring whose documented parameters match its signature, as the
/// given flags demand. `docstring_should_always_be_typed` tolerates type
/// annotations present on only one side.
///
/// This is the older fixed-convention entry; `respects_rules` is the
/// configurable one. As there, the one unspecified step is the parse
/// itself: the verdict over whatever tree comes back is
/// `respects_rules_in_tree`, and the per-function decision
/// `is_function_info_valid`, both with exact contracts.
pub fn parse_file_contents(
    parser: &mut tree_sitter::Parser,
    source_code: &str,
    old_tree: Option<&tree_sitter::Tree>,
    succeed_if_no_docstring: bool,
    succeed_if_no_args_in_docstring: bool,
    docstring_should_always_be_typed: bool,
) -> bool {
    respects_rules(
        parser,
        source_code,
        old_tree,
        false,
        succeed_if_no_docstring,
        succeed_if_no_args_in_docstring,
        docstring_should_always_be_typed,
        false,
        DocstringStyle::Google,
    )
}

} // verus!
