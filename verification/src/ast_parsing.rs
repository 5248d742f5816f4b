//! The data a signature extractor hands to the rule engine: one function's
//! ordered parameter list, its docstring span and its location. The syntax
//! tree driven extractor lives here as well.

use vstd::prelude::*;
use vstd::string::StrSliceExecFns;

use crate::parsing::{
    extract_docstring, lemma_params_view_push, opt_str_view, params_view, spec_extract_docstring,
};
use crate::text::{find_sub, str_eq};

verus! {

/// Declares tree_sitter::Parser, the syntax-tree provider, as an opaque type.
#[verifier::external_type_specification]
#[verifier::external_body]
pub struct ExParser(tree_sitter::Parser);

/// Declares tree_sitter::Tree, a parsed syntax tree, as an opaque type.
#[verifier::external_type_specification]
#[verifier::external_body]
pub struct ExTree(tree_sitter::Tree);

/// Declares tree_sitter::Node, one node of a syntax tree, as an opaque type.
#[verifier::external_type_specification]
#[verifier::external_body]
pub struct ExNode<'tree>(tree_sitter::Node<'tree>);

/// Declares tree_sitter::TreeCursor, a walker over a syntax tree, as an
/// opaque type.
#[verifier::external_type_specification]
#[verifier::external_body]
pub struct ExTreeCursor<'tree>(tree_sitter::TreeCursor<'tree>);

/// Relies on tree_sitter::Parser::parse: parses the buffer into a syntax
/// tree, reusing `old_tree` when one is given; `None` when the parser has no
/// language set yet.
#[verifier::external_body]
pub(crate) fn ts_parse(
    parser: &mut tree_sitter::Parser,
    source_code: &str,
    old_tree: Option<&tree_sitter::Tree>,
) -> Option<tree_sitter::Tree> {
    parser.parse(source_code, old_tree)
}

/// The cursor tree_sitter::Tree::walk returns, standing on the tree's root.
pub uninterp spec fn tree_cursor_of(tree: &tree_sitter::Tree) -> tree_sitter::TreeCursor;

/// The node tree_sitter::TreeCursor::node reads off a cursor.
pub uninterp spec fn cursor_node_of(cursor: tree_sitter::TreeCursor) -> tree_sitter::Node;

/// What tree_sitter::TreeCursor::goto_first_child does to a cursor: whether
/// it moved, and the cursor it leaves behind either way.
pub uninterp spec fn cursor_after_first_child(cursor: tree_sitter::TreeCursor) -> (
    bool,
    tree_sitter::TreeCursor,
);

/// What tree_sitter::TreeCursor::goto_next_sibling does to a cursor.
pub uninterp spec fn cursor_after_next_sibling(cursor: tree_sitter::TreeCursor) -> (
    bool,
    tree_sitter::TreeCursor,
);

/// What tree_sitter::TreeCursor::goto_parent does to a cursor.
pub uninterp spec fn cursor_after_parent(cursor: tree_sitter::TreeCursor) -> (
    bool,
    tree_sitter::TreeCursor,
);

/// The grammar type name tree_sitter::Node::kind reads off a node.
pub uninterp spec fn node_kind_of(node: tree_sitter::Node) -> Seq<char>;

/// The child count tree_sitter::Node::child_count reads off a node.
pub uninterp spec fn node_child_count_of(node: tree_sitter::Node) -> int;

/// The child tree_sitter::Node::child returns at an index, if any.
pub uninterp spec fn node_child_of(node: tree_sitter::Node, i: int) -> Option<tree_sitter::Node>;

/// The child tree_sitter::Node::child_by_field_name returns under a field
/// name, if any.
pub uninterp spec fn node_field_child_of(node: tree_sitter::Node, field_name: Seq<char>) -> Option<
    tree_sitter::Node,
>;

/// The node's span of a source buffer, as the guarded
/// tree_sitter::Node::utf8_text call returns it: `None` when the byte range
/// falls outside the buffer or off its character boundaries.
pub uninterp spec fn node_text_of(node: tree_sitter::Node, source_code: Seq<char>) -> Option<
    Seq<char>,
>;

/// The row tree_sitter::Node::start_position reads off a node.
pub uninterp spec fn node_start_row_of(node: tree_sitter::Node) -> int;

/// Relies on tree_sitter::Tree::walk: a cursor standing on the tree's root,
/// a function of the tree alone.
#[verifier::external_body]
pub(crate) fn ts_tree_walk<'t>(tree: &'t tree_sitter::Tree) -> (r: tree_sitter::TreeCursor<'t>)
    ensures
        r == tree_cursor_of(tree),
{
    tree.walk()
}

/// Relies on tree_sitter::TreeCursor::node: the node the cursor stands on,
/// a pure read of the cursor.
#[verifier::external_body]
pub(crate) fn ts_cursor_node<'t>(cursor: &tree_sitter::TreeCursor<'t>) -> (r: tree_sitter::Node<
    't,
>)
    ensures
        r == cursor_node_of(*cursor),
{
    cursor.node()
}

/// Relies on tree_sitter::TreeCursor::goto_first_child: moves to the first
/// child and says whether there was one; the move is a function of the
/// cursor alone, and a failed move may still reposition it internally.
#[verifier::external_body]
pub(crate) fn ts_goto_first_child<'t>(cursor: &mut tree_sitter::TreeCursor<'t>) -> (r: bool)
    ensures
        r == cursor_after_first_child(*old(cursor)).0,
        *final(cursor) == cursor_after_first_child(*old(cursor)).1,
{
    cursor.goto_first_child()
}

/// Relies on tree_sitter::TreeCursor::goto_next_sibling: moves to the next
/// sibling and says whether there was one; a function of the cursor alone.
#[verifier::external_body]
pub(crate) fn ts_goto_next_sibling<'t>(cursor: &mut tree_sitter::TreeCursor<'t>) -> (r: bool)
    ensures
        r == cursor_after_next_sibling(*old(cursor)).0,
        *final(cursor) == cursor_after_next_sibling(*old(cursor)).1,
{
    cursor.goto_next_sibling()
}

/// Relies on tree_sitter::TreeCursor::goto_parent: moves to the parent and
/// says whether there was one; a function of the cursor alone.
#[verifier::external_body]
pub(crate) fn ts_goto_parent<'t>(cursor: &mut tree_sitter::TreeCursor<'t>) -> (r: bool)
    ensures
        r == cursor_after_parent(*old(cursor)).0,
        *final(cursor) == cursor_after_parent(*old(cursor)).1,
{
    cursor.goto_parent()
}

/// Relies on tree_sitter::Node::kind: the node's grammar type name, a pure
/// read of the parsed tree.
#[verifier::external_body]
fn ts_node_kind<'t>(node: &tree_sitter::Node<'t>) -> (r: &'t str)
    ensures
        r@ == node_kind_of(*node),
{
    node.kind()
}

/// Relies on tree_sitter::Node::child_by_field_name: the first child under
/// the given field name, if any; a pure read of the parsed tree.
#[verifier::external_body]
fn ts_child_by_field_name<'t>(
    node: &tree_sitter::Node<'t>,
    field_name: &str,
) -> (r: Option<tree_sitter::Node<'t>>)
    ensures
        r == node_field_child_of(*node, field_name@),
{
    node.child_by_field_name(field_name)
}

/// Relies on tree_sitter::Node::child: the `i`-th child, if there is one; a
/// pure read of the parsed tree.
#[verifier::external_body]
fn ts_node_child<'t>(node: &tree_sitter::Node<'t>, i: u32) -> (r: Option<tree_sitter::Node<'t>>)
    ensures
        r == node_child_of(*node, i as int),
{
    node.child(i)
}

/// Relies on tree_sitter::Node::child_count: a pure read of the parsed tree.
#[verifier::external_body]
fn ts_node_child_count<'t>(node: &tree_sitter::Node<'t>) -> (r: u32)
    ensures
        r as int == node_child_count_of(*node),
{
    node.child_count()
}

/// Relies on tree_sitter::Node::utf8_text: the node's span of the source it
/// was parsed from, `None` when the node's byte range falls outside the
/// given buffer (a node from another, longer source) or does not lie on
/// character boundaries of it.
#[verifier::external_body]
fn ts_node_text<'a, 't>(node: &tree_sitter::Node<'t>, source_code: &'a str) -> (r: Option<&'a str>)
    ensures
        crate::parsing::opt_str_view(r) == node_text_of(*node, source_code@),
{
    let bytes = source_code.as_bytes();
    if node.start_byte() > node.end_byte() || node.end_byte() > bytes.len() {
        return None;
    }
    node.utf8_text(bytes).ok()
}

/// Relies on tree_sitter::Node::start_position: the row the node starts on,
/// cached in the node itself.
#[verifier::external_body]
fn ts_node_start_row<'t>(node: &tree_sitter::Node<'t>) -> (r: usize)
    ensures
        r as int == node_start_row_of(*node),
{
    node.start_position().row
}

/// Where a function stands in its source file, for diagnostics: by name or
/// by row.
#[derive(Debug, PartialEq, Eq, Clone, Copy)]
pub enum FunctionLocation<'a> {
    Name(&'a str),
    Row(usize),
}

/// Information about a function's signature and docstring.
///
/// `params` holds the declared parameters in source order, the receiver
/// (`self`) excluded, each as a name with an optional type annotation;
/// `docstring` is the raw docstring span, delimiters included, when the
/// function has one. All text borrows from the source buffer.
pub struct FunctionInfo<'a, 'b> {
    pub params: &'b [(&'a str, Option<&'a str>)],
    pub docstring: Option<&'a str>,
    pub function_name: FunctionLocation<'a>,
}

/// The pair of identifier and type texts the typed-parameter classification
/// reads off a parameter node's children from index `j` on, each later
/// occurrence overriding an earlier one, starting from the given pair.
pub open spec fn spec_typed_fields(
    child: tree_sitter::Node,
    source: Seq<char>,
    j: int,
    ident: Option<Seq<char>>,
    typ: Option<Seq<char>>,
) -> (Option<Seq<char>>, Option<Seq<char>>)
    decreases node_child_count_of(child) - j,
{
    if j < 0 || j >= node_child_count_of(child) {
        (ident, typ)
    } else {
        let stepped = match node_child_of(child, j) {
            None => (ident, typ),
            Some(inner) => match node_text_of(inner, source) {
                None => (ident, typ),
                Some(txt) => if node_kind_of(inner) == ("identifier")@ {
                    (Some(txt), typ)
                } else if node_kind_of(inner) == ("type")@ {
                    (ident, Some(txt))
                } else {
                    (ident, typ)
                },
            },
        };
        spec_typed_fields(child, source, j + 1, stepped.0, stepped.1)
    }
}

/// The parameters one child of the parameter-list node contributes,
/// classified by its shape: the receiver `self` nothing; a typed parameter
/// (with or without a default) its identifier and type texts; a bare
/// identifier an untyped parameter; a parameter with a default value its
/// name before the `=` alone; anything else nothing.
pub open spec fn spec_param_of_child(child: tree_sitter::Node, source: Seq<char>) -> Seq<
    (Seq<char>, Option<Seq<char>>),
> {
    match node_text_of(child, source) {
        None => Seq::empty(),
        Some(text) => if text == ("self")@ {
            Seq::empty()
        } else {
            let kind = node_kind_of(child);
            if kind == ("typed_parameter")@ || kind == ("typed_default_parameter")@ {
                match spec_typed_fields(child, source, 0, None, None) {
                    (Some(ident), Some(t)) => seq![(ident, Some(t))],
                    _ => Seq::empty(),
                }
            } else if kind == ("identifier")@ {
                seq![(text, None)]
            } else if kind == ("default_parameter")@ {
                match crate::text::spec_find(text, ("=")@) {
                    Some(c) => seq![(text.subrange(0, c), None)],
                    None => Seq::empty(),
                }
            } else {
                Seq::empty()
            }
        },
    }
}

/// The parameter list read off the parameter-list node's children from
/// index `j` on, in declaration order.
pub open spec fn spec_params_of_children(
    params_node: tree_sitter::Node,
    source: Seq<char>,
    j: int,
) -> Seq<(Seq<char>, Option<Seq<char>>)>
    decreases node_child_count_of(params_node) - j,
{
    if j < 0 || j >= node_child_count_of(params_node) {
        Seq::empty()
    } else {
        let rest = spec_params_of_children(params_node, source, j + 1);
        match node_child_of(params_node, j) {
            None => rest,
            Some(c) => spec_param_of_child(c, source) + rest,
        }
    }
}

/// The first child of the node from index `j` on whose kind is `block`.
pub open spec fn spec_block_of(node: tree_sitter::Node, j: int) -> Option<tree_sitter::Node>
    decreases node_child_count_of(node) - j,
{
    if j < 0 || j >= node_child_count_of(node) {
        None
    } else {
        match node_child_of(node, j) {
            Some(c) => if node_kind_of(c) == ("block")@ {
                Some(c)
            } else {
                spec_block_of(node, j + 1)
            },
            None => spec_block_of(node, j + 1),
        }
    }
}

/// What the tree strategy reads off a node, over the named results of the
/// tree provider's calls: `None` unless the node's kind is
/// `function_definition` with a `parameters` field child and a `block`
/// child whose text lies within the buffer; else the classified parameter
/// list, the docstring `extract_docstring` finds in the block's text, and
/// the node's start row.
pub open spec fn spec_signature_of(node: tree_sitter::Node, source: Seq<char>) -> Option<
    (Seq<(Seq<char>, Option<Seq<char>>)>, Option<Seq<char>>, int),
> {
    if node_kind_of(node) != ("function_definition")@ {
        None
    } else {
        match node_field_child_of(node, ("parameters")@) {
            None => None,
            Some(params_node) => {
                let ps = spec_params_of_children(params_node, source, 0);
                match spec_block_of(node, 0) {
                    None => None,
                    Some(block) => match node_text_of(block, source) {
                        None => None,
                        Some(content) => Some(
                            (ps, spec_extract_docstring(content), node_start_row_of(node)),
                        ),
                    },
                }
            },
        }
    }
}

/// Extracts one function's information from a syntax-tree node, as
/// `spec_signature_of` gives it over the named results of the tree
/// provider's calls: `None` for any node that is not a function definition
/// (which is how a whole-tree walk filters nodes), else the classified
/// parameter list, the docstring of the body block's text, and the row.
///
/// Uses a buffered params vector, which the returned record borrows, instead
/// of allocating a new one every time.
pub fn get_function_signature<'a, 'b, 't>(
    node: &tree_sitter::Node<'t>,
    source_code: &'a str,
    params: &'b mut Vec<(&'a str, Option<&'a str>)>,
) -> (r: Option<FunctionInfo<'a, 'b>>)
    ensures
        match (r, spec_signature_of(*node, source_code@)) {
            (Some(info), Some((ps, doc, row))) => params_view(final(params)@) == ps
                && info.params@ == final(params)@ && opt_str_view(info.docstring) == doc && (
            match info.function_name {
                FunctionLocation::Row(x) => x as int == row,
                _ => false,
            }),
            (None, None) => true,
            _ => false,
        },
{
    proof {
        reveal_strlit("=");
    }
    let ghost nv = *node;
    let ghost src = source_code@;
    if !str_eq(ts_node_kind(node), "function_definition") {
        return None;
    }
    let row = ts_node_start_row(node);
    let params_node = match ts_child_by_field_name(node, "parameters") {
        None => {
            return None;
        },
        Some(p) => p,
    };
    let ghost pn = params_node;
    params.clear();
    let n = ts_node_child_count(&params_node);
    let mut i: u32 = 0;
    while i < n
        invariant
            n as int == node_child_count_of(pn),
            i <= n,
            pn == params_node,
            src == source_code@,
            params_view(params@) + spec_params_of_children(pn, src, i as int)
                == spec_params_of_children(pn, src, 0),
        decreases n - i,
    {
        proof {
            reveal_strlit("=");
        }
        let ghost pv0 = params_view(params@);
        let child = match ts_node_child(&params_node, i) {
            None => {
                proof {
                    assert(spec_params_of_children(pn, src, i as int) == spec_params_of_children(
                        pn,
                        src,
                        i + 1,
                    ));
                }
                i += 1;
                continue ;
            },
            Some(c) => c,
        };
        let ghost cv = child;
        proof {
            assert(spec_params_of_children(pn, src, i as int) == spec_param_of_child(cv, src)
                + spec_params_of_children(pn, src, i + 1));
        }
        let text = match ts_node_text(&child, source_code) {
            None => {
                proof {
                    assert(spec_param_of_child(cv, src) =~= Seq::<
                        (Seq<char>, Option<Seq<char>>),
                    >::empty());
                    assert(pv0 + spec_params_of_children(pn, src, i + 1) =~= pv0
                        + spec_params_of_children(pn, src, i as int));
                }
                i += 1;
                continue ;
            },
            Some(t) => t,
        };
        proof {
            reveal_strlit("self");
        }
        if str_eq(text, "self") {
            proof {
                assert(spec_param_of_child(cv, src) =~= Seq::<
                    (Seq<char>, Option<Seq<char>>),
                >::empty());
                assert(pv0 + spec_params_of_children(pn, src, i + 1) =~= pv0
                    + spec_params_of_children(pn, src, i as int));
            }
            i += 1;
            continue ;
        }
        let kind = ts_node_kind(&child);
        if str_eq(kind, "typed_parameter") || str_eq(kind, "typed_default_parameter") {
            let mut identifier: Option<&'a str> = None;
            let mut typ: Option<&'a str> = None;
            let m = ts_node_child_count(&child);
            let mut j: u32 = 0;
            while j < m
                invariant
                    m as int == node_child_count_of(cv),
                    j <= m,
                    cv == child,
                    src == source_code@,
                    spec_typed_fields(cv, src, 0, None, None) == spec_typed_fields(
                        cv,
                        src,
                        j as int,
                        opt_str_view(identifier),
                        opt_str_view(typ),
                    ),
                decreases m - j,
            {
                match ts_node_child(&child, j) {
                    Some(inner) => {
                        match ts_node_text(&inner, source_code) {
                            Some(inner_text) => {
                                let inner_kind = ts_node_kind(&inner);
                                if str_eq(inner_kind, "identifier") {
                                    identifier = Some(inner_text);
                                } else if str_eq(inner_kind, "type") {
                                    typ = Some(inner_text);
                                }
                            },
                            None => {},
                        }
                    },
                    None => {},
                }
                j += 1;
            }
            proof {
                assert(spec_typed_fields(cv, src, j as int, opt_str_view(identifier), opt_str_view(typ))
                    == (opt_str_view(identifier), opt_str_view(typ)));
            }
            match (identifier, typ) {
                (Some(ident), Some(t)) => {
                    proof {
                        lemma_params_view_push(params@, (ident, Some(t)));
                        assert(spec_param_of_child(cv, src) =~= seq![(ident@, Some(t@))]);
                    }
                    params.push((ident, Some(t)));
                    proof {
                        assert(params_view(params@) + spec_params_of_children(pn, src, i + 1)
                            =~= pv0 + spec_params_of_children(pn, src, i as int));
                    }
                },
                _ => {
                    proof {
                        assert(spec_param_of_child(cv, src) =~= Seq::<
                            (Seq<char>, Option<Seq<char>>),
                        >::empty());
                        assert(pv0 + spec_params_of_children(pn, src, i + 1) =~= pv0
                            + spec_params_of_children(pn, src, i as int));
                    }
                },
            }
        } else if str_eq(kind, "identifier") {
            proof {
                lemma_params_view_push(params@, (text, None));
                assert(spec_param_of_child(cv, src) =~= seq![(text@, None::<Seq<char>>)]);
            }
            params.push((text, None));
            proof {
                assert(params_view(params@) + spec_params_of_children(pn, src, i + 1) =~= pv0
                    + spec_params_of_children(pn, src, i as int));
            }
        } else if str_eq(kind, "default_parameter") {
            match find_sub(text, "=") {
                Some(c) => {
                    let name = text.substring_char(0, c);
                    proof {
                        lemma_params_view_push(params@, (name, None));
                        assert(spec_param_of_child(cv, src) =~= seq![(name@, None::<Seq<char>>)]);
                    }
                    params.push((name, None));
                    proof {
                        assert(params_view(params@) + spec_params_of_children(pn, src, i + 1)
                            =~= pv0 + spec_params_of_children(pn, src, i as int));
                    }
                },
                None => {
                    proof {
                        assert(spec_param_of_child(cv, src) =~= Seq::<
                            (Seq<char>, Option<Seq<char>>),
                        >::empty());
                        assert(pv0 + spec_params_of_children(pn, src, i + 1) =~= pv0
                            + spec_params_of_children(pn, src, i as int));
                    }
                },
            }
        } else {
            proof {
                assert(spec_param_of_child(cv, src) =~= Seq::<
                    (Seq<char>, Option<Seq<char>>),
                >::empty());
                assert(pv0 + spec_params_of_children(pn, src, i + 1) =~= pv0
                    + spec_params_of_children(pn, src, i as int));
            }
        }
        i += 1;
    }
    proof {
        assert(spec_params_of_children(pn, src, n as int) =~= Seq::<
            (Seq<char>, Option<Seq<char>>),
        >::empty());
        assert(params_view(params@) + spec_params_of_children(pn, src, n as int) =~= params_view(
            params@,
        ));
    }
    let cnt = ts_node_child_count(node);
    let mut block: Option<tree_sitter::Node<'t>> = None;
    let mut k: u32 = 0;
    while k < cnt
        invariant
            cnt as int == node_child_count_of(nv),
            k <= cnt,
            nv == *node,
            block is Some ==> k == cnt,
            match block {
                None => spec_block_of(nv, 0) == spec_block_of(nv, k as int),
                Some(b) => spec_block_of(nv, 0) == Some(b),
            },
        decreases cnt - k,
    {
        match ts_node_child(node, k) {
            Some(c) => {
                if str_eq(ts_node_kind(&c), "block") {
                    proof {
                        assert(spec_block_of(nv, k as int) == Some(c));
                    }
                    block = Some(c);
                    k = cnt;
                    continue ;
                }
            },
            None => {},
        }
        k += 1;
    }
    let block = match block {
        None => {
            return None;
        },
        Some(b) => b,
    };
    let content = match ts_node_text(&block, source_code) {
        None => {
            return None;
        },
        Some(c) => c,
    };
    let docstring = extract_docstring(content);
    Some(
        FunctionInfo {
            params: params.as_slice(),
            docstring,
            function_name: FunctionLocation::Row(row),
        },
    )
}

/// One function's outcome, for diagnostics: where it stands, whether it
/// complies, its declared parameters and its raw docstring span. The
/// documented list a caller wants to print comes from
/// `parse_documented_params` on the docstring.
pub struct FunctionReport<'a> {
    pub function_name: FunctionLocation<'a>,
    pub compliant: bool,
    pub params: Vec<(&'a str, Option<&'a str>)>,
    pub docstring: Option<&'a str>,
}

/// The signatures a preorder cursor walk reads within a step budget,
/// starting at a node about to be visited: the visited node's extracted
/// signature, if any, then the signatures below and after it.
pub open spec fn spec_walk_sigs(cursor: tree_sitter::TreeCursor, source: Seq<char>, fuel: nat)
    -> Seq<(Seq<(Seq<char>, Option<Seq<char>>)>, Option<Seq<char>>, int)>
    decreases fuel, 1int,
{
    if fuel == 0 {
        Seq::empty()
    } else {
        let rest = match cursor_after_first_child(cursor) {
            (true, c2) => spec_walk_sigs(c2, source, (fuel - 1) as nat),
            (false, c2) => spec_ascend_sigs(c2, source, (fuel - 1) as nat),
        };
        match spec_signature_of(cursor_node_of(cursor), source) {
            Some(sig) => seq![sig] + rest,
            None => rest,
        }
    }
}

/// The signatures the walk still reads while climbing: move to the next
/// sibling and visit it, else to the parent and climb on, until the root is
/// left or the budget runs out.
pub open spec fn spec_ascend_sigs(cursor: tree_sitter::TreeCursor, source: Seq<char>, fuel: nat)
    -> Seq<(Seq<(Seq<char>, Option<Seq<char>>)>, Option<Seq<char>>, int)>
    decreases fuel, 0int,
{
    if fuel == 0 {
        Seq::empty()
    } else {
        match cursor_after_next_sibling(cursor) {
            (true, c2) => spec_walk_sigs(c2, source, (fuel - 1) as nat),
            (false, c2) => match cursor_after_parent(c2) {
                (true, cp) => spec_ascend_sigs(cp, source, (fuel - 1) as nat),
                (false, cp) => Seq::empty(),
            },
        }
    }
}

} // verus!
