//! Laws of the rewrite engine, stated over the specification functions and
//! proved once and for all: what the binding renderer, the assignment-token
//! rule, the init hoist, the match rewrite and the fallback do on every
//! input their side conditions admit.

use vstd::prelude::*;
use crate::dispatch::{field_child_smaller, is_container_kind, last_ws_index, lemma_step_depth,
    lemma_walk_depth, node_step, push_token, run_model, slice_of, start_model, walk_children,
    walk_from, warning_text};
use crate::state::StateModel;
use crate::text::{commented, concat_all, has_arrow, has_ws, join_with};
use crate::tree::{find_field, sexp, SyntaxNode};

verus! {

/// The model after the advisory-warning check, before the kind dispatch.
pub open spec fn after_warning(node: SyntaxNode, src: Seq<char>, m: StateModel) -> StateModel {
    if has_arrow(slice_of(src, node)) {
        StateModel {
            warnings: m.warnings.push(warning_text(node.kind@, slice_of(src, node))),
            ..m
        }
    } else {
        m
    }
}

/// Lengths and leading characters of the kind labels the dispatch table
/// tests, and of a few emitted fragments: enough to tell any two apart.
pub proof fn lemma_kind_facts()
    ensures
        "package_clause"@.len() == 14,
        "package_clause"@[0] == 'p',
        "import_declaration"@.len() == 18,
        "import_declaration"@[0] == 'i',
        "object_definition"@.len() == 17,
        "object_definition"@[0] == 'o',
        "class_definition"@.len() == 16,
        "class_definition"@[0] == 'c',
        "block"@.len() == 5,
        "block"@[0] == 'b',
        "arguments"@.len() == 9,
        "arguments"@[0] == 'a',
        "parameters"@.len() == 10,
        "parameters"@[0] == 'p',
        "parameter"@.len() == 9,
        "parameter"@[0] == 'p',
        "generic_type"@.len() == 12,
        "generic_type"@[0] == 'g',
        "stable_type_identifier"@.len() == 22,
        "stable_type_identifier"@[0] == 's',
        "case_block"@.len() == 10,
        "case_block"@[0] == 'c',
        "type_arguments"@.len() == 14,
        "type_arguments"@[0] == 't',
        "annotation"@.len() == 10,
        "annotation"@[0] == 'a',
        "case_clause"@.len() == 11,
        "case_clause"@[0] == 'c',
        "def"@.len() == 3,
        "def"@[0] == 'd',
        ":"@.len() == 1,
        ":"@[0] == ':',
        "class"@.len() == 5,
        "class"@[0] == 'c',
        "object"@.len() == 6,
        "object"@[0] == 'o',
        "="@.len() == 1,
        "="@[0] == '=',
        "type_identifier"@.len() == 15,
        "type_identifier"@[0] == 't',
        "."@.len() == 1,
        "."@[0] == '.',
        "("@.len() == 1,
        "("@[0] == '(',
        ")"@.len() == 1,
        ")"@[0] == ')',
        "_"@.len() == 1,
        "_"@[0] == '_',
        "identifier"@.len() == 10,
        "identifier"@[0] == 'i',
        "string"@.len() == 6,
        "string"@[0] == 's',
        "template_body"@.len() == 13,
        "template_body"@[0] == 't',
        "function_definition"@.len() == 19,
        "function_definition"@[0] == 'f',
        "call_expression"@.len() == 15,
        "call_expression"@[0] == 'c',
        "match"@.len() == 5,
        "match"@[0] == 'm',
        "field_expression"@.len() == 16,
        "field_expression"@[0] == 'f',
        "val_definition"@.len() == 14,
        "val_definition"@[0] == 'v',
        "var_definition"@.len() == 14,
        "var_definition"@[0] == 'v',
        "{"@.len() == 1,
        "{"@[0] == '{',
        "}"@.len() == 1,
        "}"@[0] == '}',
        "comment"@.len() == 7,
        "comment"@[0] == 'c',
        "null_literal"@.len() == 12,
        "null_literal"@[0] == 'n',
        "val_definition"@[2] == 'l',
        "var_definition"@[2] == 'r',
        " = "@.len() == 3,
        " = "@[0] == ' ',
        ": "@.len() == 2,
        ": "@[0] == ':',
        "\n"@.len() == 1,
        " "@.len() == 1,
{
    reveal_strlit("package_clause");
    reveal_strlit("import_declaration");
    reveal_strlit("object_definition");
    reveal_strlit("class_definition");
    reveal_strlit("block");
    reveal_strlit("arguments");
    reveal_strlit("parameters");
    reveal_strlit("parameter");
    reveal_strlit("generic_type");
    reveal_strlit("stable_type_identifier");
    reveal_strlit("case_block");
    reveal_strlit("type_arguments");
    reveal_strlit("annotation");
    reveal_strlit("case_clause");
    reveal_strlit("def");
    reveal_strlit(":");
    reveal_strlit("class");
    reveal_strlit("object");
    reveal_strlit("=");
    reveal_strlit("type_identifier");
    reveal_strlit(".");
    reveal_strlit("(");
    reveal_strlit(")");
    reveal_strlit("_");
    reveal_strlit("identifier");
    reveal_strlit("string");
    reveal_strlit("template_body");
    reveal_strlit("function_definition");
    reveal_strlit("call_expression");
    reveal_strlit("match");
    reveal_strlit("field_expression");
    reveal_strlit("val_definition");
    reveal_strlit("var_definition");
    reveal_strlit("{");
    reveal_strlit("}");
    reveal_strlit("comment");
    reveal_strlit("null_literal");
    reveal_strlit(" = ");
    reveal_strlit(": ");
    reveal_strlit("\n");
    reveal_strlit(" ");
}

/// A binding node without a value child emits no ` = ` fragment and renders
/// no value: only the binding line (with its optional type annotation) and
/// the closing newline are appended, and history, depth and the initializer
/// queue stay as they were.
pub proof fn lemma_binding_without_value(node: SyntaxNode, src: Seq<char>, m: StateModel)
    requires
        node.kind@ == "val_definition"@ || node.kind@ == "var_definition"@,
        find_field(node.children@, "value"@) is None,
    ensures
        ({
            let m1 = node_step(node, src, m);
            &&& m1.tokens.len() == m.tokens.len() + (if find_field(node.children@, "type"@)
                is Some {
                3int
            } else {
                2int
            })
            &&& forall|i: int|
                m.tokens.len() <= i < m1.tokens.len() ==> #[trigger] m1.tokens[i] != " = "@
            &&& m1.tokens.subrange(0, m.tokens.len() as int) == m.tokens
            &&& m1.recent == m.recent
            &&& m1.depth == m.depth
            &&& m1.init == m.init
        }),
{
    lemma_kind_facts();
    let k = node.kind@;
    let ma = after_warning(node, src, m);
    let pat = find_field(node.children@, "pattern"@)->0;
    let mods = match find_field(node.children@, "modifiers"@) {
        Some(x) => slice_of(src, x) + " "@,
        None => Seq::<char>::empty(),
    };
    let first = mods + k.take(3) + " "@ + slice_of(src, pat);
    assert(first.len() >= 4);
    let m1 = push_token(ma, first);
    match find_field(node.children@, "type"@) {
        Some(t) => {
            let tt = ": "@ + slice_of(src, t);
            assert(tt[0] == ':');
            assert(tt != " = "@);
        },
        None => {},
    }
    assert("\n"@.len() == 1);
    assert(node_step(node, src, m).tokens.subrange(0, m.tokens.len() as int) =~= m.tokens);
}

/// The assignment-token rule: an `=` node is suppressed exactly when the
/// most recently processed sibling was a type identifier; otherwise it emits
/// the single fragment ` = `.  Nothing else changes either way.
pub proof fn lemma_assign_token(node: SyntaxNode, src: Seq<char>, m: StateModel)
    requires
        node.kind@ == "="@,
    ensures
        ({
            let m1 = node_step(node, src, m);
            &&& (m.recent.len() > 0 && m.recent[0] == "type_identifier"@) ==> m1.tokens
                == m.tokens
            &&& !(m.recent.len() > 0 && m.recent[0] == "type_identifier"@) ==> m1.tokens
                == m.tokens.push(" = "@)
            &&& m1.recent == m.recent
            &&& m1.depth == m.depth
            &&& m1.init == m.init
        }),
{
    lemma_kind_facts();
}

/// The hoist rule for a constructor-call statement at class-body top level
/// (depth 1): the fragments its rendering leaves beyond the mark are cut out
/// of the output and pushed, concatenated in order, as one new entry at the
/// back of the initializer queue.  Whenever the rendering only appends (the
/// usual case; a match keyword inside the call may scan past the mark), the
/// output comes back exactly to its old value and the call never stays
/// inline.
pub proof fn lemma_call_hoisted(node: SyntaxNode, src: Seq<char>, m: StateModel)
    requires
        node.kind@ == "call_expression"@,
        m.depth == 1,
        node.children@.len() > 0,
    ensures
        ({
            let ma = after_warning(node, src, m);
            let mw = walk_children(node, src, ma);
            let m1 = node_step(node, src, m);
            &&& mw.tokens.len() >= m.tokens.len() ==> {
                &&& m1.tokens == mw.tokens.take(m.tokens.len() as int)
                &&& m1.init == mw.init.push(concat_all(mw.tokens.skip(m.tokens.len() as int)))
            }
            &&& mw.tokens.len() < m.tokens.len() ==> {
                &&& m1.tokens == mw.tokens
                &&& m1.init == mw.init.push(Seq::<char>::empty())
            }
            &&& m1.init.len() == mw.init.len() + 1
            &&& m1.recent == mw.recent
            &&& (mw.tokens.len() >= m.tokens.len() && mw.tokens.take(m.tokens.len() as int)
                == m.tokens) ==> m1.tokens == m.tokens
        }),
{
    lemma_kind_facts();
}

/// The inline rule for a call expression away from class-body top level
/// (any depth other than 1): its verbatim source plus a newline is appended
/// as one fragment, and the initializer queue is untouched.
pub proof fn lemma_call_inline(node: SyntaxNode, src: Seq<char>, m: StateModel)
    requires
        node.kind@ == "call_expression"@,
        m.depth != 1,
    ensures
        ({
            let m1 = node_step(node, src, m);
            &&& m1.tokens == m.tokens.push(slice_of(src, node) + "\n"@)
            &&& m1.init == m.init
            &&& m1.recent == m.recent
            &&& m1.depth == m.depth
        }),
{
    lemma_kind_facts();
}

/// The flush rule at a class or object exit: exactly the initializer
/// entries queued during this subtree are joined with newline-and-tab,
/// wrapped as an `init { ... }` block, spliced just before the node's last
/// emitted fragment, and cut from the queue; entries queued before the node
/// was entered stay pending for their own class's exit, and a body that
/// queued nothing changes nothing.
pub proof fn lemma_class_flush(node: SyntaxNode, src: Seq<char>, m: StateModel)
    requires
        node.kind@ == "object_definition"@ || node.kind@ == "class_definition"@,
        node.children@.len() > 0,
    ensures
        ({
            let mark = m.init.len() as int;
            let ma = after_warning(node, src, m);
            let mw = walk_children(node, src, StateModel { depth: ma.depth + 1, ..ma });
            let m1 = node_step(node, src, m);
            &&& mw.init.len() > mark ==> {
                &&& m1.init == mw.init.take(mark)
                &&& m1.tokens == mw.tokens.insert(
                    if mw.tokens.len() >= 1 {
                        mw.tokens.len() - 1
                    } else {
                        0
                    },
                    "\ninit {\n\t"@ + join_with(mw.init.skip(mark), "\n\t"@) + "\n}\n"@,
                )
            }
            &&& mw.init.len() <= mark ==> {
                &&& m1.init == mw.init
                &&& m1.tokens == mw.tokens
            }
            &&& m1.recent == mw.recent
            &&& m1.warnings == mw.warnings
        }),
{
    lemma_kind_facts();
}

/// The match-header rewrite on its intended shape: a scrutinee rendered as a
/// single whitespace-free fragment, preceded by a fragment holding a space
/// or newline.  The scrutinee fragment is replaced by exactly
/// `when (<scrutinee>) \n`.
pub proof fn lemma_match_rewrite(node: SyntaxNode, src: Seq<char>, m: StateModel)
    requires
        node.kind@ == "match"@,
        m.tokens.len() >= 2,
        has_ws(m.tokens[m.tokens.len() - 2]),
        !has_ws(m.tokens[m.tokens.len() - 1]),
    ensures
        ({
            let m1 = node_step(node, src, m);
            &&& m1.tokens == m.tokens.take(m.tokens.len() - 1).push(
                "when ("@ + m.tokens[m.tokens.len() - 1] + ") \n"@,
            )
            &&& m1.init == m.init
            &&& m1.recent == m.recent
            &&& m1.depth == m.depth
        }),
{
    lemma_kind_facts();
    let toks = m.tokens;
    let n = toks.len() as int;
    assert(toks.drop_last() =~= toks.take(n - 1));
    assert(toks.drop_last().last() == toks[n - 2]);
    assert(last_ws_index(toks.drop_last()) == n - 2);
    assert(last_ws_index(toks) == n - 2);
    let tail = toks.skip(n - 1);
    assert(tail.len() == 1);
    assert(tail[0] == toks[n - 1]);
    assert(concat_all(tail) =~= toks[n - 1] + concat_all(tail.drop_first()));
    assert(tail.drop_first().len() == 0);
    assert(concat_all(tail.drop_first()) =~= Seq::<char>::empty());
    assert(toks[n - 1] + Seq::<char>::empty() =~= toks[n - 1]);
}

/// Dispatching any node outside a class body (depth `0`) leaves an empty
/// initializer queue empty: entries are only queued at depth `1`, and every
/// class or object exit flushes the queue synchronously.
pub proof fn lemma_step_init_empty(node: SyntaxNode, src: Seq<char>, m: StateModel)
    requires
        m.depth == 0,
        m.init.len() == 0,
    ensures
        node_step(node, src, m).init.len() == 0,
    decreases node, 2int, 0int,
{
    let k = node.kind@;
    let ma = after_warning(node, src, m);
    field_child_smaller(node, "pattern"@);
    field_child_smaller(node, "body"@);
    field_child_smaller(node, "value"@);
    if k == "object_definition"@ || k == "class_definition"@ {
        // the exit cuts the queue back to its length at entry: zero here
    } else if is_container_kind(k) {
        if node.children.len() > 0 {
            lemma_walk_init_empty(node, src, ma);
        }
    } else if k == "case_clause"@ {
        if find_field(node.children@, "pattern"@) is Some && find_field(node.children@, "body"@)
            is Some {
            let pat = find_field(node.children@, "pattern"@)->0;
            let body = find_field(node.children@, "body"@)->0;
            lemma_walk_init_empty(pat, src, ma);
            lemma_walk_depth(pat, src, ma);
            let m1 = walk_children(pat, src, ma);
            lemma_walk_init_empty(body, src, push_token(m1, " -> "@));
        }
    } else if k == "template_body"@ || k == "function_definition"@ {
        if node.children.len() > 0 {
            lemma_walk_init_empty(node, src, push_token(ma, "\n"@));
        }
    } else if k == "field_expression"@ {
        if find_field(node.children@, "value"@) is Some && find_field(node.children@, "field"@)
            is Some {
            let value = find_field(node.children@, "value"@)->0;
            lemma_walk_init_empty(value, src, ma);
        }
    } else if k == "val_definition"@ || k == "var_definition"@ {
        match find_field(node.children@, "value"@) {
            Some(v) => {
                let pat = find_field(node.children@, "pattern"@)->0;
                let mods = match find_field(node.children@, "modifiers"@) {
                    Some(x) => slice_of(src, x) + " "@,
                    None => Seq::<char>::empty(),
                };
                let m1 = push_token(ma, mods + k.take(3) + " "@ + slice_of(src, pat));
                let m2 = match find_field(node.children@, "type"@) {
                    Some(t) => push_token(m1, ": "@ + slice_of(src, t)),
                    None => m1,
                };
                lemma_walk_init_empty(v, src, push_token(m2, " = "@));
            },
            None => {},
        }
    }
}

/// Walking any subtree outside a class body keeps the initializer queue
/// empty.
pub proof fn lemma_walk_init_empty(node: SyntaxNode, src: Seq<char>, m: StateModel)
    requires
        m.depth == 0,
        m.init.len() == 0,
    ensures
        walk_children(node, src, m).init.len() == 0,
    decreases node, (if node.children.len() == 0 { 3int } else { 1int }), 0int,
{
    if node.children.len() == 0 {
        lemma_step_init_empty(node, src, m);
    } else {
        lemma_walk_from_init_empty(node, src, m, 0);
    }
}

proof fn lemma_walk_from_init_empty(node: SyntaxNode, src: Seq<char>, m: StateModel, i: int)
    requires
        m.depth == 0,
        m.init.len() == 0,
    ensures
        walk_from(node, src, m, i).init.len() == 0,
    decreases node, 0int, node.children.len() - i,
{
    if 0 <= i < node.children.len() {
        let c = node.children[i];
        assert(decreases_to!(node => node.children));
        assert(decreases_to!(node.children => node.children@));
        assert(decreases_to!(node.children@ => node.children@[i]));
        let m1 = if m.recent.len() > 8 {
            StateModel { recent: m.recent.drop_last(), ..m }
        } else {
            m
        };
        lemma_step_init_empty(c, src, m1);
        lemma_step_depth(c, src, m1);
        let m2 = node_step(c, src, m1);
        let m3 = StateModel { recent: seq![c.kind@] + m2.recent, ..m2 };
        lemma_walk_from_init_empty(node, src, m3, i + 1);
    }
}

/// After a whole run nothing is left pending: the initializer queue of the
/// final accumulator is empty.
pub proof fn lemma_run_leaves_no_initializers(root: SyntaxNode, src: Seq<char>)
    ensures
        run_model(root, src).init.len() == 0,
{
    lemma_walk_init_empty(root, src, start_model(root));
}

/// The set of kinds the dispatch table handles explicitly.
pub open spec fn is_handled_kind(k: Seq<char>) -> bool {
    ||| k == "package_clause"@
    ||| k == "import_declaration"@
    ||| k == "object_definition"@
    ||| k == "class_definition"@
    ||| k == "block"@
    ||| k == "arguments"@
    ||| k == "parameters"@
    ||| k == "parameter"@
    ||| k == "generic_type"@
    ||| k == "stable_type_identifier"@
    ||| k == "case_block"@
    ||| k == "type_arguments"@
    ||| k == "annotation"@
    ||| k == "case_clause"@
    ||| k == "def"@
    ||| k == ":"@
    ||| k == "class"@
    ||| k == "object"@
    ||| k == "="@
    ||| k == "type_identifier"@
    ||| k == "."@
    ||| k == "("@
    ||| k == ")"@
    ||| k == "_"@
    ||| k == "identifier"@
    ||| k == "string"@
    ||| k == "template_body"@
    ||| k == "function_definition"@
    ||| k == "call_expression"@
    ||| k == "match"@
    ||| k == "field_expression"@
    ||| k == "val_definition"@
    ||| k == "var_definition"@
    ||| k == "{"@
    ||| k == "}"@
    ||| k == "comment"@
    ||| k == "null_literal"@
}

/// Fallback totality: a node of any kind outside the dispatch table appends
/// exactly one fragment — the diagnostic comment holding the kind, the
/// structural dump, and the node's source text line by line behind `// `
/// markers — and everything else in the accumulator stays as it was.
pub proof fn lemma_fallback_total(node: SyntaxNode, src: Seq<char>, m: StateModel)
    requires
        !is_handled_kind(node.kind@),
    ensures
        node_step(node, src, m) == push_token(
            after_warning(node, src, m),
            "//TODO: UNHANDLED: "@ + node.kind@ + " sexp: "@ + sexp(node) + " scala:\n"@
                + commented(slice_of(src, node)) + "\n"@,
        ),
        node_step(node, src, m).init == m.init,
        node_step(node, src, m).recent == m.recent,
        node_step(node, src, m).depth == m.depth,
{
}

} // verus!
