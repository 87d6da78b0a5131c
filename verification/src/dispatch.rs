//! The rewrite engine: a node-kind-driven dispatcher over the syntax tree and
//! the walker that drives it.
//!
//! The meaning of a translation step is given by the specification functions
//! [`node_step`] (one node) and [`walk_children`] (a node's children in source
//! order, the bounded kind history maintained as a byproduct).  The executable
//! [`work_node`] and [`converter`] are verified to compute exactly those.

use vstd::prelude::*;
use crate::state::StateModel;
use crate::state::TransState;
use crate::text::{commented, commented_exec, concat_all, concat_all_exec, has_arrow,
    has_arrow_exec, has_ws, has_ws_exec, join_all, join_with, rewrite_angles, rewrite_angles_exec,
    rewrite_type_ident, rewrite_type_ident_exec, rewrite_wildcard, rewrite_wildcard_exec,
    slice_chars, str_eq};
use crate::tree::{class_nest, find_field, is_reentrant_kind, lemma_find_field_is_child,
    lemma_max_nest_bound, max_nest, sexp, sexp_exec, wf_node, SyntaxNode};
use vstd::string::StrSliceExecFns;
use vstd::string::StringExecFns;

verus! {

/// The characters of `n`'s source range.
pub open spec fn slice_of(src: Seq<char>, n: SyntaxNode) -> Seq<char> {
    src.subrange(n.start as int, n.end as int)
}

/// The model with one fragment appended to the output.
pub open spec fn push_token(m: StateModel, t: Seq<char>) -> StateModel {
    StateModel { tokens: m.tokens.push(t), ..m }
}

/// The advisory warning recorded for a node whose source holds a lambda arrow.
pub open spec fn warning_text(kind: Seq<char>, s: Seq<char>) -> Seq<char> {
    kind + " contains a => \n"@ + s + "\n"@
}

/// Kinds that are pass-through containers: the walker re-enters the node and
/// nothing is emitted for the container itself.
pub open spec fn is_container_kind(k: Seq<char>) -> bool {
    ||| k == "block"@
    ||| k == "arguments"@
    ||| k == "parameters"@
    ||| k == "parameter"@
    ||| k == "generic_type"@
    ||| k == "stable_type_identifier"@
    ||| k == "case_block"@
}

/// The index of the last output fragment that holds a space or newline, or
/// `-1` when no fragment does.  The match rewrite treats everything after it
/// as the scrutinee's rendering.
pub open spec fn last_ws_index(tokens: Seq<Seq<char>>) -> int
    decreases tokens.len(),
{
    if tokens.len() == 0 {
        -1
    } else if has_ws(tokens.last()) {
        tokens.len() - 1
    } else {
        last_ws_index(tokens.drop_last())
    }
}

pub proof fn lemma_last_ws_index(tokens: Seq<Seq<char>>)
    ensures
        -1 <= last_ws_index(tokens) < tokens.len(),
        last_ws_index(tokens) >= 0 ==> has_ws(tokens[last_ws_index(tokens)]),
        forall|j: int| last_ws_index(tokens) < j < tokens.len() ==> !has_ws(#[trigger] tokens[j]),
    decreases tokens.len(),
{
    if tokens.len() > 0 && !has_ws(tokens.last()) {
        lemma_last_ws_index(tokens.drop_last());
        assert forall|j: int| last_ws_index(tokens) < j < tokens.len() implies !has_ws(
            #[trigger] tokens[j],
        ) by {
            if j < tokens.len() - 1 {
                assert(tokens.drop_last()[j] == tokens[j]);
            }
        }
    }
}

/// One dispatch step: what handling `node` does to the accumulator.  The
/// kind-keyed rule table of the translation, written as a function.
pub open spec fn node_step(node: SyntaxNode, src: Seq<char>, m0: StateModel) -> StateModel
    decreases node, 2int, 0int,
    via node_step_decreases
{
    let k = node.kind@;
    let s = slice_of(src, node);
    let m = if has_arrow(s) {
        StateModel { warnings: m0.warnings.push(warning_text(k, s)), ..m0 }
    } else {
        m0
    };
    if k == "package_clause"@ {
        push_token(m, s + "\n\n"@)
    } else if k == "import_declaration"@ {
        push_token(m, rewrite_wildcard(s) + "\n"@)
    } else if k == "object_definition"@ || k == "class_definition"@ {
        let mark = m.init.len() as int;
        let m1 = StateModel { depth: m.depth + 1, ..m };
        let m2 = if node.children.len() > 0 {
            walk_children(node, src, m1)
        } else {
            m1
        };
        let m3 = StateModel {
            depth: if m2.depth >= 1 {
                (m2.depth - 1) as nat
            } else {
                0
            },
            ..m2
        };
        // only the entries queued during this subtree are flushed; earlier
        // ones stay pending for their own class's exit
        if m3.init.len() > mark {
            let block = "\ninit {\n\t"@ + join_with(m3.init.skip(mark), "\n\t"@) + "\n}\n"@;
            let pos = if m3.tokens.len() >= 1 {
                m3.tokens.len() - 1
            } else {
                0
            };
            StateModel {
                tokens: m3.tokens.insert(pos as int, block),
                init: m3.init.take(mark),
                ..m3
            }
        } else {
            m3
        }
    } else if is_container_kind(k) {
        if node.children.len() > 0 {
            walk_children(node, src, m)
        } else {
            m
        }
    } else if k == "type_arguments"@ {
        push_token(m, rewrite_angles(s))
    } else if k == "annotation"@ {
        let name = find_field(node.children@, "name"@)->0;
        let args = match find_field(node.children@, "arguments"@) {
            Some(a) => slice_of(src, a),
            None => Seq::<char>::empty(),
        };
        push_token(m, "@"@ + slice_of(src, name) + args + "\n"@)
    } else if k == "case_clause"@ {
        if find_field(node.children@, "pattern"@) is Some && find_field(node.children@, "body"@)
            is Some {
            let pat = find_field(node.children@, "pattern"@)->0;
            let body = find_field(node.children@, "body"@)->0;
            let m1 = walk_children(pat, src, m);
            let m2 = push_token(m1, " -> "@);
            let m3 = walk_children(body, src, m2);
            push_token(m3, "\n"@)
        } else {
            m
        }
    } else if k == "def"@ {
        push_token(m, "fun "@)
    } else if k == ":"@ || k == "class"@ || k == "object"@ {
        push_token(m, s + " "@)
    } else if k == "="@ {
        // only a type identifier just in front suppresses the token; an `=`
        // with no processed sibling yet counts as an ordinary assignment
        if m.recent.len() > 0 && m.recent[0] == "type_identifier"@ {
            m
        } else {
            push_token(m, " = "@)
        }
    } else if k == "type_identifier"@ {
        push_token(m, rewrite_type_ident(s))
    } else if k == "."@ || k == "("@ || k == ")"@ || k == "_"@ || k == "identifier"@ || k
        == "string"@ {
        push_token(m, s)
    } else if k == "template_body"@ || k == "function_definition"@ {
        let m1 = push_token(m, "\n"@);
        if node.children.len() > 0 {
            walk_children(node, src, m1)
        } else {
            m1
        }
    } else if k == "call_expression"@ {
        if m.depth == 1 {
            let m1 = if node.children.len() > 0 {
                walk_children(node, src, m)
            } else {
                m
            };
            let oldlen = m.tokens.len() as int;
            if m1.tokens.len() >= oldlen {
                StateModel {
                    tokens: m1.tokens.take(oldlen),
                    init: m1.init.push(concat_all(m1.tokens.skip(oldlen))),
                    ..m1
                }
            } else {
                StateModel { init: m1.init.push(Seq::<char>::empty()), ..m1 }
            }
        } else {
            push_token(m, s + "\n"@)
        }
    } else if k == "match"@ {
        let b = last_ws_index(m.tokens);
        if b >= 0 {
            let scrutinee = concat_all(m.tokens.skip(b + 1));
            StateModel {
                tokens: m.tokens.take(b + 1).push("when ("@ + scrutinee + ") \n"@),
                ..m
            }
        } else {
            push_token(m, "//WARNING: failed to find a space or newline for match here! be wary!\n"@)
        }
    } else if k == "field_expression"@ {
        if find_field(node.children@, "value"@) is Some && find_field(node.children@, "field"@)
            is Some {
            let value = find_field(node.children@, "value"@)->0;
            let fld = find_field(node.children@, "field"@)->0;
            let m1 = walk_children(value, src, m);
            push_token(m1, "."@ + slice_of(src, fld))
        } else {
            m
        }
    } else if k == "val_definition"@ || k == "var_definition"@ {
        let pat = find_field(node.children@, "pattern"@)->0;
        let mods = match find_field(node.children@, "modifiers"@) {
            Some(x) => slice_of(src, x) + " "@,
            None => Seq::<char>::empty(),
        };
        let m1 = push_token(m, mods + k.take(3) + " "@ + slice_of(src, pat));
        let m2 = match find_field(node.children@, "type"@) {
            Some(t) => push_token(m1, ": "@ + slice_of(src, t)),
            None => m1,
        };
        let m3 = match find_field(node.children@, "value"@) {
            Some(v) => walk_children(v, src, push_token(m2, " = "@)),
            None => m2,
        };
        push_token(m3, "\n"@)
    } else if k == "{"@ || k == "}"@ || k == "comment"@ {
        push_token(m, s + "\n"@)
    } else if k == "null_literal"@ {
        push_token(m, "null"@)
    } else {
        push_token(
            m,
            "//TODO: UNHANDLED: "@ + k + " sexp: "@ + sexp(node) + " scala:\n"@ + commented(s)
                + "\n"@,
        )
    }
}

#[via_fn]
proof fn node_step_decreases(node: SyntaxNode, src: Seq<char>, m0: StateModel) {
    field_child_smaller(node, "pattern"@);
    field_child_smaller(node, "body"@);
    field_child_smaller(node, "value"@);
}

/// A child found by field label sits below its parent.
pub proof fn field_child_smaller(node: SyntaxNode, name: Seq<char>)
    ensures
        find_field(node.children@, name) is Some ==> decreases_to!(node =>
        find_field(node.children@, name)->0),
{
    if find_field(node.children@, name) is Some {
        lemma_find_field_is_child(node.children@, name);
        let i = choose|i: int|
            0 <= i < node.children@.len() && node.children@[i] == find_field(
                node.children@,
                name,
            )->0;
        assert(decreases_to!(node => node.children));
        assert(decreases_to!(node.children => node.children@));
        assert(decreases_to!(node.children@ => node.children@[i]));
    }
}

/// The walker over `node`: a leaf is dispatched once and its kind recorded;
/// otherwise each child in source order has the history trimmed to capacity,
/// is dispatched, and has its kind pushed to the front of the history.
pub open spec fn walk_children(node: SyntaxNode, src: Seq<char>, m: StateModel) -> StateModel
    decreases node, (if node.children.len() == 0 { 3int } else { 1int }), 0int,
{
    if node.children.len() == 0 {
        let m1 = node_step(node, src, m);
        StateModel { recent: seq![node.kind@] + m1.recent, ..m1 }
    } else {
        walk_from(node, src, m, 0)
    }
}

/// The walker's loop: the children of `node` from index `i` on.
pub open spec fn walk_from(node: SyntaxNode, src: Seq<char>, m: StateModel, i: int) -> StateModel
    decreases node, 0int, node.children.len() - i,
    via walk_from_decreases
{
    if 0 <= i < node.children.len() {
        let c = node.children[i];
        let m1 = if m.recent.len() > 8 {
            StateModel { recent: m.recent.drop_last(), ..m }
        } else {
            m
        };
        let m2 = node_step(c, src, m1);
        let m3 = StateModel { recent: seq![c.kind@] + m2.recent, ..m2 };
        walk_from(node, src, m3, i + 1)
    } else {
        m
    }
}

#[via_fn]
proof fn walk_from_decreases(node: SyntaxNode, src: Seq<char>, m: StateModel, i: int) {
    if 0 <= i < node.children.len() {
        assert(decreases_to!(node => node.children));
        assert(decreases_to!(node.children => node.children@));
        assert(decreases_to!(node.children@ => node.children@[i]));
    }
}

/// Dispatching a node leaves the nesting depth where it was: every increment
/// at a class or object boundary is matched by the decrement at its exit.
pub proof fn lemma_step_depth(node: SyntaxNode, src: Seq<char>, m0: StateModel)
    ensures
        node_step(node, src, m0).depth == m0.depth,
    decreases node, 2int, 0int,
{
    let k = node.kind@;
    let s = slice_of(src, node);
    let m = if has_arrow(s) {
        StateModel { warnings: m0.warnings.push(warning_text(k, s)), ..m0 }
    } else {
        m0
    };
    field_child_smaller(node, "pattern"@);
    field_child_smaller(node, "body"@);
    field_child_smaller(node, "value"@);
    if k == "object_definition"@ || k == "class_definition"@ {
        if node.children.len() > 0 {
            lemma_walk_depth(node, src, StateModel { depth: m.depth + 1, ..m });
        }
    } else if is_container_kind(k) {
        if node.children.len() > 0 {
            lemma_walk_depth(node, src, m);
        }
    } else if k == "case_clause"@ {
        if find_field(node.children@, "pattern"@) is Some && find_field(node.children@, "body"@)
            is Some {
            let pat = find_field(node.children@, "pattern"@)->0;
            let body = find_field(node.children@, "body"@)->0;
            let m1 = walk_children(pat, src, m);
            lemma_walk_depth(pat, src, m);
            lemma_walk_depth(body, src, push_token(m1, " -> "@));
        }
    } else if k == "template_body"@ || k == "function_definition"@ {
        if node.children.len() > 0 {
            lemma_walk_depth(node, src, push_token(m, "\n"@));
        }
    } else if k == "call_expression"@ {
        if m.depth == 1 && node.children.len() > 0 {
            lemma_walk_depth(node, src, m);
        }
    } else if k == "field_expression"@ {
        if find_field(node.children@, "value"@) is Some && find_field(node.children@, "field"@)
            is Some {
            let value = find_field(node.children@, "value"@)->0;
            lemma_walk_depth(value, src, m);
        }
    } else if k == "val_definition"@ || k == "var_definition"@ {
        match find_field(node.children@, "value"@) {
            Some(v) => {
                let pat = find_field(node.children@, "pattern"@)->0;
                let mods = match find_field(node.children@, "modifiers"@) {
                    Some(x) => slice_of(src, x) + " "@,
                    None => Seq::<char>::empty(),
                };
                let m1 = push_token(m, mods + k.take(3) + " "@ + slice_of(src, pat));
                let m2 = match find_field(node.children@, "type"@) {
                    Some(t) => push_token(m1, ": "@ + slice_of(src, t)),
                    None => m1,
                };
                lemma_walk_depth(v, src, push_token(m2, " = "@));
            },
            None => {},
        }
    }
}

/// Walking a subtree leaves the nesting depth where it was.
pub proof fn lemma_walk_depth(node: SyntaxNode, src: Seq<char>, m: StateModel)
    ensures
        walk_children(node, src, m).depth == m.depth,
    decreases node, (if node.children.len() == 0 { 3int } else { 1int }), 0int,
{
    if node.children.len() == 0 {
        lemma_step_depth(node, src, m);
    } else {
        lemma_walk_from_depth(node, src, m, 0);
    }
}

proof fn lemma_walk_from_depth(node: SyntaxNode, src: Seq<char>, m: StateModel, i: int)
    ensures
        walk_from(node, src, m, i).depth == m.depth,
    decreases node, 0int, node.children.len() - i,
{
    if 0 <= i < node.children.len() {
        let c = node.children[i];
        assert(decreases_to!(node => node.children));
        assert(decreases_to!(node.children => node.children@));
        assert(decreases_to!(node.children@ => node.children@[i]));
        let m1 = if m.recent.len() > 8 {
            StateModel { recent: m.recent.drop_last(), ..m }
        } else {
            m
        };
        lemma_step_depth(c, src, m1);
        let m2 = node_step(c, src, m1);
        let m3 = StateModel { recent: seq![c.kind@] + m2.recent, ..m2 };
        lemma_walk_from_depth(node, src, m3, i + 1);
    }
}

/// A child found by field label is well-formed and its class nesting is
/// bounded by the parent's children.
proof fn field_child_facts(node: SyntaxNode, name: Seq<char>, src_len: nat)
    requires
        wf_node(node, src_len),
        find_field(node.children@, name) is Some,
    ensures
        wf_node(find_field(node.children@, name)->0, src_len),
        class_nest(find_field(node.children@, name)->0) <= max_nest(node.children@),
{
    lemma_find_field_is_child(node.children@, name);
    let i = choose|i: int|
        0 <= i < node.children@.len() && node.children@[i] == find_field(node.children@, name)->0;
    assert(wf_node(node.children@[i], src_len));
    lemma_max_nest_bound(node.children@, i);
}

/// Dispatches one node: appends the fragments its kind calls for, recursing
/// where the rule table recurses.  Computes exactly [`node_step`].
pub fn work_node(node: &SyntaxNode, src: &str, state: &mut TransState)
    requires
        wf_node(*node, src@.len()),
        old(state)@.depth + class_nest(*node) <= usize::MAX,
    ensures
        final(state)@ == node_step(*node, src@, old(state)@),
    decreases *node, 2int, 0int,
{
    let sl = slice_chars(src, node.start, node.end);
    if has_arrow_exec(sl.as_str()) {
        let mut w = node.kind.clone();
        w.append(" contains a => \n");
        w.append(sl.as_str());
        w.append("\n");
        state.push_warning(w);
    }
    let ghost m = state@;
    proof {
        assert(m =~~= (if has_arrow(slice_of(src@, *node)) {
            StateModel {
                warnings: old(state)@.warnings.push(
                    warning_text(node.kind@, slice_of(src@, *node)),
                ),
                ..old(state)@
            }
        } else {
            old(state)@
        }));
    }
    let k = node.kind.as_str();
    if str_eq(k, "package_clause") {
        let mut t = sl;
        t.append("\n\n");
        state.push_tok(t);
    } else if str_eq(k, "import_declaration") {
        let mut t = rewrite_wildcard_exec(sl.as_str());
        t.append("\n");
        state.push_tok(t);
    } else if str_eq(k, "object_definition") || str_eq(k, "class_definition") {
        proof {
            assert(is_reentrant_kind(node.kind@));
        }
        let oldinit = state.init.len();
        state.depth = state.depth + 1;
        let ghost m1 = state@;
        converter(node, src, state);
        proof {
            lemma_walk_depth(*node, src@, m1);
        }
        state.depth = state.depth - 1;
        if state.init.len() > oldinit {
            let mut worker: Vec<String> = Vec::new();
            let mut j: usize = oldinit;
            proof {
                assert(worker.deep_view() =~~= state@.init.subrange(
                    oldinit as int,
                    oldinit as int,
                ));
            }
            while j < state.init.len()
                invariant
                    oldinit <= j <= state.init.len(),
                    worker.deep_view() == state@.init.subrange(oldinit as int, j as int),
                decreases state.init.len() - j,
            {
                let t = state.init[j].clone();
                let ghost w0 = worker;
                worker.push(t);
                proof {
                    assert(worker.deep_view() =~= w0.deep_view().push(t@));
                    assert(worker.deep_view() =~~= state@.init.subrange(
                        oldinit as int,
                        j as int + 1,
                    ));
                }
                j += 1;
            }
            proof {
                assert(worker.deep_view() =~~= state@.init.skip(oldinit as int));
            }
            let joined = join_all(&worker, "\n\t");
            let mut block = String::from_str("\ninit {\n\t");
            block.append(joined.as_str());
            block.append("\n}\n");
            let pos: usize = if state.tokens.len() > 0 {
                state.tokens.len() - 1
            } else {
                0
            };
            state.insert_tok(pos, block);
            state.truncate_init(oldinit);
        }
    } else if str_eq(k, "block") || str_eq(k, "arguments") || str_eq(k, "parameters") || str_eq(
        k,
        "parameter",
    ) || str_eq(k, "generic_type") || str_eq(k, "stable_type_identifier") || str_eq(
        k,
        "case_block",
    ) {
        proof {
            assert(is_reentrant_kind(node.kind@));
        }
        converter(node, src, state);
    } else if str_eq(k, "type_arguments") {
        let t = rewrite_angles_exec(sl.as_str());
        state.push_tok(t);
    } else if str_eq(k, "annotation") {
        if let Some(name_c) = node.child_by_field("name") {
            proof {
                field_child_facts(*node, "name"@, src@.len());
            }
            let mut t = String::from_str("@");
            let ns = slice_chars(src, name_c.start, name_c.end);
            t.append(ns.as_str());
            match node.child_by_field("arguments") {
                Some(a) => {
                    proof {
                        field_child_facts(*node, "arguments"@, src@.len());
                    }
                    let ars = slice_chars(src, a.start, a.end);
                    t.append(ars.as_str());
                },
                None => {},
            }
            t.append("\n");
            state.push_tok(t);
        } else {
            proof {
                assert(false);
            }
        }
    } else if str_eq(k, "case_clause") {
        if let Some(pat) = node.child_by_field("pattern") {
            proof {
                field_child_facts(*node, "pattern"@, src@.len());
                field_child_smaller(*node, "pattern"@);
            }
            converter(pat, src, state);
            state.push_tok(String::from_str(" -> "));
            if let Some(body) = node.child_by_field("body") {
                proof {
                    field_child_facts(*node, "body"@, src@.len());
                    field_child_smaller(*node, "body"@);
                    lemma_walk_depth(*pat, src@, m);
                }
                converter(body, src, state);
                state.push_tok(String::from_str("\n"));
            } else {
                proof {
                    assert(false);
                }
            }
        } else {
            proof {
                assert(false);
            }
        }
    } else if str_eq(k, "def") {
        state.push_tok(String::from_str("fun "));
    } else if str_eq(k, ":") || str_eq(k, "class") || str_eq(k, "object") {
        let mut t = sl;
        t.append(" ");
        state.push_tok(t);
    } else if str_eq(k, "=") {
        let suppress = if state.last_kind.len() > 0 {
            str_eq(state.last_kind[0].as_str(), "type_identifier")
        } else {
            false
        };
        if !suppress {
            state.push_tok(String::from_str(" = "));
        }
    } else if str_eq(k, "type_identifier") {
        let t = rewrite_type_ident_exec(sl.as_str());
        state.push_tok(t);
    } else if str_eq(k, ".") || str_eq(k, "(") || str_eq(k, ")") || str_eq(k, "_") || str_eq(
        k,
        "identifier",
    ) || str_eq(k, "string") {
        state.push_tok(sl);
    } else if str_eq(k, "template_body") || str_eq(k, "function_definition") {
        state.push_tok(String::from_str("\n"));
        proof {
            assert(is_reentrant_kind(node.kind@));
        }
        converter(node, src, state);
    } else if str_eq(k, "call_expression") {
        if state.depth == 1 {
            let oldlen = state.tokens.len();
            proof {
                assert(is_reentrant_kind(node.kind@));
            }
            converter(node, src, state);
            if state.tokens.len() >= oldlen {
                let mut worker: Vec<String> = Vec::new();
                let mut j: usize = oldlen;
                proof {
                    assert(worker.deep_view() =~~= state@.tokens.subrange(
                        oldlen as int,
                        oldlen as int,
                    ));
                }
                while j < state.tokens.len()
                    invariant
                        oldlen <= j <= state.tokens.len(),
                        worker.deep_view() == state@.tokens.subrange(oldlen as int, j as int),
                    decreases state.tokens.len() - j,
                {
                    let t = state.tokens[j].clone();
                    let ghost w0 = worker;
                    worker.push(t);
                    proof {
                        assert(worker.deep_view() =~= w0.deep_view().push(t@));
                        assert(worker.deep_view() =~~= state@.tokens.subrange(
                            oldlen as int,
                            j as int + 1,
                        ));
                    }
                    j += 1;
                }
                proof {
                    assert(worker.deep_view() =~~= state@.tokens.skip(oldlen as int));
                }
                state.truncate_toks(oldlen);
                let joined = concat_all_exec(&worker);
                state.push_init(joined);
            } else {
                state.push_init(String::new());
            }
        } else {
            let mut t = sl;
            t.append("\n");
            state.push_tok(t);
        }
    } else if str_eq(k, "match") {
        proof {
            lemma_last_ws_index(state@.tokens);
        }
        let ghost toks = state@.tokens;
        let n = state.tokens.len();
        let mut j: usize = n;
        while j > 0
            invariant_except_break
                j <= n,
                n == state.tokens.len(),
                state@.tokens == toks,
                forall|idx: int| j <= idx < n ==> !has_ws(#[trigger] toks[idx]),
            ensures
                j <= n,
                n == state.tokens.len(),
                state@.tokens == toks,
                j == 0 ==> forall|idx: int| 0 <= idx < n ==> !has_ws(#[trigger] toks[idx]),
                j > 0 ==> has_ws(toks[j - 1]) && (forall|idx: int|
                    j <= idx < n ==> !has_ws(#[trigger] toks[idx])),
            decreases j,
        {
            if has_ws_exec(state.tokens[j - 1].as_str()) {
                break;
            }
            j -= 1;
        }
        if j == 0 {
            proof {
                assert(last_ws_index(toks) == -1) by {
                    lemma_last_ws_index(toks);
                }
            }
            state.push_tok(
                String::from_str(
                    "//WARNING: failed to find a space or newline for match here! be wary!\n",
                ),
            );
        } else {
            proof {
                lemma_last_ws_index(toks);
                assert(last_ws_index(toks) == j - 1);
            }
            let mut worker: Vec<String> = Vec::new();
            let mut p: usize = j;
            proof {
                assert(worker.deep_view() =~~= toks.subrange(j as int, j as int));
            }
            while p < state.tokens.len()
                invariant
                    j <= p <= state.tokens.len(),
                    state@.tokens == toks,
                    worker.deep_view() == toks.subrange(j as int, p as int),
                decreases state.tokens.len() - p,
            {
                let t = state.tokens[p].clone();
                let ghost w0 = worker;
                worker.push(t);
                proof {
                    assert(worker.deep_view() =~= w0.deep_view().push(t@));
                    assert(worker.deep_view() =~~= toks.subrange(j as int, p as int + 1));
                }
                p += 1;
            }
            proof {
                assert(worker.deep_view() =~~= toks.skip(j as int));
            }
            state.truncate_toks(j);
            let scr = concat_all_exec(&worker);
            let mut t = String::from_str("when (");
            t.append(scr.as_str());
            t.append(") \n");
            state.push_tok(t);
        }
    } else if str_eq(k, "field_expression") {
        if let Some(value) = node.child_by_field("value") {
            proof {
                field_child_facts(*node, "value"@, src@.len());
                field_child_smaller(*node, "value"@);
            }
            converter(value, src, state);
            if let Some(fld) = node.child_by_field("field") {
                proof {
                    field_child_facts(*node, "field"@, src@.len());
                }
                let mut t = String::from_str(".");
                let fs = slice_chars(src, fld.start, fld.end);
                t.append(fs.as_str());
                state.push_tok(t);
            } else {
                proof {
                    assert(false);
                }
            }
        } else {
            proof {
                assert(false);
            }
        }
    } else if str_eq(k, "val_definition") || str_eq(k, "var_definition") {
        if let Some(pat) = node.child_by_field("pattern") {
            let mut t = match node.child_by_field("modifiers") {
                Some(mm) => {
                    proof {
                        field_child_facts(*node, "modifiers"@, src@.len());
                    }
                    let mut mt = slice_chars(src, mm.start, mm.end);
                    mt.append(" ");
                    mt
                },
                None => String::new(),
            };
            proof {
                reveal_strlit("val_definition");
                reveal_strlit("var_definition");
                field_child_facts(*node, "pattern"@, src@.len());
            }
            let k3 = k.substring_char(0, 3);
            t.append(k3);
            t.append(" ");
            let ps = slice_chars(src, pat.start, pat.end);
            t.append(ps.as_str());
            state.push_tok(t);
            match node.child_by_field("type") {
                Some(ty) => {
                    proof {
                        field_child_facts(*node, "type"@, src@.len());
                    }
                    let mut tt = String::from_str(": ");
                    let ts = slice_chars(src, ty.start, ty.end);
                    tt.append(ts.as_str());
                    state.push_tok(tt);
                },
                None => {},
            }
            match node.child_by_field("value") {
                Some(v) => {
                    state.push_tok(String::from_str(" = "));
                    proof {
                        field_child_facts(*node, "value"@, src@.len());
                        field_child_smaller(*node, "value"@);
                    }
                    converter(v, src, state);
                },
                None => {},
            }
            state.push_tok(String::from_str("\n"));
        } else {
            proof {
                assert(false);
            }
        }
    } else if str_eq(k, "{") || str_eq(k, "}") || str_eq(k, "comment") {
        let mut t = sl;
        t.append("\n");
        state.push_tok(t);
    } else if str_eq(k, "null_literal") {
        state.push_tok(String::from_str("null"));
    } else {
        let mut t = String::from_str("//TODO: UNHANDLED: ");
        t.append(k);
        t.append(" sexp: ");
        let dump = sexp_exec(node);
        t.append(dump.as_str());
        t.append(" scala:\n");
        let cm = commented_exec(sl.as_str());
        t.append(cm.as_str());
        t.append("\n");
        state.push_tok(t);
    }
    proof {
        assert(state@ =~~= node_step(*node, src@, old(state)@));
    }
}

/// The walker: visits `node`'s children in source order (or `node` itself
/// when it is a leaf), dispatching each and recording its kind in the bounded
/// history.  Computes exactly [`walk_children`].
pub fn converter(node: &SyntaxNode, src: &str, state: &mut TransState)
    requires
        wf_node(*node, src@.len()),
        old(state)@.depth + max_nest(node.children@) <= usize::MAX,
    ensures
        final(state)@ == walk_children(*node, src@, old(state)@),
    decreases *node, (if node.children@.len() == 0 { 3int } else { 1int }), 0int,
{
    let n = node.children.len();
    if n == 0 {
        proof {
            assert(!is_reentrant_kind(node.kind@));
            assert(class_nest(*node) == 0);
        }
        work_node(node, src, state);
        state.last_kind.push_front(node.kind.clone());
        proof {
            assert(state@ =~~= walk_children(*node, src@, old(state)@));
        }
        return;
    }
    let mut i: usize = 0;
    while i < n
        invariant
            wf_node(*node, src@.len()),
            n == node.children@.len(),
            n > 0,
            i <= n,
            old(state)@.depth + max_nest(node.children@) <= usize::MAX,
            state@.depth == old(state)@.depth,
            walk_from(*node, src@, state@, i as int) == walk_from(*node, src@, old(state)@, 0),
        decreases n - i,
    {
        let c = &node.children[i];
        let ghost m_pre = state@;
        if state.last_kind.len() > 8 {
            state.last_kind.pop_back();
        }
        let ghost m1 = state@;
        proof {
            assert(m1 =~~= (if m_pre.recent.len() > 8 {
                StateModel { recent: m_pre.recent.drop_last(), ..m_pre }
            } else {
                m_pre
            }));
            assert(wf_node(node.children@[i as int], src@.len()));
            lemma_max_nest_bound(node.children@, i as int);
        }
        work_node(c, src, state);
        proof {
            lemma_step_depth(*c, src@, m1);
        }
        state.last_kind.push_front(c.kind.clone());
        proof {
            assert(state@ =~~= (StateModel {
                recent: seq![c.kind@] + node_step(*c, src@, m1).recent,
                ..node_step(*c, src@, m1)
            }));
            assert(walk_from(*node, src@, m_pre, i as int) == walk_from(
                *node,
                src@,
                state@,
                i as int + 1,
            ));
        }
        i += 1;
    }
}

/// The accumulator a whole run starts from: one header fragment holding the
/// structural dump of the root.
pub open spec fn start_model(root: SyntaxNode) -> StateModel {
    StateModel {
        tokens: seq!["//sexp tree: "@ + sexp(root)],
        recent: Seq::<Seq<char>>::empty(),
        depth: 0,
        init: Seq::<Seq<char>>::empty(),
        warnings: Seq::<Seq<char>>::empty(),
    }
}

/// The accumulator after a whole run over `root`.
pub open spec fn run_model(root: SyntaxNode, src: Seq<char>) -> StateModel {
    walk_children(root, src, start_model(root))
}

/// Translates a whole tree: the output text is the concatenation of every
/// fragment the run emits, and the advisory warnings come back beside it.
pub fn translate(root: &SyntaxNode, src: &str) -> (r: (String, Vec<String>))
    requires
        wf_node(*root, src@.len()),
        class_nest(*root) <= usize::MAX,
    ensures
        r.0@ == concat_all(run_model(*root, src@).tokens),
        r.1.deep_view() == run_model(*root, src@).warnings,
{
    let mut state = TransState::new();
    let mut header = String::from_str("//sexp tree: ");
    let dump = sexp_exec(root);
    header.append(dump.as_str());
    state.push_tok(header);
    proof {
        assert(state@ =~~= start_model(*root));
    }
    converter(root, src, &mut state);
    let out = concat_all_exec(&state.tokens);
    (out, state.warnings)
}

} // verus!
