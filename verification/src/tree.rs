//! The library's own model of a concrete syntax tree.
//!
//! A [`SyntaxNode`] carries what the rewrite engine reads of a parsed node:
//! its kind label, its character range `[start, end)` into the source text,
//! the field label it occupies in its parent (if any), and its children in
//! source order.  Whoever parses the source builds this tree out of plain
//! values before handing it to the translator.

use vstd::prelude::*;
use crate::text::str_eq;

verus! {

pub struct SyntaxNode {
    /// The grammar's category label for this node.
    pub kind: String,
    /// First character of the node's source range.
    pub start: usize,
    /// One past the last character of the node's source range.
    pub end: usize,
    /// The field label this node occupies in its parent, if it has one.
    pub field: Option<String>,
    /// The node's children, in source order.
    pub children: Vec<SyntaxNode>,
}

/// Kinds whose handler re-enters the walker on the node itself; a node of
/// such a kind must have children, or the traversal could not terminate.
pub open spec fn is_reentrant_kind(kind: Seq<char>) -> bool {
    ||| kind == "object_definition"@
    ||| kind == "class_definition"@
    ||| kind == "block"@
    ||| kind == "arguments"@
    ||| kind == "parameters"@
    ||| kind == "parameter"@
    ||| kind == "generic_type"@
    ||| kind == "stable_type_identifier"@
    ||| kind == "case_block"@
    ||| kind == "template_body"@
    ||| kind == "function_definition"@
    ||| kind == "call_expression"@
}

/// The first child (in source order) occupying field `name`, if any.
pub open spec fn find_field(cs: Seq<SyntaxNode>, name: Seq<char>) -> Option<SyntaxNode>
    decreases cs.len(),
{
    if cs.len() == 0 {
        None::<SyntaxNode>
    } else if cs[0].field is Some && cs[0].field->0@ == name {
        Some(cs[0])
    } else {
        find_field(cs.drop_first(), name)
    }
}

/// What a child found by field label is: one of the node's children.
pub proof fn lemma_find_field_is_child(cs: Seq<SyntaxNode>, name: Seq<char>)
    requires
        find_field(cs, name) is Some,
    ensures
        exists|i: int| 0 <= i < cs.len() && cs[i] == find_field(cs, name)->0,
    decreases cs.len(),
{
    if cs.len() > 0 {
        if cs[0].field is Some && cs[0].field->0@ == name {
            assert(cs[0] == find_field(cs, name)->0);
        } else {
            lemma_find_field_is_child(cs.drop_first(), name);
            let i = choose|i: int|
                0 <= i < cs.drop_first().len() && cs.drop_first()[i] == find_field(
                    cs.drop_first(),
                    name,
                )->0;
            assert(cs[i + 1] == find_field(cs, name)->0);
        }
    }
}

/// Well-formedness of a node against a source text of `src_len` characters:
/// ranges lie inside the text, re-entrant kinds have children, and the named
/// children that the recognized constructs rely on are present.  This is the
/// contract the parse collaborator honours for trees it hands over.
pub open spec fn wf_node(n: SyntaxNode, src_len: nat) -> bool
    decreases n,
{
    &&& n.start <= n.end <= src_len
    &&& (is_reentrant_kind(n.kind@) ==> n.children.len() > 0)
    &&& (n.kind@ == "annotation"@ ==> find_field(n.children@, "name"@) is Some)
    &&& (n.kind@ == "case_clause"@ ==> find_field(n.children@, "pattern"@) is Some
        && find_field(n.children@, "body"@) is Some)
    &&& (n.kind@ == "field_expression"@ ==> find_field(n.children@, "value"@) is Some
        && find_field(n.children@, "field"@) is Some)
    &&& ((n.kind@ == "val_definition"@ || n.kind@ == "var_definition"@) ==> find_field(
        n.children@,
        "pattern"@,
    ) is Some)
    &&& forall|i: int| 0 <= i < n.children.len() ==> wf_node(#[trigger] n.children@[i], src_len)
}

/// How deeply class/object definitions nest below (and including) `n`; the
/// traversal's depth counter rises by at most this much while `n` is handled.
pub open spec fn class_nest(n: SyntaxNode) -> nat
    decreases n,
{
    (if n.kind@ == "object_definition"@ || n.kind@ == "class_definition"@ {
        1nat
    } else {
        0nat
    }) + max_nest(n.children@)
}

/// The greatest `class_nest` among the nodes of `cs`.
pub open spec fn max_nest(cs: Seq<SyntaxNode>) -> nat
    decreases cs,
{
    if cs.len() == 0 {
        0nat
    } else {
        let rest = max_nest(cs.drop_first());
        if class_nest(cs[0]) >= rest {
            class_nest(cs[0])
        } else {
            rest
        }
    }
}

pub proof fn lemma_max_nest_bound(cs: Seq<SyntaxNode>, i: int)
    requires
        0 <= i < cs.len(),
    ensures
        class_nest(cs[i]) <= max_nest(cs),
    decreases cs.len(),
{
    if i > 0 {
        lemma_max_nest_bound(cs.drop_first(), i - 1);
    }
}

/// The field label a child contributes to the structural dump, if any.
pub open spec fn field_prefix(n: SyntaxNode) -> Seq<char> {
    match n.field {
        Some(f) => f@ + ": "@,
        None => Seq::<char>::empty(),
    }
}

/// A structural dump of the node: `(kind field: (child) ...)`, every child
/// listed in source order.
pub open spec fn sexp(n: SyntaxNode) -> Seq<char>
    decreases n, 0int,
{
    "("@ + n.kind@ + sexp_list(n.children@) + ")"@
}

/// The dumps of `cs`, each preceded by a space and its field label.
pub open spec fn sexp_list(cs: Seq<SyntaxNode>) -> Seq<char>
    decreases cs, cs.len(),
{
    if cs.len() == 0 {
        Seq::<char>::empty()
    } else {
        " "@ + field_prefix(cs[0]) + sexp(cs[0]) + sexp_list(cs.drop_first())
    }
}

fn sexp_children_exec(v: &Vec<SyntaxNode>, i: usize) -> (r: String)
    requires
        i <= v.len(),
    ensures
        r@ == sexp_list(v@.skip(i as int)),
    decreases v@, v.len() - i,
{
    if i == v.len() {
        proof {
            assert(v@.skip(i as int) =~= Seq::<SyntaxNode>::empty());
        }
        String::new()
    } else {
        let c = &v[i];
        let mut r = String::from_str(" ");
        match &c.field {
            Some(f) => {
                r.append(f.as_str());
                r.append(": ");
            },
            None => {},
        }
        let inner = sexp_exec(c);
        r.append(inner.as_str());
        let rest = sexp_children_exec(v, i + 1);
        r.append(rest.as_str());
        proof {
            assert(v@.skip(i as int)[0] == v@[i as int]);
            assert(v@.skip(i as int).drop_first() =~= v@.skip(i as int + 1));
        }
        r
    }
}

/// Renders the structural dump of `n`.
pub fn sexp_exec(n: &SyntaxNode) -> (r: String)
    ensures
        r@ == sexp(*n),
    decreases *n, 0int,
{
    let mut r = String::from_str("(");
    r.append(n.kind.as_str());
    proof {
        assert(n.children@.skip(0) =~= n.children@);
    }
    let tail = sexp_children_exec(&n.children, 0);
    r.append(tail.as_str());
    r.append(")");
    r
}

impl SyntaxNode {
    /// A leaf node without a field label.
    pub fn leaf(kind: &str, start: usize, end: usize) -> (n: SyntaxNode)
        ensures
            n.kind@ == kind@,
            n.start == start,
            n.end == end,
            n.field is None,
            n.children@ =~= Seq::<SyntaxNode>::empty(),
    {
        SyntaxNode {
            kind: kind.to_owned(),
            start,
            end,
            field: None,
            children: Vec::new(),
        }
    }

    /// An inner node without a field label.
    pub fn inner(kind: &str, start: usize, end: usize, children: Vec<SyntaxNode>) -> (n: SyntaxNode)
        ensures
            n.kind@ == kind@,
            n.start == start,
            n.end == end,
            n.field is None,
            n.children == children,
    {
        SyntaxNode {
            kind: kind.to_owned(),
            start,
            end,
            field: None,
            children,
        }
    }

    /// The same node placed under field label `name` in its parent.
    pub fn with_field(self, name: &str) -> (n: SyntaxNode)
        ensures
            n.kind == self.kind,
            n.start == self.start,
            n.end == self.end,
            n.field is Some && n.field->0@ == name@,
            n.children == self.children,
    {
        SyntaxNode {
            field: Some(name.to_owned()),
            ..self
        }
    }

    /// The first child occupying field `name`, if any.
    pub fn child_by_field(&self, name: &str) -> (r: Option<&SyntaxNode>)
        ensures
            match r {
                Some(c) => find_field(self.children@, name@) == Some(*c),
                None => find_field(self.children@, name@) is None,
            },
    {
        let n = self.children.len();
        proof {
            assert(self.children@.skip(0) =~= self.children@);
        }
        let mut i: usize = 0;
        while i < n
            invariant
                n == self.children.len(),
                i <= n,
                find_field(self.children@, name@) == find_field(self.children@.skip(i as int), name@),
            decreases n - i,
        {
            let c = &self.children[i];
            let hit = match &c.field {
                Some(f) => str_eq(f.as_str(), name),
                None => false,
            };
            proof {
                assert(self.children@.skip(i as int)[0] == self.children@[i as int]);
                assert(self.children@.skip(i as int).drop_first() =~= self.children@.skip(
                    i as int + 1,
                ));
            }
            if hit {
                return Some(c);
            }
            i += 1;
        }
        proof {
            assert(self.children@.skip(n as int) =~= Seq::<SyntaxNode>::empty());
        }
        None
    }
}

} // verus!
