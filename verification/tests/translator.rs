use scala_to_kotlin::tree::SyntaxNode;
use scala_to_kotlin::state::TransState;
use scala_to_kotlin::dispatch::{converter, translate, work_node};

fn leaf(kind: &str, start: usize, end: usize) -> SyntaxNode {
    SyntaxNode::leaf(kind, start, end)
}

fn run(root: &SyntaxNode, src: &str) -> TransState {
    let mut state = TransState::new();
    converter(root, src, &mut state);
    state
}

fn output(root: &SyntaxNode, src: &str) -> String {
    run(root, src).tokens.join("")
}

#[test]
fn minimal_program_renders_canonically() {
    let src = "package li.cil\nimport scala.collection._\nval x: Int = y";
    let root = SyntaxNode::inner(
        "compilation_unit",
        0,
        src.len(),
        vec![
            leaf("package_clause", 0, 14),
            leaf("import_declaration", 15, 40),
            SyntaxNode::inner(
                "val_definition",
                41,
                55,
                vec![
                    leaf("identifier", 45, 46).with_field("pattern"),
                    leaf("type_identifier", 48, 51).with_field("type"),
                    leaf("identifier", 54, 55).with_field("value"),
                ],
            ),
        ],
    );
    let expected = "package li.cil\n\nimport scala.collection.*\nval x: Int = y\n";
    assert_eq!(output(&root, src), expected);
}

#[test]
fn repeated_runs_are_byte_stable() {
    let src = "package a.b\nimport c.d._\nval v = w";
    let root = SyntaxNode::inner(
        "compilation_unit",
        0,
        src.len(),
        vec![
            leaf("package_clause", 0, 11),
            leaf("import_declaration", 12, 24),
            SyntaxNode::inner(
                "val_definition",
                25,
                34,
                vec![
                    leaf("identifier", 29, 30).with_field("pattern"),
                    leaf("identifier", 33, 34).with_field("value"),
                ],
            ),
        ],
    );
    let first = output(&root, src);
    let second = output(&root, src);
    assert_eq!(first, second);
    assert_eq!(first, "package a.b\n\nimport c.d.*\nval v = w\n");
}

#[test]
fn binding_without_value_emits_no_assignment() {
    let src = "val x: Int";
    let root = SyntaxNode::inner(
        "compilation_unit",
        0,
        src.len(),
        vec![SyntaxNode::inner(
            "val_definition",
            0,
            10,
            vec![
                leaf("identifier", 4, 5).with_field("pattern"),
                leaf("type_identifier", 7, 10).with_field("type"),
            ],
        )],
    );
    let state = run(&root, src);
    assert_eq!(state.tokens, vec!["val x".to_string(), ": Int".to_string(), "\n".to_string()]);
    assert!(!state.tokens.iter().any(|t| t == " = "));
}

#[test]
fn var_binding_uses_var_keyword() {
    let src = "var y = z";
    let root = SyntaxNode::inner(
        "compilation_unit",
        0,
        src.len(),
        vec![SyntaxNode::inner(
            "var_definition",
            0,
            9,
            vec![
                leaf("identifier", 4, 5).with_field("pattern"),
                leaf("identifier", 8, 9).with_field("value"),
            ],
        )],
    );
    assert_eq!(output(&root, src), "var y = z\n");
}

#[test]
fn assignment_after_type_identifier_is_suppressed() {
    let src = "Foo=";
    let root = SyntaxNode::inner(
        "compilation_unit",
        0,
        src.len(),
        vec![leaf("type_identifier", 0, 3), leaf("=", 3, 4)],
    );
    let state = run(&root, src);
    assert_eq!(state.tokens, vec!["Foo".to_string()]);
}

#[test]
fn assignment_after_other_kind_is_emitted() {
    let src = "foo=";
    let root = SyntaxNode::inner(
        "compilation_unit",
        0,
        src.len(),
        vec![leaf("identifier", 0, 3), leaf("=", 3, 4)],
    );
    let state = run(&root, src);
    assert_eq!(state.tokens, vec!["foo".to_string(), " = ".to_string()]);
}

#[test]
fn init_hoist_collects_top_level_calls_in_order() {
    // outer object body: a nested object with one call (depth 2, inline),
    // then two top-level calls (depth 1, hoisted).
    let src = "{I{h()}f()g()}";
    let inner = SyntaxNode::inner(
        "object_definition",
        1,
        7,
        vec![
            leaf("{", 2, 3),
            SyntaxNode::inner(
                "call_expression",
                3,
                6,
                vec![
                    leaf("identifier", 3, 4),
                    SyntaxNode::inner(
                        "arguments",
                        4,
                        6,
                        vec![leaf("(", 4, 5), leaf(")", 5, 6)],
                    ),
                ],
            ),
            leaf("}", 6, 7),
        ],
    );
    let f = SyntaxNode::inner(
        "call_expression",
        7,
        10,
        vec![
            leaf("identifier", 7, 8),
            SyntaxNode::inner("arguments", 8, 10, vec![leaf("(", 8, 9), leaf(")", 9, 10)]),
        ],
    );
    let g = SyntaxNode::inner(
        "call_expression",
        10,
        13,
        vec![
            leaf("identifier", 10, 11),
            SyntaxNode::inner("arguments", 11, 13, vec![leaf("(", 11, 12), leaf(")", 12, 13)]),
        ],
    );
    let outer = SyntaxNode::inner(
        "object_definition",
        0,
        14,
        vec![leaf("{", 0, 1), inner, f, g, leaf("}", 13, 14)],
    );
    let root = SyntaxNode::inner("compilation_unit", 0, 14, vec![outer]);
    let out = output(&root, src);
    // the two top-level calls stand in the init block, in source order; the
    // nested call stays inline at its position, never inside the block.
    assert_eq!(out, "{\n{\nh()\n}\n\ninit {\n\tf()\n\tg()\n}\n}\n");
    let state = run(&root, src);
    assert!(state.init.is_empty());
}

#[test]
fn inner_class_leaves_outer_initializers_pending() {
    // a call hoisted in the outer body, then an empty inner object: the
    // inner exit must not flush the outer body's pending entry
    let src = "{a()I{}}";
    let a = SyntaxNode::inner(
        "call_expression",
        1,
        4,
        vec![
            leaf("identifier", 1, 2),
            SyntaxNode::inner("arguments", 2, 4, vec![leaf("(", 2, 3), leaf(")", 3, 4)]),
        ],
    );
    let inner = SyntaxNode::inner(
        "object_definition",
        4,
        7,
        vec![leaf("{", 5, 6), leaf("}", 6, 7)],
    );
    let outer = SyntaxNode::inner(
        "object_definition",
        0,
        8,
        vec![leaf("{", 0, 1), a, inner, leaf("}", 7, 8)],
    );
    let root = SyntaxNode::inner("compilation_unit", 0, 8, vec![outer]);
    let out = output(&root, src);
    assert_eq!(out, "{\n{\n}\n\ninit {\n\ta()\n}\n}\n");
    assert_eq!(out.matches("init {").count(), 1);
    let state = run(&root, src);
    assert!(state.init.is_empty());
}

#[test]
fn nested_call_renders_inline_verbatim() {
    // a call inside two class bodies (depth 2) is never hoisted.
    let src = "{{h()}}";
    let inner = SyntaxNode::inner(
        "class_definition",
        1,
        6,
        vec![
            leaf("{", 1, 2),
            SyntaxNode::inner(
                "call_expression",
                2,
                5,
                vec![
                    leaf("identifier", 2, 3),
                    SyntaxNode::inner("arguments", 3, 5, vec![leaf("(", 3, 4), leaf(")", 4, 5)]),
                ],
            ),
            leaf("}", 5, 6),
        ],
    );
    let outer = SyntaxNode::inner(
        "class_definition",
        0,
        7,
        vec![leaf("{", 0, 1), inner, leaf("}", 6, 7)],
    );
    let root = SyntaxNode::inner("compilation_unit", 0, 7, vec![outer]);
    let state = run(&root, src);
    assert!(state.tokens.iter().any(|t| t == "h()\n"));
    assert!(state.init.is_empty());
    assert!(!output(&root, src).contains("init {"));
}

#[test]
fn match_header_rewrites_single_token_scrutinee() {
    let src = "{xmatch";
    let root = SyntaxNode::inner(
        "compilation_unit",
        0,
        src.len(),
        vec![leaf("{", 0, 1), leaf("identifier", 1, 2), leaf("match", 2, 7)],
    );
    let state = run(&root, src);
    assert_eq!(state.tokens, vec!["{\n".to_string(), "when (x) \n".to_string()]);
}

#[test]
fn match_without_boundary_emits_warning_comment() {
    let src = "xmatch";
    let root = SyntaxNode::inner(
        "compilation_unit",
        0,
        src.len(),
        vec![leaf("identifier", 0, 1), leaf("match", 1, 6)],
    );
    let state = run(&root, src);
    assert_eq!(
        state.tokens,
        vec![
            "x".to_string(),
            "//WARNING: failed to find a space or newline for match here! be wary!\n".to_string()
        ]
    );
}

#[test]
fn fallback_comment_preserves_source_lines() {
    let src = "a\nb";
    let root = SyntaxNode::inner(
        "compilation_unit",
        0,
        src.len(),
        vec![leaf("weird_kind", 0, 3)],
    );
    let state = run(&root, src);
    assert_eq!(state.tokens.len(), 1);
    let t = &state.tokens[0];
    assert_eq!(t, "//TODO: UNHANDLED: weird_kind sexp: (weird_kind) scala:\n// a\n// b\n");
    // stripping the comment markers reconstructs the source line for line
    let body = t.strip_prefix("//TODO: UNHANDLED: weird_kind sexp: (weird_kind) scala:\n").unwrap();
    let rebuilt: Vec<&str> = body.lines().map(|l| l.strip_prefix("// ").unwrap()).collect();
    assert_eq!(rebuilt.join("\n"), src);
}

#[test]
fn unknown_kinds_never_abort_a_run() {
    let src = "???whatever???";
    let root = SyntaxNode::inner(
        "compilation_unit",
        0,
        src.len(),
        vec![
            leaf("mystery", 0, 3),
            SyntaxNode::inner("another_mystery", 3, 14, vec![leaf("inner_riddle", 3, 11)]),
        ],
    );
    let (out, warnings) = translate(&root, src);
    assert!(out.starts_with("//sexp tree: (compilation_unit"));
    assert!(out.contains("//TODO: UNHANDLED: mystery"));
    // the fallback never recurses: the inner node shows up only inside the
    // outer comment's structural dump
    assert!(out.contains("//TODO: UNHANDLED: another_mystery sexp: (another_mystery (inner_riddle))"));
    assert!(warnings.is_empty());
}

#[test]
fn annotation_renders_name_and_arguments() {
    let src = "@Mod(x)";
    let root = SyntaxNode::inner(
        "compilation_unit",
        0,
        src.len(),
        vec![SyntaxNode::inner(
            "annotation",
            0,
            7,
            vec![
                leaf("identifier", 1, 4).with_field("name"),
                leaf("arguments", 4, 7).with_field("arguments"),
            ],
        )],
    );
    assert_eq!(output(&root, src), "@Mod(x)\n");
}

#[test]
fn case_clause_renders_arrow_and_newline() {
    let src = "ab";
    let root = SyntaxNode::inner(
        "compilation_unit",
        0,
        src.len(),
        vec![SyntaxNode::inner(
            "case_clause",
            0,
            2,
            vec![
                leaf("identifier", 0, 1).with_field("pattern"),
                leaf("identifier", 1, 2).with_field("body"),
            ],
        )],
    );
    assert_eq!(output(&root, src), "a -> b\n");
}

#[test]
fn field_expression_renders_receiver_then_member() {
    let src = "x.y";
    let root = SyntaxNode::inner(
        "compilation_unit",
        0,
        src.len(),
        vec![SyntaxNode::inner(
            "field_expression",
            0,
            3,
            vec![
                leaf("identifier", 0, 1).with_field("value"),
                leaf("identifier", 2, 3).with_field("field"),
            ],
        )],
    );
    let state = run(&root, src);
    assert_eq!(state.tokens, vec!["x".to_string(), ".y".to_string()]);
}

#[test]
fn def_becomes_fun_and_null_becomes_null() {
    let src = "def null";
    let root = SyntaxNode::inner(
        "compilation_unit",
        0,
        src.len(),
        vec![leaf("def", 0, 3), leaf("null_literal", 4, 8)],
    );
    let state = run(&root, src);
    assert_eq!(state.tokens, vec!["fun ".to_string(), "null".to_string()]);
}

#[test]
fn lambda_arrow_is_reported_as_warning_only() {
    let src = "x => y";
    let root = SyntaxNode::inner(
        "compilation_unit",
        0,
        src.len(),
        vec![leaf("lambda_expression", 0, 6)],
    );
    let state = run(&root, src);
    assert_eq!(state.warnings.len(), 1);
    assert_eq!(state.warnings[0], "lambda_expression contains a => \nx => y\n");
    assert_eq!(state.tokens.len(), 1);
    assert!(state.tokens[0].starts_with("//TODO: UNHANDLED: lambda_expression"));
}

#[test]
fn history_is_trimmed_to_capacity() {
    let src = "aaaaaaaaaaaa";
    let children: Vec<SyntaxNode> = (0..12).map(|i| leaf("identifier", i, i + 1)).collect();
    let root = SyntaxNode::inner("compilation_unit", 0, 12, children);
    let state = run(&root, src);
    assert!(state.last_kind.len() <= 9);
    assert_eq!(state.tokens.len(), 12);
}

#[test]
fn keyword_nodes_keep_text_with_trailing_space() {
    let src = "class object :";
    let root = SyntaxNode::inner(
        "compilation_unit",
        0,
        src.len(),
        vec![leaf("class", 0, 5), leaf("object", 6, 12), leaf(":", 13, 14)],
    );
    let state = run(&root, src);
    assert_eq!(
        state.tokens,
        vec!["class ".to_string(), "object ".to_string(), ": ".to_string()]
    );
}
