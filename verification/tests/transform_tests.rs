use i18n_transform::{
    Arg, Expr, PluginConfig, Prop, PropKey, TransformVisitor,
};

fn arg(e: Expr) -> Arg {
    Arg { spread: false, expr: e }
}

fn ident(s: &str) -> Expr {
    Expr::Ident(s.to_string())
}

fn strlit(s: &str) -> Expr {
    Expr::Str(s.to_string())
}

fn call(name: &str, args: Vec<Arg>) -> Expr {
    Expr::Call(Box::new(ident(name)), args)
}

fn kv(key: &str, value: Expr) -> Prop {
    Prop::KeyValue(PropKey::Ident(key.to_string()), value)
}

fn default_visitor() -> TransformVisitor {
    TransformVisitor::new(PluginConfig::from_options(None))
}

#[test]
fn shorthand_form_rewritten() {
    // it('안녕', 'hello') becomes __i18n_lookup("<hash of 안녕>", {ko, en}).
    let v = default_visitor();
    let out = v.transform_expr(call("it", vec![arg(strlit("안녕")), arg(strlit("hello"))]));
    let expected = Expr::Call(
        Box::new(ident("__i18n_lookup")),
        vec![
            arg(strlit("3beb11af")),
            arg(Expr::Object(vec![kv("ko", strlit("안녕")), kv("en", strlit("hello"))])),
        ],
    );
    assert_eq!(out, expected);
}

#[test]
fn object_form_with_variables_rewritten() {
    // it_ja({ ko: '안녕', ja: 'こんにちは' }, vars) keeps vars as a third
    // argument, untouched.
    let v = default_visitor();
    let out = v.transform_expr(call(
        "it_ja",
        vec![
            arg(Expr::Object(vec![kv("ko", strlit("안녕")), kv("ja", strlit("こんにちは"))])),
            arg(ident("vars")),
        ],
    ));
    let expected = Expr::Call(
        Box::new(ident("__i18n_lookup")),
        vec![
            arg(strlit("3beb11af")),
            arg(Expr::Object(vec![kv("ko", strlit("안녕")), kv("ja", strlit("こんにちは"))])),
            arg(ident("vars")),
        ],
    );
    assert_eq!(out, expected);
}

#[test]
fn shorthand_with_variables_rewritten() {
    let v = default_visitor();
    let out = v.transform_expr(call(
        "en_zh",
        vec![arg(strlit("hello")), arg(strlit("text")), arg(ident("vars"))],
    ));
    let expected = Expr::Call(
        Box::new(ident("__i18n_lookup")),
        vec![
            arg(strlit("a9cede7")),
            arg(Expr::Object(vec![kv("en", strlit("hello")), kv("zh", strlit("text"))])),
            arg(ident("vars")),
        ],
    );
    assert_eq!(out, expected);
}

#[test]
fn dynamic_first_argument_unchanged() {
    // it(dynamicVar, 'hello') carries no extractable first literal.
    let v = default_visitor();
    let input = call("it", vec![arg(ident("dynamicVar")), arg(strlit("hello"))]);
    let again = call("it", vec![arg(ident("dynamicVar")), arg(strlit("hello"))]);
    assert_eq!(v.transform_expr(input), again);
}

#[test]
fn empty_object_unchanged() {
    // it({}) yields an empty table, so the call passes through.
    let v = default_visitor();
    let input = call("it", vec![arg(Expr::Object(vec![]))]);
    let again = call("it", vec![arg(Expr::Object(vec![]))]);
    assert_eq!(v.transform_expr(input), again);
}

#[test]
fn non_literal_object_values_skipped() {
    // A property whose value is not a literal string is excluded; the
    // remaining literal pair is kept.
    let v = default_visitor();
    let out = v.transform_expr(call(
        "it",
        vec![arg(Expr::Object(vec![
            kv("ko", ident("computed")),
            kv("en", strlit("hello")),
        ]))],
    ));
    let expected = Expr::Call(
        Box::new(ident("__i18n_lookup")),
        vec![
            arg(strlit("a9cede7")),
            arg(Expr::Object(vec![kv("en", strlit("hello"))])),
        ],
    );
    assert_eq!(out, expected);
}

#[test]
fn object_with_only_dynamic_values_unchanged() {
    let v = default_visitor();
    let input = call("it", vec![arg(Expr::Object(vec![kv("ko", ident("x"))]))]);
    let again = call("it", vec![arg(Expr::Object(vec![kv("ko", ident("x"))]))]);
    assert_eq!(v.transform_expr(input), again);
}

#[test]
fn string_keyed_property_accepted() {
    // A quoted key works the same as a bare identifier key; the emitted key
    // is identifier-styled.
    let v = default_visitor();
    let out = v.transform_expr(call(
        "it",
        vec![arg(Expr::Object(vec![Prop::KeyValue(
            PropKey::Str("ko".to_string()),
            strlit("안녕"),
        )]))],
    ));
    let expected = Expr::Call(
        Box::new(ident("__i18n_lookup")),
        vec![
            arg(strlit("3beb11af")),
            arg(Expr::Object(vec![kv("ko", strlit("안녕"))])),
        ],
    );
    assert_eq!(out, expected);
}

#[test]
fn duplicate_keys_last_value_wins_first_position_kept() {
    let v = default_visitor();
    let out = v.transform_expr(call(
        "it",
        vec![arg(Expr::Object(vec![
            kv("ko", strlit("안녕")),
            kv("en", strlit("hello")),
            kv("ko", strlit("안녕하세요")),
        ]))],
    ));
    let expected = Expr::Call(
        Box::new(ident("__i18n_lookup")),
        vec![
            arg(strlit("4d5550bd")),
            arg(Expr::Object(vec![
                kv("ko", strlit("안녕하세요")),
                kv("en", strlit("hello")),
            ])),
        ],
    );
    assert_eq!(out, expected);
}

#[test]
fn unrecognized_callee_unchanged() {
    let v = default_visitor();
    let input = call("translate", vec![arg(strlit("a")), arg(strlit("b"))]);
    let again = call("translate", vec![arg(strlit("a")), arg(strlit("b"))]);
    assert_eq!(v.transform_expr(input), again);
}

#[test]
fn runtime_function_call_unchanged() {
    // The configured runtime function's own calls are never rewritten.
    let v = default_visitor();
    let input = call("__i18n_lookup", vec![arg(strlit("a")), arg(strlit("b"))]);
    let again = call("__i18n_lookup", vec![arg(strlit("a")), arg(strlit("b"))]);
    assert_eq!(v.transform_expr(input), again);
}

#[test]
fn non_identifier_callee_unchanged() {
    let v = default_visitor();
    let member_callee = Expr::Opaque(7, vec![ident("obj"), ident("it")]);
    let input = Expr::Call(Box::new(member_callee), vec![arg(strlit("a")), arg(strlit("b"))]);
    let member_callee2 = Expr::Opaque(7, vec![ident("obj"), ident("it")]);
    let again = Expr::Call(Box::new(member_callee2), vec![arg(strlit("a")), arg(strlit("b"))]);
    assert_eq!(v.transform_expr(input), again);
}

#[test]
fn single_argument_shorthand_unchanged() {
    // Wrong arity: one literal string is not enough for the shorthand form.
    let v = default_visitor();
    let input = call("it", vec![arg(strlit("안녕"))]);
    let again = call("it", vec![arg(strlit("안녕"))]);
    assert_eq!(v.transform_expr(input), again);
}

#[test]
fn nested_call_rewritten_inside_unrecognized_call() {
    let v = default_visitor();
    let out = v.transform_expr(call(
        "render",
        vec![arg(call("it", vec![arg(strlit("안녕")), arg(strlit("hello"))]))],
    ));
    let expected = call(
        "render",
        vec![arg(Expr::Call(
            Box::new(ident("__i18n_lookup")),
            vec![
                arg(strlit("3beb11af")),
                arg(Expr::Object(vec![kv("ko", strlit("안녕")), kv("en", strlit("hello"))])),
            ],
        ))],
    );
    assert_eq!(out, expected);
}

#[test]
fn transform_twice_is_idempotent() {
    let v = default_visitor();
    let first = v.transform_expr(call(
        "it",
        vec![arg(strlit("안녕")), arg(strlit("hello")), arg(ident("vars"))],
    ));
    let expected = Expr::Call(
        Box::new(ident("__i18n_lookup")),
        vec![
            arg(strlit("3beb11af")),
            arg(Expr::Object(vec![kv("ko", strlit("안녕")), kv("en", strlit("hello"))])),
            arg(ident("vars")),
        ],
    );
    assert_eq!(first, expected);
    let second = v.transform_expr(first);
    assert_eq!(second, expected);
}

#[test]
fn non_call_nodes_pass_through() {
    let v = default_visitor();
    assert_eq!(v.transform_expr(ident("x")), ident("x"));
    assert_eq!(v.transform_expr(strlit("x")), strlit("x"));
    let opaque = Expr::Opaque(3, vec![ident("a")]);
    let again = Expr::Opaque(3, vec![ident("a")]);
    assert_eq!(v.transform_expr(opaque), again);
}

#[test]
fn spread_marker_on_passthrough_kept() {
    // The passthrough argument is carried through unmodified, spread marker
    // included.
    let v = default_visitor();
    let spread_vars = Arg { spread: true, expr: ident("vars") };
    let out = v.transform_expr(Expr::Call(
        Box::new(ident("it")),
        vec![arg(strlit("안녕")), arg(strlit("hello")), spread_vars],
    ));
    match out {
        Expr::Call(_, args) => {
            assert_eq!(args.len(), 3);
            assert!(args[2].spread);
            assert_eq!(args[2].expr, ident("vars"));
        },
        other => panic!("expected a call, got {:?}", other),
    }
}

#[test]
fn object_inside_opaque_node_traversed() {
    // A recognized call nested under an unmodeled node is still rewritten.
    let v = default_visitor();
    let out = v.transform_expr(Expr::Opaque(
        11,
        vec![call("it", vec![arg(strlit("안녕")), arg(strlit("hello"))])],
    ));
    match out {
        Expr::Opaque(tag, children) => {
            assert_eq!(tag, 11);
            assert_eq!(children.len(), 1);
            match &children[0] {
                Expr::Call(callee, _) => assert_eq!(**callee, ident("__i18n_lookup")),
                other => panic!("expected a call, got {:?}", other),
            }
        },
        other => panic!("expected an opaque node, got {:?}", other),
    }
}

#[test]
fn object_value_inside_object_traversed() {
    // Property values of an untouched object literal are still visited.
    let v = default_visitor();
    let input = call(
        "render",
        vec![arg(Expr::Object(vec![kv(
            "label",
            call("it", vec![arg(strlit("안녕")), arg(strlit("hello"))]),
        )]))],
    );
    let out = v.transform_expr(input);
    match out {
        Expr::Call(_, args) => match &args[0].expr {
            Expr::Object(props) => match &props[0] {
                Prop::KeyValue(_, Expr::Call(callee, _)) => {
                    assert_eq!(**callee, ident("__i18n_lookup"));
                },
                other => panic!("expected a rewritten value, got {:?}", other),
            },
            other => panic!("expected an object, got {:?}", other),
        },
        other => panic!("expected a call, got {:?}", other),
    }
}
