use glob_import::ast::{Expr, GlobMatch, ModuleItem, Prop, PropKey, TransformError};
use glob_import::resolve::resolve;
use glob_import::rewrite::glob_import_transform;

fn meta_glob_call(args: Vec<Expr>) -> Expr {
    Expr::Call {
        callee: Box::new(Expr::Member {
            obj: Box::new(Expr::ImportMeta),
            prop: "glob".to_string(),
        }),
        args,
    }
}

fn eager_options() -> Expr {
    Expr::Object(vec![Prop::KeyValue {
        key: PropKey::Ident("eager".to_string()),
        value: Expr::BoolLit(true),
    }])
}

// The fixture files: the two modules of this crate whose names start with
// `re`, globbed relative to the package root (the working directory of the
// test harness).
const PATTERN: &str = "src/re*.rs";
const SPEC_A: &str = "./src/resolve.rs";
const SPEC_B: &str = "./src/rewrite.rs";

#[test]
fn resolver_orders_matches() {
    let (ms, warnings) = resolve(".", PATTERN).unwrap();
    assert_eq!(
        ms,
        vec![
            GlobMatch { raw: "src/resolve.rs".to_string(), specifier: SPEC_A.to_string() },
            GlobMatch { raw: "src/rewrite.rs".to_string(), specifier: SPEC_B.to_string() },
        ]
    );
    assert_eq!(warnings.len(), 0);
}

#[test]
fn resolver_repeats_deterministically() {
    let (first, _) = resolve(".", PATTERN).unwrap();
    let (second, _) = resolve(".", PATTERN).unwrap();
    assert_eq!(first, second);
}

#[test]
fn resolver_empty_match_is_ok() {
    let (ms, warnings) = resolve(".", "src/*.nosuchsuffix").unwrap();
    assert_eq!(ms.len(), 0);
    assert_eq!(warnings.len(), 0);
}

#[test]
fn resolver_rejects_malformed_pattern() {
    let err = resolve(".", "src/[").unwrap_err();
    assert_eq!(err, TransformError::GlobPatternInvalid);
}

#[test]
fn lazy_expansion() {
    let mut st = glob_import_transform("./mod.js".to_string());
    let items = vec![ModuleItem::VarDecl {
        name: "mods".to_string(),
        init: Some(meta_glob_call(vec![Expr::StrLit(PATTERN.to_string())])),
    }];
    let out = st.transform_module(&items).unwrap();
    assert_eq!(out.len(), 1);
    let expected = ModuleItem::VarDecl {
        name: "mods".to_string(),
        init: Some(Expr::Object(vec![
            Prop::KeyValue {
                key: PropKey::Str(SPEC_A.to_string()),
                value: Expr::LazyImport(SPEC_A.to_string()),
            },
            Prop::KeyValue {
                key: PropKey::Str(SPEC_B.to_string()),
                value: Expr::LazyImport(SPEC_B.to_string()),
            },
        ])),
    };
    assert_eq!(out[0], expected);
    assert_eq!(st.module_items.len(), 0);
}

#[test]
fn eager_expansion() {
    let mut st = glob_import_transform("./mod.js".to_string());
    let items = vec![ModuleItem::VarDecl {
        name: "mods".to_string(),
        init: Some(meta_glob_call(vec![
            Expr::StrLit(PATTERN.to_string()),
            eager_options(),
        ])),
    }];
    let out = st.transform_module(&items).unwrap();
    assert_eq!(out.len(), 3);
    assert_eq!(
        out[0],
        ModuleItem::Import { local: "__glob_0_0".to_string(), src: SPEC_A.to_string() }
    );
    assert_eq!(
        out[1],
        ModuleItem::Import { local: "__glob_0_1".to_string(), src: SPEC_B.to_string() }
    );
    let expected = ModuleItem::VarDecl {
        name: "mods".to_string(),
        init: Some(Expr::Object(vec![
            Prop::KeyValue {
                key: PropKey::Str(SPEC_A.to_string()),
                value: Expr::Ident("__glob_0_0".to_string()),
            },
            Prop::KeyValue {
                key: PropKey::Str(SPEC_B.to_string()),
                value: Expr::Ident("__glob_0_1".to_string()),
            },
        ])),
    };
    assert_eq!(out[2], expected);
    assert_eq!(
        st.module_items,
        vec![
            ("__glob_0_0".to_string(), SPEC_A.to_string()),
            ("__glob_0_1".to_string(), SPEC_B.to_string()),
        ]
    );
}

#[test]
fn two_eager_calls_use_disjoint_namespaces() {
    let mut st = glob_import_transform("./mod.js".to_string());
    let items = vec![
        ModuleItem::VarDecl {
            name: "first".to_string(),
            init: Some(meta_glob_call(vec![
                Expr::StrLit(PATTERN.to_string()),
                eager_options(),
            ])),
        },
        ModuleItem::VarDecl {
            name: "second".to_string(),
            init: Some(meta_glob_call(vec![
                Expr::StrLit(PATTERN.to_string()),
                eager_options(),
            ])),
        },
    ];
    let out = st.transform_module(&items).unwrap();
    assert_eq!(out.len(), 6);
    let locals: Vec<&str> = st.module_items.iter().map(|p| p.0.as_str()).collect();
    assert_eq!(locals, vec!["__glob_0_0", "__glob_0_1", "__glob_1_0", "__glob_1_1"]);
    for a in 0..locals.len() {
        for b in (a + 1)..locals.len() {
            assert_ne!(locals[a], locals[b]);
        }
    }
    match &out[5] {
        ModuleItem::VarDecl { init: Some(Expr::Object(props)), .. } => {
            assert_eq!(props.len(), 2);
            assert!(matches!(
                &props[0],
                Prop::KeyValue { value: Expr::Ident(nm), .. } if nm == "__glob_1_0"
            ));
        }
        other => panic!("unexpected item: {:?}", other),
    }
}

#[test]
fn computed_pattern_is_fatal() {
    let mut st = glob_import_transform("./mod.js".to_string());
    let items = vec![ModuleItem::ExprStmt(meta_glob_call(vec![Expr::Ident(
        "dynamicPattern".to_string(),
    )]))];
    let err = st.transform_module(&items).unwrap_err();
    assert_eq!(err, TransformError::GlobArgumentNotLiteral);
}

#[test]
fn missing_pattern_is_fatal() {
    let mut st = glob_import_transform("./mod.js".to_string());
    let items = vec![ModuleItem::ExprStmt(meta_glob_call(vec![]))];
    let err = st.transform_module(&items).unwrap_err();
    assert_eq!(err, TransformError::GlobArgumentNotLiteral);
}

#[test]
fn malformed_pattern_is_fatal() {
    let mut st = glob_import_transform("./mod.js".to_string());
    let items = vec![ModuleItem::ExprStmt(meta_glob_call(vec![Expr::StrLit(
        "src/[".to_string(),
    )]))];
    let err = st.transform_module(&items).unwrap_err();
    assert_eq!(err, TransformError::GlobPatternInvalid);
}

#[test]
fn empty_match_expands_to_empty_object() {
    let mut st = glob_import_transform("./mod.js".to_string());
    let items = vec![ModuleItem::VarDecl {
        name: "mods".to_string(),
        init: Some(meta_glob_call(vec![
            Expr::StrLit("src/*.nosuchsuffix".to_string()),
            eager_options(),
        ])),
    }];
    let out = st.transform_module(&items).unwrap();
    assert_eq!(out.len(), 1);
    assert_eq!(
        out[0],
        ModuleItem::VarDecl { name: "mods".to_string(), init: Some(Expr::Object(vec![])) }
    );
    assert_eq!(st.module_items.len(), 0);
}

#[test]
fn malformed_options_degrade_to_lazy() {
    let st = glob_import_transform("./mod.js".to_string());
    assert!(!st.is_eager(&Expr::StrLit("eager".to_string())));
    assert!(!st.is_eager(&Expr::Object(vec![])));
    assert!(!st.is_eager(&Expr::Object(vec![Prop::KeyValue {
        key: PropKey::Ident("eager".to_string()),
        value: Expr::Ident("yes".to_string()),
    }])));
    assert!(!st.is_eager(&Expr::Object(vec![Prop::KeyValue {
        key: PropKey::Ident("eager".to_string()),
        value: Expr::BoolLit(false),
    }])));
    assert!(st.is_eager(&eager_options()));
    assert!(st.is_eager(&Expr::Object(vec![
        Prop::Opaque,
        Prop::KeyValue {
            key: PropKey::Ident("other".to_string()),
            value: Expr::BoolLit(false),
        },
        Prop::KeyValue {
            key: PropKey::Ident("eager".to_string()),
            value: Expr::BoolLit(true),
        },
    ])));
}

#[test]
fn untouched_statements_are_kept() {
    let mut st = glob_import_transform("./mod.js".to_string());
    let items = vec![
        ModuleItem::Import { local: "x".to_string(), src: "./x.js".to_string() },
        ModuleItem::ExprStmt(Expr::Assign {
            target: "y".to_string(),
            value: Box::new(Expr::StrLit("hello".to_string())),
        }),
        ModuleItem::Opaque,
        ModuleItem::VarDecl { name: "z".to_string(), init: None },
    ];
    let out = st.transform_module(&items).unwrap();
    assert_eq!(out, items);
}

#[test]
fn transform_is_idempotent() {
    let mut st = glob_import_transform("./mod.js".to_string());
    let items = vec![ModuleItem::VarDecl {
        name: "mods".to_string(),
        init: Some(meta_glob_call(vec![Expr::StrLit(PATTERN.to_string())])),
    }];
    let once = st.transform_module(&items).unwrap();
    let mut st2 = glob_import_transform("./mod.js".to_string());
    let twice = st2.transform_module(&once).unwrap();
    assert_eq!(once, twice);
    assert_eq!(st2.module_items.len(), 0);
}

#[test]
fn matcher_recognizes_only_meta_glob() {
    let st = glob_import_transform("./mod.js".to_string());
    assert!(st.is_glob_import(&meta_glob_call(vec![])));
    let plain_call = Expr::Call {
        callee: Box::new(Expr::Ident("glob".to_string())),
        args: vec![],
    };
    assert!(!st.is_glob_import(&plain_call));
    let other_member = Expr::Call {
        callee: Box::new(Expr::Member {
            obj: Box::new(Expr::ImportMeta),
            prop: "url".to_string(),
        }),
        args: vec![],
    };
    assert!(!st.is_glob_import(&other_member));
    assert!(!st.is_glob_import(&Expr::ImportMeta));
}

#[test]
fn builders_produce_declared_shapes() {
    let st = glob_import_transform("./mod.js".to_string());
    assert_eq!(
        st.import_decl("__glob_0_0", "./a.js"),
        ModuleItem::Import { local: "__glob_0_0".to_string(), src: "./a.js".to_string() }
    );
    assert_eq!(
        st.dynamic_import("./a.js"),
        Expr::LazyImport("./a.js".to_string())
    );
}
