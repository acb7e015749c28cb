use aiken_project::blueprint::{
    Argument, Blueprint, CompiledCode, Config, LookupResult, PlutusVersion, Preamble, Purpose,
    Validator, ValidatorDecl,
};
use aiken_project::options::{effective_seed, tracing, TraceFilter, TraceLevel, Tracing};
use aiken_project::schema::{
    encode, DataType, Definitions, PrimitiveKind, Schema, SchemaError, Type,
};

fn preamble(description: Option<&str>, license: Option<&str>) -> Preamble {
    Preamble {
        title: "Foo".to_string(),
        description: description.map(|d| d.to_string()),
        version: "1.0.0".to_string(),
        plutus_version: PlutusVersion::V2,
        license: license.map(|l| l.to_string()),
    }
}

fn validator(title: &str) -> Validator<Schema> {
    Validator {
        title: title.to_string(),
        purpose: Some(Purpose::Spend),
        datum: None,
        redeemer: Argument {
            title: None,
            schema: Schema::Primitive(PrimitiveKind::Data),
        },
        parameters: vec![],
        definitions: Definitions::new(),
        compiled_code: CompiledCode {
            hex: "4e4d01".to_string(),
            hash: "abcd".to_string(),
        },
    }
}

fn blueprint(titles: &[&str]) -> Blueprint<Schema> {
    Blueprint {
        preamble: preamble(None, None),
        validators: titles.iter().map(|t| validator(t)).collect(),
    }
}

#[test]
fn serialize_no_description() {
    let blueprint: Blueprint<Schema> = Blueprint {
        preamble: Preamble {
            title: "Foo".to_string(),
            description: None,
            version: "1.0.0".to_string(),
            plutus_version: PlutusVersion::V2,
            license: Some("Apache-2.0".to_string()),
        },
        validators: vec![],
    };
    assert_eq!(
        serde_json::from_str::<serde_json::Value>(&blueprint.to_json()).unwrap(),
        serde_json::from_str::<serde_json::Value>(
            r#"{"preamble":{"title":"Foo","version":"1.0.0","plutusVersion":"v2","license":"Apache-2.0"},"validators":[]}"#
        )
        .unwrap(),
    );
    assert_eq!(
        blueprint.to_json(),
        r#"{"preamble":{"title":"Foo","version":"1.0.0","plutusVersion":"v2","license":"Apache-2.0"},"validators":[]}"#
    );
}

#[test]
fn serialize_with_description() {
    let blueprint: Blueprint<Schema> = Blueprint {
        preamble: Preamble {
            title: "Foo".to_string(),
            description: Some("Lorem ipsum".to_string()),
            version: "1.0.0".to_string(),
            plutus_version: PlutusVersion::V2,
            license: None,
        },
        validators: vec![],
    };
    assert_eq!(
        serde_json::from_str::<serde_json::Value>(&blueprint.to_json()).unwrap(),
        serde_json::from_str::<serde_json::Value>(
            r#"{"preamble":{"title":"Foo","description":"Lorem ipsum","version":"1.0.0","plutusVersion":"v2"},"validators":[]}"#
        )
        .unwrap(),
    );
    assert_eq!(
        blueprint.to_json(),
        r#"{"preamble":{"title":"Foo","description":"Lorem ipsum","version":"1.0.0","plutusVersion":"v2"},"validators":[]}"#
    );
}

#[test]
fn serialize_escapes_strings() {
    let mut b = blueprint(&[]);
    b.preamble.title = "say \"hi\"".to_string();
    assert_eq!(
        b.to_json(),
        r#"{"preamble":{"title":"say \"hi\"","version":"1.0.0","plutusVersion":"v2"},"validators":[]}"#
    );
}

#[test]
fn preamble_from_manifest() {
    let config = Config {
        name: "acme/vault".to_string(),
        version: "0.4.2".to_string(),
        description: "".to_string(),
        license: Some("MIT".to_string()),
    };
    let p = Preamble::from_config(&config);
    assert_eq!(p.title, "acme/vault");
    assert_eq!(p.version, "0.4.2");
    assert_eq!(p.description, None);
    assert_eq!(p.plutus_version, PlutusVersion::V2);
    assert_eq!(p.license, Some("MIT".to_string()));

    let config = Config {
        description: "A vault".to_string(),
        license: None,
        ..config
    };
    let p = Preamble::from_config(&config);
    assert_eq!(p.description, Some("A vault".to_string()));
    assert_eq!(p.license, None);
}

#[test]
fn lookup_single_without_title() {
    let b = blueprint(&["spend.only"]);
    match b.lookup(None) {
        Some(LookupResult::One(v)) => assert_eq!(v.title, "spend.only"),
        _ => panic!("expected one validator"),
    }
}

#[test]
fn lookup_shared_title_is_many() {
    let b = blueprint(&["spend.my_validator", "mint.other", "spend.my_validator"]);
    let t = "spend.my_validator".to_string();
    assert!(matches!(b.lookup(Some(&t)), Some(LookupResult::Many)));
    let t = "mint.other".to_string();
    match b.lookup(Some(&t)) {
        Some(LookupResult::One(v)) => assert_eq!(v.title, "mint.other"),
        _ => panic!("expected one validator"),
    }
}

#[test]
fn lookup_absent_title_is_none() {
    let b = blueprint(&["spend.a", "spend.b"]);
    let t = "spend".to_string();
    assert!(b.lookup(Some(&t)).is_none());
    assert!(blueprint(&[]).lookup(None).is_none());
    assert!(matches!(b.lookup(None), Some(LookupResult::Many)));
}

#[derive(Debug, PartialEq)]
enum Pick {
    TooMany(Vec<String>),
    Missing(Vec<String>),
}

#[test]
fn with_validator_shared_title() {
    let b = blueprint(&["spend.my_validator", "spend.my_validator"]);
    let t = "spend.my_validator".to_string();
    let r: Result<String, Pick> = b.with_validator(
        Some(&t),
        Pick::TooMany,
        Pick::Missing,
        |_v: &Validator<Schema>| panic!("action must not run"),
    );
    assert_eq!(
        r,
        Err(Pick::TooMany(vec![
            "spend.my_validator".to_string(),
            "spend.my_validator".to_string()
        ]))
    );
}

#[test]
fn with_validator_missing_and_one() {
    let b = blueprint(&["spend.a", "mint.b"]);
    let t = "spend.c".to_string();
    let r: Result<String, Pick> = b.with_validator(
        Some(&t),
        Pick::TooMany,
        Pick::Missing,
        |_v: &Validator<Schema>| panic!("action must not run"),
    );
    assert_eq!(
        r,
        Err(Pick::Missing(vec!["spend.a".to_string(), "mint.b".to_string()]))
    );
    let t = "mint.b".to_string();
    let r: Result<String, Pick> = b.with_validator(
        Some(&t),
        Pick::TooMany,
        Pick::Missing,
        |v: &Validator<Schema>| Ok(v.compiled_code.hash.clone()),
    );
    assert_eq!(r, Ok("abcd".to_string()));
    assert_eq!(b.all_titles(), vec!["spend.a".to_string(), "mint.b".to_string()]);
}

fn my_list_env() -> Vec<DataType> {
    vec![DataType {
        id: "aiken/list.MyList".to_string(),
        constructors: vec![
            vec![],
            vec![
                Type::Primitive(PrimitiveKind::Integer),
                Type::Named("aiken/list.MyList".to_string()),
            ],
        ],
    }]
}

#[test]
fn encode_self_referential_type() {
    let env = my_list_env();
    let mut defs = Definitions::new();
    let s = encode(&Type::Named("aiken/list.MyList".to_string()), &env, &mut defs).unwrap();
    assert!(matches!(&s, Schema::Reference(id) if id == "aiken/list.MyList"));
    assert_eq!(defs.entries.len(), 1);
    assert_eq!(defs.entries[0].id, "aiken/list.MyList");
    let mut out = String::new();
    aiken_project::json::write_schema(&defs.entries[0].schema, &mut out);
    assert_eq!(
        out,
        r##"{"anyOf":[{"dataType":"constructor","index":0,"fields":[]},{"dataType":"constructor","index":1,"fields":[{"dataType":"integer"},{"$ref":"#/definitions/aiken~1list.MyList"}]}]}"##
    );
    // A second occurrence only refers to the definition.
    let again = encode(&Type::Named("aiken/list.MyList".to_string()), &env, &mut defs).unwrap();
    assert!(matches!(again, Schema::Reference(_)));
    assert_eq!(defs.entries.len(), 1);
}

#[test]
fn encode_containers_and_errors() {
    let env = my_list_env();
    let mut defs = Definitions::new();
    let t = Type::Tuple(vec![
        Type::Primitive(PrimitiveKind::Bytes),
        Type::List(Box::new(Type::Primitive(PrimitiveKind::Boolean))),
    ]);
    let s = encode(&t, &env, &mut defs).unwrap();
    let mut out = String::new();
    aiken_project::json::write_schema(&s, &mut out);
    assert_eq!(
        out,
        r##"{"dataType":"list","items":[{"dataType":"bytes"},{"dataType":"list","items":{"dataType":"#boolean"}}]}"##
    );
    assert_eq!(defs.entries.len(), 0);
    assert_eq!(
        encode(&Type::Var("a".to_string()), &env, &mut defs).unwrap_err(),
        SchemaError::UnresolvedType("a".to_string())
    );
    assert_eq!(
        encode(&Type::Named("Unknown".to_string()), &env, &mut defs).unwrap_err(),
        SchemaError::UnresolvedType("Unknown".to_string())
    );
    let f = Type::Fn(vec![Type::Primitive(PrimitiveKind::Integer)], Box::new(Type::Primitive(PrimitiveKind::Unit)));
    assert_eq!(encode(&f, &env, &mut defs).unwrap_err(), SchemaError::UnsupportedType);
}

fn decl(title: &str, redeemer: Type) -> ValidatorDecl {
    ValidatorDecl {
        title: title.to_string(),
        purpose: Some(Purpose::Mint),
        datum: None,
        redeemer: Argument {
            title: Some("redeemer".to_string()),
            schema: redeemer,
        },
        parameters: vec![Argument {
            title: None,
            schema: Type::Primitive(PrimitiveKind::Integer),
        }],
    }
}

#[test]
fn assemble_in_declaration_order() {
    let config = Config {
        name: "acme/vault".to_string(),
        version: "1.0.0".to_string(),
        description: "".to_string(),
        license: None,
    };
    let env = my_list_env();
    let decls = vec![
        decl("mint.first", Type::Named("aiken/list.MyList".to_string())),
        decl("mint.second", Type::Primitive(PrimitiveKind::Text)),
    ];
    let codes = vec![
        CompiledCode { hex: "01".to_string(), hash: "h1".to_string() },
        CompiledCode { hex: "02".to_string(), hash: "h2".to_string() },
    ];
    let b = Blueprint::new(&config, &decls, &env, codes).unwrap();
    assert_eq!(b.validators.len(), 2);
    assert_eq!(b.validators[0].title, "mint.first");
    assert_eq!(b.validators[1].title, "mint.second");
    assert_eq!(b.validators[0].compiled_code.hash, "h1");
    assert_eq!(b.validators[1].compiled_code.hex, "02");
    assert_eq!(b.validators[0].definitions.entries.len(), 1);
    assert_eq!(b.validators[1].definitions.entries.len(), 0);

    let json = b.to_json();
    let v: serde_json::Value = serde_json::from_str(&json).unwrap();
    assert_eq!(v["preamble"]["title"], "acme/vault");
    assert!(v["preamble"].get("description").is_none());
    assert!(v["preamble"].get("license").is_none());
    assert_eq!(v["validators"][0]["title"], "mint.first");
    assert_eq!(v["validators"][0]["purpose"], "mint");
    assert_eq!(v["validators"][0]["redeemer"]["title"], "redeemer");
    assert_eq!(v["validators"][0]["compiledCode"]["hash"], "h1");
    assert_eq!(v["validators"][1]["compiledCode"]["hex"], "02");
    assert_eq!(
        v["validators"][0]["redeemer"]["schema"]["$ref"],
        "#/definitions/aiken~1list.MyList"
    );
    assert_eq!(
        v["validators"][0]["definitions"]["aiken/list.MyList"]["anyOf"][1]["index"],
        1
    );
}

#[test]
fn assemble_fails_fast() {
    let config = Config {
        name: "p".to_string(),
        version: "1".to_string(),
        description: "d".to_string(),
        license: None,
    };
    let decls = vec![
        decl("mint.ok", Type::Primitive(PrimitiveKind::Text)),
        decl("mint.bad", Type::Var("a".to_string())),
    ];
    let codes = vec![
        CompiledCode { hex: "01".to_string(), hash: "h1".to_string() },
        CompiledCode { hex: "02".to_string(), hash: "h2".to_string() },
    ];
    let r = Blueprint::new(&config, &decls, &vec![], codes);
    assert_eq!(r.unwrap_err(), SchemaError::UnresolvedType("a".to_string()));
}

#[test]
fn tracing_from_filter() {
    assert_eq!(tracing(None, TraceLevel::Verbose), Tracing::All(TraceLevel::Verbose));
    assert_eq!(
        tracing(Some(TraceFilter::UserDefined), TraceLevel::Compact),
        Tracing::UserDefined(TraceLevel::Compact)
    );
    assert_eq!(
        tracing(Some(TraceFilter::CompilerGenerated), TraceLevel::Silent),
        Tracing::CompilerGenerated(TraceLevel::Silent)
    );
    assert_eq!(effective_seed(Some(42), 7), 42);
    assert_eq!(effective_seed(None, 7), 7);
}

#[test]
fn round_trip_keeps_fields() {
    let mut b = blueprint(&["spend.a"]);
    b.preamble.description = Some("Lorem ipsum".to_string());
    let v: serde_json::Value = serde_json::from_str(&b.to_json()).unwrap();
    let p = &v["preamble"];
    assert_eq!(p["title"], "Foo");
    assert_eq!(p["description"], "Lorem ipsum");
    assert_eq!(p["version"], "1.0.0");
    assert_eq!(p["plutusVersion"], "v2");
    assert!(p.get("license").is_none());
    let val = &v["validators"][0];
    assert_eq!(val["title"], "spend.a");
    assert_eq!(val["purpose"], "spend");
    assert!(val.get("datum").is_none());
    assert_eq!(val["redeemer"]["schema"], serde_json::Value::Object(serde_json::Map::new()));
    assert_eq!(val["parameters"], serde_json::Value::Array(vec![]));
    assert_eq!(val["compiledCode"]["hex"], "4e4d01");
    assert_eq!(val["compiledCode"]["hash"], "abcd");
}

#[test]
fn assemble_function_typed_argument_is_unsupported() {
    let config = Config {
        name: "p".to_string(),
        version: "1".to_string(),
        description: "".to_string(),
        license: None,
    };
    let env = vec![DataType {
        id: "m.Handler".to_string(),
        constructors: vec![vec![Type::Fn(
            vec![Type::Primitive(PrimitiveKind::Integer)],
            Box::new(Type::Primitive(PrimitiveKind::Boolean)),
        )]],
    }];
    let decls = vec![
        decl("mint.first", Type::Named("m.Handler".to_string())),
        decl("mint.second", Type::Var("a".to_string())),
    ];
    let codes = vec![
        CompiledCode { hex: "01".to_string(), hash: "h1".to_string() },
        CompiledCode { hex: "02".to_string(), hash: "h2".to_string() },
    ];
    let r = Blueprint::new(&config, &decls, &env, codes);
    assert_eq!(r.unwrap_err(), SchemaError::UnsupportedType);
}

#[test]
fn references_name_table_entries() {
    let env = vec![
        DataType {
            id: "m.Pair".to_string(),
            constructors: vec![vec![
                Type::Named("m.Leaf".to_string()),
                Type::Named("m.Leaf".to_string()),
            ]],
        },
        DataType {
            id: "m.Leaf".to_string(),
            constructors: vec![vec![], vec![Type::Primitive(PrimitiveKind::Bytes)]],
        },
    ];
    let mut defs = Definitions::new();
    let s = encode(&Type::Named("m.Pair".to_string()), &env, &mut defs).unwrap();
    assert!(matches!(&s, Schema::Reference(id) if id == "m.Pair"));
    let ids: Vec<&str> = defs.entries.iter().map(|d| d.id.as_str()).collect();
    assert_eq!(ids, vec!["m.Pair", "m.Leaf"]);
    let mut out = String::new();
    aiken_project::json::write_schema(&defs.entries[0].schema, &mut out);
    assert_eq!(
        out,
        r##"{"anyOf":[{"dataType":"constructor","index":0,"fields":[{"$ref":"#/definitions/m.Leaf"},{"$ref":"#/definitions/m.Leaf"}]}]}"##
    );
}

#[test]
fn pretty_print_no_description() {
    let b: Blueprint<Schema> = Blueprint {
        preamble: preamble(None, Some("Apache-2.0")),
        validators: vec![],
    };
    assert_eq!(
        b.to_pretty_json(),
        "{\n  \"preamble\": {\n    \"title\": \"Foo\",\n    \"version\": \"1.0.0\",\n    \"plutusVersion\": \"v2\",\n    \"license\": \"Apache-2.0\"\n  },\n  \"validators\": []\n}"
    );
}

#[test]
fn pretty_print_validator() {
    let b = blueprint(&["spend.a"]);
    let text = b.to_pretty_json();
    assert_eq!(
        text,
        "{\n  \"preamble\": {\n    \"title\": \"Foo\",\n    \"version\": \"1.0.0\",\n    \"plutusVersion\": \"v2\"\n  },\n  \"validators\": [\n    {\n      \"title\": \"spend.a\",\n      \"purpose\": \"spend\",\n      \"redeemer\": {\n        \"schema\": {}\n      },\n      \"parameters\": [],\n      \"compiledCode\": {\n        \"hex\": \"4e4d01\",\n        \"hash\": \"abcd\"\n      },\n      \"definitions\": {}\n    }\n  ]\n}"
    );
    let compact: serde_json::Value = serde_json::from_str(&b.to_json()).unwrap();
    let pretty: serde_json::Value = serde_json::from_str(&text).unwrap();
    assert_eq!(compact, pretty);
}

#[test]
fn assemble_reports_error_kind() {
    let config = Config {
        name: "p".to_string(),
        version: "1".to_string(),
        description: "".to_string(),
        license: None,
    };
    let one = |t: Type| {
        let decls = vec![decl("spend.v", t)];
        let codes = vec![CompiledCode { hex: "01".to_string(), hash: "h".to_string() }];
        Blueprint::new(&config, &decls, &vec![], codes).unwrap_err()
    };
    assert_eq!(one(Type::Var("a".to_string())), SchemaError::UnresolvedType("a".to_string()));
    assert_eq!(
        one(Type::Fn(vec![], Box::new(Type::Primitive(PrimitiveKind::Unit)))),
        SchemaError::UnsupportedType
    );
}
