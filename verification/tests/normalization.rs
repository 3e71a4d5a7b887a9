use apollo_compiler::executable as ex;
use apollo_compiler::ast::Value as AstValue;
use apollo_compiler::schema::ExtendedType;
use apollo_compiler::ExecutableDocument;
use router_core::ast::{ArgVal, Argument, Directive, Selection, Field, InlineFragment, FragmentSpread, Operation, OperationKind, VariableDef, FragmentDef};
use router_core::schema::{Schema, TypeDef, FieldDef};

fn conv_value(v: &apollo_compiler::ast::Value) -> ArgVal {
    match v {
        AstValue::Null => ArgVal::Null,
        AstValue::Enum(n) => ArgVal::Enum(n.as_str().to_string()),
        AstValue::Variable(n) => ArgVal::Var(n.as_str().to_string()),
        AstValue::String(s) => ArgVal::Str(s.clone()),
        AstValue::Float(f) => ArgVal::Str(f.to_string()),
        AstValue::Int(i) => ArgVal::Int(i.as_str().parse().unwrap()),
        AstValue::Boolean(b) => ArgVal::Bool(*b),
        AstValue::List(items) => ArgVal::List(items.iter().map(|x| conv_value(x)).collect()),
        AstValue::Object(fields) => ArgVal::Object(
            fields.iter().map(|(n, x)| Argument { name: n.as_str().to_string(), value: conv_value(x) }).collect(),
        ),
    }
}

fn conv_arguments(args: &[apollo_compiler::Node<apollo_compiler::ast::Argument>]) -> Vec<Argument> {
    args.iter().map(|a| Argument { name: a.name.as_str().to_string(), value: conv_value(&a.value) }).collect()
}

fn conv_directives(dirs: &apollo_compiler::ast::DirectiveList) -> Vec<Directive> {
    dirs.iter().map(|d| Directive { name: d.name.as_str().to_string(), arguments: conv_arguments(&d.arguments) }).collect()
}

fn conv_sel(s: &ex::Selection, doc: &ExecutableDocument) -> Selection {
    match s {
        ex::Selection::Field(f) => Selection::Field(Field {
            alias: f.alias.as_ref().map(|a| a.as_str().to_string()),
            name: f.name.as_str().to_string(),
            arguments: conv_arguments(&f.arguments),
            directives: conv_directives(&f.directives),
            selection_set: conv_sels(&f.selection_set, doc),
        }),
        ex::Selection::InlineFragment(f) => Selection::InlineFragment(InlineFragment {
            type_condition: f.type_condition.as_ref().map(|c| c.as_str().to_string()),
            directives: conv_directives(&f.directives),
            selection_set: conv_sels(&f.selection_set, doc),
        }),
        ex::Selection::FragmentSpread(f) => Selection::FragmentSpread(FragmentSpread {
            name: f.fragment_name.as_str().to_string(),
            directives: conv_directives(&f.directives),
            selection_set: doc
                .fragments
                .get(&f.fragment_name)
                .map(|fr| conv_sels(&fr.selection_set, doc))
                .unwrap_or_default(),
        }),
    }
}

fn conv_sels(ss: &ex::SelectionSet, doc: &ExecutableDocument) -> Vec<Selection> {
    ss.selections.iter().map(|s| conv_sel(s, doc)).collect()
}

fn conv_operation(op: &ex::Operation, doc: &ExecutableDocument) -> Operation {
    Operation {
        kind: match op.operation_type {
            apollo_compiler::ast::OperationType::Query => OperationKind::Query,
            apollo_compiler::ast::OperationType::Mutation => OperationKind::Mutation,
            apollo_compiler::ast::OperationType::Subscription => OperationKind::Subscription,
        },
        name: op.name.as_ref().map(|n| n.as_str().to_string()),
        variables: op
            .variables
            .iter()
            .map(|v| VariableDef { name: v.name.as_str().to_string(), var_type: v.ty.to_string() })
            .collect(),
        selection_set: conv_sels(&op.selection_set, doc),
        named_fragments: Vec::new(),
    }
}

fn conv_fragment_defs(doc: &ExecutableDocument) -> Vec<FragmentDef> {
    doc.fragments
        .iter()
        .map(|(n, fr)| FragmentDef {
            name: n.as_str().to_string(),
            type_condition: fr.type_condition().as_str().to_string(),
            selection_set: conv_sels(&fr.selection_set, doc),
        })
        .collect()
}

fn conv_schema(s: &apollo_compiler::Schema) -> Schema {
    let query_type = s
        .schema_definition
        .query
        .as_ref()
        .map(|q| q.name.as_str().to_string())
        .unwrap_or_else(|| "Query".to_string());
    let mut types = Vec::new();
    for (name, t) in s.types.iter() {
        match t {
            ExtendedType::Object(o) => types.push(TypeDef {
                name: name.as_str().to_string(),
                is_interface: false,
                implements: o.implements_interfaces.iter().map(|i| i.name.as_str().to_string()).collect(),
                fields: o
                    .fields
                    .iter()
                    .map(|(fname, fd)| FieldDef {
                        name: fname.as_str().to_string(),
                        ty_name: fd.ty.inner_named_type().as_str().to_string(),
                    })
                    .collect(),
            }),
            ExtendedType::Interface(iface) => types.push(TypeDef {
                name: name.as_str().to_string(),
                is_interface: true,
                implements: iface.implements_interfaces.iter().map(|i| i.name.as_str().to_string()).collect(),
                fields: iface
                    .fields
                    .iter()
                    .map(|(fname, fd)| FieldDef {
                        name: fname.as_str().to_string(),
                        ty_name: fd.ty.inner_named_type().as_str().to_string(),
                    })
                    .collect(),
            }),
            _ => {},
        }
    }
    // interface implementors: record reverse relation too, the model reads
    // `implements` from both sides through types_intersect
    Schema { query_type, types }
}

fn interface_objects_of(s: &apollo_compiler::Schema) -> Vec<String> {
    let mut out = Vec::new();
    for (name, t) in s.types.iter() {
        if let ExtendedType::Object(o) = t {
            if o.directives.iter().any(|d| d.name.as_str() == "interfaceObject") {
                out.push(name.as_str().to_string());
            }
        }
    }
    out
}

fn parse_schema_and_operation(src: &str) -> (Schema, Vec<FragmentDef>, Vec<(Option<String>, Operation)>) {
    let (schema, doc) = apollo_compiler::parser::Parser::new()
        .parse_mixed_validate(src, "document.graphql")
        .unwrap();
    let doc = doc.into_inner();
    let rs = conv_schema(&schema);
    let frags = conv_fragment_defs(&doc);
    let mut ops = Vec::new();
    if let Some(anon) = &doc.operations.anonymous {
        ops.push((None, conv_operation(anon, &doc)));
    }
    for (n, op) in doc.operations.named.iter() {
        ops.push((Some(n.as_str().to_string()), conv_operation(op, &doc)));
    }
    (rs, frags, ops)
}

fn get_named<'a>(ops: &'a [(Option<String>, Operation)], name: &str) -> &'a Operation {
    ops.iter().find(|(n, _)| n.as_deref() == Some(name)).map(|(_, o)| o).unwrap()
}

#[test]
fn expands_named_fragments() {
    let src = r#"
query NamedFragmentQuery {
  foo {
    id
    ...Bar
  }
}

fragment Bar on Foo {
  bar
  baz
}

type Query {
  foo: Foo
}

type Foo {
  id: ID!
  bar: String!
  baz: Int
}
"#;
    let (schema, frags, ops) = parse_schema_and_operation(src);
    let op = get_named(&ops, "NamedFragmentQuery");
    let normalized = router_core::normalize::normalize_operation(op, &frags, &schema, &Vec::new()).unwrap();
    let expected = r#"query NamedFragmentQuery {
  foo {
    id
    bar
    baz
  }
}"#;
    assert_eq!(expected, router_core::serialize::operation_to_string(&normalized));
}

#[test]
fn expands_and_deduplicates_fragments() {
    let src = r#"
query NestedFragmentQuery {
  foo {
    ...FirstFragment
    ...SecondFragment
  }
}

fragment FirstFragment on Foo {
  id
  bar
  baz
}

fragment SecondFragment on Foo {
  id
  bar
}

type Query {
  foo: Foo
}

type Foo {
  id: ID!
  bar: String!
  baz: String
}
"#;
    let (schema, frags, ops) = parse_schema_and_operation(src);
    let op = get_named(&ops, "NestedFragmentQuery");
    let normalized = router_core::normalize::normalize_operation(op, &frags, &schema, &Vec::new()).unwrap();
    let expected = r#"query NestedFragmentQuery {
  foo {
    id
    bar
    baz
  }
}"#;
    assert_eq!(expected, router_core::serialize::operation_to_string(&normalized));
}

#[test]
fn can_remove_introspection_selections() {
    let src = r#"
query TestIntrospectionQuery {
  __schema {
    types {
      name
    }
  }
}

type Query {
  foo: String
}
"#;
    let (schema, frags, ops) = parse_schema_and_operation(src);
    let op = get_named(&ops, "TestIntrospectionQuery");
    let normalized = router_core::normalize::normalize_operation(op, &frags, &schema, &Vec::new()).unwrap();
    assert!(normalized.selection_set.is_empty());
}

#[test]
fn merge_nested_field_selections() {
    let src = r#"
query Test {
  t {
    t1
    ... @defer {
      v {
        v1
      }
    }
  }
  t {
    t1
    t2
    ... @defer {
      v {
        v2
      }
    }
  }
}

directive @defer(label: String, if: Boolean! = true) on FRAGMENT_SPREAD | INLINE_FRAGMENT

type Query {
  t: T
}

type T {
  t1: Int
  t2: String
  v: V
}

type V {
  v1: Int
  v2: String
}
"#;
    let (schema, frags, ops) = parse_schema_and_operation(src);
    if let Some((_, op)) = ops.first() {
        let normalized = router_core::normalize::normalize_operation(op, &frags, &schema, &Vec::new()).unwrap();
        let expected = r#"query Test {
  t {
    t1
    ... @defer {
      v {
        v1
      }
    }
    t2
    ... @defer {
      v {
        v2
      }
    }
  }
}"#;
        assert_eq!(expected, router_core::serialize::operation_to_string(&normalized));
    } else {
        panic!("unable to parse document")
    }
}

#[test]
fn merge_nested_fragments() {
    let src = r#"
query Test {
  t {
    ... on T {
      t1
    }
    ... on T {
      v {
        v1
      }
    }
  }
  t {
    ... on T {
      t1
      t2
    }
    ... on T {
      v {
        v2
      }
    }
  }
}

type Query {
  t: T
}

type T {
  t1: Int
  t2: String
  v: V
}

type V {
  v1: Int
  v2: String
}
"#;
    let (schema, frags, ops) = parse_schema_and_operation(src);
    if let Some((_, op)) = ops.first() {
        let normalized = router_core::normalize::normalize_operation(op, &frags, &schema, &Vec::new()).unwrap();
        let expected = r#"query Test {
  t {
    t1
    v {
      v1
      v2
    }
    t2
  }
}"#;
        assert_eq!(expected, router_core::serialize::operation_to_string(&normalized));
    } else {
        panic!("unable to parse document")
    }
}

#[test]
fn removes_sibling_typename() {
    let src = r#"
query TestQuery {
  foo {
    __typename
    v1
    v2
  }
}

type Query {
  foo: Foo
}

type Foo {
  v1: ID!
  v2: String
}
"#;
    let (schema, frags, ops) = parse_schema_and_operation(src);
    let op = get_named(&ops, "TestQuery");
    let normalized = router_core::normalize::normalize_operation(op, &frags, &schema, &Vec::new()).unwrap();
    let expected = r#"query TestQuery {
  foo {
    v1
    v2
  }
}"#;
    assert_eq!(expected, router_core::serialize::operation_to_string(&normalized));
}

#[test]
fn keeps_typename_if_no_other_selection() {
    let src = r#"
query TestQuery {
  foo {
    __typename
  }
}

type Query {
  foo: Foo
}

type Foo {
  v1: ID!
  v2: String
}
"#;
    let (schema, frags, ops) = parse_schema_and_operation(src);
    let op = get_named(&ops, "TestQuery");
    let normalized = router_core::normalize::normalize_operation(op, &frags, &schema, &Vec::new()).unwrap();
    let expected = r#"query TestQuery {
  foo {
    __typename
  }
}"#;
    assert_eq!(expected, router_core::serialize::operation_to_string(&normalized));
}

#[test]
fn keeps_typename_for_interface_object() {
    let src = r#"
query TestQuery {
  foo {
    __typename
    v1
    v2
  }
}

directive @interfaceObject on OBJECT
directive @key(fields: FieldSet!, resolvable: Boolean = true) repeatable on OBJECT | INTERFACE

type Query {
  foo: Foo
}

type Foo @interfaceObject @key(fields: "id") {
  v1: ID!
  v2: String
}

scalar FieldSet
"#;
    let (schema, frags, ops) = parse_schema_and_operation(src);
    let op = get_named(&ops, "TestQuery");
    let interface_objects = vec!["Foo".to_string()];
    let normalized = router_core::normalize::normalize_operation(op, &frags, &schema, &interface_objects).unwrap();
    let expected = r#"query TestQuery {
  foo {
    __typename
    v1
    v2
  }
}"#;
    assert_eq!(expected, router_core::serialize::operation_to_string(&normalized));
}

#[test]
fn merge_commutes_on_siblings() {
    let a = r#"
query Test {
  a
  b
}

type Query {
  a: Int
  b: Int
}
"#;
    let b = r#"
query Test {
  b
  a
}

type Query {
  a: Int
  b: Int
}
"#;
    let (schema_a, frags_a, ops_a) = parse_schema_and_operation(a);
    let (schema_b, frags_b, ops_b) = parse_schema_and_operation(b);
    let na = router_core::normalize::normalize_operation(get_named(&ops_a, "Test"), &frags_a, &schema_a, &Vec::new()).unwrap();
    let nb = router_core::normalize::normalize_operation(get_named(&ops_b, "Test"), &frags_b, &schema_b, &Vec::new()).unwrap();
    assert_eq!("query Test {\n  a\n  b\n}", router_core::serialize::operation_to_string(&na));
    assert_eq!("query Test {\n  b\n  a\n}", router_core::serialize::operation_to_string(&nb));
    let c = router_core::containment::containment(
        &na.selection_set,
        &nb.selection_set,
        router_core::containment::ContainmentOptions { ignore_missing_typename: false },
    );
    assert_eq!(c, router_core::containment::Containment::Equal);
}

#[test]
fn normalize_twice_is_identity() {
    let src = r#"
query Test {
  t {
    v1
  }
  t {
    v2
  }
}

type Query {
  t: T
}

type T {
  v1: Int
  v2: String
}
"#;
    let (schema, frags, ops) = parse_schema_and_operation(src);
    let once = router_core::normalize::normalize_operation(get_named(&ops, "Test"), &frags, &schema, &Vec::new()).unwrap();
    assert_eq!("query Test {\n  t {\n    v1\n    v2\n  }\n}", router_core::serialize::operation_to_string(&once));
    let twice = router_core::normalize::normalize_operation(&once, &Vec::new(), &schema, &Vec::new()).unwrap();
    assert_eq!(
        router_core::serialize::operation_to_string(&once),
        router_core::serialize::operation_to_string(&twice)
    );
    let opts = router_core::containment::ContainmentOptions { ignore_missing_typename: false };
    assert_eq!(
        router_core::containment::containment(&once.selection_set, &twice.selection_set, opts),
        router_core::containment::Containment::Equal
    );
    assert_eq!(
        router_core::containment::containment(&twice.selection_set, &once.selection_set, opts),
        router_core::containment::Containment::Equal
    );
}

#[test]
fn normalize_twice_is_identity_on_nested_fragments() {
    let src = r#"
query Test {
  t {
    ...F
  }
  t {
    v {
      v2
    }
  }
}

fragment F on T {
  t1
  v {
    v1
  }
}

type Query {
  t: T
}

type T {
  t1: Int
  v: V
}

type V {
  v1: Int
  v2: Int
}
"#;
    let (schema, frags, ops) = parse_schema_and_operation(src);
    let once = router_core::normalize::normalize_operation(get_named(&ops, "Test"), &frags, &schema, &Vec::new()).unwrap();
    let twice = router_core::normalize::normalize_operation(&once, &once.named_fragments, &schema, &Vec::new()).unwrap();
    assert_eq!(
        router_core::serialize::operation_to_string(&once),
        router_core::serialize::operation_to_string(&twice)
    );
    let opts = router_core::containment::ContainmentOptions { ignore_missing_typename: false };
    assert_eq!(
        router_core::containment::containment(&once.selection_set, &twice.selection_set, opts),
        router_core::containment::Containment::Equal
    );
}

#[test]
fn normalize_rejects_undefined_fragment() {
    let mut op = router_core::ast::Operation {
        kind: router_core::ast::OperationKind::Query,
        name: None,
        variables: Vec::new(),
        selection_set: Vec::new(),
        named_fragments: Vec::new(),
    };
    op.selection_set.push(router_core::ast::Selection::FragmentSpread(router_core::ast::FragmentSpread {
        name: "Missing".to_string(),
        directives: Vec::new(),
        selection_set: Vec::new(),
    }));
    let schema = router_core::schema::Schema { query_type: "Query".to_string(), types: Vec::new() };
    let r = router_core::normalize::normalize_operation(&op, &Vec::new(), &schema, &Vec::new());
    assert!(matches!(r, Err(router_core::normalize::NormalizeError::UndefinedFragment(_))));
}

#[test]
fn normalize_rejects_unknown_field() {
    let mut op = router_core::ast::Operation {
        kind: router_core::ast::OperationKind::Query,
        name: None,
        variables: Vec::new(),
        selection_set: Vec::new(),
        named_fragments: Vec::new(),
    };
    op.selection_set.push(router_core::ast::Selection::Field(router_core::ast::Field {
        alias: None,
        name: "missing".to_string(),
        arguments: Vec::new(),
        directives: Vec::new(),
        selection_set: Vec::new(),
    }));
    let schema = router_core::schema::Schema {
        query_type: "Query".to_string(),
        types: vec![router_core::schema::TypeDef {
            name: "Query".to_string(),
            is_interface: false,
            implements: Vec::new(),
            fields: Vec::new(),
        }],
    };
    let r = router_core::normalize::normalize_operation(&op, &Vec::new(), &schema, &Vec::new());
    assert!(matches!(r, Err(router_core::normalize::NormalizeError::UnknownField(_, _))));
}
