use apollo_compiler::executable as ex;
use apollo_compiler::ast::Value as AstValue;
use apollo_compiler::schema::ExtendedType;
use apollo_compiler::ExecutableDocument;
use router_core::ast::{ArgVal, Argument, Directive, Selection, Field, InlineFragment, FragmentSpread, Operation, OperationKind, VariableDef, FragmentDef};
use router_core::schema::{Schema, TypeDef, FieldDef};

fn conv_value(v: &apollo_compiler::ast::Value) -> ArgVal {
    match v {
        AstValue::Null => ArgVal::Null,
        AstValue::Enum(n) => ArgVal::Enum(n.as_str().to_string()),
        AstValue::Variable(n) => ArgVal::Var(n.as_str().to_string()),
        AstValue::String(s) => ArgVal::Str(s.clone()),
        AstValue::Float(f) => ArgVal::Str(f.to_string()),
        AstValue::Int(i) => ArgVal::Int(i.as_str().parse().unwrap()),
        AstValue::Boolean(b) => ArgVal::Bool(*b),
        AstValue::List(items) => ArgVal::List(items.iter().map(|x| conv_value(x)).collect()),
        AstValue::Object(fields) => ArgVal::Object(
            fields.iter().map(|(n, x)| Argument { name: n.as_str().to_string(), value: conv_value(x) }).collect(),
        ),
    }
}

fn conv_arguments(args: &[apollo_compiler::Node<apollo_compiler::ast::Argument>]) -> Vec<Argument> {
    args.iter().map(|a| Argument { name: a.name.as_str().to_string(), value: conv_value(&a.value) }).collect()
}

fn conv_directives(dirs: &apollo_compiler::ast::DirectiveList) -> Vec<Directive> {
    dirs.iter().map(|d| Directive { name: d.name.as_str().to_string(), arguments: conv_arguments(&d.arguments) }).collect()
}

fn conv_sel(s: &ex::Selection, doc: &ExecutableDocument) -> Selection {
    match s {
        ex::Selection::Field(f) => Selection::Field(Field {
            alias: f.alias.as_ref().map(|a| a.as_str().to_string()),
            name: f.name.as_str().to_string(),
            arguments: conv_arguments(&f.arguments),
            directives: conv_directives(&f.directives),
            selection_set: conv_sels(&f.selection_set, doc),
        }),
        ex::Selection::InlineFragment(f) => Selection::InlineFragment(InlineFragment {
            type_condition: f.type_condition.as_ref().map(|c| c.as_str().to_string()),
            directives: conv_directives(&f.directives),
            selection_set: conv_sels(&f.selection_set, doc),
        }),
        ex::Selection::FragmentSpread(f) => Selection::FragmentSpread(FragmentSpread {
            name: f.fragment_name.as_str().to_string(),
            directives: conv_directives(&f.directives),
            selection_set: doc
                .fragments
                .get(&f.fragment_name)
                .map(|fr| conv_sels(&fr.selection_set, doc))
                .unwrap_or_default(),
        }),
    }
}

fn conv_sels(ss: &ex::SelectionSet, doc: &ExecutableDocument) -> Vec<Selection> {
    ss.selections.iter().map(|s| conv_sel(s, doc)).collect()
}

fn conv_operation(op: &ex::Operation, doc: &ExecutableDocument) -> Operation {
    Operation {
        kind: match op.operation_type {
            apollo_compiler::ast::OperationType::Query => OperationKind::Query,
            apollo_compiler::ast::OperationType::Mutation => OperationKind::Mutation,
            apollo_compiler::ast::OperationType::Subscription => OperationKind::Subscription,
        },
        name: op.name.as_ref().map(|n| n.as_str().to_string()),
        variables: op
            .variables
            .iter()
            .map(|v| VariableDef { name: v.name.as_str().to_string(), var_type: v.ty.to_string() })
            .collect(),
        selection_set: conv_sels(&op.selection_set, doc),
        named_fragments: Vec::new(),
    }
}

fn conv_fragment_defs(doc: &ExecutableDocument) -> Vec<FragmentDef> {
    doc.fragments
        .iter()
        .map(|(n, fr)| FragmentDef {
            name: n.as_str().to_string(),
            type_condition: fr.type_condition().as_str().to_string(),
            selection_set: conv_sels(&fr.selection_set, doc),
        })
        .collect()
}

fn conv_schema(s: &apollo_compiler::Schema) -> Schema {
    let query_type = s
        .schema_definition
        .query
        .as_ref()
        .map(|q| q.name.as_str().to_string())
        .unwrap_or_else(|| "Query".to_string());
    let mut types = Vec::new();
    for (name, t) in s.types.iter() {
        match t {
            ExtendedType::Object(o) => types.push(TypeDef {
                name: name.as_str().to_string(),
                is_interface: false,
                implements: o.implements_interfaces.iter().map(|i| i.name.as_str().to_string()).collect(),
                fields: o
                    .fields
                    .iter()
                    .map(|(fname, fd)| FieldDef {
                        name: fname.as_str().to_string(),
                        ty_name: fd.ty.inner_named_type().as_str().to_string(),
                    })
                    .collect(),
            }),
            ExtendedType::Interface(iface) => types.push(TypeDef {
                name: name.as_str().to_string(),
                is_interface: true,
                implements: iface.implements_interfaces.iter().map(|i| i.name.as_str().to_string()).collect(),
                fields: iface
                    .fields
                    .iter()
                    .map(|(fname, fd)| FieldDef {
                        name: fname.as_str().to_string(),
                        ty_name: fd.ty.inner_named_type().as_str().to_string(),
                    })
                    .collect(),
            }),
            _ => {},
        }
    }
    // interface implementors: record reverse relation too, the model reads
    // `implements` from both sides through types_intersect
    Schema { query_type, types }
}

fn interface_objects_of(s: &apollo_compiler::Schema) -> Vec<String> {
    let mut out = Vec::new();
    for (name, t) in s.types.iter() {
        if let ExtendedType::Object(o) = t {
            if o.directives.iter().any(|d| d.name.as_str() == "interfaceObject") {
                out.push(name.as_str().to_string());
            }
        }
    }
    out
}

fn parse_schema_and_operation(src: &str) -> (Schema, Vec<FragmentDef>, Vec<(Option<String>, Operation)>) {
    let (schema, doc) = apollo_compiler::parser::Parser::new()
        .parse_mixed_validate(src, "document.graphql")
        .unwrap();
    let doc = doc.into_inner();
    let rs = conv_schema(&schema);
    let frags = conv_fragment_defs(&doc);
    let mut ops = Vec::new();
    if let Some(anon) = &doc.operations.anonymous {
        ops.push((None, conv_operation(anon, &doc)));
    }
    for (n, op) in doc.operations.named.iter() {
        ops.push((Some(n.as_str().to_string()), conv_operation(op, &doc)));
    }
    (rs, frags, ops)
}

fn get_named<'a>(ops: &'a [(Option<String>, Operation)], name: &str) -> &'a Operation {
    ops.iter().find(|(n, _)| n.as_deref() == Some(name)).map(|(_, o)| o).unwrap()
}

fn parse_subgraph(schema_src: &str) -> (Schema, Vec<String>) {
    let parsed = apollo_compiler::Schema::parse(schema_src, "subgraph.graphql").unwrap();
    (conv_schema(&parsed), interface_objects_of(&parsed))
}

fn normalize_fragments(src: &str, name: &str, interface_objects: &[String]) -> router_core::ast::Operation {
    let (schema, frags, ops) = parse_schema_and_operation(src);
    let op = get_named(&ops, name);
    router_core::normalize::normalize_operation(op, &frags, &schema, &interface_objects.to_vec()).unwrap()
}

#[test]
fn skips_unknown_fragment_fields() {
    let src = r#"
query TestQuery {
  t {
    ...FragOnT
  }
}

fragment FragOnT on T {
  v0
  v1
  v2
  u1 {
    v3
    v4
    v5
  }
  u2 {
    v4
    v5
  }
}

type Query {
  t: T
}

type T {
  v0: Int
  v1: Int
  v2: Int
  u1: U
  u2: U
}

type U {
  v3: Int
  v4: Int
  v5: Int
}
"#;
    let normalized = normalize_fragments(src, "TestQuery", &[]);
    assert!(!normalized.named_fragments.is_empty());
    let subgraph_schema = r#"type Query {
  _: Int
}

type T {
  v1: Int
  u1: U
}

type U {
  v3: Int
  v5: Int
}"#;
    let (subgraph, sub_ifos) = parse_subgraph(subgraph_schema);
    let rebased = router_core::rebase::rebase_on(&normalized.named_fragments, &subgraph, &sub_ifos);
    assert!(!rebased.is_empty());
    let name = "FragOnT".to_string();
    let fragment = router_core::rebase::find_fragment(&rebased, &name).unwrap();
    let expected = r#"fragment FragOnT on T {
  v1
  u1 {
    v3
    v5
  }
}"#;
    assert_eq!(expected, router_core::serialize::fragment_to_string(fragment));
}

#[test]
fn skips_unknown_fragment_on_condition() {
    let src = r#"
query TestQuery {
  t {
    ...FragOnT
  }
  u {
    ...FragOnU
  }
}

fragment FragOnT on T {
  x
  y
}

fragment FragOnU on U {
  x
  y
}

type Query {
  t: T
  u: U
}

type T {
  x: Int
  y: Int
}

type U {
  x: Int
  y: Int
}
"#;
    let normalized = normalize_fragments(src, "TestQuery", &[]);
    assert!(!normalized.named_fragments.is_empty());
    assert_eq!(2, normalized.named_fragments.len());
    let subgraph_schema = r#"type Query {
  t: T
}

type T {
  x: Int
  y: Int
}"#;
    let (subgraph, sub_ifos) = parse_subgraph(subgraph_schema);
    let rebased = router_core::rebase::rebase_on(&normalized.named_fragments, &subgraph, &sub_ifos);
    assert!(!rebased.is_empty());
    assert!(router_core::rebase::find_fragment(&rebased, &"FragOnT".to_string()).is_some());
    assert!(router_core::rebase::find_fragment(&rebased, &"FragOnU".to_string()).is_none());
    let fragment = router_core::rebase::find_fragment(&rebased, &"FragOnT".to_string()).unwrap();
    let expected = r#"fragment FragOnT on T {
  x
  y
}"#;
    assert_eq!(router_core::serialize::fragment_to_string(fragment), expected);
}

#[test]
fn skips_unknown_type_within_fragment() {
    let src = r#"
query TestQuery {
  i {
    ...FragOnI
  }
}

fragment FragOnI on I {
  id
  otherId
  ... on T1 {
    x
  }
  ... on T2 {
    y
  }
}

type Query {
  i: I
}

interface I {
  id: ID!
  otherId: ID!
}

type T1 implements I {
  id: ID!
  otherId: ID!
  x: Int
}

type T2 implements I {
  id: ID!
  otherId: ID!
  y: Int
}
"#;
    let normalized = normalize_fragments(src, "TestQuery", &[]);
    assert!(!normalized.named_fragments.is_empty());
    let subgraph_schema = r#"type Query {
  i: I
}

interface I {
  id: ID!
}

type T2 implements I {
  id: ID!
  y: Int
}
"#;
    let (subgraph, sub_ifos) = parse_subgraph(subgraph_schema);
    let rebased = router_core::rebase::rebase_on(&normalized.named_fragments, &subgraph, &sub_ifos);
    assert!(!rebased.is_empty());
    let fragment = router_core::rebase::find_fragment(&rebased, &"FragOnI".to_string()).unwrap();
    let expected = r#"fragment FragOnI on I {
  id
  ... on T2 {
    y
  }
}"#;
    assert_eq!(router_core::serialize::fragment_to_string(fragment), expected);
}

#[test]
fn skips_typename_on_possible_interface_objects_within_fragment() {
    let src = r#"
query TestQuery {
  i {
    ...FragOnI
  }
}

fragment FragOnI on I {
  __typename
  id
  x
}

type Query {
  i: I
}

interface I {
  id: ID!
  x: String!
}

type T implements I {
  id: ID!
  x: String!
}
"#;
    let normalized = normalize_fragments(src, "TestQuery", &["I".to_string()]);
    assert!(!normalized.named_fragments.is_empty());
    let subgraph_schema = r#"directive @key(fields: FieldSet!, resolvable: Boolean = true) repeatable on OBJECT | INTERFACE

directive @interfaceObject on OBJECT

type Query {
  i: I
}

type I @interfaceObject @key(fields: "id") {
  id: ID!
  x: String!
}

scalar FieldSet
"#;
    let (subgraph, sub_ifos) = parse_subgraph(subgraph_schema);
    assert_eq!(sub_ifos, vec!["I".to_string()]);
    let rebased = router_core::rebase::rebase_on(&normalized.named_fragments, &subgraph, &sub_ifos);
    assert!(!rebased.is_empty());
    let fragment = router_core::rebase::find_fragment(&rebased, &"FragOnI".to_string()).unwrap();
    let expected = r#"fragment FragOnI on I {
  __typename
  id
  x
}"#;
    assert_eq!(router_core::serialize::fragment_to_string(fragment), expected);
}

#[test]
fn skips_fragments_with_trivial_selections() {
    let src = r#"
query TestQuery {
  t {
    ...F1
    ...F2
    ...F3
  }
}

fragment F1 on T {
  a
  b
}

fragment F2 on T {
  __typename
  a
  b
}

fragment F3 on T {
  __typename
  a
  b
  c
  d
}

type Query {
  t: T
}

type T {
  a: Int
  b: Int
  c: Int
  d: Int
}
"#;
    let normalized = normalize_fragments(src, "TestQuery", &[]);
    assert!(!normalized.named_fragments.is_empty());
    let subgraph_schema = r#"type Query {
  t: T
}

type T {
  c: Int
  d: Int
}
"#;
    let (subgraph, sub_ifos) = parse_subgraph(subgraph_schema);
    let rebased = router_core::rebase::rebase_on(&normalized.named_fragments, &subgraph, &sub_ifos);
    assert_eq!(1, rebased.len());
    let fragment = router_core::rebase::find_fragment(&rebased, &"F3".to_string()).unwrap();
    let expected = r#"fragment F3 on T {
  c
  d
}"#;
    assert_eq!(router_core::serialize::fragment_to_string(fragment), expected);
}

#[test]
fn handles_skipped_fragments_within_fragments() {
    let src = r#"
query TestQuery {
  ...TheQuery
}

fragment TheQuery on Query {
  t {
    x
    ... GetU
  }
}

fragment GetU on T {
  u {
    y
    z
  }
}

type Query {
  t: T
}

type T {
  x: Int
  u: U
}

type U {
  y: Int
  z: Int
}
"#;
    let normalized = normalize_fragments(src, "TestQuery", &[]);
    assert!(!normalized.named_fragments.is_empty());
    let subgraph_schema = r#"type Query {
  t: T
}

type T {
  x: Int
}"#;
    let (subgraph, sub_ifos) = parse_subgraph(subgraph_schema);
    let rebased = router_core::rebase::rebase_on(&normalized.named_fragments, &subgraph, &sub_ifos);
    assert_eq!(1, rebased.len());
    let fragment = router_core::rebase::find_fragment(&rebased, &"TheQuery".to_string()).unwrap();
    let expected = r#"fragment TheQuery on Query {
  t {
    x
  }
}"#;
    assert_eq!(router_core::serialize::fragment_to_string(fragment), expected);
}

#[test]
fn handles_subtypes_within_subgraphs() {
    let src = r#"
query TestQuery {
  ...TQuery
}

fragment TQuery on Query {
  t {
    x
    y
    ... on T {
      z
    }
  }
}

type Query {
  t: I
}

interface I {
  x: Int
  y: Int
}

type T implements I {
  x: Int
  y: Int
  z: Int
}
"#;
    let normalized = normalize_fragments(src, "TestQuery", &[]);
    assert!(!normalized.named_fragments.is_empty());
    let subgraph_schema = r#"type Query {
  t: T
}

type T {
  x: Int
  y: Int
  z: Int
}
"#;
    let (subgraph, sub_ifos) = parse_subgraph(subgraph_schema);
    let rebased = router_core::rebase::rebase_on(&normalized.named_fragments, &subgraph, &sub_ifos);
    assert_eq!(1, rebased.len());
    let fragment = router_core::rebase::find_fragment(&rebased, &"TQuery".to_string()).unwrap();
    let expected = r#"fragment TQuery on Query {
  t {
    x
    y
    z
  }
}"#;
    assert_eq!(router_core::serialize::fragment_to_string(fragment), expected);
}

#[test]
fn rebase_excludes_fragment_with_no_known_field() {
    let frag = router_core::ast::FragmentDef {
        name: "F".to_string(),
        type_condition: "T".to_string(),
        selection_set: vec![router_core::ast::Selection::Field(router_core::ast::Field {
            alias: None,
            name: "gone".to_string(),
            arguments: Vec::new(),
            directives: Vec::new(),
            selection_set: Vec::new(),
        })],
    };
    let schema = router_core::schema::Schema {
        query_type: "Query".to_string(),
        types: vec![router_core::schema::TypeDef {
            name: "T".to_string(),
            is_interface: false,
            implements: Vec::new(),
            fields: vec![router_core::schema::FieldDef { name: "kept".to_string(), ty_name: "Int".to_string() }],
        }],
    };
    let rebased = router_core::rebase::rebase_on(&vec![frag], &schema, &Vec::new());
    assert!(rebased.is_empty());
}
