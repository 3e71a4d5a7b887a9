use apollo_compiler::executable as ex;
use apollo_compiler::ast::Value as AstValue;
use apollo_compiler::schema::ExtendedType;
use apollo_compiler::ExecutableDocument;
use router_core::ast::{ArgVal, Argument, Directive, Selection, Field, InlineFragment, FragmentSpread, Operation, OperationKind, VariableDef, FragmentDef};
use router_core::schema::{Schema, TypeDef, FieldDef};

fn conv_value(v: &apollo_compiler::ast::Value) -> ArgVal {
    match v {
        AstValue::Null => ArgVal::Null,
        AstValue::Enum(n) => ArgVal::Enum(n.as_str().to_string()),
        AstValue::Variable(n) => ArgVal::Var(n.as_str().to_string()),
        AstValue::String(s) => ArgVal::Str(s.clone()),
        AstValue::Float(f) => ArgVal::Str(f.to_string()),
        AstValue::Int(i) => ArgVal::Int(i.as_str().parse().unwrap()),
        AstValue::Boolean(b) => ArgVal::Bool(*b),
        AstValue::List(items) => ArgVal::List(items.iter().map(|x| conv_value(x)).collect()),
        AstValue::Object(fields) => ArgVal::Object(
            fields.iter().map(|(n, x)| Argument { name: n.as_str().to_string(), value: conv_value(x) }).collect(),
        ),
    }
}

fn conv_arguments(args: &[apollo_compiler::Node<apollo_compiler::ast::Argument>]) -> Vec<Argument> {
    args.iter().map(|a| Argument { name: a.name.as_str().to_string(), value: conv_value(&a.value) }).collect()
}

fn conv_directives(dirs: &apollo_compiler::ast::DirectiveList) -> Vec<Directive> {
    dirs.iter().map(|d| Directive { name: d.name.as_str().to_string(), arguments: conv_arguments(&d.arguments) }).collect()
}

fn conv_sel(s: &ex::Selection, doc: &ExecutableDocument) -> Selection {
    match s {
        ex::Selection::Field(f) => Selection::Field(Field {
            alias: f.alias.as_ref().map(|a| a.as_str().to_string()),
            name: f.name.as_str().to_string(),
            arguments: conv_arguments(&f.arguments),
            directives: conv_directives(&f.directives),
            selection_set: conv_sels(&f.selection_set, doc),
        }),
        ex::Selection::InlineFragment(f) => Selection::InlineFragment(InlineFragment {
            type_condition: f.type_condition.as_ref().map(|c| c.as_str().to_string()),
            directives: conv_directives(&f.directives),
            selection_set: conv_sels(&f.selection_set, doc),
        }),
        ex::Selection::FragmentSpread(f) => Selection::FragmentSpread(FragmentSpread {
            name: f.fragment_name.as_str().to_string(),
            directives: conv_directives(&f.directives),
            selection_set: doc
                .fragments
                .get(&f.fragment_name)
                .map(|fr| conv_sels(&fr.selection_set, doc))
                .unwrap_or_default(),
        }),
    }
}

fn conv_sels(ss: &ex::SelectionSet, doc: &ExecutableDocument) -> Vec<Selection> {
    ss.selections.iter().map(|s| conv_sel(s, doc)).collect()
}

fn conv_operation(op: &ex::Operation, doc: &ExecutableDocument) -> Operation {
    Operation {
        kind: match op.operation_type {
            apollo_compiler::ast::OperationType::Query => OperationKind::Query,
            apollo_compiler::ast::OperationType::Mutation => OperationKind::Mutation,
            apollo_compiler::ast::OperationType::Subscription => OperationKind::Subscription,
        },
        name: op.name.as_ref().map(|n| n.as_str().to_string()),
        variables: op
            .variables
            .iter()
            .map(|v| VariableDef { name: v.name.as_str().to_string(), var_type: v.ty.to_string() })
            .collect(),
        selection_set: conv_sels(&op.selection_set, doc),
        named_fragments: Vec::new(),
    }
}

fn conv_fragment_defs(doc: &ExecutableDocument) -> Vec<FragmentDef> {
    doc.fragments
        .iter()
        .map(|(n, fr)| FragmentDef {
            name: n.as_str().to_string(),
            type_condition: fr.type_condition().as_str().to_string(),
            selection_set: conv_sels(&fr.selection_set, doc),
        })
        .collect()
}

fn conv_schema(s: &apollo_compiler::Schema) -> Schema {
    let query_type = s
        .schema_definition
        .query
        .as_ref()
        .map(|q| q.name.as_str().to_string())
        .unwrap_or_else(|| "Query".to_string());
    let mut types = Vec::new();
    for (name, t) in s.types.iter() {
        match t {
            ExtendedType::Object(o) => types.push(TypeDef {
                name: name.as_str().to_string(),
                is_interface: false,
                implements: o.implements_interfaces.iter().map(|i| i.name.as_str().to_string()).collect(),
                fields: o
                    .fields
                    .iter()
                    .map(|(fname, fd)| FieldDef {
                        name: fname.as_str().to_string(),
                        ty_name: fd.ty.inner_named_type().as_str().to_string(),
                    })
                    .collect(),
            }),
            ExtendedType::Interface(iface) => types.push(TypeDef {
                name: name.as_str().to_string(),
                is_interface: true,
                implements: iface.implements_interfaces.iter().map(|i| i.name.as_str().to_string()).collect(),
                fields: iface
                    .fields
                    .iter()
                    .map(|(fname, fd)| FieldDef {
                        name: fname.as_str().to_string(),
                        ty_name: fd.ty.inner_named_type().as_str().to_string(),
                    })
                    .collect(),
            }),
            _ => {},
        }
    }
    // interface implementors: record reverse relation too, the model reads
    // `implements` from both sides through types_intersect
    Schema { query_type, types }
}

fn interface_objects_of(s: &apollo_compiler::Schema) -> Vec<String> {
    let mut out = Vec::new();
    for (name, t) in s.types.iter() {
        if let ExtendedType::Object(o) = t {
            if o.directives.iter().any(|d| d.name.as_str() == "interfaceObject") {
                out.push(name.as_str().to_string());
            }
        }
    }
    out
}

fn parse_schema_and_operation(src: &str) -> (Schema, Vec<FragmentDef>, Vec<(Option<String>, Operation)>) {
    let (schema, doc) = apollo_compiler::parser::Parser::new()
        .parse_mixed_validate(src, "document.graphql")
        .unwrap();
    let doc = doc.into_inner();
    let rs = conv_schema(&schema);
    let frags = conv_fragment_defs(&doc);
    let mut ops = Vec::new();
    if let Some(anon) = &doc.operations.anonymous {
        ops.push((None, conv_operation(anon, &doc)));
    }
    for (n, op) in doc.operations.named.iter() {
        ops.push((Some(n.as_str().to_string()), conv_operation(op, &doc)));
    }
    (rs, frags, ops)
}

fn get_named<'a>(ops: &'a [(Option<String>, Operation)], name: &str) -> &'a Operation {
    ops.iter().find(|(n, _)| n.as_deref() == Some(name)).map(|(_, o)| o).unwrap()
}

#[test]
fn merge_same_fields_without_directives() {
    let src = r#"
query Test {
  t {
    v1
  }
  t {
    v2
 }
}

type Query {
  t: T
}

type T {
  v1: Int
  v2: String
}
"#;
    let (schema, frags, ops) = parse_schema_and_operation(src);
    if let Some((_, op)) = ops.first() {
        let normalized = router_core::normalize::normalize_operation(op, &frags, &schema, &Vec::new()).unwrap();
        let expected = r#"query Test {
  t {
    v1
    v2
  }
}"#;
        assert_eq!(expected, router_core::serialize::operation_to_string(&normalized));
    } else {
        panic!("unable to parse document")
    }
}

#[test]
fn merge_same_fields_with_same_directive() {
    let src = r#"
query Test($skipIf: Boolean!) {
  t @skip(if: $skipIf) {
    v1
  }
  t @skip(if: $skipIf) {
    v2
  }
}

type Query {
  t: T
}

type T {
  v1: Int
  v2: String
}
"#;
    let (schema, frags, ops) = parse_schema_and_operation(src);
    if let Some((_, op)) = ops.first() {
        let normalized = router_core::normalize::normalize_operation(op, &frags, &schema, &Vec::new()).unwrap();
        let expected = r#"query Test($skipIf: Boolean!) {
  t @skip(if: $skipIf) {
    v1
    v2
  }
}"#;
        assert_eq!(expected, router_core::serialize::operation_to_string(&normalized));
    } else {
        panic!("unable to parse document")
    }
}

#[test]
fn merge_same_fields_with_same_directive_but_different_arg_order() {
    let src = r#"
query Test($skipIf: Boolean!) {
  t @customSkip(if: $skipIf, label: "foo") {
    v1
  }
  t @customSkip(label: "foo", if: $skipIf) {
    v2
  }
}
directive @customSkip(if: Boolean!, label: String!) on FIELD | INLINE_FRAGMENT

type Query {
  t: T
}

type T {
  v1: Int
  v2: String
}
"#;
    let (schema, frags, ops) = parse_schema_and_operation(src);
    if let Some((_, op)) = ops.first() {
        let normalized = router_core::normalize::normalize_operation(op, &frags, &schema, &Vec::new()).unwrap();
        let expected = r#"query Test($skipIf: Boolean!) {
  t @customSkip(if: $skipIf, label: "foo") {
    v1
    v2
  }
}"#;
        assert_eq!(expected, router_core::serialize::operation_to_string(&normalized));
    } else {
        panic!("unable to parse document")
    }
}

#[test]
fn do_not_merge_when_only_one_field_specifies_directive() {
    let src = r#"
query Test($skipIf: Boolean!) {
  t {
    v1
  }
  t @skip(if: $skipIf) {
    v2
  }
}

type Query {
  t: T
}

type T {
  v1: Int
  v2: String
}
"#;
    let (schema, frags, ops) = parse_schema_and_operation(src);
    if let Some((_, op)) = ops.first() {
        let normalized = router_core::normalize::normalize_operation(op, &frags, &schema, &Vec::new()).unwrap();
        let expected = r#"query Test($skipIf: Boolean!) {
  t {
    v1
  }
  t @skip(if: $skipIf) {
    v2
  }
}"#;
        assert_eq!(expected, router_core::serialize::operation_to_string(&normalized));
    } else {
        panic!("unable to parse document")
    }
}

#[test]
fn do_not_merge_when_fields_have_different_directives() {
    let src = r#"
query Test($skip1: Boolean!, $skip2: Boolean!) {
  t @skip(if: $skip1) {
    v1
  }
  t @skip(if: $skip2) {
    v2
  }
}

type Query {
  t: T
}

type T {
  v1: Int
  v2: String
}
"#;
    let (schema, frags, ops) = parse_schema_and_operation(src);
    if let Some((_, op)) = ops.first() {
        let normalized = router_core::normalize::normalize_operation(op, &frags, &schema, &Vec::new()).unwrap();
        let expected = r#"query Test($skip1: Boolean!, $skip2: Boolean!) {
  t @skip(if: $skip1) {
    v1
  }
  t @skip(if: $skip2) {
    v2
  }
}"#;
        assert_eq!(expected, router_core::serialize::operation_to_string(&normalized));
    } else {
        panic!("unable to parse document")
    }
}

#[test]
fn do_not_merge_fields_with_defer_directive() {
    let src = r#"
query Test {
  t {
    ... @defer {
      v1
    }
  }
  t {
    ... @defer {
      v2
    }
  }
}
directive @defer(label: String, if: Boolean! = true) on FRAGMENT_SPREAD | INLINE_FRAGMENT

type Query {
  t: T
}

type T {
  v1: Int
  v2: String
}
"#;
    let (schema, frags, ops) = parse_schema_and_operation(src);
    if let Some((_, op)) = ops.first() {
        let normalized = router_core::normalize::normalize_operation(op, &frags, &schema, &Vec::new()).unwrap();
        let expected = r#"query Test {
  t {
    ... @defer {
      v1
    }
    ... @defer {
      v2
    }
  }
}"#;
        assert_eq!(expected, router_core::serialize::operation_to_string(&normalized));
    } else {
        panic!("unable to parse document")
    }
}

#[test]
fn merge_same_fragment_without_directives() {
    let src = r#"
query Test {
  t {
    ... on T {
      v1
    }
    ... on T {
      v2
    }
  }
}

type Query {
  t: T
}

type T {
  v1: Int
  v2: String
}
"#;
    let (schema, frags, ops) = parse_schema_and_operation(src);
    if let Some((_, op)) = ops.first() {
        let normalized = router_core::normalize::normalize_operation(op, &frags, &schema, &Vec::new()).unwrap();
        let expected = r#"query Test {
  t {
    v1
    v2
  }
}"#;
        assert_eq!(expected, router_core::serialize::operation_to_string(&normalized));
    } else {
        panic!("unable to parse document")
    }
}

#[test]
fn merge_same_fragments_with_same_directives() {
    let src = r#"
query Test($skipIf: Boolean!) {
  t {
    ... on T @skip(if: $skipIf) {
      v1
    }
    ... on T @skip(if: $skipIf) {
      v2
    }
  }
}

type Query {
  t: T
}

type T {
  v1: Int
  v2: String
}
"#;
    let (schema, frags, ops) = parse_schema_and_operation(src);
    if let Some((_, op)) = ops.first() {
        let normalized = router_core::normalize::normalize_operation(op, &frags, &schema, &Vec::new()).unwrap();
        let expected = r#"query Test($skipIf: Boolean!) {
  t {
    ... on T @skip(if: $skipIf) {
      v1
      v2
    }
  }
}"#;
        assert_eq!(expected, router_core::serialize::operation_to_string(&normalized));
    } else {
        panic!("unable to parse document")
    }
}

#[test]
fn merge_same_fragments_with_same_directive_but_different_arg_order() {
    let src = r#"
query Test($skipIf: Boolean!) {
  t {
    ... on T @customSkip(if: $skipIf, label: "foo") {
      v1
    }
    ... on T @customSkip(label: "foo", if: $skipIf) {
      v2
    }
  }
}
directive @customSkip(if: Boolean!, label: String!) on FIELD | INLINE_FRAGMENT

type Query {
  t: T
}

type T {
  v1: Int
  v2: String
}
"#;
    let (schema, frags, ops) = parse_schema_and_operation(src);
    if let Some((_, op)) = ops.first() {
        let normalized = router_core::normalize::normalize_operation(op, &frags, &schema, &Vec::new()).unwrap();
        let expected = r#"query Test($skipIf: Boolean!) {
  t {
    ... on T @customSkip(if: $skipIf, label: "foo") {
      v1
      v2
    }
  }
}"#;
        assert_eq!(expected, router_core::serialize::operation_to_string(&normalized));
    } else {
        panic!("unable to parse document")
    }
}

#[test]
fn do_not_merge_when_only_one_fragment_specifies_directive() {
    let src = r#"
query Test($skipIf: Boolean!) {
  t {
    ... on T {
      v1
    }
    ... on T @skip(if: $skipIf) {
      v2
    }
  }
}

type Query {
  t: T
}

type T {
  v1: Int
  v2: String
}
"#;
    let (schema, frags, ops) = parse_schema_and_operation(src);
    if let Some((_, op)) = ops.first() {
        let normalized = router_core::normalize::normalize_operation(op, &frags, &schema, &Vec::new()).unwrap();
        let expected = r#"query Test($skipIf: Boolean!) {
  t {
    v1
    ... on T @skip(if: $skipIf) {
      v2
    }
  }
}"#;
        assert_eq!(expected, router_core::serialize::operation_to_string(&normalized));
    } else {
        panic!("unable to parse document")
    }
}

#[test]
fn do_not_merge_when_fragments_have_different_directives() {
    let src = r#"
query Test($skip1: Boolean!, $skip2: Boolean!) {
  t {
    ... on T @skip(if: $skip1) {
      v1
    }
    ... on T @skip(if: $skip2) {
      v2
    }
  }
}

type Query {
  t: T
}

type T {
  v1: Int
  v2: String
}
"#;
    let (schema, frags, ops) = parse_schema_and_operation(src);
    if let Some((_, op)) = ops.first() {
        let normalized = router_core::normalize::normalize_operation(op, &frags, &schema, &Vec::new()).unwrap();
        let expected = r#"query Test($skip1: Boolean!, $skip2: Boolean!) {
  t {
    ... on T @skip(if: $skip1) {
      v1
    }
    ... on T @skip(if: $skip2) {
      v2
    }
  }
}"#;
        assert_eq!(expected, router_core::serialize::operation_to_string(&normalized));
    } else {
        panic!("unable to parse document")
    }
}

#[test]
fn do_not_merge_fragments_with_defer_directive() {
    let src = r#"
query Test {
  t {
    ... on T @defer {
      v1
    }
    ... on T @defer {
      v2
    }
  }
}
directive @defer(label: String, if: Boolean! = true) on FRAGMENT_SPREAD | INLINE_FRAGMENT

type Query {
  t: T
}

type T {
  v1: Int
  v2: String
}
"#;
    let (schema, frags, ops) = parse_schema_and_operation(src);
    if let Some((_, op)) = ops.first() {
        let normalized = router_core::normalize::normalize_operation(op, &frags, &schema, &Vec::new()).unwrap();
        let expected = r#"query Test {
  t {
    ... on T @defer {
      v1
    }
    ... on T @defer {
      v2
    }
  }
}"#;
        assert_eq!(expected, router_core::serialize::operation_to_string(&normalized));
    } else {
        panic!("unable to parse document")
    }
}
