use apollo_compiler::executable as ex;
use apollo_compiler::ast::Value as AstValue;
use apollo_compiler::ast::Selection as AstSelection;
use router_core::subscription::{callback_decision, callback_status, CallbackDecision, CallbackEvent};
use router_core::federation::{FederationSchema, FederationSpecDefinition, Version};
use apollo_compiler::schema::ExtendedType;
use apollo_compiler::ExecutableDocument;
use router_core::ast::{ArgVal, Argument, Directive, Selection, Field, InlineFragment, FragmentSpread, Operation, OperationKind, VariableDef, FragmentDef};
use router_core::schema::{Schema, TypeDef, FieldDef};

fn conv_value(v: &apollo_compiler::ast::Value) -> ArgVal {
    match v {
        AstValue::Null => ArgVal::Null,
        AstValue::Enum(n) => ArgVal::Enum(n.as_str().to_string()),
        AstValue::Variable(n) => ArgVal::Var(n.as_str().to_string()),
        AstValue::String(s) => ArgVal::Str(s.clone()),
        AstValue::Float(f) => ArgVal::Str(f.to_string()),
        AstValue::Int(i) => ArgVal::Int(i.as_str().parse().unwrap()),
        AstValue::Boolean(b) => ArgVal::Bool(*b),
        AstValue::List(items) => ArgVal::List(items.iter().map(|x| conv_value(x)).collect()),
        AstValue::Object(fields) => ArgVal::Object(
            fields.iter().map(|(n, x)| Argument { name: n.as_str().to_string(), value: conv_value(x) }).collect(),
        ),
    }
}

fn conv_arguments(args: &[apollo_compiler::Node<apollo_compiler::ast::Argument>]) -> Vec<Argument> {
    args.iter().map(|a| Argument { name: a.name.as_str().to_string(), value: conv_value(&a.value) }).collect()
}

fn conv_directives(dirs: &apollo_compiler::ast::DirectiveList) -> Vec<Directive> {
    dirs.iter().map(|d| Directive { name: d.name.as_str().to_string(), arguments: conv_arguments(&d.arguments) }).collect()
}

fn conv_sel(s: &ex::Selection, doc: &ExecutableDocument) -> Selection {
    match s {
        ex::Selection::Field(f) => Selection::Field(Field {
            alias: f.alias.as_ref().map(|a| a.as_str().to_string()),
            name: f.name.as_str().to_string(),
            arguments: conv_arguments(&f.arguments),
            directives: conv_directives(&f.directives),
            selection_set: conv_sels(&f.selection_set, doc),
        }),
        ex::Selection::InlineFragment(f) => Selection::InlineFragment(InlineFragment {
            type_condition: f.type_condition.as_ref().map(|c| c.as_str().to_string()),
            directives: conv_directives(&f.directives),
            selection_set: conv_sels(&f.selection_set, doc),
        }),
        ex::Selection::FragmentSpread(f) => Selection::FragmentSpread(FragmentSpread {
            name: f.fragment_name.as_str().to_string(),
            directives: conv_directives(&f.directives),
            selection_set: doc
                .fragments
                .get(&f.fragment_name)
                .map(|fr| conv_sels(&fr.selection_set, doc))
                .unwrap_or_default(),
        }),
    }
}

fn conv_sels(ss: &ex::SelectionSet, doc: &ExecutableDocument) -> Vec<Selection> {
    ss.selections.iter().map(|s| conv_sel(s, doc)).collect()
}

fn conv_operation(op: &ex::Operation, doc: &ExecutableDocument) -> Operation {
    Operation {
        kind: match op.operation_type {
            apollo_compiler::ast::OperationType::Query => OperationKind::Query,
            apollo_compiler::ast::OperationType::Mutation => OperationKind::Mutation,
            apollo_compiler::ast::OperationType::Subscription => OperationKind::Subscription,
        },
        name: op.name.as_ref().map(|n| n.as_str().to_string()),
        variables: op
            .variables
            .iter()
            .map(|v| VariableDef { name: v.name.as_str().to_string(), var_type: v.ty.to_string() })
            .collect(),
        selection_set: conv_sels(&op.selection_set, doc),
        named_fragments: Vec::new(),
    }
}

fn conv_fragment_defs(doc: &ExecutableDocument) -> Vec<FragmentDef> {
    doc.fragments
        .iter()
        .map(|(n, fr)| FragmentDef {
            name: n.as_str().to_string(),
            type_condition: fr.type_condition().as_str().to_string(),
            selection_set: conv_sels(&fr.selection_set, doc),
        })
        .collect()
}

fn conv_schema(s: &apollo_compiler::Schema) -> Schema {
    let query_type = s
        .schema_definition
        .query
        .as_ref()
        .map(|q| q.name.as_str().to_string())
        .unwrap_or_else(|| "Query".to_string());
    let mut types = Vec::new();
    for (name, t) in s.types.iter() {
        match t {
            ExtendedType::Object(o) => types.push(TypeDef {
                name: name.as_str().to_string(),
                is_interface: false,
                implements: o.implements_interfaces.iter().map(|i| i.name.as_str().to_string()).collect(),
                fields: o
                    .fields
                    .iter()
                    .map(|(fname, fd)| FieldDef {
                        name: fname.as_str().to_string(),
                        ty_name: fd.ty.inner_named_type().as_str().to_string(),
                    })
                    .collect(),
            }),
            ExtendedType::Interface(iface) => types.push(TypeDef {
                name: name.as_str().to_string(),
                is_interface: true,
                implements: iface.implements_interfaces.iter().map(|i| i.name.as_str().to_string()).collect(),
                fields: iface
                    .fields
                    .iter()
                    .map(|(fname, fd)| FieldDef {
                        name: fname.as_str().to_string(),
                        ty_name: fd.ty.inner_named_type().as_str().to_string(),
                    })
                    .collect(),
            }),
            _ => {},
        }
    }
    // interface implementors: record reverse relation too, the model reads
    // `implements` from both sides through types_intersect
    Schema { query_type, types }
}

fn interface_objects_of(s: &apollo_compiler::Schema) -> Vec<String> {
    let mut out = Vec::new();
    for (name, t) in s.types.iter() {
        if let ExtendedType::Object(o) = t {
            if o.directives.iter().any(|d| d.name.as_str() == "interfaceObject") {
                out.push(name.as_str().to_string());
            }
        }
    }
    out
}

fn parse_schema_and_operation(src: &str) -> (Schema, Vec<FragmentDef>, Vec<(Option<String>, Operation)>) {
    let (schema, doc) = apollo_compiler::parser::Parser::new()
        .parse_mixed_validate(src, "document.graphql")
        .unwrap();
    let doc = doc.into_inner();
    let rs = conv_schema(&schema);
    let frags = conv_fragment_defs(&doc);
    let mut ops = Vec::new();
    if let Some(anon) = &doc.operations.anonymous {
        ops.push((None, conv_operation(anon, &doc)));
    }
    for (n, op) in doc.operations.named.iter() {
        ops.push((Some(n.as_str().to_string()), conv_operation(op, &doc)));
    }
    (rs, frags, ops)
}

fn get_named<'a>(ops: &'a [(Option<String>, Operation)], name: &str) -> &'a Operation {
    ops.iter().find(|(n, _)| n.as_deref() == Some(name)).map(|(_, o)| o).unwrap()
}

use router_core::containment::{Containment, ContainmentOptions};
use router_core::json::{Json, Path, PathElem};

fn containment_schema() -> String {
    r#"
        directive @defer(label: String, if: Boolean! = true) on FRAGMENT_SPREAD | INLINE_FRAGMENT

        interface Intf {
            intfField: Int
        }
        type HasA implements Intf {
            a: Boolean
            intfField: Int
        }
        type Nested {
            a: Int
            b: Int
            c: Int
        }
        input Input {
            recur: Input
            f: Boolean
            g: Boolean
            h: Boolean
        }
        type Query {
            a: Int
            b: Int
            c: Int
            object: Nested
            intf: Intf
            arg(a: Int, b: Int, c: Int, d: Input): Int
        }
        "#
    .to_string()
}

fn parse_operation(src: &str) -> Operation {
    let schema = apollo_compiler::Schema::parse_and_validate(containment_schema(), "schema.graphql").unwrap();
    let doc = ExecutableDocument::parse_and_validate(&schema, src, "operation.graphql").unwrap();
    let doc = doc.into_inner();
    if let Some(anon) = &doc.operations.anonymous {
        conv_operation(anon, &doc)
    } else {
        let (_, op) = doc.operations.named.iter().next().unwrap();
        conv_operation(op, &doc)
    }
}

fn containment_custom(left: &str, right: &str, ignore_missing_typename: bool) -> Containment {
    let l = parse_operation(left);
    let r = parse_operation(right);
    router_core::containment::containment(
        &l.selection_set,
        &r.selection_set,
        ContainmentOptions { ignore_missing_typename },
    )
}

fn containment(left: &str, right: &str) -> Containment {
    containment_custom(left, right, false)
}

#[test]
fn selection_set_contains() {
    assert_eq!(containment("{ a }", "{ a }"), Containment::Equal);
    assert_eq!(containment("{ a b }", "{ b a }"), Containment::Equal);
    assert_eq!(containment("{ arg(a: 1) }", "{ arg(a: 2) }"), Containment::NotContained);
    assert_eq!(containment("{ arg(a: 1) }", "{ arg(b: 1) }"), Containment::NotContained);
    assert_eq!(containment("{ arg(a: 1) }", "{ arg(a: 1) }"), Containment::Equal);
    assert_eq!(containment("{ arg(a: 1, b: 1) }", "{ arg(b: 1 a: 1) }"), Containment::Equal);
    assert_eq!(containment("{ arg(a: 1) }", "{ arg(a: 1) }"), Containment::Equal);
    assert_eq!(
        containment("{ arg(d: { f: true, g: true }) }", "{ arg(d: { f: true }) }"),
        Containment::NotContained
    );
    assert_eq!(
        containment(
            "{ arg(d: { recur: { f: true } g: true h: false }) }",
            "{ arg(d: { h: false recur: {f: true} g: true }) }"
        ),
        Containment::Equal
    );
    assert_eq!(containment("{ arg @skip(if: true) }", "{ arg @skip(if: true) }"), Containment::Equal);
    assert_eq!(containment("{ arg @skip(if: true) }", "{ arg @skip(if: false) }"), Containment::NotContained);
    assert_eq!(
        containment("{ ... @defer { arg } }", "{ ... @defer { arg } }"),
        Containment::NotContained,
        "@defer selections never contain each other"
    );
    assert_eq!(containment("{ a b c }", "{ b a }"), Containment::StrictlyContained);
    assert_eq!(containment("{ a b }", "{ b c a }"), Containment::NotContained);
    assert_eq!(containment("{ a }", "{ b }"), Containment::NotContained);
    assert_eq!(containment("{ object { a } }", "{ object { b a } }"), Containment::NotContained);

    assert_eq!(containment("{ ... { a } }", "{ ... { a } }"), Containment::Equal);
    assert_eq!(
        containment("{ intf { ... on HasA { a } } }", "{ intf { ... on HasA { a } } }",),
        Containment::Equal
    );
    assert_eq!(
        containment(
            "{ intf { ... on HasA { a } } }",
            "{ intf { ...named } } fragment named on HasA { a }",
        ),
        Containment::NotContained
    );
    assert_eq!(
        containment(
            "{ intf { ...named } } fragment named on HasA { a intfField }",
            "{ intf { ...named } } fragment named on HasA { a }",
        ),
        Containment::StrictlyContained
    );
    assert_eq!(
        containment(
            "{ intf { ...named } } fragment named on HasA { a }",
            "{ intf { ...named } } fragment named on HasA { a intfField }",
        ),
        Containment::NotContained
    );
}

#[test]
fn strict_containment_is_antisymmetric_on_a_pair() {
    assert_eq!(containment("{ a b c }", "{ b a }"), Containment::StrictlyContained);
    assert_eq!(containment("{ b a }", "{ a b c }"), Containment::NotContained);
    assert_eq!(containment("{ object { a b } }", "{ object { a } }"), Containment::StrictlyContained);
    assert_eq!(containment("{ object { a } }", "{ object { a b } }"), Containment::NotContained);
}

#[test]
fn containment_is_reflexive_on_defer_free_sets() {
    assert_eq!(containment("{ a b object { a b c } }", "{ a b object { a b c } }"), Containment::Equal);
    assert_eq!(
        containment(
            "{ intf { ... on HasA { a intfField } } }",
            "{ intf { ... on HasA { a intfField } } }",
        ),
        Containment::Equal
    );
}

#[test]
fn selection_set_contains_missing_typename() {
    assert_eq!(containment_custom("{ a }", "{ a __typename }", true), Containment::Equal);
    assert_eq!(containment_custom("{ a b }", "{ b a __typename }", true), Containment::Equal);
    assert_eq!(containment_custom("{ a b }", "{ b __typename }", true), Containment::StrictlyContained);
    assert_eq!(
        containment_custom("{ object { a b } }", "{ object { b __typename } }", true),
        Containment::StrictlyContained
    );
    assert_eq!(
        containment_custom("{ intf { intfField __typename } }", "{ intf { intfField } }", true),
        Containment::StrictlyContained,
    );
    assert_eq!(
        containment_custom("{ intf { intfField __typename } }", "{ intf { intfField __typename } }", true),
        Containment::Equal,
    );
}

#[test]
fn converting_operation_types() {
    let schema = apollo_compiler::Schema::parse_and_validate(
        r#"
        interface Intf {
            intfField: Int
        }
        type HasA implements Intf {
            a: Boolean
            intfField: Int
        }
        type Nested {
            a: Int
            b: Int
            c: Int
        }
        type Query {
            a: Int
            b: Int
            c: Int
            object: Nested
            intf: Intf
        }
        "#,
        "schema.graphql",
    )
    .unwrap();
    let doc = ExecutableDocument::parse_and_validate(
        &schema,
        r#"
        {
            intf {
                ... on HasA { a }
                ... frag
            }
        }
        fragment frag on HasA { intfField }
        "#,
        "operation.graphql",
    )
    .unwrap();
    let doc = doc.into_inner();
    let op = conv_operation(doc.operations.anonymous.as_ref().unwrap(), &doc);
    let expected = r#"{
  intf {
    ... on HasA {
      a
    }
    ...frag
  }
}"#;
    assert_eq!(expected, router_core::serialize::operation_to_string(&op));
}

#[test]
fn test_query_batching_for_contextual_args() {
    let old_query = "query QueryLL__Subgraph1__1($representations:[_Any!]!$Subgraph1_U_field_a:String!){_entities(representations:$representations){...on U{id field(a:$Subgraph1_U_field_a)}}}";
    let ast = apollo_compiler::parser::Parser::new().parse_ast(old_query, "op.graphql").unwrap();
    let op_ast = ast
        .definitions
        .iter()
        .find_map(|d| match d {
            apollo_compiler::ast::Definition::OperationDefinition(o) => Some(o.clone()),
            _ => None,
        })
        .unwrap();
    let op = conv_ast_operation(&op_ast);
    let contextual_args = Some((vec!["Subgraph1_U_field_a".to_string()], 2usize));
    let expected = "query QueryLL__Subgraph1__1($representations: [_Any!]!, $Subgraph1_U_field_a_0: String!, $Subgraph1_U_field_a_1: String!) { _0: _entities(representations: $representations) { ... on U { id field(a: $Subgraph1_U_field_a_0) } } _1: _entities(representations: $representations) { ... on U { id field(a: $Subgraph1_U_field_a_1) } } }";
    let batched = router_core::fetch::query_batching_for_contextual_args(&op, &contextual_args).unwrap();
    assert_eq!(expected, router_core::serialize::operation_to_flat_string(&batched));
}

fn conv_ast_value(v: &apollo_compiler::ast::Value) -> ArgVal {
    conv_value(v)
}

fn conv_ast_sel(s: &apollo_compiler::ast::Selection) -> Selection {
    match s {
        AstSelection::Field(f) => Selection::Field(Field {
            alias: f.alias.as_ref().map(|a| a.as_str().to_string()),
            name: f.name.as_str().to_string(),
            arguments: f
                .arguments
                .iter()
                .map(|a| Argument { name: a.name.as_str().to_string(), value: conv_ast_value(&a.value) })
                .collect(),
            directives: conv_directives(&f.directives),
            selection_set: f.selection_set.iter().map(conv_ast_sel).collect(),
        }),
        AstSelection::InlineFragment(f) => Selection::InlineFragment(InlineFragment {
            type_condition: f.type_condition.as_ref().map(|c| c.as_str().to_string()),
            directives: conv_directives(&f.directives),
            selection_set: f.selection_set.iter().map(conv_ast_sel).collect(),
        }),
        AstSelection::FragmentSpread(f) => Selection::FragmentSpread(FragmentSpread {
            name: f.fragment_name.as_str().to_string(),
            directives: conv_directives(&f.directives),
            selection_set: Vec::new(),
        }),
    }
}

fn conv_ast_operation(op: &apollo_compiler::ast::OperationDefinition) -> Operation {
    Operation {
        kind: match op.operation_type {
            apollo_compiler::ast::OperationType::Query => OperationKind::Query,
            apollo_compiler::ast::OperationType::Mutation => OperationKind::Mutation,
            apollo_compiler::ast::OperationType::Subscription => OperationKind::Subscription,
        },
        name: op.name.as_ref().map(|n| n.as_str().to_string()),
        variables: op
            .variables
            .iter()
            .map(|v| VariableDef { name: v.name.as_str().to_string(), var_type: v.ty.to_string() })
            .collect(),
        selection_set: op.selection_set.iter().map(conv_ast_sel).collect(),
        named_fragments: Vec::new(),
    }
}

fn key(k: &str) -> PathElem {
    PathElem::Key(k.to_string())
}

fn jstr(s: &str) -> Json {
    Json::Text(s.to_string())
}

fn obj(members: Vec<(&str, Json)>) -> Json {
    Json::Obj(members.into_iter().map(|(k, v)| (k.to_string(), v)).collect())
}

fn path_of(elems: Vec<PathElem>) -> Path {
    Path { elements: elems }
}

fn field(name: &str) -> Selection {
    Selection::Field(Field {
        alias: None,
        name: name.to_string(),
        arguments: Vec::new(),
        directives: Vec::new(),
        selection_set: Vec::new(),
    })
}

#[test]
fn representations_are_deduplicated_with_inverted_paths() {
    let data = obj(vec![(
        "t",
        Json::Arr(vec![
            obj(vec![("id", jstr("1"))]),
            obj(vec![("id", jstr("1"))]),
            obj(vec![("id", jstr("2"))]),
        ]),
    )]);
    let requires_selection = vec![field("id")];
    let current_dir = path_of(vec![key("t"), PathElem::Flatten]);
    let vars = router_core::representations::Variables::new(
        &requires_selection,
        &Vec::new(),
        &data,
        &current_dir,
        &Vec::new(),
        &None,
        &None,
    )
    .unwrap();
    let reps = match vars.variables.iter().find(|(k, _)| k == "representations") {
        Some((_, Json::Arr(a))) => a.clone(),
        _ => panic!("representations missing"),
    };
    assert_eq!(reps.len(), 2);
    assert_eq!(vars.inverted_paths.len(), 2);
    assert_eq!(vars.inverted_paths[0].len(), 2);
    assert_eq!(vars.inverted_paths[1].len(), 1);
    assert_eq!(vars.inverted_paths[0][0].elements.len(), 2);
    assert!(matches!(&vars.inverted_paths[0][0].elements[1], PathElem::Index(0)));
    assert!(matches!(&vars.inverted_paths[0][1].elements[1], PathElem::Index(1)));
    assert!(matches!(&vars.inverted_paths[1][0].elements[1], PathElem::Index(2)));
    assert!(vars.contextual_args.is_none());
}

#[test]
fn differing_contextual_values_split_into_suffixed_variables() {
    let data = obj(vec![(
        "t",
        Json::Arr(vec![
            obj(vec![("id", jstr("1")), ("ctxv", Json::Int(10))]),
            obj(vec![("id", jstr("2")), ("ctxv", Json::Int(20))]),
        ]),
    )]);
    let requires_selection = vec![field("id")];
    let current_dir = path_of(vec![key("t"), PathElem::Flatten]);
    let context_rewrites = Some(vec![router_core::rewrites::DataRewrite::KeyRenamer {
        path: path_of(vec![key("ctxv")]),
        rename_key_to: "Subgraph_var".to_string(),
    }]);
    let vars = router_core::representations::Variables::new(
        &requires_selection,
        &Vec::new(),
        &data,
        &current_dir,
        &Vec::new(),
        &None,
        &context_rewrites,
    )
    .unwrap();
    let (names, count) = vars.contextual_args.as_ref().unwrap();
    assert_eq!(names, &vec!["Subgraph_var".to_string()]);
    assert_eq!(*count, 2);
    assert!(vars.variables.iter().any(|(k, v)| k == "Subgraph_var_0" && matches!(v, Json::Int(10))));
    assert!(vars.variables.iter().any(|(k, v)| k == "Subgraph_var_1" && matches!(v, Json::Int(20))));
}

#[test]
fn plain_fetch_skips_on_null_upstream_data() {
    let data = obj(vec![("t", Json::Null)]);
    let current_dir = path_of(vec![key("t")]);
    let vars = router_core::representations::Variables::new(
        &Vec::new(),
        &vec!["x".to_string()],
        &data,
        &current_dir,
        &vec![("x".to_string(), Json::Int(3))],
        &None,
        &None,
    );
    assert!(vars.is_none());
}

#[test]
fn plain_fetch_picks_requested_variables() {
    let data = obj(vec![("t", Json::Int(1))]);
    let current_dir = path_of(vec![key("t")]);
    let vars = router_core::representations::Variables::new(
        &Vec::new(),
        &vec!["x".to_string(), "missing".to_string()],
        &data,
        &current_dir,
        &vec![("x".to_string(), Json::Int(3)), ("y".to_string(), Json::Int(4))],
        &None,
        &None,
    )
    .unwrap();
    assert_eq!(vars.variables.len(), 1);
    assert_eq!(vars.variables[0].0, "x");
    assert!(matches!(vars.variables[0].1, Json::Int(3)));
}

#[test]
fn entity_fetch_stitches_to_all_recorded_paths() {
    let data = obj(vec![(
        "t",
        Json::Arr(vec![
            obj(vec![("id", jstr("1"))]),
            obj(vec![("id", jstr("1"))]),
            obj(vec![("id", jstr("2"))]),
        ]),
    )]);
    let requires_selection = vec![field("id")];
    let current_dir = path_of(vec![key("t"), PathElem::Flatten]);
    let vars = router_core::representations::Variables::new(
        &requires_selection,
        &Vec::new(),
        &data,
        &current_dir,
        &Vec::new(),
        &None,
        &None,
    )
    .unwrap();
    let response = router_core::response::Response {
        data: Some(obj(vec![(
            "_entities",
            Json::Arr(vec![
                obj(vec![("name", jstr("A"))]),
                obj(vec![("name", jstr("B"))]),
            ]),
        )])),
        errors: Vec::new(),
    };
    let (value, errors) = router_core::response::entity_response(&response, &vars.inverted_paths, &None, &current_dir);
    assert!(errors.is_empty());
    let arr = match value.get("t") {
        Some(Json::Arr(a)) => a.clone(),
        _ => panic!("expected array under t"),
    };
    assert_eq!(arr.len(), 3);
    assert!(matches!(arr[0].get("name"), Some(Json::Text(s)) if s == "A"));
    assert!(matches!(arr[1].get("name"), Some(Json::Text(s)) if s == "A"));
    assert!(matches!(arr[2].get("name"), Some(Json::Text(s)) if s == "B"));
}

#[test]
fn entity_errors_are_relocated_per_recorded_path() {
    let inverted_paths = vec![vec![
        path_of(vec![key("t"), PathElem::Index(0)]),
        path_of(vec![key("t"), PathElem::Index(1)]),
    ]];
    let err = router_core::response::GraphqlError {
        message: "boom".to_string(),
        locations: vec![(1, 2)],
        path: Some(path_of(vec![key("_entities"), PathElem::Index(0), key("x")])),
        extensions: Json::Null,
    };
    let current_dir = path_of(vec![key("t"), PathElem::Flatten]);
    let response = router_core::response::Response { data: None, errors: vec![err] };
    let (_, errors) = router_core::response::entity_response(&response, &inverted_paths, &None, &current_dir);
    assert_eq!(errors.len(), 2);
    for (i, e) in errors.iter().enumerate() {
        assert_eq!(e.message, "boom");
        assert!(e.locations.is_empty());
        let p = e.path.as_ref().unwrap();
        assert_eq!(p.elements.len(), 3);
        assert!(matches!(&p.elements[0], PathElem::Key(k) if k == "t"));
        assert!(matches!(&p.elements[1], PathElem::Index(n) if *n == i));
        assert!(matches!(&p.elements[2], PathElem::Key(k) if k == "x"));
    }
}

#[test]
fn pathless_entity_errors_are_attributed_to_the_current_path() {
    let inverted_paths: Vec<Vec<Path>> = vec![vec![path_of(vec![key("t"), PathElem::Index(0)])]];
    let err = router_core::response::GraphqlError {
        message: "quiet".to_string(),
        locations: vec![(5, 6)],
        path: None,
        extensions: Json::Null,
    };
    let current_dir = path_of(vec![key("t"), PathElem::Flatten]);
    let response = router_core::response::Response { data: None, errors: vec![err] };
    let (_, errors) = router_core::response::entity_response(&response, &inverted_paths, &None, &current_dir);
    assert_eq!(errors.len(), 1);
    assert!(errors[0].locations.is_empty());
    let p = errors[0].path.as_ref().unwrap();
    assert_eq!(p.elements.len(), 2);
    assert!(matches!(&p.elements[0], PathElem::Key(k) if k == "t"));
    assert!(matches!(&p.elements[1], PathElem::Flatten));
}

#[test]
fn transport_failures_classify_with_status_code() {
    let current_dir = path_of(vec![key("t")]);
    let e = router_core::response::subrequest_http_error(
        &"accounts".to_string(),
        &"connection refused".to_string(),
        Some(503),
        &current_dir,
    );
    assert_eq!(e.message, "HTTP fetch failed from 'accounts': connection refused");
    assert!(e.locations.is_empty());
    assert!(matches!(&e.path.as_ref().unwrap().elements[0], PathElem::Key(k) if k == "t"));
    assert!(matches!(e.extensions.get("code"), Some(Json::Text(c)) if c == "SUBREQUEST_HTTP_ERROR"));
    assert!(matches!(e.extensions.get("service"), Some(Json::Text(sv)) if sv == "accounts"));
    assert!(matches!(e.extensions.get("statusCode"), Some(Json::Int(503))));

    let e2 = router_core::response::subrequest_http_error(
        &"accounts".to_string(),
        &"timed out".to_string(),
        None,
        &current_dir,
    );
    assert!(e2.extensions.get("statusCode").is_none());

    let e3 = router_core::response::subrequest_unexpected_patch_error(&"reviews".to_string(), &current_dir);
    assert_eq!(e3.message, "subgraph 'reviews' returned an unexpected patch response");
    assert!(matches!(e3.extensions.get("code"), Some(Json::Text(c)) if c == "SUBREQUEST_UNEXPECTED_PATCH_RESPONSE"));
}

#[test]
fn index_steps_read_null_past_a_list() {
    let data = obj(vec![("a", Json::Arr(vec![Json::Int(1)]))]);
    let p1 = path_of(vec![key("a"), PathElem::Index(5)]);
    assert!(matches!(router_core::json::data_at_path(&data, &p1, 0), Some(Json::Null)));
    let p2 = path_of(vec![key("a"), PathElem::Index(5), PathElem::Index(0)]);
    assert!(matches!(router_core::json::data_at_path(&data, &p2, 0), Some(Json::Null)));
    let p3 = path_of(vec![key("a"), PathElem::Index(5), key("x")]);
    assert!(router_core::json::data_at_path(&data, &p3, 0).is_none());
    let p4 = path_of(vec![key("a"), PathElem::Index(0)]);
    assert!(matches!(router_core::json::data_at_path(&data, &p4, 0), Some(Json::Int(1))));
}

#[test]
fn plain_errors_are_prefixed_without_trailing_flatten() {
    let err = router_core::response::GraphqlError {
        message: "bad".to_string(),
        locations: vec![(3, 4)],
        path: Some(path_of(vec![key("x")])),
        extensions: Json::Null,
    };
    let current_dir = path_of(vec![key("t"), PathElem::Flatten]);
    let response = router_core::response::Response {
        data: Some(obj(vec![("x", Json::Int(1))])),
        errors: vec![err],
    };
    let (value, errors) = router_core::response::plain_response(response, &None, &current_dir);
    assert_eq!(errors.len(), 1);
    let p = errors[0].path.as_ref().unwrap();
    assert_eq!(p.elements.len(), 2);
    assert!(matches!(&p.elements[0], PathElem::Key(k) if k == "t"));
    assert!(matches!(&p.elements[1], PathElem::Key(k) if k == "x"));
    assert!(errors[0].locations.is_empty());
    assert!(matches!(value.get("t"), Some(_)));
}

#[test]
fn key_renamer_renames_at_path() {
    let data = obj(vec![("a", obj(vec![("old", Json::Int(7))]))]);
    let rw = router_core::rewrites::DataRewrite::KeyRenamer {
        path: path_of(vec![key("a"), key("old")]),
        rename_key_to: "new".to_string(),
    };
    let out = router_core::rewrites::apply_single_rewrite(data, &rw);
    let inner = out.get("a").unwrap();
    assert!(inner.get("old").is_none());
    assert!(matches!(inner.get("new"), Some(Json::Int(7))));
}

#[test]
fn value_setter_sets_at_path_and_misses_silently() {
    let data = obj(vec![("a", obj(vec![("x", Json::Int(1))]))]);
    let rw = router_core::rewrites::DataRewrite::ValueSetter {
        path: path_of(vec![key("a"), key("x")]),
        value: Json::Int(9),
    };
    let out = router_core::rewrites::apply_single_rewrite(data, &rw);
    assert!(matches!(out.get("a").unwrap().get("x"), Some(Json::Int(9))));

    let data2 = obj(vec![("a", obj(vec![("x", Json::Int(1))]))]);
    let rw2 = router_core::rewrites::DataRewrite::ValueSetter {
        path: path_of(vec![key("b"), key("x")]),
        value: Json::Int(9),
    };
    let out2 = router_core::rewrites::apply_single_rewrite(data2, &rw2);
    assert!(matches!(out2.get("a").unwrap().get("x"), Some(Json::Int(1))));
    assert!(out2.get("b").is_none());
}

#[test]
fn merge_context_path_resolves_parent_references() {
    let current = path_of(vec![key("t"), PathElem::Index(2), key("u")]);
    let ctx = path_of(vec![key(".."), key("field")]);
    let merged = router_core::representations::merge_context_path(&current, &ctx);
    assert_eq!(merged.elements.len(), 3);
    assert!(matches!(&merged.elements[0], PathElem::Key(k) if k == "t"));
    assert!(matches!(&merged.elements[1], PathElem::Index(2)));
    assert!(matches!(&merged.elements[2], PathElem::Key(k) if k == "field"));
}

#[test]
fn query_hash_renders_lowercase_hex() {
    let h = router_core::fetch::QueryHash { bytes: vec![0u8, 255u8, 16u8] };
    assert_eq!(h.to_hex(), "00ff10");
}

#[test]
fn operation_kind_names() {
    assert_eq!(OperationKind::Query.default_type_name(), "Query");
    assert_eq!(OperationKind::Mutation.default_type_name(), "Mutation");
    assert_eq!(OperationKind::Subscription.default_type_name(), "Subscription");
    assert_eq!(OperationKind::Query.as_apollo_operation_type(), "query");
    assert_eq!(OperationKind::Mutation.as_apollo_operation_type(), "mutation");
    assert_eq!(OperationKind::Subscription.as_apollo_operation_type(), "subscription");
    assert_eq!(OperationKind::default(), OperationKind::Query);
}

#[test]
fn subgraph_operation_caches_serialized_text() {
    let op = Operation {
        kind: OperationKind::Query,
        name: Some("Q".to_string()),
        variables: Vec::new(),
        selection_set: vec![field("a")],
        named_fragments: Vec::new(),
    };
    let mut so = router_core::fetch::SubgraphOperation::from_parsed(op);
    let text = so.as_serialized();
    assert_eq!(text, "query Q {\n  a\n}");
    let again = so.as_serialized();
    assert_eq!(text, again);

    let mut so2 = router_core::fetch::SubgraphOperation::from_string("query { x }".to_string());
    assert_eq!(so2.as_serialized(), "query { x }");
    assert!(so2.as_parsed().is_none());
}

#[test]
fn callback_decisions_cover_all_events() {
    let d = callback_decision(CallbackEvent::BadId, true);
    assert!(matches!(&d, CallbackDecision::Reject(m) if m == "cannot convert the subscription id"));
    assert_eq!(callback_status(&d), 400);
    let d2 = callback_decision(CallbackEvent::BadBody("nope".to_string()), true);
    assert!(matches!(&d2, CallbackDecision::Reject(m) if m == "nope"));
    let d3 = callback_decision(CallbackEvent::Payload(7), false);
    assert!(matches!(d3, CallbackDecision::NotFound));
    assert_eq!(callback_status(&d3), 404);
    let d4 = callback_decision(CallbackEvent::Payload(7), true);
    assert!(matches!(d4, CallbackDecision::Publish(7)));
    assert_eq!(callback_status(&d4), 200);
}

#[test]
fn parse_subscription_id_accepts_uuids_only() {
    let ok = router_core::subscription::parse_subscription_id("6ecdf126-8b5e-4a3c-a754-28a5e30bbc09");
    assert!(ok.is_some());
    let bad = router_core::subscription::parse_subscription_id("not-a-uuid");
    assert!(bad.is_none());
}

#[test]
fn federation_directives_use_schema_names() {
    let schema = FederationSchema {
        directive_names: vec![
            ("key".to_string(), "federation__key".to_string()),
            ("interfaceObject".to_string(), "interfaceObject".to_string()),
            ("requires".to_string(), "requires".to_string()),
            ("provides".to_string(), "provides".to_string()),
            ("shareable".to_string(), "shareable".to_string()),
            ("override".to_string(), "override".to_string()),
            ("external".to_string(), "external".to_string()),
        ],
    };
    let def = FederationSpecDefinition::new(Version { major: 2, minor: 5 });
    let key = def.key_directive(&schema, "id".to_string(), true).unwrap();
    assert_eq!(key.name, "federation__key");
    assert_eq!(key.arguments.len(), 2);
    assert_eq!(key.arguments[0].name, "fields");
    assert_eq!(key.arguments[1].name, "resolvable");

    let old = FederationSpecDefinition::new(Version { major: 2, minor: 2 });
    assert!(old.interface_object_directive(&schema).is_err());
    assert!(def.interface_object_directive(&schema).is_ok());

    let r = def.requires_directive(&schema, "x".to_string()).unwrap();
    assert_eq!(r.name, "requires");
    let empty = FederationSchema { directive_names: Vec::new() };
    assert!(def.key_directive(&empty, "id".to_string(), true).is_err());
    assert_eq!(router_core::federation::federation_versions().definitions.len(), 6);
}

#[test]
fn fragments_registry_records_aliased_typename() {
    let defs = vec![router_core::ast::FragmentDef {
        name: "F".to_string(),
        type_condition: "T".to_string(),
        selection_set: vec![Selection::Field(Field {
            alias: Some("kind".to_string()),
            name: "__typename".to_string(),
            arguments: Vec::new(),
            directives: Vec::new(),
            selection_set: Vec::new(),
        })],
    }];
    let frags = router_core::fragments::Fragments::from_defs(&defs);
    let f = frags.get(&"F".to_string()).unwrap();
    assert_eq!(f.type_condition, "T");
    assert_eq!(f.aliased_typename.as_deref(), Some("kind"));
    assert!(frags.get(&"G".to_string()).is_none());

    let two = vec![router_core::ast::FragmentDef {
        name: "H".to_string(),
        type_condition: "T".to_string(),
        selection_set: vec![
            Selection::Field(Field {
                alias: Some("first".to_string()),
                name: "__typename".to_string(),
                arguments: Vec::new(),
                directives: Vec::new(),
                selection_set: Vec::new(),
            }),
            Selection::Field(Field {
                alias: Some("second".to_string()),
                name: "__typename".to_string(),
                arguments: Vec::new(),
                directives: Vec::new(),
                selection_set: Vec::new(),
            }),
        ],
    }];
    let frags2 = router_core::fragments::Fragments::from_defs(&two);
    let h = frags2.get(&"H".to_string()).unwrap();
    assert_eq!(h.aliased_typename.as_deref(), Some("second"));
}

#[test]
fn paths_compare_by_prefix() {
    let a = path_of(vec![key("x"), PathElem::Index(1), key("y")]);
    let b = path_of(vec![key("x"), PathElem::Index(1)]);
    let c = path_of(vec![key("x"), PathElem::Index(2)]);
    assert!(a.starts_with(&b));
    assert!(!a.starts_with(&c));
    assert!(!b.starts_with(&a));
    assert!(path_of(vec![key("t"), PathElem::Flatten]).last_is_flatten());
    assert!(!b.last_is_flatten());
}

#[test]
fn rename_variables_renames_only_exact_references() {
    let sel = Selection::Field(Field {
        alias: None,
        name: "f".to_string(),
        arguments: vec![
            Argument { name: "a".to_string(), value: ArgVal::Var("v".to_string()) },
            Argument { name: "b".to_string(), value: ArgVal::Str("v".to_string()) },
        ],
        directives: Vec::new(),
        selection_set: vec![Selection::Field(Field {
            alias: None,
            name: "g".to_string(),
            arguments: vec![Argument { name: "c".to_string(), value: ArgVal::Var("v".to_string()) }],
            directives: Vec::new(),
            selection_set: Vec::new(),
        })],
    });
    let out = router_core::fetch::rename_variables(&sel, &"v".to_string(), &"v_0".to_string());
    match out {
        Selection::Field(f) => {
            assert!(matches!(&f.arguments[0].value, ArgVal::Var(n) if n == "v_0"));
            assert!(matches!(&f.arguments[1].value, ArgVal::Str(n) if n == "v"));
            match &f.selection_set[0] {
                Selection::Field(g) => {
                    assert!(matches!(&g.arguments[0].value, ArgVal::Var(n) if n == "v_0"));
                },
                _ => panic!("expected field"),
            }
        },
        _ => panic!("expected field"),
    }
}
