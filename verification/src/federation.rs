//! Federation spec definitions: building the federation directives
//! (`@key`, `@requires`, ...) against a schema that may import them under
//! renamed names, and the registry of known federation versions.

use vstd::prelude::*;
use vstd::string::StringExecFns;
use crate::ast::{Directive, Argument, ArgVal, view_dir, view_args, lemma_view_args, SpecDirective};

verus! {

/// A spec version: major and minor number.
#[derive(Clone, Copy, Debug, PartialEq, Eq, Structural)]
pub struct Version {
    pub major: u64,
    pub minor: u64,
}

impl Version {
    /// Whether this version precedes the other.
    pub fn lt(&self, other: &Version) -> (r: bool)
        ensures
            r == spec_version_lt(*self, *other),
    {
        self.major < other.major || (self.major == other.major && self.minor < other.minor)
    }
}

pub open spec fn spec_version_lt(a: Version, b: Version) -> bool {
    a.major < b.major || (a.major == b.major && a.minor < b.minor)
}

/// The identity of a spec: its domain and name.
pub struct Identity {
    pub domain: String,
    pub name: String,
}

impl Identity {
    /// The identity of the join spec.
    pub fn join_identity() -> (r: Identity)
        ensures
            r.domain@ == "https://specs.apollo.dev"@,
            r.name@ == "join"@,
    {
        Identity { domain: String::from_str("https://specs.apollo.dev"), name: String::from_str("join") }
    }

    /// The identity of the federation spec.
    pub fn federation_identity() -> (r: Identity)
        ensures
            r.domain@ == "https://specs.apollo.dev"@,
            r.name@ == "federation"@,
    {
        Identity { domain: String::from_str("https://specs.apollo.dev"), name: String::from_str("federation") }
    }
}

/// The URL of one spec version: identity plus version.
pub struct Url {
    pub identity: Identity,
    pub version: Version,
}

/// How a schema imports the federation directives: each spec-side
/// directive name mapped to the name it carries in the schema.
pub struct FederationSchema {
    pub directive_names: Vec<(String, String)>,
}

/// The name a spec-side directive carries in the schema, if imported.
pub open spec fn spec_directive_name(names: Seq<(String, String)>, spec_name: Seq<char>, i: nat) -> Option<Seq<char>>
    decreases names.len() - i,
{
    if i >= names.len() {
        Option::None
    } else if names[i as int].0@ == spec_name {
        Option::Some(names[i as int].1@)
    } else {
        spec_directive_name(names, spec_name, (i + 1) as nat)
    }
}

impl FederationSchema {
    /// The name a spec-side directive carries in this schema.
    pub fn directive_name_in_schema(&self, spec_name: &str) -> (r: Option<String>)
        ensures
            match r {
                Option::Some(n) => spec_directive_name(self.directive_names@, spec_name@, 0) == Option::Some(n@),
                Option::None => spec_directive_name(self.directive_names@, spec_name@, 0) is None,
            },
    {
        let sn = String::from_str(spec_name);
        self.lookup(&sn, 0)
    }

    fn lookup(&self, spec_name: &String, i: usize) -> (r: Option<String>)
        ensures
            match r {
                Option::Some(n) => spec_directive_name(self.directive_names@, spec_name@, i as nat) == Option::Some(n@),
                Option::None => spec_directive_name(self.directive_names@, spec_name@, i as nat) is None,
            },
        decreases self.directive_names@.len() - i,
    {
        if i >= self.directive_names.len() {
            Option::None
        } else if self.directive_names[i].0 == *spec_name {
            Option::Some(self.directive_names[i].1.clone())
        } else {
            self.lookup(spec_name, i + 1)
        }
    }
}

/// An error raised while building a federation directive.
#[derive(Debug)]
pub enum FederationError {
    /// The federation spec is not (or not adequately) present in the
    /// schema.
    Internal(String),
}

/// One known federation spec version.
pub struct FederationSpecDefinition {
    pub url: Url,
}

impl FederationSpecDefinition {
    /// A definition for one federation version, under the join identity.
    pub fn new(version: Version) -> (r: FederationSpecDefinition)
        ensures
            r.url.version == version,
            r.url.identity.name@ == "join"@,
    {
        FederationSpecDefinition { url: Url { identity: Identity::join_identity(), version } }
    }

    /// The URL of this definition.
    pub fn url(&self) -> (r: &Url)
        ensures
            r == self.url,
    {
        &self.url
    }

    /// The minimum federation version this spec requires, none here.
    pub fn minimum_federation_version(&self) -> (r: Option<Version>)
        ensures
            r is None,
    {
        Option::None
    }

    /// The `@key` directive as it must be written in the given schema.
    pub fn key_directive(&self, schema: &FederationSchema, fields: String, resolvable: bool) -> (r: Result<Directive, FederationError>)
        ensures
            match r {
                Result::Ok(d) => spec_directive_name(schema.directive_names@, "key"@, 0) == Option::Some(d.name@)
                    && view_args(d.arguments@) =~= seq![
                        ("fields"@, crate::ast::SpecArgVal::Str(fields@)),
                        ("resolvable"@, crate::ast::SpecArgVal::Bool(resolvable)),
                    ],
                Result::Err(_) => spec_directive_name(schema.directive_names@, "key"@, 0) is None,
            },
    {
        match schema.directive_name_in_schema("key") {
            Option::Some(name) => {
                let mut arguments: Vec<Argument> = Vec::new();
                arguments.push(Argument { name: String::from_str("fields"), value: ArgVal::Str(fields) });
                arguments.push(Argument { name: String::from_str("resolvable"), value: ArgVal::Bool(resolvable) });
                proof {
                    lemma_view_args(arguments@);
                    assert(view_args(arguments@) =~= seq![
                        (arguments@[0].name@, crate::ast::view_val(arguments@[0].value)),
                        (arguments@[1].name@, crate::ast::view_val(arguments@[1].value)),
                    ]);
                }
                Result::Ok(Directive { name, arguments })
            },
            Option::None => Result::Err(FederationError::Internal(
                String::from_str("could not find federation spec in schema"),
            )),
        }
    }

    /// The `@interfaceObject` directive as it must be written in the
    /// given schema; only federation 2.3 and later has it.
    pub fn interface_object_directive(&self, schema: &FederationSchema) -> (r: Result<Directive, FederationError>)
        ensures
            match r {
                Result::Ok(d) => !spec_version_lt(self.url.version, Version { major: 2, minor: 3 })
                    && spec_directive_name(schema.directive_names@, "interfaceObject"@, 0) == Option::Some(d.name@)
                    && d.arguments@.len() == 0,
                Result::Err(_) => spec_version_lt(self.url.version, Version { major: 2, minor: 3 })
                    || spec_directive_name(schema.directive_names@, "interfaceObject"@, 0) is None,
            },
    {
        let min = Version { major: 2, minor: 3 };
        if self.url.version.lt(&min) {
            return Result::Err(FederationError::Internal(
                String::from_str("must be using federation >= v2.3 to use interface object"),
            ));
        }
        match schema.directive_name_in_schema("interfaceObject") {
            Option::Some(name) => Result::Ok(Directive { name, arguments: Vec::new() }),
            Option::None => Result::Err(FederationError::Internal(
                String::from_str("could not find federation spec in schema"),
            )),
        }
    }

    /// The `@external` directive, with its optional `reason` argument.
    pub fn external_directive(&self, schema: &FederationSchema, reason: Option<String>) -> (r: Result<Directive, FederationError>)
        ensures
            match r {
                Result::Ok(d) => spec_directive_name(schema.directive_names@, "external"@, 0) == Option::Some(d.name@)
                    && view_args(d.arguments@) =~= (match reason {
                        Option::Some(re) => seq![("reason"@, crate::ast::SpecArgVal::Str(re@))],
                        Option::None => Seq::<(Seq<char>, crate::ast::SpecArgVal)>::empty(),
                    }),
                Result::Err(_) => spec_directive_name(schema.directive_names@, "external"@, 0) is None,
            },
    {
        match schema.directive_name_in_schema("external") {
            Option::Some(name) => {
                let mut arguments: Vec<Argument> = Vec::new();
                match reason {
                    Option::Some(re) => {
                        arguments.push(Argument { name: String::from_str("reason"), value: ArgVal::Str(re) });
                        proof {
                            lemma_view_args(arguments@);
                            assert(view_args(arguments@) =~= seq![
                                (arguments@[0].name@, crate::ast::view_val(arguments@[0].value)),
                            ]);
                        }
                    },
                    Option::None => {
                        proof {
                            lemma_view_args(arguments@);
                            assert(view_args(arguments@) =~= Seq::<(Seq<char>, crate::ast::SpecArgVal)>::empty());
                        }
                    },
                }
                Result::Ok(Directive { name, arguments })
            },
            Option::None => Result::Err(FederationError::Internal(
                String::from_str("could not find federation spec in schema"),
            )),
        }
    }

    /// The `@requires` directive with its `fields` argument.
    pub fn requires_directive(&self, schema: &FederationSchema, fields: String) -> (r: Result<Directive, FederationError>)
        ensures
            match r {
                Result::Ok(d) => spec_directive_name(schema.directive_names@, "requires"@, 0) == Option::Some(d.name@)
                    && view_args(d.arguments@) =~= seq![("fields"@, crate::ast::SpecArgVal::Str(fields@))],
                Result::Err(_) => spec_directive_name(schema.directive_names@, "requires"@, 0) is None,
            },
    {
        self.fields_directive(schema, "requires", fields)
    }

    /// The `@provides` directive with its `fields` argument.
    pub fn provides_directive(&self, schema: &FederationSchema, fields: String) -> (r: Result<Directive, FederationError>)
        ensures
            match r {
                Result::Ok(d) => spec_directive_name(schema.directive_names@, "provides"@, 0) == Option::Some(d.name@)
                    && view_args(d.arguments@) =~= seq![("fields"@, crate::ast::SpecArgVal::Str(fields@))],
                Result::Err(_) => spec_directive_name(schema.directive_names@, "provides"@, 0) is None,
            },
    {
        self.fields_directive(schema, "provides", fields)
    }

    fn fields_directive(&self, schema: &FederationSchema, dname: &str, fields: String) -> (r: Result<Directive, FederationError>)
        ensures
            match r {
                Result::Ok(d) => spec_directive_name(schema.directive_names@, dname@, 0) == Option::Some(d.name@)
                    && view_args(d.arguments@) =~= seq![("fields"@, crate::ast::SpecArgVal::Str(fields@))],
                Result::Err(_) => spec_directive_name(schema.directive_names@, dname@, 0) is None,
            },
    {
        match schema.directive_name_in_schema(dname) {
            Option::Some(name) => {
                let mut arguments: Vec<Argument> = Vec::new();
                arguments.push(Argument { name: String::from_str("fields"), value: ArgVal::Str(fields) });
                proof {
                    lemma_view_args(arguments@);
                    assert(view_args(arguments@) =~= seq![
                        (arguments@[0].name@, crate::ast::view_val(arguments@[0].value)),
                    ]);
                }
                Result::Ok(Directive { name, arguments })
            },
            Option::None => Result::Err(FederationError::Internal(
                String::from_str("could not find federation spec in schema"),
            )),
        }
    }

    /// The `@shareable` directive.
    pub fn shareable_directive(&self, schema: &FederationSchema) -> (r: Result<Directive, FederationError>)
        ensures
            match r {
                Result::Ok(d) => spec_directive_name(schema.directive_names@, "shareable"@, 0) == Option::Some(d.name@)
                    && d.arguments@.len() == 0,
                Result::Err(_) => spec_directive_name(schema.directive_names@, "shareable"@, 0) is None,
            },
    {
        match schema.directive_name_in_schema("shareable") {
            Option::Some(name) => Result::Ok(Directive { name, arguments: Vec::new() }),
            Option::None => Result::Err(FederationError::Internal(
                String::from_str("could not find federation spec in schema"),
            )),
        }
    }

    /// The `@override` directive with its `from` argument.
    pub fn override_directive(&self, schema: &FederationSchema, from: String) -> (r: Result<Directive, FederationError>)
        ensures
            match r {
                Result::Ok(d) => spec_directive_name(schema.directive_names@, "override"@, 0) == Option::Some(d.name@)
                    && view_args(d.arguments@) =~= seq![("from"@, crate::ast::SpecArgVal::Str(from@))],
                Result::Err(_) => spec_directive_name(schema.directive_names@, "override"@, 0) is None,
            },
    {
        match schema.directive_name_in_schema("override") {
            Option::Some(name) => {
                let mut arguments: Vec<Argument> = Vec::new();
                arguments.push(Argument { name: String::from_str("from"), value: ArgVal::Str(from) });
                proof {
                    lemma_view_args(arguments@);
                    assert(view_args(arguments@) =~= seq![
                        (arguments@[0].name@, crate::ast::view_val(arguments@[0].value)),
                    ]);
                }
                Result::Ok(Directive { name, arguments })
            },
            Option::None => Result::Err(FederationError::Internal(
                String::from_str("could not find federation spec in schema"),
            )),
        }
    }
}

/// The registry of federation spec definitions, keyed by version.
pub struct SpecDefinitions {
    pub identity: Identity,
    pub definitions: Vec<FederationSpecDefinition>,
}

impl SpecDefinitions {
    /// An empty registry under the given identity.
    pub fn new(identity: Identity) -> (r: SpecDefinitions)
        ensures
            r.definitions@.len() == 0,
    {
        SpecDefinitions { identity, definitions: Vec::new() }
    }

    /// Adds one definition.
    pub fn add(&mut self, definition: FederationSpecDefinition)
        ensures
            final(self).definitions@ == old(self).definitions@.push(definition),
            final(self).identity == old(self).identity,
    {
        self.definitions.push(definition);
    }
}

/// The registry of the known federation versions, 2.0 through 2.5.
pub fn federation_versions() -> (r: SpecDefinitions)
    ensures
        r.definitions@.len() == 6,
        forall|i: int| 0 <= i < 6 ==> (#[trigger] r.definitions@[i]).url.version == (Version { major: 2, minor: i as u64 }),
{
    let mut defs = SpecDefinitions::new(Identity::federation_identity());
    defs.add(FederationSpecDefinition::new(Version { major: 2, minor: 0 }));
    defs.add(FederationSpecDefinition::new(Version { major: 2, minor: 1 }));
    defs.add(FederationSpecDefinition::new(Version { major: 2, minor: 2 }));
    defs.add(FederationSpecDefinition::new(Version { major: 2, minor: 3 }));
    defs.add(FederationSpecDefinition::new(Version { major: 2, minor: 4 }));
    defs.add(FederationSpecDefinition::new(Version { major: 2, minor: 5 }));
    defs
}

} // verus!
