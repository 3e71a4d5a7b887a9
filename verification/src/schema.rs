//! A minimal schema model: named types with their fields, interface
//! relations, and the set of interface-object type names that the
//! federation layer tracks per schema.

use vstd::prelude::*;

verus! {

/// Mathematical value of a field definition: name and declared type name.
pub struct SpecFieldDef {
    pub name: Seq<char>,
    pub ty_name: Seq<char>,
}

/// Mathematical value of a type definition.
pub struct SpecTypeDef {
    pub name: Seq<char>,
    pub is_interface: bool,
    pub implements: Seq<Seq<char>>,
    pub fields: Seq<SpecFieldDef>,
}

/// Mathematical value of a schema.
pub struct SpecSchema {
    pub query_type: Seq<char>,
    pub types: Seq<SpecTypeDef>,
}

/// A field definition: its name and the name of its declared type.
pub struct FieldDef {
    pub name: String,
    pub ty_name: String,
}

/// A named object or interface type with its fields.
pub struct TypeDef {
    pub name: String,
    pub is_interface: bool,
    pub implements: Vec<String>,
    pub fields: Vec<FieldDef>,
}

/// A schema: the root query type name and the composite types.
pub struct Schema {
    pub query_type: String,
    pub types: Vec<TypeDef>,
}

pub open spec fn view_field_def(f: FieldDef) -> SpecFieldDef {
    SpecFieldDef { name: f.name@, ty_name: f.ty_name@ }
}

pub open spec fn view_field_defs(q: Seq<FieldDef>) -> Seq<SpecFieldDef> {
    Seq::new(q.len(), |i: int| view_field_def(q[i]))
}

pub open spec fn view_strings(q: Seq<String>) -> Seq<Seq<char>> {
    Seq::new(q.len(), |i: int| q[i]@)
}

pub open spec fn view_type_def(t: TypeDef) -> SpecTypeDef {
    SpecTypeDef {
        name: t.name@,
        is_interface: t.is_interface,
        implements: view_strings(t.implements@),
        fields: view_field_defs(t.fields@),
    }
}

pub open spec fn view_type_defs(q: Seq<TypeDef>) -> Seq<SpecTypeDef> {
    Seq::new(q.len(), |i: int| view_type_def(q[i]))
}

impl View for Schema {
    type V = SpecSchema;

    open spec fn view(&self) -> SpecSchema {
        SpecSchema { query_type: self.query_type@, types: view_type_defs(self.types@) }
    }
}

/// The first type with the given name, searched from position `i`.
pub open spec fn find_type_from(types: Seq<SpecTypeDef>, name: Seq<char>, i: nat) -> Option<SpecTypeDef>
    decreases types.len() - i,
{
    if i >= types.len() {
        Option::None
    } else if types[i as int].name == name {
        Option::Some(types[i as int])
    } else {
        find_type_from(types, name, (i + 1) as nat)
    }
}

/// The declared type name of the named field on the named type, searched
/// from position `i` of the field list.
pub open spec fn find_field_from(fields: Seq<SpecFieldDef>, name: Seq<char>, i: nat) -> Option<Seq<char>>
    decreases fields.len() - i,
{
    if i >= fields.len() {
        Option::None
    } else if fields[i as int].name == name {
        Option::Some(fields[i as int].ty_name)
    } else {
        find_field_from(fields, name, (i + 1) as nat)
    }
}

/// Whether a name stands in a name list, searched from position `i`.
pub open spec fn name_in_from(names: Seq<Seq<char>>, name: Seq<char>, i: nat) -> bool
    decreases names.len() - i,
{
    i < names.len() && (names[i as int] == name || name_in_from(names, name, (i + 1) as nat))
}

/// The declared type name of a field on a type of the schema, or `None`
/// when the type or the field does not exist.
pub open spec fn spec_field_type(s: SpecSchema, ty_name: Seq<char>, field_name: Seq<char>) -> Option<Seq<char>> {
    match find_type_from(s.types, ty_name, 0) {
        Option::Some(t) => find_field_from(t.fields, field_name, 0),
        Option::None => Option::None,
    }
}

/// Whether the named type exists in the schema.
pub open spec fn spec_has_type(s: SpecSchema, ty_name: Seq<char>) -> bool {
    find_type_from(s.types, ty_name, 0) is Some
}

/// Whether a run-time object could satisfy both type conditions: the two
/// names are equal, or one names an interface that the other implements.
pub open spec fn spec_types_intersect(s: SpecSchema, a: Seq<char>, b: Seq<char>) -> bool {
    ||| a == b
    ||| (match find_type_from(s.types, a, 0) {
        Option::Some(t) => name_in_from(t.implements, b, 0),
        Option::None => false,
    })
    ||| (match find_type_from(s.types, b, 0) {
        Option::Some(t) => name_in_from(t.implements, a, 0),
        Option::None => false,
    })
}

impl Schema {
    fn find_type_exec(&self, name: &String, i: usize) -> (res: Option<&TypeDef>)
        ensures
            match res {
                Option::Some(t) => find_type_from(self@.types, name@, i as nat) == Option::Some(view_type_def(*t)),
                Option::None => find_type_from(self@.types, name@, i as nat) is None,
            },
        decreases self.types@.len() - i,
    {
        if i >= self.types.len() {
            Option::None
        } else if self.types[i].name == *name {
            Option::Some(&self.types[i])
        } else {
            self.find_type_exec(name, i + 1)
        }
    }

    /// Whether the named type exists in this schema.
    pub fn has_type(&self, name: &String) -> (res: bool)
        ensures
            res == spec_has_type(self@, name@),
    {
        self.find_type_exec(name, 0).is_some()
    }

    /// The declared type name of `field_name` on `ty_name`, if both
    /// exist.
    pub fn field_type(&self, ty_name: &String, field_name: &String) -> (res: Option<String>)
        ensures
            match res {
                Option::Some(t) => spec_field_type(self@, ty_name@, field_name@) == Option::Some(t@),
                Option::None => spec_field_type(self@, ty_name@, field_name@) is None,
            },
    {
        match self.find_type_exec(ty_name, 0) {
            Option::Some(t) => find_field_exec(&t.fields, field_name, 0),
            Option::None => Option::None,
        }
    }

    /// Whether the named type itself or a declared interface relation lets
    /// a run-time object satisfy both `a` and `b`.
    pub fn types_intersect(&self, a: &String, b: &String) -> (res: bool)
        ensures
            res == spec_types_intersect(self@, a@, b@),
    {
        if *a == *b {
            true
        } else {
            let fwd = match self.find_type_exec(a, 0) {
                Option::Some(t) => name_in_exec(&t.implements, b, 0),
                Option::None => false,
            };
            fwd || match self.find_type_exec(b, 0) {
                Option::Some(t) => name_in_exec(&t.implements, a, 0),
                Option::None => false,
            }
        }
    }
}

fn find_field_exec(fields: &Vec<FieldDef>, name: &String, i: usize) -> (res: Option<String>)
    ensures
        match res {
            Option::Some(t) => find_field_from(view_field_defs(fields@), name@, i as nat) == Option::Some(t@),
            Option::None => find_field_from(view_field_defs(fields@), name@, i as nat) is None,
        },
    decreases fields@.len() - i,
{
    if i >= fields.len() {
        Option::None
    } else if fields[i].name == *name {
        Option::Some(fields[i].ty_name.clone())
    } else {
        find_field_exec(fields, name, i + 1)
    }
}

/// Whether a name stands in a name list.
pub fn name_in_exec(names: &Vec<String>, name: &String, i: usize) -> (res: bool)
    ensures
        res == name_in_from(view_strings(names@), name@, i as nat),
    decreases names@.len() - i,
{
    if i >= names.len() {
        false
    } else {
        names[i] == *name || name_in_exec(names, name, i + 1)
    }
}

} // verus!
