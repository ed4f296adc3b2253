//! The data model of a columnar file's schema: fields with a name, a logical
//! type and a nullability flag, and the strict positional compatibility rule
//! used to validate inputs against the canonical schema.

use vstd::prelude::*;

verus! {

/// The logical type of a column.
///
/// Types the consolidation rules never inspect further are carried as
/// `Other` with their rendered name, so every source schema can be modelled.
#[derive(Debug)]
pub enum ColumnType {
    Boolean,
    Int32,
    Int64,
    Float64,
    Utf8,
    Binary,
    Date,
    Timestamp,
    Other(String),
}

/// The mathematical value of a `ColumnType`.
pub enum ColumnTypeV {
    Boolean,
    Int32,
    Int64,
    Float64,
    Utf8,
    Binary,
    Date,
    Timestamp,
    Other(Seq<char>),
}

impl View for ColumnType {
    type V = ColumnTypeV;

    open spec fn view(&self) -> ColumnTypeV {
        match self {
            ColumnType::Boolean => ColumnTypeV::Boolean,
            ColumnType::Int32 => ColumnTypeV::Int32,
            ColumnType::Int64 => ColumnTypeV::Int64,
            ColumnType::Float64 => ColumnTypeV::Float64,
            ColumnType::Utf8 => ColumnTypeV::Utf8,
            ColumnType::Binary => ColumnTypeV::Binary,
            ColumnType::Date => ColumnTypeV::Date,
            ColumnType::Timestamp => ColumnTypeV::Timestamp,
            ColumnType::Other(s) => ColumnTypeV::Other(s@),
        }
    }
}

impl ColumnType {
    /// Whether two logical types are the same.
    pub fn same_type(&self, other: &ColumnType) -> (r: bool)
        ensures
            r == (self@ == other@),
    {
        match self {
            ColumnType::Boolean => match other {
                ColumnType::Boolean => true,
                _ => false,
            },
            ColumnType::Int32 => match other {
                ColumnType::Int32 => true,
                _ => false,
            },
            ColumnType::Int64 => match other {
                ColumnType::Int64 => true,
                _ => false,
            },
            ColumnType::Float64 => match other {
                ColumnType::Float64 => true,
                _ => false,
            },
            ColumnType::Utf8 => match other {
                ColumnType::Utf8 => true,
                _ => false,
            },
            ColumnType::Binary => match other {
                ColumnType::Binary => true,
                _ => false,
            },
            ColumnType::Date => match other {
                ColumnType::Date => true,
                _ => false,
            },
            ColumnType::Timestamp => match other {
                ColumnType::Timestamp => true,
                _ => false,
            },
            ColumnType::Other(s) => match other {
                ColumnType::Other(t) => *s == *t,
                _ => false,
            },
        }
    }
}

/// One field of a schema.
#[derive(Debug)]
pub struct FieldDef {
    pub name: String,
    pub ctype: ColumnType,
    pub nullable: bool,
}

/// The mathematical value of a `FieldDef`.
pub struct FieldDefV {
    pub name: Seq<char>,
    pub ctype: ColumnTypeV,
    pub nullable: bool,
}

impl View for FieldDef {
    type V = FieldDefV;

    open spec fn view(&self) -> FieldDefV {
        FieldDefV { name: self.name@, ctype: self.ctype@, nullable: self.nullable }
    }
}

/// Two fields match for consolidation purposes when their names and logical
/// types are equal; nullability is not part of the identity.
pub open spec fn field_compatible_spec(a: FieldDefV, b: FieldDefV) -> bool {
    a.name == b.name && a.ctype == b.ctype
}

impl FieldDef {
    /// Whether this field matches another: same name, same logical type.
    pub fn compatible_with(&self, other: &FieldDef) -> (r: bool)
        ensures
            r == field_compatible_spec(self@, other@),
    {
        self.name == other.name && self.ctype.same_type(&other.ctype)
    }
}

/// An ordered sequence of fields.
#[derive(Debug)]
pub struct SchemaDef {
    pub fields: Vec<FieldDef>,
}

impl View for SchemaDef {
    type V = Seq<FieldDefV>;

    open spec fn view(&self) -> Seq<FieldDefV> {
        self.fields@.map_values(|f: FieldDef| f@)
    }
}

/// Two schemas are compatible when they have the same length and the fields
/// match position by position. This is a strict check against one canonical
/// schema, not a symmetric unification.
pub open spec fn schema_compatible_spec(a: Seq<FieldDefV>, b: Seq<FieldDefV>) -> bool {
    a.len() == b.len() && (forall|i: int|
        0 <= i < a.len() ==> field_compatible_spec(a[i], b[i]))
}

/// Whether position `i` separates the two schemas: one of them ends there, or
/// the fields at that position differ.
pub open spec fn diverges_at(a: Seq<FieldDefV>, b: Seq<FieldDefV>, i: int) -> bool {
    i >= a.len() || i >= b.len() || !field_compatible_spec(a[i], b[i])
}

impl SchemaDef {
    /// The number of fields.
    pub fn len(&self) -> (n: usize)
        ensures
            n == self@.len(),
    {
        self.fields.len()
    }

    /// Whether another schema is compatible with this one.
    pub fn compatible_with(&self, other: &SchemaDef) -> (r: bool)
        ensures
            r == schema_compatible_spec(self@, other@),
    {
        if self.fields.len() != other.fields.len() {
            return false;
        }
        let n = self.fields.len();
        let mut i: usize = 0;
        while i < n
            invariant
                i <= n,
                n == self@.len(),
                n == other@.len(),
                forall|j: int| 0 <= j < i ==> field_compatible_spec(self@[j], other@[j]),
            decreases n - i,
        {
            if !self.fields[i].compatible_with(&other.fields[i]) {
                assert(!field_compatible_spec(self@[i as int], other@[i as int]));
                return false;
            }
            i = i + 1;
        }
        true
    }

    /// The first position at which this schema and another diverge: the least
    /// index where one schema ends or the fields differ. `None` exactly when
    /// the schemas are compatible.
    pub fn first_divergence(&self, other: &SchemaDef) -> (r: Option<usize>)
        ensures
            match r {
                Some(i) => diverges_at(self@, other@, i as int) && (forall|j: int|
                    0 <= j < i ==> !diverges_at(self@, other@, j))
                    && !schema_compatible_spec(self@, other@),
                None => schema_compatible_spec(self@, other@),
            },
    {
        let na = self.fields.len();
        let nb = other.fields.len();
        let shorter: usize = if na < nb { na } else { nb };
        let mut i: usize = 0;
        while i < shorter
            invariant
                i <= shorter,
                na == self@.len(),
                nb == other@.len(),
                shorter == if na < nb { na } else { nb },
                forall|j: int| 0 <= j < i ==> !diverges_at(self@, other@, j),
            decreases shorter - i,
        {
            if !self.fields[i].compatible_with(&other.fields[i]) {
                assert(diverges_at(self@, other@, i as int));
                return Some(i);
            }
            i = i + 1;
        }
        if na == nb {
            assert forall|j: int| 0 <= j < self@.len()
                implies field_compatible_spec(self@[j], other@[j]) by {
                assert(!diverges_at(self@, other@, j));
            }
            None
        } else {
            assert(diverges_at(self@, other@, shorter as int));
            Some(shorter)
        }
    }
}

} // verus!

