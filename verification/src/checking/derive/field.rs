//! The types of constructor fields, as derivation reads them.

use super::super::types::{FileId, Name, SmolStrId, TypeId};
use crate::indexing::items::TypeItemId;
use crate::text::same_text;
use vstd::prelude::*;

verus! {

/// The type of a constructor's field with its synonyms expanded.
#[allow(inconsistent_fields)]
#[derive(Debug)]
pub enum FieldType {
    Function { id: TypeId, argument: Box<FieldType>, result: Box<FieldType> },
    Application { id: TypeId, function: Box<FieldType>, argument: Box<FieldType> },
    KindApplication { id: TypeId, function: Box<FieldType>, argument: Box<FieldType> },
    Row { id: TypeId, fields: Vec<RowField>, tail: Option<Box<FieldType>> },
    Rigid { id: TypeId, name: Name },
    Constructor { id: TypeId, file: FileId, item: TypeItemId },
    Free { id: TypeId, name: SmolStrId },
    /// A type that derivation does not look into, with the type variables in it.
    Other { id: TypeId, rigids: Vec<Name> },
}

/// A field of a row.
#[derive(Debug)]
pub struct RowField {
    pub label: String,
    pub field: FieldType,
}

impl FieldType {
    pub open spec fn identity(self) -> TypeId {
        match self {
            FieldType::Function { id, .. } => id,
            FieldType::Application { id, .. } => id,
            FieldType::KindApplication { id, .. } => id,
            FieldType::Row { id, .. } => id,
            FieldType::Rigid { id, .. } => id,
            FieldType::Constructor { id, .. } => id,
            FieldType::Free { id, .. } => id,
            FieldType::Other { id, .. } => id,
        }
    }

    pub fn id(&self) -> (id: TypeId)
        ensures
            id == self.identity(),
    {
        match self {
            FieldType::Function { id, .. } => *id,
            FieldType::Application { id, .. } => *id,
            FieldType::KindApplication { id, .. } => *id,
            FieldType::Row { id, .. } => *id,
            FieldType::Rigid { id, .. } => *id,
            FieldType::Constructor { id, .. } => *id,
            FieldType::Free { id, .. } => *id,
            FieldType::Other { id, .. } => *id,
        }
    }

    /// The function and the argument of an applied type.
    pub open spec fn applied(self) -> Option<(FieldType, FieldType)> {
        match self {
            FieldType::Application { function, argument, .. } => Some((*function, *argument)),
            _ => None,
        }
    }

    pub fn decompose_type_application(&self) -> (parts: Option<(&FieldType, &FieldType)>)
        ensures
            match parts {
                Some((function, argument)) => self.applied() == Some((*function, *argument)),
                None => self.applied() is None,
            },
    {
        match self {
            FieldType::Application { function, argument, .. } => Some((&**function, &**argument)),
            _ => None,
        }
    }

    /// The argument and the result of a function type.
    pub open spec fn arrow(self) -> Option<(FieldType, FieldType)> {
        match self {
            FieldType::Function { argument, result, .. } => Some((*argument, *result)),
            _ => None,
        }
    }

    pub fn decompose_function(&self) -> (parts: Option<(&FieldType, &FieldType)>)
        ensures
            match parts {
                Some((argument, result)) => self.arrow() == Some((*argument, *result)),
                None => self.arrow() is None,
            },
    {
        match self {
            FieldType::Function { argument, result, .. } => Some((&**argument, &**result)),
            _ => None,
        }
    }

    /// The fields of a record type.
    pub open spec fn record(self) -> Option<Seq<RowField>> {
        match self.applied() {
            Some((_, FieldType::Row { fields, .. })) => Some(fields@),
            _ => None,
        }
    }

    pub fn extract_record_row(&self) -> (row: Option<&Vec<RowField>>)
        ensures
            match row {
                Some(fields) => self.record() == Some(fields@),
                None => self.record() is None,
            },
    {
        match self.decompose_type_application() {
            Some((_, FieldType::Row { fields, .. })) => Some(fields),
            _ => None,
        }
    }

    /// What a type is applied to its arguments.
    pub open spec fn head(self) -> FieldType
        decreases self,
    {
        match self {
            FieldType::Application { function, .. } => function.head(),
            _ => self,
        }
    }

    pub fn type_head(&self) -> (head: &FieldType)
        ensures
            *head == self.head(),
        decreases *self,
    {
        match self {
            FieldType::Application { function, .. } => function.type_head(),
            _ => self,
        }
    }

    /// The type variable occurs in the type.
    pub open spec fn mentions(self, name: Name) -> bool
        decreases self, 0nat,
    {
        match self {
            FieldType::Function { argument, result, .. } => argument.mentions(name)
                || result.mentions(name),
            FieldType::Application { function, argument, .. } => function.mentions(name)
                || argument.mentions(name),
            FieldType::KindApplication { function, argument, .. } => function.mentions(name)
                || argument.mentions(name),
            FieldType::Row { fields, tail, .. } => fields_mention(fields, fields@.len(), name) || (
            tail matches Some(tail) && tail.mentions(name)),
            FieldType::Rigid { name: own, .. } => own == name,
            FieldType::Other { rigids, .. } => rigids@.contains(name),
            _ => false,
        }
    }

    /// Whether the type variable occurs in the type.
    pub fn contains_rigid(&self, name: Name) -> (mentioned: bool)
        ensures
            mentioned == self.mentions(name),
        decreases *self,
    {
        match self {
            FieldType::Function { argument, result, .. } => argument.contains_rigid(name)
                || result.contains_rigid(name),
            FieldType::Application { function, argument, .. } => function.contains_rigid(name)
                || argument.contains_rigid(name),
            FieldType::KindApplication { function, argument, .. } => function.contains_rigid(name)
                || argument.contains_rigid(name),
            FieldType::Row { fields, tail, .. } => {
                let mut index: usize = 0;
                while index < fields.len()
                    invariant
                        index <= fields.len(),
                        !fields_mention(*fields, index as nat, name),
                        *self matches FieldType::Row { fields: own, .. } && own == *fields,
                    decreases fields.len() - index,
                {
                    if fields[index].field.contains_rigid(name) {
                        proof {
                            lemma_fields_mention(*fields, index as nat + 1, fields@.len(), name);
                        }
                        return true;
                    }
                    index += 1;
                }
                match tail {
                    Some(tail) => tail.contains_rigid(name),
                    None => false,
                }
            },
            FieldType::Rigid { name: own, .. } => *own == name,
            FieldType::Other { rigids, .. } => {
                let mut index: usize = 0;
                while index < rigids.len()
                    invariant
                        index <= rigids.len(),
                        forall|i: int| 0 <= i < index ==> rigids@[i] != name,
                        *self matches FieldType::Other { rigids: own, .. } && own == *rigids,
                    decreases rigids.len() - index,
                {
                    if rigids[index] == name {
                        assert(rigids@[index as int] == name);
                        return true;
                    }
                    index += 1;
                }
                false
            },
            _ => false,
        }
    }
}

/// The type variable occurs in one of the first fields.
pub open spec fn fields_mention(fields: Vec<RowField>, count: nat, name: Name) -> bool
    decreases fields, count,
{
    count > 0 && count <= fields@.len() && (fields_mention(fields, (count - 1) as nat, name)
        || fields@[count - 1].field.mentions(name))
}

proof fn lemma_fields_mention(fields: Vec<RowField>, count: nat, more: nat, name: Name)
    requires
        count <= more <= fields@.len(),
        fields_mention(fields, count, name),
    ensures
        fields_mention(fields, more, name),
    decreases more,
{
    if count < more {
        lemma_fields_mention(fields, count, (more - 1) as nat, name);
    }
}

/// The field of a row that has the label, the first one where there are several.
pub open spec fn row_field(fields: Seq<RowField>, label: Seq<char>) -> Option<FieldType>
    decreases fields.len(),
{
    if fields.len() == 0 {
        None
    } else if fields[0].label@ == label {
        Some(fields[0].field)
    } else {
        row_field(fields.skip(1), label)
    }
}

/// The field of a row that has the label.
pub fn find_row_field<'a>(fields: &'a Vec<RowField>, label: &str) -> (field: Option<&'a FieldType>)
    ensures
        match field {
            Some(field) => row_field(fields@, label@) == Some(*field),
            None => row_field(fields@, label@) is None,
        },
{
    let mut index: usize = 0;
    assert(fields@.skip(0) =~= fields@);
    while index < fields.len()
        invariant
            index <= fields.len(),
            row_field(fields@, label@) == row_field(fields@.skip(index as int), label@),
        decreases fields.len() - index,
    {
        assert(fields@.skip(index as int).skip(1) =~= fields@.skip(index + 1));
        if same_text(fields[index].label.as_str(), label) {
            return Some(&fields[index].field);
        }
        index += 1;
    }
    None
}

} // verus!
