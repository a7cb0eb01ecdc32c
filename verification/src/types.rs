//! The structured type model that raw documentation type text resolves to.

use vstd::prelude::*;

verus! {

/// Format attached to an integer type.
#[derive(Clone, Copy, PartialEq, Eq, Structural, Debug)]
pub enum IntegerFormat {
    Int32,
    Int64,
    Unspecified,
}

/// Format attached to a number type.
#[derive(Clone, Copy, PartialEq, Eq, Structural, Debug)]
pub enum NumberFormat {
    Float,
    Unspecified,
}

/// A resolved schema type: exactly one variant per property, no unions.
/// A `Text` type with an empty `enumeration` is a plain string; a non-empty
/// `enumeration` lists the allowed literal values in document order.
#[derive(PartialEq, Eq, Debug)]
#[allow(inconsistent_fields)]
pub enum SchemaType {
    Text { enumeration: Vec<String> },
    Integer { format: IntegerFormat },
    Number { format: NumberFormat },
    Boolean,
    Array { items: Box<SchemaType> },
    Object,
}

/// Mathematical counterpart of `SchemaType`, with sequences of characters in
/// place of heap-allocated strings; the type contracts speak in this model.
#[allow(inconsistent_fields)]
pub enum TypeModel {
    Text { enumeration: Seq<Seq<char>> },
    Integer { format: IntegerFormat },
    Number { format: NumberFormat },
    Boolean,
    Array { items: Box<TypeModel> },
    Object,
}

impl SchemaType {
    pub open spec fn model(self) -> TypeModel
        decreases self,
    {
        match self {
            SchemaType::Text { enumeration } => TypeModel::Text {
                enumeration: enumeration.deep_view(),
            },
            SchemaType::Integer { format } => TypeModel::Integer { format },
            SchemaType::Number { format } => TypeModel::Number { format },
            SchemaType::Boolean => TypeModel::Boolean,
            SchemaType::Array { items } => TypeModel::Array {
                items: Box::new((*items).model()),
            },
            SchemaType::Object => TypeModel::Object,
        }
    }
}

impl View for SchemaType {
    type V = TypeModel;

    open spec fn view(&self) -> TypeModel {
        self.model()
    }
}

impl DeepView for SchemaType {
    type V = TypeModel;

    open spec fn deep_view(&self) -> TypeModel {
        self.model()
    }
}

} // verus!
