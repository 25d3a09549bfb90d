//! The columnar side of the codec: a table of named, equally long columns,
//! each either a flat scalar column or a fixed-width list column. Scalar
//! values are carried as unsigned bit patterns of the column's kind; a
//! floating-point column holds the IEEE bit patterns of its values.

use crate::datatype::{spec_from_arrow, spec_width, ArrowDataType, RosDataType};
use crate::scalar::pow256;
use vstd::prelude::*;

verus! {

/// One column of a table: a scalar per row, or a fixed-length list per row.
#[derive(Clone, Debug)]
pub enum Column {
    Scalar { dtype: ArrowDataType, values: Vec<u64> },
    FixedList { dtype: ArrowDataType, count: u32, values: Vec<Vec<u64>> },
}

/// Mathematical model of a `Column`.
#[verifier::ext_equal]
pub ghost enum ColumnModel {
    Scalar { dtype: ArrowDataType, values: Seq<u64> },
    FixedList { dtype: ArrowDataType, count: u32, values: Seq<Seq<u64>> },
}

impl View for Column {
    type V = ColumnModel;

    open spec fn view(&self) -> ColumnModel {
        match self {
            Column::Scalar { dtype, values } => {
                ColumnModel::Scalar { dtype: *dtype, values: values@ }
            },
            Column::FixedList { dtype, count, values } => {
                ColumnModel::FixedList {
                    dtype: *dtype,
                    count: *count,
                    values: values@.map_values(|v: Vec<u64>| v@),
                }
            },
        }
    }
}

/// A named column of a table.
#[derive(Clone, Debug)]
pub struct NamedColumn {
    pub name: String,
    pub column: Column,
}

/// Mathematical model of a `NamedColumn`.
#[verifier::ext_equal]
pub ghost struct NamedColumnModel {
    pub name: Seq<char>,
    pub column: ColumnModel,
}

impl View for NamedColumn {
    type V = NamedColumnModel;

    open spec fn view(&self) -> NamedColumnModel {
        NamedColumnModel { name: self.name@, column: self.column@ }
    }
}

/// A columnar table: the decoded form of a record set, one column per field,
/// in field order.
#[derive(Clone, Debug)]
pub struct ColumnarTable {
    pub columns: Vec<NamedColumn>,
}

impl View for ColumnarTable {
    type V = Seq<NamedColumnModel>;

    open spec fn view(&self) -> Seq<NamedColumnModel> {
        self.columns@.map_values(|c: NamedColumn| c@)
    }
}

impl ColumnModel {
    /// The columnar scalar kind of the column's elements.
    pub open spec fn dtype(self) -> ArrowDataType {
        match self {
            ColumnModel::Scalar { dtype, .. } => dtype,
            ColumnModel::FixedList { dtype, .. } => dtype,
        }
    }

    /// How many rows the column holds.
    pub open spec fn rows(self) -> nat {
        match self {
            ColumnModel::Scalar { values, .. } => values.len(),
            ColumnModel::FixedList { values, .. } => values.len(),
        }
    }

    /// The repeat count the column contributes to a field descriptor.
    pub open spec fn count(self) -> u32 {
        match self {
            ColumnModel::Scalar { .. } => 1,
            ColumnModel::FixedList { count, .. } => count,
        }
    }

    /// The record type tag of the column's kind, if the format has one.
    pub open spec fn tag(self) -> Option<RosDataType> {
        spec_from_arrow(self.dtype())
    }

    /// The byte span one row of this column occupies in a record.
    pub open spec fn span(self) -> nat
        recommends
            self.tag() is Some,
    {
        spec_width(self.tag()->Some_0) * self.count() as nat
    }

    /// Every fixed-list entry has exactly the declared number of elements.
    pub open spec fn arity_ok(self) -> bool {
        match self {
            ColumnModel::Scalar { .. } => true,
            ColumnModel::FixedList { count, values, .. } => forall|p: int|
                0 <= p < values.len() ==> #[trigger] values[p].len() == count,
        }
    }

    /// Every value fits in the byte width of the column's kind. Only kinds
    /// the record format can express constrain their values.
    pub open spec fn values_fit(self) -> bool {
        self.tag() is Some ==> {
            let w = spec_width(self.tag()->Some_0);
            match self {
                ColumnModel::Scalar { values, .. } => forall|p: int|
                    0 <= p < values.len() ==> #[trigger] values[p] < pow256(w),
                ColumnModel::FixedList { values, .. } => forall|p: int, j: int|
                    0 <= p < values.len() && 0 <= j < values[p].len() ==> #[trigger] values[p][j]
                        < pow256(w),
            }
        }
    }
}

impl Column {
    /// The columnar scalar kind of the column's elements.
    pub fn dtype(&self) -> (r: ArrowDataType)
        ensures
            r == self@.dtype(),
    {
        match self {
            Column::Scalar { dtype, .. } => *dtype,
            Column::FixedList { dtype, .. } => *dtype,
        }
    }

    /// How many rows the column holds.
    pub fn rows(&self) -> (r: usize)
        ensures
            r == self@.rows(),
    {
        match self {
            Column::Scalar { values, .. } => values.len(),
            Column::FixedList { values, .. } => values.len(),
        }
    }

    /// The repeat count the column contributes to a field descriptor.
    pub fn count(&self) -> (r: u32)
        ensures
            r == self@.count(),
    {
        match self {
            Column::Scalar { .. } => 1,
            Column::FixedList { count, .. } => *count,
        }
    }
}

/// Every column's values fit the byte width of its kind.
pub open spec fn table_values_fit(cols: Seq<NamedColumnModel>) -> bool {
    forall|i: int| 0 <= i < cols.len() ==> (#[trigger] cols[i].column).values_fit()
}

} // verus!
