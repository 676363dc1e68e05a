use vstd::prelude::*;

use crate::expr::NoirType;
use crate::float32::Single;

verus! {

/// The type a schema gives to a column.
#[derive(Clone, Copy, Debug, PartialEq, Eq, Hash)]
pub enum NoirTypeKind {
    Int32,
    Float32,
    Bool,
}

/// A record read from a source: a row of values, or a single value.
#[derive(Clone, Debug, PartialEq, Eq)]
pub enum NoirData {
    Row(Vec<NoirType>),
    NoirType(NoirType),
}

/// What the reader found in one field of a record: whether it is empty, and
/// the field read as an integer and as a float, where it reads as one.
#[derive(Clone, Copy, Debug, PartialEq, Eq)]
pub struct FieldParse {
    pub empty: bool,
    pub int: Option<i32>,
    pub float: Option<Single>,
}

/// The value of a field when no schema is given: an integer if it reads as
/// one, else a float, else missing.
pub open spec fn untyped_value(f: FieldParse) -> NoirType {
    if f.empty {
        NoirType::Missing()
    } else if f.int is Some {
        NoirType::Int32(f.int->Some_0)
    } else if f.float is Some {
        NoirType::Float32(f.float->Some_0)
    } else {
        NoirType::Missing()
    }
}

/// The value of a field of a column of `kind` in a record of several fields:
/// missing where it is empty or does not read as that kind; no value at all
/// for a column whose kind is not numeric.
pub open spec fn typed_value(f: FieldParse, kind: NoirTypeKind) -> Option<NoirType> {
    match kind {
        NoirTypeKind::Int32 => Some(
            if !f.empty && f.int is Some {
                NoirType::Int32(f.int->Some_0)
            } else {
                NoirType::Missing()
            },
        ),
        NoirTypeKind::Float32 => Some(
            if !f.empty && f.float is Some {
                NoirType::Float32(f.float->Some_0)
            } else {
                NoirType::Missing()
            },
        ),
        NoirTypeKind::Bool => None,
    }
}

/// The value of the single field of a one-column record of `kind`: missing
/// when empty, nothing when it does not read as that kind.
pub open spec fn single_value(f: FieldParse, kind: NoirTypeKind) -> Option<NoirType> {
    if f.empty {
        Some(NoirType::Missing())
    } else {
        match kind {
            NoirTypeKind::Int32 => if f.int is Some {
                Some(NoirType::Int32(f.int->Some_0))
            } else {
                None
            },
            NoirTypeKind::Float32 => if f.float is Some {
                Some(NoirType::Float32(f.float->Some_0))
            } else {
                None
            },
            NoirTypeKind::Bool => Some(NoirType::Missing()),
        }
    }
}

/// The value of a field when no schema is given.
pub fn untyped_field(f: &FieldParse) -> (r: NoirType)
    ensures
        r == untyped_value(*f),
{
    if f.empty {
        NoirType::Missing()
    } else {
        match f.int {
            Some(i) => NoirType::Int32(i),
            None => match f.float {
                Some(x) => NoirType::Float32(x),
                None => NoirType::Missing(),
            },
        }
    }
}

/// The value of a field of a column of `kind`.
pub fn typed_field(f: &FieldParse, kind: NoirTypeKind) -> (r: Option<NoirType>)
    ensures
        r == typed_value(*f, kind),
{
    match kind {
        NoirTypeKind::Int32 => Some(
            match (f.empty, f.int) {
                (false, Some(i)) => NoirType::Int32(i),
                _ => NoirType::Missing(),
            },
        ),
        NoirTypeKind::Float32 => Some(
            match (f.empty, f.float) {
                (false, Some(x)) => NoirType::Float32(x),
                _ => NoirType::Missing(),
            },
        ),
        NoirTypeKind::Bool => None,
    }
}

/// The fields of `fields` picked by `projections`, or all of them.
pub open spec fn picked<T>(fields: Seq<T>, projections: Option<Seq<usize>>) -> Seq<T> {
    match projections {
        Some(p) => p.map_values(|i: usize| fields[i as int]),
        None => fields,
    }
}

/// Turns a record read without a schema into data: a one-field record is a
/// single value, a longer one a row of the projected fields (all of them when
/// there is no projection), each read as `untyped_value` says.
pub fn record_without_schema(fields: &Vec<FieldParse>, projections: &Option<Vec<usize>>) -> (r:
    NoirData)
    requires
        projections matches Some(p) ==> forall|k: int|
            0 <= k < p@.len() ==> #[trigger] p@[k] < fields@.len(),
    ensures
        fields@.len() == 1 ==> r == NoirData::NoirType(untyped_value(fields@[0])),
        fields@.len() != 1 ==> (r matches NoirData::Row(row) && row@ == picked(
            fields@,
            match projections {
                Some(p) => Some(p@),
                None => None,
            },
        ).map_values(|f: FieldParse| untyped_value(f))),
{
    if fields.len() == 1 {
        return NoirData::NoirType(untyped_field(&fields[0]));
    }
    let ghost want = picked(
        fields@,
        match projections {
            Some(p) => Some(p@),
            None => None,
        },
    ).map_values(|f: FieldParse| untyped_value(f));
    let mut data: Vec<NoirType> = Vec::new();
    match projections {
        Some(p) => {
            let mut k: usize = 0;
            while k < p.len()
                invariant
                    k <= p@.len(),
                    forall|j: int| 0 <= j < p@.len() ==> #[trigger] p@[j] < fields@.len(),
                    want == p@.map_values(|i: usize| fields@[i as int]).map_values(
                        |f: FieldParse| untyped_value(f),
                    ),
                    data@ == want.take(k as int),
                decreases p.len() - k,
            {
                data.push(untyped_field(&fields[p[k]]));
                k = k + 1;
                assert(data@ =~= want.take(k as int));
            }
            assert(data@ =~= want);
        },
        None => {
            let mut k: usize = 0;
            while k < fields.len()
                invariant
                    k <= fields@.len(),
                    want == fields@.map_values(|f: FieldParse| untyped_value(f)),
                    data@ == want.take(k as int),
                decreases fields.len() - k,
            {
                data.push(untyped_field(&fields[k]));
                k = k + 1;
                assert(data@ =~= want.take(k as int));
            }
            assert(data@ =~= want);
        },
    }
    NoirData::Row(data)
}

/// The columns a record of `len` fields contributes: those of `projections`,
/// in its order, or all of them.
pub open spec fn positions(len: nat, projections: Option<Seq<usize>>) -> Seq<int> {
    match projections {
        Some(p) => p.map_values(|i: usize| i as int),
        None => Seq::new(len, |i: int| i),
    }
}

/// Every field at `pos` gets a value of its column's kind.
pub open spec fn all_typed(fields: Seq<FieldParse>, columns: Seq<NoirTypeKind>, pos: Seq<int>) -> bool {
    forall|k: int|
        0 <= k < pos.len() ==> (#[trigger] typed_value(fields[pos[k]], columns[pos[k]])) is Some
}

/// Turns a record read with a schema into data. A one-field record is its
/// single value as `single_value` says, or nothing when it does not read as
/// its kind. A longer record is the row of the values `typed_value` gives to
/// its projected fields; a non-numeric column among them makes the whole
/// record one missing value.
pub fn record_with_schema(
    fields: &Vec<FieldParse>,
    columns: &Vec<NoirTypeKind>,
    projections: &Option<Vec<usize>>,
) -> (r: Option<NoirData>)
    requires
        fields@.len() == columns@.len(),
        projections matches Some(p) ==> forall|k: int|
            0 <= k < p@.len() ==> #[trigger] p@[k] < fields@.len(),
    ensures
        fields@.len() == 1 ==> r == match single_value(fields@[0], columns@[0]) {
            Some(v) => Some(NoirData::NoirType(v)),
            None => None,
        },
        fields@.len() != 1 ==> {
            let pos = positions(
                fields@.len(),
                match projections {
                    Some(p) => Some(p@),
                    None => None,
                },
            );
            let kept = all_typed(fields@, columns@, pos);
            &&& !kept ==> r == Some(NoirData::NoirType(NoirType::Missing()))
            &&& kept ==> (r matches Some(NoirData::Row(row)) && row@.len() == pos.len() && forall|
                k: int,
            |
                0 <= k < pos.len() ==> Some(#[trigger] row@[k]) == typed_value(
                    fields@[pos[k]],
                    columns@[pos[k]],
                ))
        },
{
    if fields.len() == 1 {
        let f = &fields[0];
        if f.empty {
            return Some(NoirData::NoirType(NoirType::Missing()));
        }
        return match columns[0] {
            NoirTypeKind::Int32 => match f.int {
                Some(v) => Some(NoirData::NoirType(NoirType::Int32(v))),
                None => None,
            },
            NoirTypeKind::Float32 => match f.float {
                Some(v) => Some(NoirData::NoirType(NoirType::Float32(v))),
                None => None,
            },
            NoirTypeKind::Bool => Some(NoirData::NoirType(NoirType::Missing())),
        };
    }
    let ghost pos = positions(
        fields@.len(),
        match projections {
            Some(p) => Some(p@),
            None => None,
        },
    );
    let n: usize = match projections {
        Some(p) => p.len(),
        None => fields.len(),
    };
    let mut data: Vec<NoirType> = Vec::new();
    let mut k: usize = 0;
    while k < n
        invariant
            k <= n,
            n == pos.len(),
            fields@.len() == columns@.len(),
            forall|j: int| 0 <= j < pos.len() ==> 0 <= #[trigger] pos[j] < fields@.len(),
            pos == positions(
                fields@.len(),
                match projections {
                    Some(p) => Some(p@),
                    None => None,
                },
            ),
            data@.len() == k,
            forall|j: int|
                0 <= j < k ==> Some(#[trigger] data@[j]) == typed_value(
                    fields@[pos[j]],
                    columns@[pos[j]],
                ),
        decreases n - k,
    {
        let idx: usize = match projections {
            Some(p) => p[k],
            None => k,
        };
        assert(idx == pos[k as int]);
        match typed_field(&fields[idx], columns[idx]) {
            Some(v) => data.push(v),
            None => {
                assert(typed_value(fields@[pos[k as int]], columns@[pos[k as int]]) is None);
                assert(!all_typed(fields@, columns@, pos));
                return Some(NoirData::NoirType(NoirType::Missing()));
            },
        }
        k = k + 1;
    }
    assert forall|j: int| 0 <= j < pos.len() implies (#[trigger] typed_value(
        fields@[pos[j]],
        columns@[pos[j]],
    )) is Some by {
        assert(Some(data@[j]) == typed_value(fields@[pos[j]], columns@[pos[j]]));
    }
    assert(all_typed(fields@, columns@, pos));
    Some(NoirData::Row(data))
}

} // verus!
