//! The decision core of the transactional batch loader: a batch is validated
//! against the target statement before anything is written, and every store
//! interaction's outcome is turned into the one decision the policy allows —
//! go on, or abort the whole transaction.

use vstd::prelude::*;
use crate::error::{EtlError, StoreStage};

verus! {

/// A typed scalar value of a decomposed row.
#[derive(Clone, Debug, PartialEq, Eq)]
pub enum SqlValue {
    BigInt(i64),
    Int(i32),
    Text(String),
    Bool(bool),
    Null,
}

/// The column type tags a bulk copy is configured with.
#[derive(Clone, Copy, Debug, PartialEq, Eq, Structural)]
pub enum ColumnType {
    BigInt,
    Int,
    Text,
    Bool,
}

/// Whether a value can be written into a column of the given type; a null
/// can go anywhere.
pub open spec fn value_matches(v: SqlValue, t: ColumnType) -> bool {
    match v {
        SqlValue::BigInt(_) => t is BigInt,
        SqlValue::Int(_) => t is Int,
        SqlValue::Text(_) => t is Text,
        SqlValue::Bool(_) => t is Bool,
        SqlValue::Null => true,
    }
}

impl SqlValue {
    /// Whether this value can be written into a column of the given type.
    pub fn matches_type(&self, t: ColumnType) -> (r: bool)
        ensures
            r == value_matches(*self, t),
    {
        match self {
            SqlValue::BigInt(_) => matches!(t, ColumnType::BigInt),
            SqlValue::Int(_) => matches!(t, ColumnType::Int),
            SqlValue::Text(_) => matches!(t, ColumnType::Text),
            SqlValue::Bool(_) => matches!(t, ColumnType::Bool),
            SqlValue::Null => true,
        }
    }
}

/// The views of a batch's rows.
pub open spec fn rows_view(rows: Seq<Vec<SqlValue>>) -> Seq<Seq<SqlValue>> {
    rows.map_values(|r: Vec<SqlValue>| r@)
}

/// What checking row arities against a statement expecting `expected`
/// parameters decides: the first row of another arity fails the batch.
pub open spec fn arity_check(rows: Seq<Seq<SqlValue>>, expected: int) -> Result<(), EtlError>
    decreases rows.len(),
{
    if rows.len() == 0 {
        Ok(())
    } else if rows[0].len() != expected {
        Err(EtlError::SchemaMismatch { expected: expected as usize, got: rows[0].len() as usize })
    } else {
        arity_check(rows.drop_first(), expected)
    }
}

/// Validate a batch for INSERT mode: every record must decompose to exactly
/// as many values as the prepared statement has parameters, or the batch is
/// refused before any row is written.
pub fn plan_insert(rows: &Vec<Vec<SqlValue>>, expected: usize) -> (r: Result<usize, EtlError>)
    ensures
        r is Ok ==> arity_check(rows_view(rows@), expected as int) is Ok && r->Ok_0 == rows@.len(),
        r is Err ==> Err::<(), EtlError>(r->Err_0) == arity_check(
            rows_view(rows@),
            expected as int,
        ),
        r is Ok <==> (forall|i: int| 0 <= i < rows@.len() ==> #[trigger] rows@[i]@.len()
            == expected),
{
    let mut k: usize = 0;
    proof {
        assert(rows_view(rows@).skip(0) =~= rows_view(rows@));
    }
    while k < rows.len()
        invariant
            k <= rows@.len(),
            arity_check(rows_view(rows@), expected as int) == arity_check(
                rows_view(rows@).skip(k as int),
                expected as int,
            ),
            forall|i: int| 0 <= i < k ==> #[trigger] rows@[i]@.len() == expected,
        decreases rows@.len() - k as int,
    {
        proof {
            assert(rows_view(rows@).skip(k as int)[0] == rows@[k as int]@);
            assert(rows_view(rows@).skip(k as int).drop_first() =~= rows_view(rows@).skip(
                k as int + 1,
            ));
        }
        let got = rows[k].len();
        if got != expected {
            return Err(EtlError::SchemaMismatch { expected, got });
        }
        k = k + 1;
    }
    proof {
        assert(rows_view(rows@).skip(k as int) =~= Seq::<Seq<SqlValue>>::empty());
    }
    Ok(rows.len())
}

/// What checking a batch against the declared column types decides: a row
/// must have one value per column and each value must match its column's
/// type, or the batch is refused before the copy stream opens.
pub open spec fn copy_check(rows: Seq<Seq<SqlValue>>, types: Seq<ColumnType>) -> Result<
    (),
    EtlError,
>
    decreases rows.len(),
{
    if rows.len() == 0 {
        Ok(())
    } else if rows[0].len() != types.len() {
        Err(EtlError::SchemaMismatch { expected: types.len() as usize, got: rows[0].len() as usize })
    } else if !(forall|j: int| 0 <= j < types.len() ==> value_matches(rows[0][j], types[j])) {
        Err(EtlError::SchemaMismatch { expected: types.len() as usize, got: rows[0].len() as usize })
    } else {
        copy_check(rows.drop_first(), types)
    }
}

/// Validate a batch for COPY mode. A copy stream cannot be rolled back at
/// row granularity, so a batch in which any row disagrees with the declared
/// column types is refused whole, before the stream opens.
pub fn plan_copy(rows: &Vec<Vec<SqlValue>>, types: &Vec<ColumnType>) -> (r: Result<
    usize,
    EtlError,
>)
    ensures
        r is Ok ==> copy_check(rows_view(rows@), types@) is Ok && r->Ok_0 == rows@.len(),
        r is Err ==> Err::<(), EtlError>(r->Err_0) == copy_check(rows_view(rows@), types@),
{
    let mut k: usize = 0;
    proof {
        assert(rows_view(rows@).skip(0) =~= rows_view(rows@));
    }
    while k < rows.len()
        invariant
            k <= rows@.len(),
            copy_check(rows_view(rows@), types@) == copy_check(
                rows_view(rows@).skip(k as int),
                types@,
            ),
        decreases rows@.len() - k as int,
    {
        proof {
            assert(rows_view(rows@).skip(k as int)[0] == rows@[k as int]@);
            assert(rows_view(rows@).skip(k as int).drop_first() =~= rows_view(rows@).skip(
                k as int + 1,
            ));
        }
        let row = &rows[k];
        let got = row.len();
        if got != types.len() {
            return Err(EtlError::SchemaMismatch { expected: types.len(), got });
        }
        let mut j: usize = 0;
        while j < types.len()
            invariant
                types@.len() == row@.len(),
                j <= types@.len(),
                row == rows@[k as int],
                0 <= k < rows@.len(),
                got == row@.len(),
                copy_check(rows_view(rows@), types@) == copy_check(
                    rows_view(rows@).skip(k as int),
                    types@,
                ),
                forall|i: int| 0 <= i < j ==> value_matches(#[trigger] row@[i], types@[i]),
            decreases types@.len() - j as int,
        {
            if !row[j].matches_type(types[j]) {
                proof {
                    let head = rows_view(rows@).skip(k as int)[0];
                    assert(head == row@);
                    assert(!value_matches(head[j as int], types@[j as int]));
                    assert(!(forall|i: int| 0 <= i < types@.len() ==> value_matches(
                        head[i],
                        types@[i],
                    )));
                }
                return Err(EtlError::SchemaMismatch { expected: types.len(), got });
            }
            j = j + 1;
        }
        k = k + 1;
    }
    proof {
        assert(rows_view(rows@).skip(k as int) =~= Seq::<Seq<SqlValue>>::empty());
    }
    Ok(rows.len())
}

/// Turn one store interaction's outcome into the loader's decision: carry
/// on, or abort the enclosing transaction with the failing stage attached.
/// There is no partial success — any failed prepare, execute, copy write or
/// commit fails the whole batch.
pub fn store_step(stage: StoreStage, ok: bool) -> (r: Result<(), EtlError>)
    ensures
        r is Ok <==> ok,
        r is Err ==> r->Err_0 == (EtlError::StoreProtocol { stage }),
{
    if ok {
        Ok(())
    } else {
        Err(EtlError::StoreProtocol { stage })
    }
}

} // verus!
