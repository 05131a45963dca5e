//! Row filtering: the first input row passes through verbatim as the
//! output header, and every later row is kept exactly when the field at
//! the declared column satisfies the predicate.

use vstd::prelude::*;

use crate::bytes::clone_record;
use crate::bytes::field_eq;
use crate::bytes::has_sub;
use crate::bytes::spec_has_sub;
use crate::errors::OpError;

verus! {

/// A field satisfies the single predicate: equality to the literal in
/// exact mode, substring containment otherwise.
pub open spec fn spec_field_matches(field: Seq<u8>, cond: Seq<u8>, is_exac: bool) -> bool {
    if is_exac {
        field == cond
    } else {
        spec_has_sub(field, cond)
    }
}

/// A field satisfies the list predicate: it contains some literal of the
/// list as a substring.
pub open spec fn spec_field_matches_any(field: Seq<u8>, lits: Seq<Seq<u8>>) -> bool {
    exists|j: int| 0 <= j < lits.len() && spec_has_sub(field, #[trigger] lits[j])
}

/// The single predicate as a test on a whole row.
pub open spec fn spec_row_pred(col: int, cond: Seq<u8>, is_exac: bool) -> spec_fn(
    Seq<Seq<u8>>,
) -> bool {
    |row: Seq<Seq<u8>>| spec_field_matches(row[col], cond, is_exac)
}

/// The list predicate as a test on a whole row; a row too narrow for the
/// column simply does not match.
pub open spec fn spec_any_pred(col: int, lits: Seq<Seq<u8>>) -> spec_fn(Seq<Seq<u8>>) -> bool {
    |row: Seq<Seq<u8>>| col < row.len() && spec_field_matches_any(row[col], lits)
}

/// What single-predicate filtering returns: the first row verbatim, then
/// every later row whose field at `col` satisfies the predicate.
pub open spec fn spec_filter_rows(
    rows: Seq<Seq<Seq<u8>>>,
    col: int,
    cond: Seq<u8>,
    is_exac: bool,
) -> Seq<Seq<Seq<u8>>> {
    if rows.len() == 0 {
        rows
    } else {
        seq![rows[0]] + rows.drop_first().filter(spec_row_pred(col, cond, is_exac))
    }
}

/// What list filtering returns: the first row verbatim, then every later
/// row whose field at `col` contains some literal of the list.
pub open spec fn spec_filter_rows_any(
    rows: Seq<Seq<Seq<u8>>>,
    col: int,
    lits: Seq<Seq<u8>>,
) -> Seq<Seq<Seq<u8>>> {
    if rows.len() == 0 {
        rows
    } else {
        seq![rows[0]] + rows.drop_first().filter(spec_any_pred(col, lits))
    }
}

proof fn lemma_filter_singleton(x: Seq<Seq<u8>>, pred: spec_fn(Seq<Seq<u8>>) -> bool)
    ensures
        seq![x].filter(pred) == if pred(x) {
            seq![x]
        } else {
            Seq::<Seq<Seq<u8>>>::empty()
        },
{
    reveal_with_fuel(Seq::<_>::filter, 2);
    assert(seq![x].drop_last() =~= Seq::<Seq<Seq<u8>>>::empty());
    if pred(x) {
        assert(seq![x].filter(pred) =~= seq![x]);
    }
}

/// Extending the data rows by one extends the filtered rows by that row
/// exactly when the predicate accepts it.
proof fn lemma_filter_step(s: Seq<Seq<Seq<u8>>>, x: Seq<Seq<u8>>, pred: spec_fn(Seq<Seq<u8>>) -> bool)
    ensures
        (s + seq![x]).filter(pred) == if pred(x) {
            s.filter(pred).push(x)
        } else {
            s.filter(pred)
        },
{
    Seq::<Seq<Seq<u8>>>::filter_distributes_over_add(s, seq![x], pred);
    lemma_filter_singleton(x, pred);
    if pred(x) {
        assert(s.filter(pred) + seq![x] =~= s.filter(pred).push(x));
    } else {
        assert(s.filter(pred) + Seq::<Seq<Seq<u8>>>::empty() =~= s.filter(pred));
    }
}

/// Single-predicate row filtering.
///
/// Fails with `Index` exactly when some data row is too narrow for the
/// declared column; the first row is exempt, being passed through as the
/// header.
pub fn filter_row_records(
    rows: &Vec<Vec<Vec<u8>>>,
    col: usize,
    cond: &Vec<u8>,
    is_exac: bool,
) -> (r: Result<Vec<Vec<Vec<u8>>>, OpError>)
    ensures
        r is Ok <==> (forall|i: int|
            1 <= i < rows.deep_view().len() ==> col < rows.deep_view()[i].len()),
        r matches Ok(out) ==> out.deep_view() == spec_filter_rows(
            rows.deep_view(),
            col as int,
            cond@,
            is_exac,
        ),
        r matches Err(e) ==> e == OpError::Index,
{
    let ghost rv = rows.deep_view();
    let ghost pred = spec_row_pred(col as int, cond@, is_exac);
    let mut out: Vec<Vec<Vec<u8>>> = Vec::new();
    if rows.len() == 0 {
        proof {
            assert(out.deep_view() =~~= spec_filter_rows(rv, col as int, cond@, is_exac));
        }
        return Ok(out);
    }
    out.push(clone_record(&rows[0]));
    proof {
        assert(rv.subrange(1, 1).filter(pred) =~= Seq::<Seq<Seq<u8>>>::empty());
        assert(out.deep_view() =~~= seq![rv[0]] + rv.subrange(1, 1).filter(pred));
    }
    let mut i: usize = 1;
    while i < rows.len()
        invariant
            1 <= i <= rv.len(),
            rv == rows.deep_view(),
            rv.len() == rows@.len(),
            pred == spec_row_pred(col as int, cond@, is_exac),
            forall|j: int| 1 <= j < i ==> col < rv[j].len(),
            out.deep_view() == seq![rv[0]] + rv.subrange(1, i as int).filter(pred),
        decreases rows@.len() - i,
    {
        let row = &rows[i];
        proof {
            assert(row.deep_view() == rv[i as int]);
        }
        if col >= row.len() {
            proof {
                assert(!(col < rv[i as int].len()));
            }
            return Err(OpError::Index);
        }
        let m = if is_exac {
            field_eq(&row[col], cond)
        } else {
            has_sub(&row[col], cond)
        };
        proof {
            assert(row.deep_view()[col as int] =~= row@[col as int]@);
            assert(m == pred(rv[i as int]));
        }
        if m {
            let ghost old_dv = out.deep_view();
            out.push(clone_record(row));
            proof {
                assert(out.deep_view() =~~= old_dv.push(rv[i as int]));
            }
        }
        proof {
            assert(rv.subrange(1, i + 1) =~= rv.subrange(1, i as int) + seq![rv[i as int]]);
            lemma_filter_step(rv.subrange(1, i as int), rv[i as int], pred);
            assert(out.deep_view() =~~= seq![rv[0]] + rv.subrange(1, i + 1).filter(pred));
        }
        i += 1;
    }
    proof {
        assert(rv.subrange(1, rv.len() as int) =~= rv.drop_first());
    }
    Ok(out)
}

/// Does the field contain any literal of the list?
fn matches_any(field: &Vec<u8>, lits: &Vec<Vec<u8>>) -> (r: bool)
    ensures
        r == spec_field_matches_any(field@, lits.deep_view()),
{
    let ghost lv = lits.deep_view();
    let mut j: usize = 0;
    while j < lits.len()
        invariant
            0 <= j <= lv.len(),
            lv == lits.deep_view(),
            lv.len() == lits@.len(),
            forall|t: int| 0 <= t < j ==> !spec_has_sub(field@, #[trigger] lv[t]),
        decreases lits@.len() - j,
    {
        if has_sub(field, &lits[j]) {
            proof {
                assert(lits[j as int].deep_view() =~= lits@[j as int]@);
                assert(spec_has_sub(field@, lv[j as int]));
            }
            return true;
        }
        proof {
            assert(lits[j as int].deep_view() =~= lits@[j as int]@);
        }
        j += 1;
    }
    false
}

/// List filtering: the first row passes through as the header; a later
/// row is kept exactly when it is wide enough for the column and its
/// field there contains some literal of the list.
pub fn filter_rows_records(rows: &Vec<Vec<Vec<u8>>>, col: usize, lits: &Vec<Vec<u8>>) -> (r: Vec<
    Vec<Vec<u8>>,
>)
    ensures
        r.deep_view() == spec_filter_rows_any(rows.deep_view(), col as int, lits.deep_view()),
{
    let ghost rv = rows.deep_view();
    let ghost pred = spec_any_pred(col as int, lits.deep_view());
    let mut out: Vec<Vec<Vec<u8>>> = Vec::new();
    if rows.len() == 0 {
        proof {
            assert(out.deep_view() =~~= spec_filter_rows_any(rv, col as int, lits.deep_view()));
        }
        return out;
    }
    out.push(clone_record(&rows[0]));
    proof {
        assert(rv.subrange(1, 1).filter(pred) =~= Seq::<Seq<Seq<u8>>>::empty());
        assert(out.deep_view() =~~= seq![rv[0]] + rv.subrange(1, 1).filter(pred));
    }
    let mut i: usize = 1;
    while i < rows.len()
        invariant
            1 <= i <= rv.len(),
            rv == rows.deep_view(),
            rv.len() == rows@.len(),
            pred == spec_any_pred(col as int, lits.deep_view()),
            out.deep_view() == seq![rv[0]] + rv.subrange(1, i as int).filter(pred),
        decreases rows@.len() - i,
    {
        let row = &rows[i];
        proof {
            assert(row.deep_view() == rv[i as int]);
        }
        let m = if col < row.len() {
            let m0 = matches_any(&row[col], lits);
            proof {
                assert(row.deep_view()[col as int] =~= row@[col as int]@);
            }
            m0
        } else {
            false
        };
        proof {
            assert(m == pred(rv[i as int]));
        }
        if m {
            let ghost old_dv = out.deep_view();
            out.push(clone_record(row));
            proof {
                assert(out.deep_view() =~~= old_dv.push(rv[i as int]));
            }
        }
        proof {
            assert(rv.subrange(1, i + 1) =~= rv.subrange(1, i as int) + seq![rv[i as int]]);
            lemma_filter_step(rv.subrange(1, i as int), rv[i as int], pred);
            assert(out.deep_view() =~~= seq![rv[0]] + rv.subrange(1, i + 1).filter(pred));
        }
        i += 1;
    }
    proof {
        assert(rv.subrange(1, rv.len() as int) =~= rv.drop_first());
    }
    out
}

/// Law: single-predicate filtering emits no more rows than it reads, and
/// every emitted data row satisfies the predicate at the declared column.
pub proof fn lemma_filter_row_bounds(rows: Seq<Seq<Seq<u8>>>, col: int, cond: Seq<u8>, is_exac: bool)
    ensures
        spec_filter_rows(rows, col, cond, is_exac).len() <= rows.len(),
        forall|i: int|
            1 <= i < spec_filter_rows(rows, col, cond, is_exac).len() ==> spec_field_matches(
                #[trigger] spec_filter_rows(rows, col, cond, is_exac)[i][col],
                cond,
                is_exac,
            ),
{
    if rows.len() > 0 {
        let pred = spec_row_pred(col, cond, is_exac);
        let data = rows.drop_first();
        data.lemma_filter_len(pred);
        assert forall|i: int|
            1 <= i < spec_filter_rows(rows, col, cond, is_exac).len() implies spec_field_matches(
            spec_filter_rows(rows, col, cond, is_exac)[i][col],
            cond,
            is_exac,
        ) by {
            data.lemma_filter_pred(pred, i - 1);
            assert(spec_filter_rows(rows, col, cond, is_exac)[i] == data.filter(pred)[i - 1]);
        }
    }
}

/// Law: list filtering emits no more rows than it reads, and every
/// emitted data row is wide enough for the column and contains some
/// literal of the list there.
pub proof fn lemma_filter_rows_any_bounds(rows: Seq<Seq<Seq<u8>>>, col: int, lits: Seq<Seq<u8>>)
    ensures
        spec_filter_rows_any(rows, col, lits).len() <= rows.len(),
        forall|i: int|
            1 <= i < spec_filter_rows_any(rows, col, lits).len() ==> col < spec_filter_rows_any(
                rows,
                col,
                lits,
            )[i].len() && spec_field_matches_any(
                #[trigger] spec_filter_rows_any(rows, col, lits)[i][col],
                lits,
            ),
{
    if rows.len() > 0 {
        let pred = spec_any_pred(col, lits);
        let data = rows.drop_first();
        data.lemma_filter_len(pred);
        assert forall|i: int|
            1 <= i < spec_filter_rows_any(rows, col, lits).len() implies col
            < spec_filter_rows_any(rows, col, lits)[i].len() && spec_field_matches_any(
            spec_filter_rows_any(rows, col, lits)[i][col],
            lits,
        ) by {
            data.lemma_filter_pred(pred, i - 1);
            assert(spec_filter_rows_any(rows, col, lits)[i] == data.filter(pred)[i - 1]);
        }
    }
}

} // verus!
