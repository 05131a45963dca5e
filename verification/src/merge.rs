//! Same-schema file merging: the first non-empty table's header is
//! written once, and every table's data rows follow in enumeration
//! order.

use vstd::prelude::*;
use vstd::multiset::Multiset;

use crate::bytes::clone_record;
use crate::split::spec_chunk_count;
use crate::split::spec_chunks;
use crate::split::lemma_chunks_count;
use crate::split::lemma_chunks_flatten;
use crate::split::spec_split_shards;

verus! {

/// A table's data rows: everything after its header row; an empty table
/// has none.
pub open spec fn spec_data_rows(t: Seq<Seq<Seq<u8>>>) -> Seq<Seq<Seq<u8>>> {
    if t.len() == 0 {
        t
    } else {
        t.drop_first()
    }
}

/// The data rows of all the tables, in enumeration order.
pub open spec fn spec_tables_data(tables: Seq<Seq<Seq<Seq<u8>>>>) -> Seq<Seq<Seq<u8>>>
    decreases tables.len(),
{
    if tables.len() == 0 {
        Seq::empty()
    } else {
        spec_data_rows(tables.first()) + spec_tables_data(tables.drop_first())
    }
}

/// The header row of the first non-empty table, if any table has rows.
pub open spec fn spec_first_header(tables: Seq<Seq<Seq<Seq<u8>>>>) -> Option<Seq<Seq<u8>>>
    decreases tables.len(),
{
    if tables.len() == 0 {
        None
    } else if tables.first().len() > 0 {
        Some(tables.first()[0])
    } else {
        spec_first_header(tables.drop_first())
    }
}

/// What merging returns: the first non-empty table's header once, then
/// every table's data rows in enumeration order; an output with no rows
/// at all when every table is empty.
pub open spec fn spec_merge(tables: Seq<Seq<Seq<Seq<u8>>>>) -> Seq<Seq<Seq<u8>>> {
    match spec_first_header(tables) {
        Option::None => Seq::empty(),
        Option::Some(h) => seq![h] + spec_tables_data(tables),
    }
}

proof fn lemma_tables_data_push(ts: Seq<Seq<Seq<Seq<u8>>>>, t: Seq<Seq<Seq<u8>>>)
    ensures
        spec_tables_data(ts.push(t)) == spec_tables_data(ts) + spec_data_rows(t),
    decreases ts.len(),
{
    if ts.len() == 0 {
        assert(ts.push(t).drop_first() =~~= ts);
        assert(spec_data_rows(t) + Seq::<Seq<Seq<u8>>>::empty() =~~= spec_data_rows(t));
        assert(Seq::<Seq<Seq<u8>>>::empty() + spec_data_rows(t) =~~= spec_data_rows(t));
    } else {
        assert(ts.push(t).drop_first() =~~= ts.drop_first().push(t));
        lemma_tables_data_push(ts.drop_first(), t);
        assert(spec_data_rows(ts.first()) + (spec_tables_data(ts.drop_first()) + spec_data_rows(t))
            =~~= (spec_data_rows(ts.first()) + spec_tables_data(ts.drop_first())) + spec_data_rows(
            t,
        ));
    }
}

proof fn lemma_first_header_push(ts: Seq<Seq<Seq<Seq<u8>>>>, t: Seq<Seq<Seq<u8>>>)
    ensures
        spec_first_header(ts.push(t)) == (if spec_first_header(ts) is Some {
            spec_first_header(ts)
        } else if t.len() > 0 {
            Some(t[0])
        } else {
            None::<Seq<Seq<u8>>>
        }),
    decreases ts.len(),
{
    if ts.len() == 0 {
        assert(ts.push(t).first() =~~= t);
        assert(ts.push(t).drop_first() =~~= ts);
    } else {
        assert(ts.push(t).first() =~~= ts.first());
        assert(ts.push(t).drop_first() =~~= ts.drop_first().push(t));
        lemma_first_header_push(ts.drop_first(), t);
    }
}

/// Where no table has a header, no table has data rows either.
proof fn lemma_no_header_no_data(ts: Seq<Seq<Seq<Seq<u8>>>>)
    requires
        spec_first_header(ts) is None,
    ensures
        spec_tables_data(ts) == Seq::<Seq<Seq<u8>>>::empty(),
    decreases ts.len(),
{
    if ts.len() > 0 {
        lemma_no_header_no_data(ts.drop_first());
        assert(ts.first().len() == 0);
        assert(spec_data_rows(ts.first()) + spec_tables_data(ts.drop_first())
            =~~= Seq::<Seq<Seq<u8>>>::empty());
    }
}

/// Merges same-schema tables: the first non-empty table's header once,
/// then every table's data rows in enumeration order.
pub fn merge_records(tables: &Vec<Vec<Vec<Vec<u8>>>>) -> (r: Vec<Vec<Vec<u8>>>)
    ensures
        r.deep_view() == spec_merge(tables.deep_view()),
{
    let ghost tv = tables.deep_view();
    let mut out: Vec<Vec<Vec<u8>>> = Vec::new();
    let mut header_written: bool = false;
    let mut i: usize = 0;
    proof {
        assert(tv.take(0) =~~= Seq::<Seq<Seq<Seq<u8>>>>::empty());
        assert(out.deep_view() =~~= spec_merge(tv.take(0)));
    }
    while i < tables.len()
        invariant
            tv == tables.deep_view(),
            tv.len() == tables@.len(),
            0 <= i <= tv.len(),
            header_written == (spec_first_header(tv.take(i as int)) is Some),
            out.deep_view() == spec_merge(tv.take(i as int)),
        decreases tables@.len() - i,
    {
        let t = &tables[i];
        proof {
            assert(t.deep_view() == tv[i as int]);
            assert(tv.take(i + 1) =~~= tv.take(i as int).push(tv[i as int]));
            lemma_first_header_push(tv.take(i as int), tv[i as int]);
            lemma_tables_data_push(tv.take(i as int), tv[i as int]);
        }
        if t.len() > 0 {
            let ghost h = spec_first_header(tv.take(i + 1)).unwrap();
            if !header_written {
                proof {
                    lemma_no_header_no_data(tv.take(i as int));
                }
                out.push(clone_record(&t[0]));
                header_written = true;
                proof {
                    assert(h == tv[i as int][0]);
                    assert(out.deep_view() =~~= seq![h] + spec_tables_data(tv.take(i as int))
                        + tv[i as int].subrange(1, 1));
                }
            } else {
                proof {
                    assert(out.deep_view() =~~= seq![h] + spec_tables_data(tv.take(i as int))
                        + tv[i as int].subrange(1, 1));
                }
            }
            let mut j: usize = 1;
            while j < t.len()
                invariant
                    tv == tables.deep_view(),
                    tv.len() == tables@.len(),
                    0 <= i < tv.len(),
                    t.deep_view() == tv[i as int],
                    t@.len() == tv[i as int].len(),
                    1 <= j <= tv[i as int].len(),
                    out.deep_view() == seq![h] + spec_tables_data(tv.take(i as int))
                        + tv[i as int].subrange(1, j as int),
                decreases t@.len() - j,
            {
                let ghost old_dv = out.deep_view();
                out.push(clone_record(&t[j]));
                proof {
                    assert(out.deep_view() =~~= old_dv.push(tv[i as int][j as int]));
                    assert(old_dv.push(tv[i as int][j as int]) =~~= seq![h] + spec_tables_data(
                        tv.take(i as int),
                    ) + tv[i as int].subrange(1, j + 1));
                }
                j += 1;
            }
            proof {
                assert(tv[i as int].subrange(1, tv[i as int].len() as int) =~~= spec_data_rows(
                    tv[i as int],
                ));
                assert(seq![h] + spec_tables_data(tv.take(i as int)) + spec_data_rows(tv[i as int])
                    =~~= seq![h] + (spec_tables_data(tv.take(i as int)) + spec_data_rows(
                    tv[i as int],
                )));
                assert(out.deep_view() =~~= spec_merge(tv.take(i + 1)));
            }
        } else {
            proof {
                assert(spec_data_rows(tv[i as int]) =~~= Seq::<Seq<Seq<u8>>>::empty());
                assert(spec_tables_data(tv.take(i as int)) + spec_data_rows(tv[i as int])
                    =~~= spec_tables_data(tv.take(i as int)));
                assert(out.deep_view() =~~= spec_merge(tv.take(i + 1)));
            }
        }
        i += 1;
    }
    proof {
        assert(tv.take(tv.len() as int) =~~= tv);
    }
    out
}

/// Law: for row content, merging respects enumeration order — the data
/// rows of a concatenated enumeration are the data rows of its parts,
/// concatenated.
pub proof fn lemma_merge_append(ts1: Seq<Seq<Seq<Seq<u8>>>>, ts2: Seq<Seq<Seq<Seq<u8>>>>)
    ensures
        spec_tables_data(ts1 + ts2) == spec_tables_data(ts1) + spec_tables_data(ts2),
    decreases ts1.len(),
{
    if ts1.len() == 0 {
        assert(ts1 + ts2 =~~= ts2);
        assert(Seq::<Seq<Seq<u8>>>::empty() + spec_tables_data(ts2) =~~= spec_tables_data(ts2));
    } else {
        assert((ts1 + ts2).first() =~~= ts1.first());
        assert((ts1 + ts2).drop_first() =~~= ts1.drop_first() + ts2);
        lemma_merge_append(ts1.drop_first(), ts2);
        assert(spec_data_rows(ts1.first()) + (spec_tables_data(ts1.drop_first())
            + spec_tables_data(ts2)) =~~= (spec_data_rows(ts1.first()) + spec_tables_data(
            ts1.drop_first(),
        )) + spec_tables_data(ts2));
    }
}

/// The data rows of all the tables, as a multiset.
pub open spec fn spec_tables_data_multiset(tables: Seq<Seq<Seq<Seq<u8>>>>) -> Multiset<
    Seq<Seq<u8>>,
>
    decreases tables.len(),
{
    if tables.len() == 0 {
        Multiset::empty()
    } else {
        spec_data_rows(tables.first()).to_multiset().add(
            spec_tables_data_multiset(tables.drop_first()),
        )
    }
}

/// Law: the multiset of merged data rows is the union of the tables'
/// own data-row multisets, whatever the enumeration order.
pub proof fn lemma_merge_multiset(tables: Seq<Seq<Seq<Seq<u8>>>>)
    ensures
        spec_tables_data(tables).to_multiset() == spec_tables_data_multiset(tables),
    decreases tables.len(),
{
    if tables.len() == 0 {
        assert(Seq::<Seq<Seq<u8>>>::empty().to_multiset() =~= Multiset::<Seq<Seq<u8>>>::empty())
            by {
            Seq::<Seq<Seq<u8>>>::empty().to_multiset_ensures();
        }
    } else {
        lemma_merge_multiset(tables.drop_first());
        vstd::seq_lib::lemma_multiset_commutative(
            spec_data_rows(tables.first()),
            spec_tables_data(tables.drop_first()),
        );
        assert(spec_tables_data(tables).to_multiset() =~= spec_tables_data_multiset(tables));
    }
}

/// The data rows of shards that all carry the same header are the
/// chunks they were made of, concatenated.
proof fn lemma_tables_data_of_shards(chunks: Seq<Seq<Seq<Seq<u8>>>>, h: Seq<Seq<u8>>)
    ensures
        spec_tables_data(chunks.map_values(|c: Seq<Seq<Seq<u8>>>| seq![h] + c)) == chunks.flatten(),
    decreases chunks.len(),
{
    let m = |c: Seq<Seq<Seq<u8>>>| seq![h] + c;
    if chunks.len() == 0 {
        assert(chunks.map_values(m) =~~= Seq::<Seq<Seq<Seq<u8>>>>::empty());
    } else {
        lemma_tables_data_of_shards(chunks.drop_first(), h);
        assert(chunks.map_values(m).drop_first() =~~= chunks.drop_first().map_values(m));
        assert(chunks.map_values(m).first() =~~= seq![h] + chunks.first());
        assert(spec_data_rows(seq![h] + chunks.first()) =~~= chunks.first());
        assert(spec_tables_data(chunks.map_values(m)) =~~= chunks.first() + chunks.drop_first()
            .flatten());
    }
}

/// Law, round trip: splitting a header-bearing table into shards and
/// merging the shards back, in order, restores the table exactly.
pub proof fn lemma_split_merge_round_trip(rows: Seq<Seq<Seq<u8>>>, k: int)
    requires
        rows.len() >= 1,
        k >= 1,
    ensures
        spec_merge(spec_split_shards(rows, k)) == rows,
{
    let data = rows.drop_first();
    let chunks = spec_chunks(data, k);
    let m = |c: Seq<Seq<Seq<u8>>>| seq![rows[0]] + c;
    let shards = chunks.map_values(m);
    lemma_chunks_count(data, k);
    lemma_chunks_flatten(data, k);
    lemma_tables_data_of_shards(chunks, rows[0]);
    assert(spec_chunk_count(data.len() as int, k) >= 1) by {
        if data.len() > 0 {
            assert((data.len() - 1) / k >= 0) by (nonlinear_arith)
                requires
                    data.len() >= 1,
                    k >= 1,
            ;
        }
    }
    assert(shards.first() == seq![rows[0]] + chunks.first());
    assert(shards.first().len() > 0);
    assert(spec_first_header(shards) == Some(rows[0]));
    assert(spec_merge(shards) =~~= seq![rows[0]] + data);
    assert(seq![rows[0]] + data =~~= rows);
}

} // verus!
