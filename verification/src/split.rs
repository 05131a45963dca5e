//! Row-count sharding: one header-bearing input is partitioned into a
//! sequence of shards of at most `row_cnt` data rows each, the header
//! replicated at the head of every shard.

use vstd::prelude::*;

use crate::bytes::clone_record;

verus! {

/// The data rows cut into chunks of `k`, the last chunk possibly
/// smaller; no data at all still gives one (empty) chunk.
pub open spec fn spec_chunks(data: Seq<Seq<Seq<u8>>>, k: int) -> Seq<Seq<Seq<Seq<u8>>>>
    decreases data.len(),
{
    if k < 1 {
        Seq::empty()
    } else if data.len() <= k {
        seq![data]
    } else {
        seq![data.take(k)] + spec_chunks(data.skip(k), k)
    }
}

/// What splitting returns: each chunk of data rows with the header
/// placed before it.
pub open spec fn spec_split_shards(rows: Seq<Seq<Seq<u8>>>, k: int) -> Seq<Seq<Seq<Seq<u8>>>>
    recommends
        rows.len() >= 1,
        k >= 1,
{
    spec_chunks(rows.drop_first(), k).map_values(|c: Seq<Seq<Seq<u8>>>| seq![rows[0]] + c)
}

/// How many chunks the data rows make: one when there are none, else
/// their count divided by `k`, rounded up.
pub open spec fn spec_chunk_count(len: int, k: int) -> int
    recommends
        len >= 0,
        k >= 1,
{
    if len == 0 {
        1
    } else {
        ((len - 1) / k) + 1
    }
}

pub proof fn lemma_chunks_count(data: Seq<Seq<Seq<u8>>>, k: int)
    requires
        k >= 1,
    ensures
        spec_chunks(data, k).len() == spec_chunk_count(data.len() as int, k),
    decreases data.len(),
{
    if data.len() <= k {
        if data.len() > 0 {
            assert((data.len() - 1) / k == 0) by {
                vstd::arithmetic::div_mod::lemma_basic_div(data.len() - 1, k);
            }
        }
    } else {
        lemma_chunks_count(data.skip(k), k);
        assert(data.skip(k).len() == data.len() - k);
        assert((data.len() - 1 - k) / k + 1 == (data.len() - 1) / k) by {
            vstd::arithmetic::div_mod::lemma_div_plus_one(data.len() - 1 - k, k);
        }
    }
}

/// Every chunk respects the cap, and only the last can be small; with
/// data present no chunk is empty.
pub proof fn lemma_chunks_sizes(data: Seq<Seq<Seq<u8>>>, k: int)
    requires
        k >= 1,
    ensures
        forall|i: int|
            0 <= i < spec_chunks(data, k).len() ==> #[trigger] spec_chunks(data, k)[i].len() <= k,
        forall|i: int|
            0 <= i < spec_chunks(data, k).len() - 1 ==> #[trigger] spec_chunks(data, k)[i].len()
                == k,
        data.len() > 0 ==> forall|i: int|
            0 <= i < spec_chunks(data, k).len() ==> #[trigger] spec_chunks(data, k)[i].len() > 0,
    decreases data.len(),
{
    if data.len() <= k {
    } else {
        lemma_chunks_sizes(data.skip(k), k);
        let out = spec_chunks(data, k);
        let rest = spec_chunks(data.skip(k), k);
        assert(forall|i: int| 1 <= i < out.len() ==> out[i] == rest[i - 1]);
    }
}

/// Concatenating the chunks restores the data rows exactly.
pub proof fn lemma_chunks_flatten(data: Seq<Seq<Seq<u8>>>, k: int)
    requires
        k >= 1,
    ensures
        spec_chunks(data, k).flatten() == data,
    decreases data.len(),
{
    if data.len() <= k {
        spec_chunks(data, k).lemma_flatten_one_element();
    } else {
        lemma_chunks_flatten(data.skip(k), k);
        vstd::seq_lib::lemma_flatten_concat(seq![data.take(k)], spec_chunks(data.skip(k), k));
        seq![data.take(k)].lemma_flatten_one_element();
        assert(data.take(k) + data.skip(k) =~= data);
    }
}

/// Splits a header-bearing table into shards of at most `row_cnt` data
/// rows, the header repeated at the head of each shard; header-only
/// input gives exactly one header-only shard, and an exact multiple of
/// `row_cnt` gives no trailing header-only shard.
pub fn split_records(rows: &Vec<Vec<Vec<u8>>>, row_cnt: usize) -> (r: Vec<Vec<Vec<Vec<u8>>>>)
    requires
        rows@.len() >= 1,
        row_cnt >= 1,
    ensures
        r.deep_view() == spec_split_shards(rows.deep_view(), row_cnt as int),
{
    let ghost rv = rows.deep_view();
    let ghost data = rv.drop_first();
    let ghost k = row_cnt as int;
    let mut shards: Vec<Vec<Vec<Vec<u8>>>> = Vec::new();
    let mut cur: Vec<Vec<Vec<u8>>> = Vec::new();
    cur.push(clone_record(&rows[0]));
    let mut count: usize = 0;
    let mut i: usize = 1;
    proof {
        assert(cur.deep_view() =~~= seq![rv[0]] + data.subrange(0, 0));
        assert(data.skip(0) =~= data);
        assert(shards.deep_view() =~~= Seq::<Seq<Seq<Seq<u8>>>>::empty());
        assert(spec_chunks(data, k).map_values(|c: Seq<Seq<Seq<u8>>>| seq![rv[0]] + c)
            =~~= shards.deep_view() + spec_chunks(data.skip(0), k).map_values(
            |c: Seq<Seq<Seq<u8>>>| seq![rv[0]] + c,
        ));
    }
    let ghost mut start: int = 0;
    while i < rows.len()
        invariant
            rv == rows.deep_view(),
            rv.len() == rows@.len(),
            rv.len() >= 1,
            data == rv.drop_first(),
            k == row_cnt as int,
            row_cnt >= 1,
            0 <= start <= i - 1 <= data.len(),
            i - 1 - start == count,
            count <= row_cnt,
            cur@.len() == count + 1,
            cur.deep_view() == seq![rv[0]] + data.subrange(start, i - 1),
            spec_split_shards(rv, k) == shards.deep_view() + spec_chunks(data.skip(start), k)
                .map_values(|c: Seq<Seq<Seq<u8>>>| seq![rv[0]] + c),
        decreases rows@.len() - i,
    {
        if count == row_cnt {
            proof {
                let tail = data.skip(start);
                assert(tail.len() == data.len() - start);
                assert(data.len() - start > k);
                assert(tail.take(k) =~= data.subrange(start, i - 1));
                assert(tail.skip(k) =~= data.skip(start + k));
                assert(spec_chunks(tail, k) == seq![tail.take(k)] + spec_chunks(tail.skip(k), k));
            }
            let ghost old_shards = shards.deep_view();
            let ghost cur_dv = cur.deep_view();
            shards.push(cur);
            cur = Vec::new();
            cur.push(clone_record(&rows[0]));
            count = 0;
            proof {
                start = i - 1;
                assert(shards.deep_view() =~~= old_shards.push(cur_dv));
                assert(cur.deep_view() =~~= seq![rv[0]] + data.subrange(start, start));
                let m = |c: Seq<Seq<Seq<u8>>>| seq![rv[0]] + c;
                assert((seq![data.subrange(start - k, start)] + spec_chunks(data.skip(start), k))
                    .map_values(m) =~~= seq![cur_dv] + spec_chunks(data.skip(start), k).map_values(
                    m,
                ));
                assert(old_shards.push(cur_dv) + spec_chunks(data.skip(start), k).map_values(m)
                    =~~= old_shards + (seq![cur_dv] + spec_chunks(data.skip(start), k).map_values(
                    m,
                )));
            }
        }
        let ghost cur_dv = cur.deep_view();
        cur.push(clone_record(&rows[i]));
        count += 1;
        proof {
            assert(rows[i as int].deep_view() == rv[i as int]);
            assert(rv[i as int] == data[i - 1]);
            assert(cur.deep_view() =~~= cur_dv.push(data[i - 1]));
            assert((seq![rv[0]] + data.subrange(start, i - 1)).push(data[i - 1]) =~~= seq![rv[0]]
                + data.subrange(start, i as int));
        }
        i += 1;
    }
    proof {
        let tail = data.skip(start);
        assert(tail.len() == data.len() - start == count);
        assert(count <= k);
        assert(spec_chunks(tail, k) == seq![tail]);
        assert(tail =~= data.subrange(start, data.len() as int));
        assert(data.subrange(start, i - 1) =~= data.subrange(start, data.len() as int));
    }
    let ghost old_shards = shards.deep_view();
    let ghost cur_dv = cur.deep_view();
    shards.push(cur);
    proof {
        let m = |c: Seq<Seq<Seq<u8>>>| seq![rv[0]] + c;
        assert(shards.deep_view() =~~= old_shards.push(cur_dv));
        assert(seq![data.skip(start)].map_values(m) =~~= seq![cur_dv]);
        assert(old_shards.push(cur_dv) =~~= old_shards + seq![data.skip(start)].map_values(m));
    }
    shards
}

/// Law: the shards' data rows, in order, are exactly the input's data
/// rows, and the shard count is the data-row count divided by the cap,
/// rounded up (one shard for header-only input).
pub proof fn lemma_split_shards_data(rows: Seq<Seq<Seq<u8>>>, k: int)
    requires
        rows.len() >= 1,
        k >= 1,
    ensures
        spec_split_shards(rows, k).map_values(|s: Seq<Seq<Seq<u8>>>| s.drop_first()).flatten()
            == rows.drop_first(),
        spec_split_shards(rows, k).len() == spec_chunk_count(rows.len() - 1, k),
        forall|i: int|
            0 <= i < spec_split_shards(rows, k).len() ==> #[trigger] spec_split_shards(rows, k)[i][0]
                == rows[0],
{
    let data = rows.drop_first();
    let shards = spec_split_shards(rows, k);
    lemma_chunks_count(data, k);
    lemma_chunks_flatten(data, k);
    assert(shards.map_values(|s: Seq<Seq<Seq<u8>>>| s.drop_first()) =~~= spec_chunks(data, k)) by {
        assert(forall|i: int|
            0 <= i < spec_chunks(data, k).len() ==> (seq![rows[0]] + #[trigger] spec_chunks(
                data,
                k,
            )[i]).drop_first() =~= spec_chunks(data, k)[i]);
    }
}

/// Law, boundary cases: header-only input yields exactly one shard that
/// holds only the header, and a data-row count that is an exact multiple
/// of the cap yields only full shards — no trailing header-only shard.
pub proof fn lemma_split_boundaries(rows: Seq<Seq<Seq<u8>>>, k: int, n: int)
    requires
        rows.len() >= 1,
        k >= 1,
        n >= 0,
        rows.len() - 1 == n * k,
    ensures
        rows.len() == 1 ==> spec_split_shards(rows, k) == seq![seq![rows[0]]],
        n >= 1 ==> spec_split_shards(rows, k).len() == n,
        n >= 1 ==> forall|i: int|
            0 <= i < spec_split_shards(rows, k).len() ==> #[trigger] spec_split_shards(
                rows,
                k,
            )[i].len() == k + 1,
{
    let data = rows.drop_first();
    if rows.len() == 1 {
        assert(data =~= Seq::<Seq<Seq<u8>>>::empty());
        assert(spec_chunks(data, k) == seq![data]);
        assert(spec_split_shards(rows, k) =~~= seq![seq![rows[0]] + data]);
        assert(seq![rows[0]] + data =~= seq![rows[0]]);
    }
    if n >= 1 {
        lemma_chunks_count(data, k);
        assert(data.len() == n * k);
        assert(n * k >= 1) by (nonlinear_arith)
            requires
                n >= 1,
                k >= 1,
        ;
        assert((n * k - 1) / k == n - 1) by {
            assert(k * (n - 1) + (k - 1) == n * k - 1) by (nonlinear_arith);
            vstd::arithmetic::div_mod::lemma_div_multiples_vanish_fancy(n - 1, k - 1, k);
        }
        lemma_chunks_sizes(data, k);
        assert forall|i: int| 0 <= i < spec_split_shards(rows, k).len() implies #[trigger]
            spec_split_shards(rows, k)[i].len() == k + 1 by {
            if i < spec_chunks(data, k).len() - 1 {
                assert(spec_chunks(data, k)[i].len() == k);
            } else {
                assert(spec_chunks(data, k).flatten().len() == data.len()) by {
                    lemma_chunks_flatten(data, k);
                }
                lemma_chunks_last_full(data, k, n);
            }
        }
    }
}

/// With the data-row count an exact positive multiple of `k`, the last
/// chunk too holds exactly `k` rows.
proof fn lemma_chunks_last_full(data: Seq<Seq<Seq<u8>>>, k: int, n: int)
    requires
        k >= 1,
        n >= 1,
        data.len() == n * k,
    ensures
        spec_chunks(data, k).last().len() == k,
    decreases n,
{
    assert(data.len() >= k) by (nonlinear_arith)
        requires
            n >= 1,
            k >= 1,
            data.len() == n * k,
    ;
    if data.len() <= k {
        assert(data.len() == k);
    } else {
        assert(n >= 2) by (nonlinear_arith)
            requires
                n >= 1,
                k >= 1,
                data.len() == n * k,
                data.len() > k,
        ;
        assert(data.skip(k).len() == (n - 1) * k) by (nonlinear_arith)
            requires
                data.skip(k).len() == data.len() - k,
                data.len() == n * k,
        ;
        lemma_chunks_last_full(data.skip(k), k, n - 1);
        assert(spec_chunks(data, k).last() == spec_chunks(data.skip(k), k).last());
    }
}

} // verus!
