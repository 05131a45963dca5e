//! Delimited-text codec and the byte-level operations: reading and
//! writing records through the csv crate, filtering, merging and
//! splitting whole files held in memory as bytes.

use vstd::prelude::*;

use crate::bytes::append_bytes;
use crate::bytes::clone_field;
use crate::bytes::dec_u64;
use crate::bytes::spec_dec;
use crate::bytes::spec_lines;
use crate::bytes::split_lines;
use crate::errors::OpError;
use crate::filter::filter_row_records;
use crate::filter::filter_rows_records;
use crate::filter::spec_filter_rows;
use crate::filter::spec_filter_rows_any;
use crate::merge::merge_records;
use crate::merge::spec_merge;
use crate::split::spec_split_shards;
use crate::split::split_records;

verus! {

/// Whether the csv reader accepts `data` whole under delimiter `sep`.
pub uninterp spec fn csv_parse_ok(data: Seq<u8>, sep: u8) -> bool;

/// The records the csv reader yields for `data` under delimiter `sep`.
pub uninterp spec fn csv_rows(data: Seq<u8>, sep: u8) -> Seq<Seq<Seq<u8>>>;

/// The bytes the csv writer emits for `rows` under delimiter `sep`.
pub uninterp spec fn csv_encoded(rows: Seq<Seq<Seq<u8>>>, sep: u8) -> Seq<u8>;

/// Relies on csv::ReaderBuilder / Reader::byte_records (csv 1.4):
/// reading records from an in-memory buffer, with no header treatment
/// and the given field delimiter, is a function of the bytes and the
/// delimiter alone, and the reader rejects the input exactly when some
/// row cannot be read in the declared shape.
#[verifier::external_body]
fn parse_records(data: &Vec<u8>, sep: u8) -> (r: Result<Vec<Vec<Vec<u8>>>, OpError>)
    ensures
        r is Ok <==> csv_parse_ok(data@, sep),
        r matches Ok(rows) ==> rows.deep_view() == csv_rows(data@, sep),
        r matches Err(e) ==> e == OpError::Format,
{
    let mut rdr =
        csv::ReaderBuilder::new().has_headers(false).delimiter(sep).from_reader(data.as_slice());
    let mut out: Vec<Vec<Vec<u8>>> = Vec::new();
    for rec in rdr.byte_records() {
        match rec {
            Ok(row) => out.push(row.iter().map(|f| f.to_vec()).collect()),
            Err(_) => return Err(OpError::Format),
        }
    }
    Ok(out)
}

/// Relies on csv::WriterBuilder / Writer::write_record (csv 1.4):
/// writing records to an in-memory buffer with the given field
/// delimiter is a function of the records and the delimiter alone; a
/// flexible writer over a growable buffer cannot fail, and with no
/// records it writes nothing.
#[verifier::external_body]
pub(crate) fn encode_records(rows: &Vec<Vec<Vec<u8>>>, sep: u8) -> (r: Vec<u8>)
    ensures
        r@ == csv_encoded(rows.deep_view(), sep),
        rows.deep_view().len() == 0 ==> r@.len() == 0,
{
    let mut w = csv::WriterBuilder::new().delimiter(sep).flexible(true).from_writer(Vec::new());
    for row in rows.iter() {
        let _ = w.write_record(row.iter());
    }
    w.into_inner().unwrap()
}

/// Single-predicate filtering over delimited bytes: reads `data` with
/// delimiter `sep`, passes the first record through as the output
/// header, keeps every later record whose field at `col` satisfies the
/// predicate, and writes the kept records with delimiter `out_sep`.
/// Unreadable input fails with `Format`; a data record too narrow for
/// `col` fails with `Index`.
pub fn filter_row(
    data: &Vec<u8>,
    sep: u8,
    out_sep: u8,
    col: usize,
    cond: &Vec<u8>,
    is_exac: bool,
) -> (r: Result<Vec<u8>, OpError>)
    ensures
        !csv_parse_ok(data@, sep) ==> (r matches Err(e) && e == OpError::Format),
        csv_parse_ok(data@, sep) ==> {
            let rows = csv_rows(data@, sep);
            if forall|i: int| 1 <= i < rows.len() ==> col < rows[i].len() {
                r matches Ok(out) && out@ == csv_encoded(
                    spec_filter_rows(rows, col as int, cond@, is_exac),
                    out_sep,
                )
            } else {
                r matches Err(e) && e == OpError::Index
            }
        },
{
    let rows = match parse_records(data, sep) {
        Ok(rows) => rows,
        Err(e) => {
            return Err(e);
        },
    };
    let kept = match filter_row_records(&rows, col, cond, is_exac) {
        Ok(kept) => kept,
        Err(e) => {
            return Err(e);
        },
    };
    Ok(encode_records(&kept, out_sep))
}

/// List filtering over delimited bytes: the literals are the lines of
/// `list_text`; the first record passes through as the header, and a
/// later record is kept exactly when it is wide enough for `col` and
/// its field there contains some literal. Unreadable input fails with
/// `Format`.
pub fn filter_rows(
    list_text: &Vec<u8>,
    data: &Vec<u8>,
    sep: u8,
    out_sep: u8,
    col: usize,
) -> (r: Result<Vec<u8>, OpError>)
    ensures
        !csv_parse_ok(data@, sep) ==> (r matches Err(e) && e == OpError::Format),
        csv_parse_ok(data@, sep) ==> (r matches Ok(out) && out@ == csv_encoded(
            spec_filter_rows_any(csv_rows(data@, sep), col as int, spec_lines(list_text@)),
            out_sep,
        )),
{
    let lits = split_lines(list_text);
    let rows = match parse_records(data, sep) {
        Ok(rows) => rows,
        Err(e) => {
            return Err(e);
        },
    };
    let kept = filter_rows_records(&rows, col, &lits);
    Ok(encode_records(&kept, out_sep))
}

/// The tables that the files parse to, in enumeration order.
pub open spec fn spec_parsed_files(files: Seq<Seq<u8>>, sep: u8) -> Seq<Seq<Seq<Seq<u8>>>> {
    files.map_values(|f: Seq<u8>| csv_rows(f, sep))
}

/// Merging over delimited bytes: every file is read with delimiter
/// `sep`; the first non-empty file's header is written once, then every
/// file's data rows in enumeration order, with delimiter `out_sep`.
/// With no files at all the output is empty; an unreadable file fails
/// the whole merge with `Format`.
pub fn merge_csv(files: &Vec<Vec<u8>>, sep: u8, out_sep: u8) -> (r: Result<Vec<u8>, OpError>)
    ensures
        r is Ok <==> (forall|i: int|
            0 <= i < files.deep_view().len() ==> csv_parse_ok(
                #[trigger] files.deep_view()[i],
                sep,
            )),
        r matches Ok(out) ==> out@ == csv_encoded(
            spec_merge(spec_parsed_files(files.deep_view(), sep)),
            out_sep,
        ),
        files@.len() == 0 ==> (r matches Ok(out) && out@.len() == 0),
        r matches Err(e) ==> e == OpError::Format,
{
    let ghost fv = files.deep_view();
    let mut tables: Vec<Vec<Vec<Vec<u8>>>> = Vec::new();
    let mut i: usize = 0;
    proof {
        assert(tables.deep_view() =~~= spec_parsed_files(fv.take(0), sep));
    }
    while i < files.len()
        invariant
            fv == files.deep_view(),
            fv.len() == files@.len(),
            0 <= i <= fv.len(),
            forall|j: int| 0 <= j < i ==> csv_parse_ok(#[trigger] fv[j], sep),
            tables@.len() == i,
            tables.deep_view() == spec_parsed_files(fv.take(i as int), sep),
        decreases files@.len() - i,
    {
        let f = &files[i];
        proof {
            assert(f.deep_view() =~= f@);
            assert(f@ == fv[i as int]);
            assert(tables.deep_view().len() == i);
        }
        let t = match parse_records(f, sep) {
            Ok(t) => t,
            Err(e) => {
                return Err(e);
            },
        };
        let ghost old_dv = tables.deep_view();
        tables.push(t);
        proof {
            assert(tables.deep_view() =~~= old_dv.push(csv_rows(fv[i as int], sep)));
            assert(old_dv.push(csv_rows(fv[i as int], sep)) =~~= spec_parsed_files(
                fv.take(i + 1),
                sep,
            ));
        }
        i += 1;
    }
    proof {
        assert(fv.take(fv.len() as int) =~~= fv);
    }
    let merged = merge_records(&tables);
    let out = encode_records(&merged, out_sep);
    proof {
        if files@.len() == 0 {
            assert(spec_parsed_files(fv, sep) =~~= Seq::<Seq<Seq<Seq<u8>>>>::empty());
            assert(spec_merge(spec_parsed_files(fv, sep)).len() == 0);
        }
    }
    Ok(out)
}

/// The derived name of shard `n`: the stem, an underscore, the decimal
/// index, and the delimited-file extension.
pub open spec fn spec_shard_name(stem: Seq<u8>, n: nat) -> Seq<u8> {
    stem + seq![95u8] + spec_dec(n) + seq![46u8, 99u8, 115u8, 118u8]
}

/// Writes the name of shard `n` for the given stem.
pub fn shard_name(stem: &Vec<u8>, n: u64) -> (r: Vec<u8>)
    ensures
        r@ == spec_shard_name(stem@, n as nat),
{
    let mut r = clone_field(stem);
    r.push(95);
    let digits = dec_u64(n);
    append_bytes(&mut r, &digits);
    r.push(46);
    r.push(99);
    r.push(115);
    r.push(118);
    proof {
        assert(r@ =~= spec_shard_name(stem@, n as nat));
    }
    r
}

/// Splitting over delimited bytes: reads `data` with delimiter `sep`
/// and returns the shards as named byte files, shard `n` named
/// `{stem}_{n}.csv` with `n` starting at 1, each shard written with
/// delimiter `out_sep` and led by the header row. Unreadable input
/// fails with `Format`; input with no records at all yields no shards.
pub fn split_csv(data: &Vec<u8>, sep: u8, out_sep: u8, row_cnt: usize, stem: &Vec<u8>) -> (r: Result<
    Vec<(Vec<u8>, Vec<u8>)>,
    OpError,
>)
    requires
        row_cnt >= 1,
    ensures
        !csv_parse_ok(data@, sep) ==> (r matches Err(e) && e == OpError::Format),
        csv_parse_ok(data@, sep) ==> (r matches Ok(out) && {
            let rows = csv_rows(data@, sep);
            if rows.len() == 0 {
                out@.len() == 0
            } else {
                let shards = spec_split_shards(rows, row_cnt as int);
                &&& out@.len() == shards.len()
                &&& forall|i: int|
                    0 <= i < shards.len() ==> (#[trigger] out@[i]).1@ == csv_encoded(
                        shards[i],
                        out_sep,
                    ) && out@[i].0@ == spec_shard_name(stem@, (i + 1) as nat)
            }
        }),
{
    let rows = match parse_records(data, sep) {
        Ok(rows) => rows,
        Err(e) => {
            return Err(e);
        },
    };
    let mut out: Vec<(Vec<u8>, Vec<u8>)> = Vec::new();
    if rows.len() == 0 {
        return Ok(out);
    }
    let shards = split_records(&rows, row_cnt);
    let ghost sv = spec_split_shards(csv_rows(data@, sep), row_cnt as int);
    let mut i: usize = 0;
    while i < shards.len()
        invariant
            shards.deep_view() == sv,
            shards@.len() == sv.len(),
            0 <= i <= sv.len(),
            out@.len() == i,
            forall|j: int|
                0 <= j < i ==> (#[trigger] out@[j]).1@ == csv_encoded(sv[j], out_sep)
                    && out@[j].0@ == spec_shard_name(stem@, (j + 1) as nat),
        decreases shards@.len() - i,
    {
        let name = shard_name(stem, (i as u64) + 1);
        let bytes = encode_records(&shards[i], out_sep);
        proof {
            assert(shards[i as int].deep_view() == sv[i as int]);
        }
        out.push((name, bytes));
        i += 1;
    }
    Ok(out)
}

} // verus!
