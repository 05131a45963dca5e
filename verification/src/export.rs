//! The chunked exporter: entity-name resolution, row counting,
//! fixed-window pagination over a wide journal table, and a one-shot
//! balance summary. The two column lists are fixed schema contracts,
//! consumed by both the query builder and the header writer; the
//! control flow is a state machine from query responses to the next
//! query to run or file to write, driven by a host that owns the
//! connection.

use vstd::prelude::*;
use vstd::string::StringSliceAdditionalSpecFns;

use crate::bytes::append_bytes;
use crate::bytes::parse_u64;
use crate::bytes::spec_all_digits;
use crate::bytes::spec_dec_value;
use crate::codec::csv_encoded;
use crate::codec::encode_records;
use crate::errors::OpError;
use crate::bytes::clone_field;
use crate::bytes::clone_record;
use crate::bytes::dec_u64;
use crate::bytes::spec_dec;
use crate::bytes::split_bytes;
use crate::bytes::spec_split;

verus! {

/// How many journal rows one page query fetches.
pub const PAGE_WINDOW: u64 = 3000000;

/// The delimiter every exporter write path uses.
pub const PIPE_DELIM: u8 = 124;

/// The bytes of an ASCII literal.
pub open spec fn lit_bytes(s: &str) -> Seq<u8> {
    s.spec_bytes()
}

/// A fresh byte string holding the literal.
fn lit(s: &str) -> (r: Vec<u8>)
    ensures
        r@ == lit_bytes(s),
{
    vstd::slice::slice_to_vec(s.as_bytes())
}

/// Appends the literal to the buffer.
fn push_lit(dst: &mut Vec<u8>, s: &str)
    ensures
        final(dst)@ == old(dst)@ + lit_bytes(s),
{
    let t = lit(s);
    append_bytes(dst, &t);
}

/// One column of a schema contract: its name, and whether the query
/// must cast it to text.
#[verifier::opaque]
pub open spec fn spec_journal_schema() -> Seq<(Seq<u8>, bool)> {
    seq![
        (lit_bytes("company_code"), false),
        (lit_bytes("fiscal_year"), false),
        (lit_bytes("period"), false),
        (lit_bytes("journal_id"), false),
        (lit_bytes("line_no"), true),
        (lit_bytes("posting_date"), false),
        (lit_bytes("document_date"), false),
        (lit_bytes("account_code"), false),
        (lit_bytes("account_name"), false),
        (lit_bytes("party_code"), false),
        (lit_bytes("party_name"), false),
        (lit_bytes("currency"), false),
        (lit_bytes("debit_amount"), true),
        (lit_bytes("credit_amount"), true),
        (lit_bytes("local_debit_amount"), true),
        (lit_bytes("local_credit_amount"), true),
        (lit_bytes("quantity"), true),
        (lit_bytes("unit"), false),
        (lit_bytes("reference_no"), false),
        (lit_bytes("document_type"), false),
        (lit_bytes("created_by"), false),
        (lit_bytes("approved_by"), false),
        (lit_bytes("entry_text"), false),
        (lit_bytes("cost_center"), false),
    ] + Seq::new(30, |i: int| (lit_bytes("memo_") + spec_dec((i + 1) as nat), false))
}

/// The balance-summary schema contract.
#[verifier::opaque]
pub open spec fn spec_balance_schema() -> Seq<(Seq<u8>, bool)> {
    seq![
        (lit_bytes("company_code"), false),
        (lit_bytes("fiscal_year"), false),
        (lit_bytes("period"), false),
        (lit_bytes("account_code"), false),
        (lit_bytes("account_name"), false),
        (lit_bytes("currency"), false),
        (lit_bytes("opening_balance"), true),
        (lit_bytes("opening_quantity"), true),
        (lit_bytes("debit_total"), true),
        (lit_bytes("credit_total"), true),
        (lit_bytes("debit_quantity"), true),
        (lit_bytes("credit_quantity"), true),
        (lit_bytes("closing_balance"), true),
        (lit_bytes("closing_quantity"), true),
        (lit_bytes("local_opening_balance"), true),
        (lit_bytes("local_closing_balance"), true),
        (lit_bytes("local_debit_total"), true),
        (lit_bytes("local_credit_total"), true),
        (lit_bytes("balance_side"), false),
        (lit_bytes("remark"), false),
    ]
}

/// One schema column as a byte name with its cast flag.
fn schema_col(name: &str, numeric: bool) -> (r: (Vec<u8>, bool))
    ensures
        r.0@ == lit_bytes(name),
        r.1 == numeric,
{
    (lit(name), numeric)
}

/// The journal schema contract: 54 columns, the last thirty free-text
/// memo columns.
#[verifier::rlimit(100)]
pub fn journal_schema() -> (r: Vec<(Vec<u8>, bool)>)
    ensures
        r.deep_view() == spec_journal_schema(),
        r@.len() == 54,
{
    let mut r: Vec<(Vec<u8>, bool)> = Vec::new();
    r.push(schema_col("company_code", false));
    r.push(schema_col("fiscal_year", false));
    r.push(schema_col("period", false));
    r.push(schema_col("journal_id", false));
    r.push(schema_col("line_no", true));
    r.push(schema_col("posting_date", false));
    r.push(schema_col("document_date", false));
    r.push(schema_col("account_code", false));
    r.push(schema_col("account_name", false));
    r.push(schema_col("party_code", false));
    r.push(schema_col("party_name", false));
    r.push(schema_col("currency", false));
    r.push(schema_col("debit_amount", true));
    r.push(schema_col("credit_amount", true));
    r.push(schema_col("local_debit_amount", true));
    r.push(schema_col("local_credit_amount", true));
    r.push(schema_col("quantity", true));
    r.push(schema_col("unit", false));
    r.push(schema_col("reference_no", false));
    r.push(schema_col("document_type", false));
    r.push(schema_col("created_by", false));
    r.push(schema_col("approved_by", false));
    r.push(schema_col("entry_text", false));
    r.push(schema_col("cost_center", false));
    proof {
        reveal(spec_journal_schema);
        assert(r.deep_view() =~~= spec_journal_schema().take(24));
    }
    let mut i: u64 = 1;
    while i <= 30
        invariant
            1 <= i <= 31,
            r@.len() == 24 + (i - 1),
            r.deep_view() == spec_journal_schema().take(24 + (i - 1)),
        decreases 31 - i,
    {
        assert(r.deep_view().len() == 24 + (i - 1));
        let mut name = lit("memo_");
        let digits = dec_u64(i);
        append_bytes(&mut name, &digits);
        r.push((name, false));
        proof {
            reveal(spec_journal_schema);
            assert(spec_journal_schema()[24 + (i - 1)] == (
                lit_bytes("memo_") + spec_dec(i as nat),
                false,
            ));
            assert(r.deep_view() =~~= spec_journal_schema().take(24 + i));
        }
        i += 1;
    }
    proof {
        reveal(spec_journal_schema);
        assert(spec_journal_schema().take(54) =~~= spec_journal_schema());
    }
    r
}

/// The balance schema contract: 20 columns.
pub fn balance_schema() -> (r: Vec<(Vec<u8>, bool)>)
    ensures
        r.deep_view() == spec_balance_schema(),
        r@.len() == 20,
{
    let mut r: Vec<(Vec<u8>, bool)> = Vec::new();
    r.push(schema_col("company_code", false));
    r.push(schema_col("fiscal_year", false));
    r.push(schema_col("period", false));
    r.push(schema_col("account_code", false));
    r.push(schema_col("account_name", false));
    r.push(schema_col("currency", false));
    r.push(schema_col("opening_balance", true));
    r.push(schema_col("opening_quantity", true));
    r.push(schema_col("debit_total", true));
    r.push(schema_col("credit_total", true));
    r.push(schema_col("debit_quantity", true));
    r.push(schema_col("credit_quantity", true));
    r.push(schema_col("closing_balance", true));
    r.push(schema_col("closing_quantity", true));
    r.push(schema_col("local_opening_balance", true));
    r.push(schema_col("local_closing_balance", true));
    r.push(schema_col("local_debit_total", true));
    r.push(schema_col("local_credit_total", true));
    r.push(schema_col("balance_side", false));
    r.push(schema_col("remark", false));
    proof {
        reveal(spec_balance_schema);
        assert(r.deep_view() =~~= spec_balance_schema());
    }
    r
}

/// A schema's header row: the column names in order.
pub open spec fn spec_header_of(cols: Seq<(Seq<u8>, bool)>) -> Seq<Seq<u8>> {
    cols.map_values(|c: (Seq<u8>, bool)| c.0)
}

/// The 54-column journal header row.
pub open spec fn spec_journal_header() -> Seq<Seq<u8>> {
    spec_header_of(spec_journal_schema())
}

/// The 20-column balance header row.
pub open spec fn spec_balance_header() -> Seq<Seq<u8>> {
    spec_header_of(spec_balance_schema())
}

/// The header row of a schema contract.
pub fn header_of(cols: &Vec<(Vec<u8>, bool)>) -> (r: Vec<Vec<u8>>)
    ensures
        r.deep_view() == spec_header_of(cols.deep_view()),
{
    let ghost cv = cols.deep_view();
    let mut r: Vec<Vec<u8>> = Vec::new();
    let mut i: usize = 0;
    while i < cols.len()
        invariant
            cv == cols.deep_view(),
            cv.len() == cols@.len(),
            0 <= i <= cv.len(),
            r@.len() == i,
            r.deep_view() == spec_header_of(cv).take(i as int),
        decreases cols@.len() - i,
    {
        assert(r.deep_view().len() == i);
        r.push(clone_field(&cols[i].0));
        proof {
            assert(cols[i as int].deep_view() == cv[i as int]);
            assert(r.deep_view() =~~= spec_header_of(cv).take(i + 1));
        }
        i += 1;
    }
    proof {
        assert(spec_header_of(cv).take(cv.len() as int) =~~= spec_header_of(cv));
    }
    r
}

/// One column as it stands in a select list: numeric columns are cast
/// to text at the query level, so every fetched value is a string.
pub open spec fn spec_select_item(c: (Seq<u8>, bool)) -> Seq<u8> {
    if c.1 {
        lit_bytes("CAST(") + c.0 + lit_bytes(" AS CHAR)")
    } else {
        c.0
    }
}

/// A comma-joined select list over a schema contract.
pub open spec fn spec_select_list(cols: Seq<(Seq<u8>, bool)>) -> Seq<u8>
    decreases cols.len(),
{
    if cols.len() == 0 {
        Seq::empty()
    } else if cols.len() == 1 {
        spec_select_item(cols[0])
    } else {
        spec_select_list(cols.drop_last()) + lit_bytes(", ") + spec_select_item(cols.last())
    }
}

/// Writes the select list of a schema contract.
pub fn select_list(cols: &Vec<(Vec<u8>, bool)>) -> (r: Vec<u8>)
    ensures
        r@ == spec_select_list(cols.deep_view()),
{
    let ghost cv = cols.deep_view();
    let mut r: Vec<u8> = Vec::new();
    let mut i: usize = 0;
    while i < cols.len()
        invariant
            cv == cols.deep_view(),
            cv.len() == cols@.len(),
            0 <= i <= cv.len(),
            r@ == spec_select_list(cv.take(i as int)),
        decreases cols@.len() - i,
    {
        if i > 0 {
            push_lit(&mut r, ", ");
        }
        let c = &cols[i];
        proof {
            assert(c.deep_view() == cv[i as int]);
        }
        if c.1 {
            push_lit(&mut r, "CAST(");
            append_bytes(&mut r, &c.0);
            push_lit(&mut r, " AS CHAR)");
        } else {
            append_bytes(&mut r, &c.0);
        }
        proof {
            assert(cv.take(i + 1).drop_last() =~~= cv.take(i as int));
            assert(cv.take(i + 1).last() == cv[i as int]);
            assert(c.0@ == cv[i as int].0);
            assert(r@ =~= spec_select_list(cv.take(i + 1)));
        }
        i += 1;
    }
    proof {
        assert(cv.take(cv.len() as int) =~~= cv);
    }
    r
}

/// The lookup query that resolves an entity name to its physical
/// schema identifier.
pub open spec fn spec_resolve_query(entity: Seq<u8>) -> Seq<u8> {
    lit_bytes("SELECT schema_code FROM entity_registry WHERE entity_name = '") + entity + lit_bytes(
        "'",
    )
}

/// Writes the entity-resolution query.
pub fn resolve_query(entity: &Vec<u8>) -> (r: Vec<u8>)
    ensures
        r@ == spec_resolve_query(entity@),
{
    let mut r = lit("SELECT schema_code FROM entity_registry WHERE entity_name = '");
    append_bytes(&mut r, entity);
    push_lit(&mut r, "'");
    r
}

/// The count query against the resolved schema's journal table.
pub open spec fn spec_count_query(schema: Seq<u8>) -> Seq<u8> {
    lit_bytes("SELECT COUNT(*) FROM ") + schema + lit_bytes(".journal_lines")
}

/// Writes the journal count query.
pub fn count_query(schema: &Vec<u8>) -> (r: Vec<u8>)
    ensures
        r@ == spec_count_query(schema@),
{
    let mut r = lit("SELECT COUNT(*) FROM ");
    append_bytes(&mut r, schema);
    push_lit(&mut r, ".journal_lines");
    r
}

/// One page query: the journal select list, the resolved schema's
/// journal table, and an offset-limit window.
pub open spec fn spec_page_query(schema: Seq<u8>, start: nat, step: nat) -> Seq<u8> {
    lit_bytes("SELECT ") + spec_select_list(spec_journal_schema()) + lit_bytes(" FROM ") + schema
        + lit_bytes(".journal_lines LIMIT ") + spec_dec(start) + lit_bytes(", ") + spec_dec(step)
}

/// Writes one page query.
pub fn page_query(schema: &Vec<u8>, start: u64, step: u64) -> (r: Vec<u8>)
    ensures
        r@ == spec_page_query(schema@, start as nat, step as nat),
{
    let mut r = lit("SELECT ");
    let cols = journal_schema();
    let sel = select_list(&cols);
    append_bytes(&mut r, &sel);
    push_lit(&mut r, " FROM ");
    append_bytes(&mut r, schema);
    push_lit(&mut r, ".journal_lines LIMIT ");
    let d1 = dec_u64(start);
    append_bytes(&mut r, &d1);
    push_lit(&mut r, ", ");
    let d2 = dec_u64(step);
    append_bytes(&mut r, &d2);
    r
}

/// The unconditional full-table query against the balance table.
pub open spec fn spec_balance_query(schema: Seq<u8>) -> Seq<u8> {
    lit_bytes("SELECT ") + spec_select_list(spec_balance_schema()) + lit_bytes(" FROM ") + schema
        + lit_bytes(".balances")
}

/// Writes the balance query.
pub fn balance_query(schema: &Vec<u8>) -> (r: Vec<u8>)
    ensures
        r@ == spec_balance_query(schema@),
{
    let mut r = lit("SELECT ");
    let cols = balance_schema();
    let sel = select_list(&cols);
    append_bytes(&mut r, &sel);
    push_lit(&mut r, " FROM ");
    append_bytes(&mut r, schema);
    push_lit(&mut r, ".balances");
    r
}

/// The file-name stem an entity name yields: the name split on
/// underscores, the third token taken, or the whole name where fewer
/// than three tokens exist.
pub open spec fn spec_export_filename(entity: Seq<u8>) -> Seq<u8> {
    let parts = spec_split(entity, 95u8);
    if parts.len() >= 3 {
        parts[2]
    } else {
        entity
    }
}

/// Derives the file-name stem from an entity name.
pub fn export_filename(entity: &Vec<u8>) -> (r: Vec<u8>)
    ensures
        r@ == spec_export_filename(entity@),
{
    let parts = split_bytes(entity, 95);
    if parts.len() >= 3 {
        let r = clone_field(&parts[2]);
        proof {
            assert(parts[2].deep_view() =~= parts@[2]@);
        }
        r
    } else {
        clone_field(entity)
    }
}

/// The journal shard name when a single shard holds everything.
pub open spec fn spec_gl_name(filename: Seq<u8>) -> Seq<u8> {
    filename + lit_bytes("_GL.csv")
}

/// The journal shard name for page `n` of a multi-page export.
pub open spec fn spec_gl_page_name(filename: Seq<u8>, n: nat) -> Seq<u8> {
    filename + lit_bytes("_GL_") + spec_dec(n) + lit_bytes(".csv")
}

/// The balance shard name.
pub open spec fn spec_tb_name(filename: Seq<u8>) -> Seq<u8> {
    filename + lit_bytes("_TB.csv")
}

/// Writes the single-shard journal name.
pub fn gl_name(filename: &Vec<u8>) -> (r: Vec<u8>)
    ensures
        r@ == spec_gl_name(filename@),
{
    let mut r = clone_field(filename);
    push_lit(&mut r, "_GL.csv");
    r
}

/// Writes the journal name of page `n`.
pub fn gl_page_name(filename: &Vec<u8>, n: u64) -> (r: Vec<u8>)
    ensures
        r@ == spec_gl_page_name(filename@, n as nat),
{
    let mut r = clone_field(filename);
    push_lit(&mut r, "_GL_");
    let digits = dec_u64(n);
    append_bytes(&mut r, &digits);
    push_lit(&mut r, ".csv");
    r
}

/// Writes the balance shard name.
pub fn tb_name(filename: &Vec<u8>) -> (r: Vec<u8>)
    ensures
        r@ == spec_tb_name(filename@),
{
    let mut r = clone_field(filename);
    push_lit(&mut r, "_TB.csv");
    r
}

/// How many pages the extraction phase runs: none for an empty table,
/// else the row count divided by the window, rounded up.
pub open spec fn spec_num_pages(stop: u64, step: u64) -> int
    recommends
        step >= 1,
{
    if stop == 0 {
        0
    } else {
        ((stop - 1) / (step as int)) + 1
    }
}

/// Computes the page count.
pub fn num_pages(stop: u64, step: u64) -> (r: u64)
    requires
        step >= 1,
    ensures
        r as int == spec_num_pages(stop, step),
        r <= stop,
{
    if stop == 0 {
        0
    } else {
        proof {
            vstd::arithmetic::div_mod::lemma_div_nonincreasing((stop - 1) as int, step as int);
        }
        (stop - 1) / step + 1
    }
}

/// The exporter's phases, as the contracts speak of them.
#[verifier::ext_equal]
pub enum ExportPhaseModel {
    Resolve { entity: Seq<u8>, step: u64 },
    Count { filename: Seq<u8>, schema: Seq<u8>, step: u64 },
    Extract { filename: Seq<u8>, schema: Seq<u8>, step: u64, stop: u64, page: u64 },
    Balance { filename: Seq<u8>, schema: Seq<u8> },
    Done,
}

/// One instruction to the host, as the contracts speak of it.
#[verifier::ext_equal]
pub enum ExportActionModel {
    Query { sql: Seq<u8> },
    Write { name: Seq<u8>, data: Seq<u8> },
}

/// The exporter's phase between two host calls.
#[derive(Debug)]
pub enum ExportPhase {
    Resolve { entity: Vec<u8>, step: u64 },
    Count { filename: Vec<u8>, schema: Vec<u8>, step: u64 },
    Extract { filename: Vec<u8>, schema: Vec<u8>, step: u64, stop: u64, page: u64 },
    Balance { filename: Vec<u8>, schema: Vec<u8> },
    Done,
}

/// One instruction to the host: run a query and hand back its rows, or
/// write a file.
#[derive(Debug)]
pub enum ExportAction {
    Query { sql: Vec<u8> },
    Write { name: Vec<u8>, data: Vec<u8> },
}

impl View for ExportPhase {
    type V = ExportPhaseModel;

    open spec fn view(&self) -> ExportPhaseModel {
        match self {
            ExportPhase::Resolve { entity, step } => ExportPhaseModel::Resolve {
                entity: entity@,
                step: *step,
            },
            ExportPhase::Count { filename, schema, step } => ExportPhaseModel::Count {
                filename: filename@,
                schema: schema@,
                step: *step,
            },
            ExportPhase::Extract { filename, schema, step, stop, page } => ExportPhaseModel::Extract {
                filename: filename@,
                schema: schema@,
                step: *step,
                stop: *stop,
                page: *page,
            },
            ExportPhase::Balance { filename, schema } => ExportPhaseModel::Balance {
                filename: filename@,
                schema: schema@,
            },
            ExportPhase::Done => ExportPhaseModel::Done,
        }
    }
}

impl DeepView for ExportAction {
    type V = ExportActionModel;

    open spec fn deep_view(&self) -> ExportActionModel {
        match self {
            ExportAction::Query { sql } => ExportActionModel::Query { sql: sql@ },
            ExportAction::Write { name, data } => ExportActionModel::Write {
                name: name@,
                data: data@,
            },
        }
    }
}

/// The phase invariant: a positive window, and during extraction a page
/// index that stays ahead of the page count.
pub open spec fn spec_phase_wf(p: ExportPhaseModel) -> bool {
    match p {
        ExportPhaseModel::Resolve { entity, step } => step >= 1,
        ExportPhaseModel::Count { filename, schema, step } => step >= 1,
        ExportPhaseModel::Extract { filename, schema, step, stop, page } => step >= 1 && (
        page as int) < spec_num_pages(stop, step),
        ExportPhaseModel::Balance { filename, schema } => true,
        ExportPhaseModel::Done => true,
    }
}

/// The whole exporter as one transition: what the rows answering the
/// pending query make of the current phase, and what the host must do
/// next.
///
/// - Resolution: no row means no code; else the first cell is the
///   physical schema and the row count is queried next.
/// - Count: the first cell must be a decimal row count `stop`; an empty
///   table skips extraction but still writes one header-only journal
///   shard under the plain name; else page 1 is queried.
/// - Extraction: each response becomes one shard (the 54-column header,
///   then the rows), named plainly when a single page covers the table
///   and `_GL_{n}` otherwise; the next page or the balance table is
///   queried.
/// - Balance: the response becomes the single `_TB` shard with the
///   20-column header, and the export is done.
pub open spec fn spec_export_step(p: ExportPhaseModel, rows: Seq<Seq<Seq<u8>>>) -> Result<
    (ExportPhaseModel, Seq<ExportActionModel>),
    OpError,
> {
    match p {
        ExportPhaseModel::Resolve { entity, step } => {
            if rows.len() == 0 || rows[0].len() == 0 {
                Err(OpError::NoCodeFound)
            } else {
                let schema = rows[0][0];
                Ok(
                    (
                        ExportPhaseModel::Count {
                            filename: spec_export_filename(entity),
                            schema,
                            step,
                        },
                        seq![ExportActionModel::Query { sql: spec_count_query(schema) }],
                    ),
                )
            }
        },
        ExportPhaseModel::Count { filename, schema, step } => {
            if rows.len() == 0 || rows[0].len() == 0 {
                Err(OpError::Format)
            } else {
                let cell = rows[0][0];
                if !(cell.len() > 0 && spec_all_digits(cell) && spec_dec_value(cell)
                    <= u64::MAX) {
                    Err(OpError::Format)
                } else {
                    let stop = spec_dec_value(cell) as u64;
                    if spec_num_pages(stop, step) == 0 {
                        Ok(
                            (
                                ExportPhaseModel::Balance { filename, schema },
                                seq![
                                    ExportActionModel::Write {
                                        name: spec_gl_name(filename),
                                        data: csv_encoded(
                                            seq![spec_journal_header()],
                                            PIPE_DELIM,
                                        ),
                                    },
                                    ExportActionModel::Query {
                                        sql: spec_balance_query(schema),
                                    },
                                ],
                            ),
                        )
                    } else {
                        Ok(
                            (
                                ExportPhaseModel::Extract { filename, schema, step, stop, page: 0 },
                                seq![
                                    ExportActionModel::Query {
                                        sql: spec_page_query(schema, 0, step as nat),
                                    },
                                ],
                            ),
                        )
                    }
                }
            }
        },
        ExportPhaseModel::Extract { filename, schema, step, stop, page } => {
            let total = spec_num_pages(stop, step);
            let name = if total <= 1 {
                spec_gl_name(filename)
            } else {
                spec_gl_page_name(filename, (page + 1) as nat)
            };
            let shard = csv_encoded(seq![spec_journal_header()] + rows, PIPE_DELIM);
            if page + 1 < total {
                Ok(
                    (
                        ExportPhaseModel::Extract {
                            filename,
                            schema,
                            step,
                            stop,
                            page: (page + 1) as u64,
                        },
                        seq![
                            ExportActionModel::Write { name, data: shard },
                            ExportActionModel::Query {
                                sql: spec_page_query(schema, ((page + 1) * step) as nat, step as nat),
                            },
                        ],
                    ),
                )
            } else {
                Ok(
                    (
                        ExportPhaseModel::Balance { filename, schema },
                        seq![
                            ExportActionModel::Write { name, data: shard },
                            ExportActionModel::Query { sql: spec_balance_query(schema) },
                        ],
                    ),
                )
            }
        },
        ExportPhaseModel::Balance { filename, schema } => {
            Ok(
                (
                    ExportPhaseModel::Done,
                    seq![
                        ExportActionModel::Write {
                            name: spec_tb_name(filename),
                            data: csv_encoded(seq![spec_balance_header()] + rows, PIPE_DELIM),
                        },
                    ],
                ),
            )
        },
        ExportPhaseModel::Done => Ok((ExportPhaseModel::Done, Seq::empty())),
    }
}

/// The header row placed before a batch of fetched rows.
fn with_header(header: Vec<Vec<u8>>, rows: &Vec<Vec<Vec<u8>>>) -> (t: Vec<Vec<Vec<u8>>>)
    ensures
        t.deep_view() == seq![header.deep_view()] + rows.deep_view(),
{
    let ghost hv = header.deep_view();
    let mut t: Vec<Vec<Vec<u8>>> = Vec::new();
    t.push(header);
    proof {
        assert(t.deep_view() =~~= seq![hv] + rows.deep_view().take(0));
    }
    let mut i: usize = 0;
    while i < rows.len()
        invariant
            0 <= i <= rows@.len(),
            rows.deep_view().len() == rows@.len(),
            t@.len() == i + 1,
            t.deep_view() == seq![hv] + rows.deep_view().take(i as int),
        decreases rows@.len() - i,
    {
        assert(t.deep_view().len() == i + 1);
        let ghost old_dv = t.deep_view();
        t.push(clone_record(&rows[i]));
        proof {
            assert(rows[i as int].deep_view() == rows.deep_view()[i as int]);
            assert(t.deep_view() =~~= old_dv.push(rows.deep_view()[i as int]));
            assert(old_dv.push(rows.deep_view()[i as int]) =~~= seq![hv] + rows.deep_view().take(
                i + 1,
            ));
        }
        i += 1;
    }
    proof {
        assert(seq![hv] + rows.deep_view().take(rows@.len() as int) =~~= seq![hv]
            + rows.deep_view());
    }
    t
}

/// Opens an export: the phase that awaits the resolution rows, and the
/// resolution query the host must run.
pub fn export_begin(entity: Vec<u8>, step: u64) -> (r: (ExportPhase, ExportAction))
    requires
        step >= 1,
    ensures
        r.0@ == (ExportPhaseModel::Resolve { entity: entity@, step }),
        spec_phase_wf(r.0@),
        r.1.deep_view() == (ExportActionModel::Query { sql: spec_resolve_query(entity@) }),
{
    let q = resolve_query(&entity);
    (ExportPhase::Resolve { entity, step }, ExportAction::Query { sql: q })
}

/// What answers the resolution query: the schema code, or no code.
fn step_resolve(entity: Vec<u8>, step: u64, rows: &Vec<Vec<Vec<u8>>>) -> (r: Result<
    (ExportPhase, Vec<ExportAction>),
    OpError,
>)
    requires
        step >= 1,
    ensures
        ({
            let s = spec_export_step(ExportPhaseModel::Resolve { entity: entity@, step }, rows.deep_view());
            &&& (r is Ok <==> s is Ok)
            &&& (r matches Ok(p) ==> (s matches Ok(sp) && p.0@ == sp.0 && p.1.deep_view() == sp.1
                && spec_phase_wf(p.0@)))
            &&& (r matches Err(e) ==> (s matches Err(se) && e == se))
        }),
{
    let ghost rv = rows.deep_view();
    if rows.len() == 0 {
        return Err(OpError::NoCodeFound);
    }
    let first = &rows[0];
    proof {
        assert(first.deep_view() == rv[0]);
    }
    if first.len() == 0 {
        return Err(OpError::NoCodeFound);
    }
    let schema = clone_field(&first[0]);
    proof {
        assert(first[0]@ =~= first.deep_view()[0]);
    }
    let filename = export_filename(&entity);
    let q = count_query(&schema);
    let mut acts: Vec<ExportAction> = Vec::new();
    acts.push(ExportAction::Query { sql: q });
    proof {
        assert(acts.deep_view() =~~= seq![
            ExportActionModel::Query { sql: spec_count_query(rv[0][0]) },
        ]);
    }
    Ok((ExportPhase::Count { filename, schema, step }, acts))
}

/// What answers the count query: the journal row count `stop`; an
/// empty table still yields one header-only shard under the plain name.
fn step_count(filename: Vec<u8>, schema: Vec<u8>, step: u64, rows: &Vec<Vec<Vec<u8>>>) -> (r:
    Result<(ExportPhase, Vec<ExportAction>), OpError>)
    requires
        step >= 1,
    ensures
        ({
            let s = spec_export_step(
                ExportPhaseModel::Count { filename: filename@, schema: schema@, step },
                rows.deep_view(),
            );
            &&& (r is Ok <==> s is Ok)
            &&& (r matches Ok(p) ==> (s matches Ok(sp) && p.0@ == sp.0 && p.1.deep_view() == sp.1
                && spec_phase_wf(p.0@)))
            &&& (r matches Err(e) ==> (s matches Err(se) && e == se))
        }),
{
    let ghost rv = rows.deep_view();
    if rows.len() == 0 {
        return Err(OpError::Format);
    }
    let first = &rows[0];
    proof {
        assert(first.deep_view() == rv[0]);
    }
    if first.len() == 0 {
        return Err(OpError::Format);
    }
    proof {
        assert(first[0]@ =~= first.deep_view()[0]);
    }
    let stop = match parse_u64(&first[0]) {
        Some(v) => v,
        None => {
            return Err(OpError::Format);
        },
    };
    let total = num_pages(stop, step);
    if total == 0 {
        let cols = journal_schema();
        let header = header_of(&cols);
        let empty_rows: Vec<Vec<Vec<u8>>> = Vec::new();
        let tbl = with_header(header, &empty_rows);
        proof {
            assert(seq![spec_journal_header()] + empty_rows.deep_view()
                =~~= seq![spec_journal_header()]);
        }
        let shard = encode_records(&tbl, PIPE_DELIM);
        let name = gl_name(&filename);
        let q = balance_query(&schema);
        let mut acts: Vec<ExportAction> = Vec::new();
        acts.push(ExportAction::Write { name, data: shard });
        acts.push(ExportAction::Query { sql: q });
        proof {
            assert(acts.deep_view() =~~= seq![
                ExportActionModel::Write {
                    name: spec_gl_name(filename@),
                    data: csv_encoded(seq![spec_journal_header()], PIPE_DELIM),
                },
                ExportActionModel::Query { sql: spec_balance_query(schema@) },
            ]);
        }
        Ok((ExportPhase::Balance { filename, schema }, acts))
    } else {
        let q = page_query(&schema, 0, step);
        let mut acts: Vec<ExportAction> = Vec::new();
        acts.push(ExportAction::Query { sql: q });
        proof {
            assert(acts.deep_view() =~~= seq![
                ExportActionModel::Query { sql: spec_page_query(schema@, 0, step as nat) },
            ]);
        }
        Ok((ExportPhase::Extract { filename, schema, step, stop, page: 0 }, acts))
    }
}

/// What answers one page query: the rows of that page, written as one
/// shard; then the next page, or the balance table, is queried.
#[verifier::rlimit(100)]
#[verifier::spinoff_prover]
fn step_extract(
    filename: Vec<u8>,
    schema: Vec<u8>,
    step: u64,
    stop: u64,
    page: u64,
    rows: &Vec<Vec<Vec<u8>>>,
) -> (r: Result<(ExportPhase, Vec<ExportAction>), OpError>)
    requires
        step >= 1,
        (page as int) < spec_num_pages(stop, step),
    ensures
        ({
            let s = spec_export_step(
                ExportPhaseModel::Extract {
                    filename: filename@,
                    schema: schema@,
                    step,
                    stop,
                    page,
                },
                rows.deep_view(),
            );
            &&& (r is Ok <==> s is Ok)
            &&& (r matches Ok(p) ==> (s matches Ok(sp) && p.0@ == sp.0 && p.1.deep_view() == sp.1
                && spec_phase_wf(p.0@)))
            &&& (r matches Err(e) ==> (s matches Err(se) && e == se))
        }),
{
    let ghost rv = rows.deep_view();
    let total = num_pages(stop, step);
    let name = if total <= 1 {
        gl_name(&filename)
    } else {
        gl_page_name(&filename, page + 1)
    };
    proof {
        assert(name@ == (if spec_num_pages(stop, step) <= 1 {
            spec_gl_name(filename@)
        } else {
            spec_gl_page_name(filename@, (page + 1) as nat)
        }));
    }
    let cols = journal_schema();
    let header = header_of(&cols);
    let tbl = with_header(header, rows);
    let shard = encode_records(&tbl, PIPE_DELIM);
    if page + 1 < total {
        let start = compute_start(page, step, stop);
        let q = page_query(&schema, start, step);
        let mut acts: Vec<ExportAction> = Vec::new();
        acts.push(ExportAction::Write { name, data: shard });
        acts.push(ExportAction::Query { sql: q });
        proof {
            assert(acts.deep_view() =~~= seq![
                ExportActionModel::Write {
                    name: if spec_num_pages(stop, step) <= 1 {
                        spec_gl_name(filename@)
                    } else {
                        spec_gl_page_name(filename@, (page + 1) as nat)
                    },
                    data: csv_encoded(seq![spec_journal_header()] + rv, PIPE_DELIM),
                },
                ExportActionModel::Query {
                    sql: spec_page_query(schema@, ((page + 1) * step) as nat, step as nat),
                },
            ]);
        }
        Ok((ExportPhase::Extract { filename, schema, step, stop, page: page + 1 }, acts))
    } else {
        let q = balance_query(&schema);
        let mut acts: Vec<ExportAction> = Vec::new();
        acts.push(ExportAction::Write { name, data: shard });
        acts.push(ExportAction::Query { sql: q });
        proof {
            assert(acts.deep_view() =~~= seq![
                ExportActionModel::Write {
                    name: if spec_num_pages(stop, step) <= 1 {
                        spec_gl_name(filename@)
                    } else {
                        spec_gl_page_name(filename@, (page + 1) as nat)
                    },
                    data: csv_encoded(seq![spec_journal_header()] + rv, PIPE_DELIM),
                },
                ExportActionModel::Query { sql: spec_balance_query(schema@) },
            ]);
        }
        Ok((ExportPhase::Balance { filename, schema }, acts))
    }
}

/// What answers the balance query: the rows of the whole balance
/// table, written as the single summary shard.
fn step_balance(filename: Vec<u8>, schema: Vec<u8>, rows: &Vec<Vec<Vec<u8>>>) -> (r: Result<
    (ExportPhase, Vec<ExportAction>),
    OpError,
>)
    ensures
        ({
            let s = spec_export_step(
                ExportPhaseModel::Balance { filename: filename@, schema: schema@ },
                rows.deep_view(),
            );
            &&& (r is Ok <==> s is Ok)
            &&& (r matches Ok(p) ==> (s matches Ok(sp) && p.0@ == sp.0 && p.1.deep_view() == sp.1
                && spec_phase_wf(p.0@)))
            &&& (r matches Err(e) ==> (s matches Err(se) && e == se))
        }),
{
    let ghost rv = rows.deep_view();
    let cols = balance_schema();
    let header = header_of(&cols);
    let tbl = with_header(header, rows);
    let shard = encode_records(&tbl, PIPE_DELIM);
    let name = tb_name(&filename);
    let mut acts: Vec<ExportAction> = Vec::new();
    acts.push(ExportAction::Write { name, data: shard });
    proof {
        assert(acts.deep_view() =~~= seq![
            ExportActionModel::Write {
                name: spec_tb_name(filename@),
                data: csv_encoded(seq![spec_balance_header()] + rv, PIPE_DELIM),
            },
        ]);
    }
    Ok((ExportPhase::Done, acts))
}

/// Advances the export by one host response: `rows` answers the query
/// the previous step asked for.
pub fn export_step(phase: ExportPhase, rows: &Vec<Vec<Vec<u8>>>) -> (r: Result<
    (ExportPhase, Vec<ExportAction>),
    OpError,
>)
    requires
        spec_phase_wf(phase@),
    ensures
        r is Ok <==> spec_export_step(phase@, rows.deep_view()) is Ok,
        r matches Ok(p) ==> (spec_export_step(phase@, rows.deep_view()) matches Ok(sp) && p.0@
            == sp.0 && p.1.deep_view() == sp.1 && spec_phase_wf(p.0@)),
        r matches Err(e) ==> (spec_export_step(phase@, rows.deep_view()) matches Err(se) && e
            == se),
{
    match phase {
        ExportPhase::Resolve { entity, step } => step_resolve(entity, step, rows),
        ExportPhase::Count { filename, schema, step } => step_count(filename, schema, step, rows),
        ExportPhase::Extract { filename, schema, step, stop, page } => step_extract(
            filename,
            schema,
            step,
            stop,
            page,
            rows,
        ),
        ExportPhase::Balance { filename, schema } => step_balance(filename, schema, rows),
        ExportPhase::Done => {
            let acts: Vec<ExportAction> = Vec::new();
            proof {
                assert(acts.deep_view() =~~= Seq::<ExportActionModel>::empty());
            }
            Ok((ExportPhase::Done, acts))
        },
    }
}

/// The offset of the next page: pages lie back to back, so page
/// `page + 1` starts `step` rows further on, still inside the table.
fn compute_start(page: u64, step: u64, stop: u64) -> (r: u64)
    requires
        step >= 1,
        page as int + 1 < spec_num_pages(stop, step),
    ensures
        r == (page + 1) * step,
{
    proof {
        let p1 = page as int + 1;
        let q = (stop - 1) as int / step as int;
        assert(stop >= 1);
        assert(p1 <= q);
        vstd::arithmetic::div_mod::lemma_fundamental_div_mod((stop - 1) as int, step as int);
        vstd::arithmetic::div_mod::lemma_mod_division_less_than_divisor(
            (stop - 1) as int,
            step as int,
        );
        assert(step as int * q <= (stop - 1) as int);
        assert(p1 * step as int <= q * step as int) by (nonlinear_arith)
            requires
                p1 <= q,
                step >= 1,
        ;
        assert(q * step as int == step as int * q) by (nonlinear_arith);
        assert(p1 * step as int <= (stop - 1) as int);
    }
    (page + 1) * step
}


} // verus!
