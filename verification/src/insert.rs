//! Planning of `JSONEachRow` inserts: checks on the table name and the rows, and the
//! request bodies that a (batch) insert sends, one HTTP request per body.
//!
//! Chunks of a batch are independent requests: a failure does not roll back chunks
//! that were already written.
use vstd::prelude::*;

use crate::error::{ClickHouseError, ClickHouseResult, ErrorView};
use crate::rows::{
    byte_len, cells_view, chunk_ranges, effective_chunk_size, encode_rows, is_byte_chunking,
    is_chunking, join_lines, joined_lines, non_object_row_message, row_costs, split_by_bytes,
    JsonRow,
};
use crate::sql::{ident_check, insert_sql, insert_statement, validate_ident};
use crate::text::{decimal, decimal_string};
use crate::types::BatchInsertOptions;

verus! {

/// The JSON texts of `rows`.
pub open spec fn row_texts(rows: Seq<JsonRow>) -> Seq<Seq<char>> {
    rows.map_values(|r: JsonRow| r.text@)
}

/// Whether every row is a JSON object.
pub open spec fn all_objects(rows: Seq<JsonRow>) -> bool {
    forall|i: int| 0 <= i < rows.len() ==> (#[trigger] rows[i]).is_object
}

/// What each row costs in a request body: its UTF-8 bytes and the `\n` after it.
pub open spec fn text_costs(texts: Seq<Seq<char>>) -> Seq<nat> {
    texts.map_values(|t: Seq<char>| byte_len(t) + 1)
}

/// `pieces[k]` splits the row chunk `rc[k]` by the byte budget `max` (0: no budget).
pub open spec fn pieces_split(
    pieces: Seq<Seq<(usize, usize)>>,
    rc: Seq<(usize, usize)>,
    costs: Seq<nat>,
    max: nat,
) -> bool {
    &&& pieces.len() == rc.len()
    &&& forall|k: int|
        0 <= k < rc.len() ==> if max == 0 {
            #[trigger] pieces[k] == seq![rc[k]]
        } else {
            is_byte_chunking(pieces[k], costs, rc[k].0 as nat, rc[k].1 as nat, max)
        }
}

/// The row ranges, in order, that a batch insert of `n` rows sends: the row chunks of
/// `size` rows, each split further by the byte budget `max`.
pub open spec fn is_batch_plan(
    ranges: Seq<(usize, usize)>,
    costs: Seq<nat>,
    n: nat,
    size: nat,
    max: nat,
) -> bool {
    exists|rc: Seq<(usize, usize)>, pieces: Seq<Seq<(usize, usize)>>|
        #![trigger is_chunking(rc, n, size), pieces_split(pieces, rc, costs, max)]
        is_chunking(rc, n, size) && pieces_split(pieces, rc, costs, max) && ranges
            == pieces.flatten()
}

/// The request body of each row range: the rows' JSON texts, one per line.
pub open spec fn bodies_of(ranges: Seq<(usize, usize)>, texts: Seq<Seq<char>>) -> Seq<Seq<char>> {
    ranges.map_values(|g: (usize, usize)| joined_lines(texts.subrange(g.0 as int, g.1 as int)))
}

/// The error for a batch of `n` rows over the limit `limit`.
pub open spec fn batch_too_large(n: nat, limit: nat) -> ErrorView {
    ErrorView::Invalid("批量插入行数 "@ + decimal(n) + " 超过 batch_size="@ + decimal(limit))
}

/// The checks of a batch insert, in order: table name, then (for a non-empty batch) the
/// `batch_size` limit, then that every row is a JSON object.
pub open spec fn batch_check(table: Seq<char>, rows: Seq<JsonRow>, options: BatchInsertOptions) -> Result<
    (),
    ErrorView,
> {
    if ident_check(table) is Err {
        ident_check(table)
    } else if rows.len() == 0 {
        Ok(())
    } else if options.batch_size > 0 && rows.len() > options.batch_size {
        Err(batch_too_large(rows.len(), options.batch_size as nat))
    } else if !all_objects(rows) {
        Err(ErrorView::Serialization(non_object_row_message()))
    } else {
        Ok(())
    }
}

/// The checks of a single-request insert: table name, then every row a JSON object.
pub open spec fn rows_check(table: Seq<char>, rows: Seq<JsonRow>) -> Result<(), ErrorView> {
    if ident_check(table) is Err {
        ident_check(table)
    } else if rows.len() > 0 && !all_objects(rows) {
        Err(ErrorView::Serialization(non_object_row_message()))
    } else {
        Ok(())
    }
}

/// What an insert sends: the statement, and one request body per HTTP request.
pub struct InsertPlan {
    /// `INSERT INTO <table> FORMAT JSONEachRow`.
    pub sql: String,
    /// The bodies, in the order in which they are sent (none for an empty insert).
    pub bodies: Vec<String>,
}

pub open spec fn body_views(bodies: Seq<String>) -> Seq<Seq<char>> {
    bodies.map_values(|b: String| b@)
}

/// Consecutive ranges with `start < end` lie between the first start and the last end.
proof fn lemma_ranges_within(r: Seq<(usize, usize)>)
    requires
        r.len() > 0,
        forall|k: int| 0 <= k < r.len() - 1 ==> (#[trigger] r[k]).1 == r[k + 1].0,
        forall|k: int| 0 <= k < r.len() ==> (#[trigger] r[k]).0 < r[k].1,
    ensures
        forall|k: int| 0 <= k < r.len() ==> r[0].0 <= (#[trigger] r[k]).0 && r[k].1 <= r.last().1,
    decreases r.len(),
{
    if r.len() > 1 {
        let p = r.drop_last();
        assert forall|k: int| 0 <= k < p.len() - 1 implies (#[trigger] p[k]).1 == p[k + 1].0 by {
            assert(p[k] == r[k] && p[k + 1] == r[k + 1]);
        }
        assert forall|k: int| 0 <= k < p.len() implies (#[trigger] p[k]).0 < p[k].1 by {
            assert(p[k] == r[k]);
        }
        lemma_ranges_within(p);
        assert forall|k: int| 0 <= k < r.len() implies r[0].0 <= (#[trigger] r[k]).0 && r[k].1
            <= r.last().1 by {
            if k < r.len() - 1 {
                assert(p[k] == r[k]);
                assert(p[0] == r[0]);
                assert(p.last() == r[r.len() - 2]);
                assert(r[r.len() - 2].1 == r[r.len() - 1].0);
            }
        }
    }
}

/// The encoded texts and their costs agree with the rows.
proof fn lemma_encoded_texts(encoded: Seq<String>, rows: Seq<JsonRow>)
    requires
        encoded.len() == rows.len(),
        forall|i: int| 0 <= i < rows.len() ==> (#[trigger] encoded[i])@ == rows[i].text@,
    ensures
        cells_view(encoded) == row_texts(rows),
        row_costs(encoded) == text_costs(row_texts(rows)),
{
    assert(cells_view(encoded) =~= row_texts(rows));
    assert(row_costs(encoded) =~= text_costs(row_texts(rows)));
}

/// Plans a batch insert: checks the table name and the rows, then cuts the rows into
/// chunks of at most `max_rows_per_chunk` rows (0 counts as 1), each cut further so
/// that a body stays within `max_bytes_per_chunk` bytes (0: no limit; a single row over
/// the limit forms a body of its own).
///
/// An empty batch needs no request; one over a non-zero `batch_size` is refused.
pub fn plan_insert_batch(table: &str, rows: &[JsonRow], options: BatchInsertOptions) -> (r:
    ClickHouseResult<InsertPlan>)
    ensures
        r is Ok <==> batch_check(table@, rows@, options) is Ok,
        r matches Err(e) ==> batch_check(table@, rows@, options) == Err::<(), ErrorView>(e@),
        r matches Ok(p) ==> {
            &&& p.sql@ == insert_statement(table@)
            &&& rows@.len() == 0 ==> p.bodies@.len() == 0
            &&& rows@.len() > 0 ==> exists|ranges: Seq<(usize, usize)>|
                #![trigger bodies_of(ranges, row_texts(rows@))]
                is_batch_plan(
                    ranges,
                    text_costs(row_texts(rows@)),
                    rows@.len(),
                    effective_chunk_size(options.max_rows_per_chunk),
                    options.max_bytes_per_chunk as nat,
                ) && body_views(p.bodies@) == bodies_of(ranges, row_texts(rows@))
        },
{
    match validate_ident(table) {
        Err(e) => {
            return Err(e);
        },
        Ok(()) => {},
    }
    let sql = insert_sql(table);
    let mut bodies: Vec<String> = Vec::new();
    if rows.len() == 0 {
        return Ok(InsertPlan { sql, bodies });
    }
    if options.batch_size > 0 && rows.len() > options.batch_size {
        let msg = String::from_str("批量插入行数 ").concat(
            decimal_string(rows.len() as u128).as_str(),
        ).concat(" 超过 batch_size=").concat(decimal_string(options.batch_size as u128).as_str());
        return Err(ClickHouseError::Invalid(msg));
    }
    let encoded = match encode_rows(rows) {
        Err(e) => {
            return Err(e);
        },
        Ok(v) => v,
    };
    let ghost texts = row_texts(rows@);
    let ghost costs = text_costs(texts);
    let ghost max = options.max_bytes_per_chunk as nat;
    proof {
        lemma_encoded_texts(encoded@, rows@);
    }
    let row_chunks = chunk_ranges(encoded.len(), options.max_rows_per_chunk);
    proof {
        lemma_ranges_within(row_chunks@);
    }
    let ghost mut pieces: Seq<Seq<(usize, usize)>> = Seq::empty();
    let ghost mut flat: Seq<(usize, usize)> = Seq::empty();
    let mut k: usize = 0;
    while k < row_chunks.len()
        invariant
            encoded@.len() == rows@.len() > 0,
            texts == row_texts(rows@),
            costs == text_costs(texts),
            max == options.max_bytes_per_chunk as nat,
            cells_view(encoded@) == texts,
            row_costs(encoded@) == costs,
            is_chunking(
                row_chunks@,
                encoded@.len() as nat,
                effective_chunk_size(options.max_rows_per_chunk),
            ),
            forall|j: int|
                0 <= j < row_chunks@.len() ==> 0 <= (#[trigger] row_chunks@[j]).0 && row_chunks@[j].1
                    <= encoded@.len(),
            k <= row_chunks@.len(),
            pieces_split(pieces, row_chunks@.take(k as int), costs, max),
            flat == pieces.flatten(),
            body_views(bodies@) == bodies_of(flat, texts),
        decreases row_chunks@.len() - k,
    {
        let (s, e) = row_chunks[k];
        assert(row_chunks@[k as int] == (s, e));
        assert(0 <= s < e <= encoded@.len());
        let parts = split_by_bytes(encoded.as_slice(), s, e, options.max_bytes_per_chunk);
        proof {
            if max > 0 {
                lemma_ranges_within(parts@);
            }
        }
        let ghost flat0 = flat;
        let ghost bodies0 = body_views(bodies@);
        let mut j: usize = 0;
        while j < parts.len()
            invariant
                cells_view(encoded@) == texts,
                s < e <= encoded@.len(),
                max == options.max_bytes_per_chunk as nat,
                max == 0 ==> parts@ == seq![(s, e)],
                max > 0 ==> forall|q: int|
                    0 <= q < parts@.len() ==> s <= (#[trigger] parts@[q]).0 < parts@[q].1 <= e,
                j <= parts@.len(),
                flat == flat0 + parts@.take(j as int),
                bodies0 == bodies_of(flat0, texts),
                body_views(bodies@) == bodies_of(flat, texts),
            decreases parts@.len() - j,
        {
            let (a, b) = parts[j];
            proof {
                if max > 0 {
                    assert(s <= parts@[j as int].0 < parts@[j as int].1 <= e);
                }
            }
            let body = join_lines(&encoded.as_slice()[a..b]);
            proof {
                assert(cells_view(encoded@.subrange(a as int, b as int)) =~= texts.subrange(
                    a as int,
                    b as int,
                )) by {
                    assert forall|q: int| 0 <= q < b - a implies #[trigger] cells_view(
                        encoded@.subrange(a as int, b as int),
                    )[q] == texts.subrange(a as int, b as int)[q] by {
                        assert(cells_view(encoded@)[a + q] == texts[a + q]);
                    }
                }
            }
            let ghost before = body_views(bodies@);
            bodies.push(body);
            proof {
                assert(parts@.take(j + 1) =~= parts@.take(j as int).push(parts@[j as int]));
                flat = flat.push(parts@[j as int]);
                assert(body_views(bodies@) =~= before.push(body@));
                assert(bodies_of(flat, texts) =~= bodies_of(flat.drop_last(), texts).push(
                    joined_lines(texts.subrange(a as int, b as int)),
                ));
                assert(flat.drop_last() =~= flat0 + parts@.take(j as int));
            }
            j = j + 1;
        }
        proof {
            assert(parts@.take(parts@.len() as int) =~= parts@);
            pieces.lemma_flatten_push(parts@);
            let old_pieces = pieces;
            pieces = pieces.push(parts@);
            assert(row_chunks@.take(k + 1) =~= row_chunks@.take(k as int).push(row_chunks@[k as int]));
            assert forall|q: int| 0 <= q < k + 1 implies if max == 0 {
                #[trigger] pieces[q] == seq![row_chunks@.take(k + 1)[q]]
            } else {
                is_byte_chunking(
                    pieces[q],
                    costs,
                    row_chunks@.take(k + 1)[q].0 as nat,
                    row_chunks@.take(k + 1)[q].1 as nat,
                    max,
                )
            } by {
                if q < k {
                    assert(pieces[q] == old_pieces[q]);
                    assert(row_chunks@.take(k + 1)[q] == row_chunks@.take(k as int)[q]);
                }
            }
        }
        k = k + 1;
    }
    proof {
        assert(row_chunks@.take(row_chunks@.len() as int) =~= row_chunks@);
        assert(is_chunking(
            row_chunks@,
            rows@.len(),
            effective_chunk_size(options.max_rows_per_chunk),
        ));
        assert(pieces_split(pieces, row_chunks@, costs, max));
        assert(is_batch_plan(
            flat,
            costs,
            rows@.len(),
            effective_chunk_size(options.max_rows_per_chunk),
            max,
        ));
    }
    Ok(InsertPlan { sql, bodies })
}

/// Plans a single-request `JSONEachRow` insert: checks the table name and the rows; an
/// empty insert needs no request, otherwise one body holds every row, one per line.
pub fn plan_insert_json_each_row(table: &str, rows: &[JsonRow]) -> (r: ClickHouseResult<
    InsertPlan,
>)
    ensures
        r is Ok <==> rows_check(table@, rows@) is Ok,
        r matches Err(e) ==> rows_check(table@, rows@) == Err::<(), ErrorView>(e@),
        r matches Ok(p) ==> {
            &&& p.sql@ == insert_statement(table@)
            &&& rows@.len() == 0 ==> p.bodies@.len() == 0
            &&& rows@.len() > 0 ==> body_views(p.bodies@) == seq![joined_lines(row_texts(rows@))]
        },
{
    match validate_ident(table) {
        Err(e) => {
            return Err(e);
        },
        Ok(()) => {},
    }
    let sql = insert_sql(table);
    let mut bodies: Vec<String> = Vec::new();
    if rows.len() == 0 {
        return Ok(InsertPlan { sql, bodies });
    }
    let encoded = match encode_rows(rows) {
        Err(e) => {
            return Err(e);
        },
        Ok(v) => v,
    };
    proof {
        lemma_encoded_texts(encoded@, rows@);
    }
    let body = join_lines(encoded.as_slice());
    bodies.push(body);
    proof {
        assert(body_views(bodies@) =~= seq![body@]);
    }
    Ok(InsertPlan { sql, bodies })
}

/// Joining lines distributes over concatenation.
proof fn lemma_joined_lines_append(x: Seq<Seq<char>>, y: Seq<Seq<char>>)
    ensures
        joined_lines(x + y) == joined_lines(x) + joined_lines(y),
    decreases y.len(),
{
    if y.len() == 0 {
        assert(x + y =~= x);
        assert(joined_lines(y) =~= Seq::<char>::empty());
        assert(joined_lines(x) + joined_lines(y) =~= joined_lines(x));
    } else {
        lemma_joined_lines_append(x, y.drop_last());
        assert((x + y).drop_last() =~= x + y.drop_last());
        assert((x + y).last() == y.last());
        assert(joined_lines(x + y) =~= joined_lines(x) + joined_lines(y));
    }
}

/// The bodies of consecutive ranges from `a` to `b`, concatenated, are the rows `a..b`.
proof fn lemma_cover_bodies(r: Seq<(usize, usize)>, texts: Seq<Seq<char>>, a: int, b: int)
    requires
        r.len() > 0,
        r[0].0 == a,
        r.last().1 == b,
        b <= texts.len(),
        forall|k: int| 0 <= k < r.len() - 1 ==> (#[trigger] r[k]).1 == r[k + 1].0,
        forall|k: int| 0 <= k < r.len() ==> (#[trigger] r[k]).0 < r[k].1,
    ensures
        bodies_of(r, texts).flatten() == joined_lines(texts.subrange(a, b)),
    decreases r.len(),
{
    lemma_ranges_within(r);
    let last = r.last();
    assert(bodies_of(r, texts) =~= bodies_of(r.drop_last(), texts).push(
        joined_lines(texts.subrange(last.0 as int, last.1 as int)),
    ));
    bodies_of(r.drop_last(), texts).lemma_flatten_push(
        joined_lines(texts.subrange(last.0 as int, last.1 as int)),
    );
    if r.len() == 1 {
        assert(bodies_of(r.drop_last(), texts) =~= Seq::<Seq<char>>::empty());
        assert(bodies_of(r.drop_last(), texts).flatten() =~= Seq::<char>::empty());
    } else {
        let p = r.drop_last();
        assert forall|k: int| 0 <= k < p.len() - 1 implies (#[trigger] p[k]).1 == p[k + 1].0 by {
            assert(p[k] == r[k] && p[k + 1] == r[k + 1]);
        }
        assert forall|k: int| 0 <= k < p.len() implies (#[trigger] p[k]).0 < p[k].1 by {
            assert(p[k] == r[k]);
        }
        let m = last.0 as int;
        assert(p.last().1 == m) by {
            assert(r[r.len() - 2].1 == r[r.len() - 1].0);
        }
        lemma_cover_bodies(p, texts, a, m);
        assert(texts.subrange(a, m) + texts.subrange(m, b) =~= texts.subrange(a, b));
        lemma_joined_lines_append(texts.subrange(a, m), texts.subrange(m, b));
    }
}

/// The bodies of the pieces of one row chunk, concatenated, are the rows of that chunk.
proof fn lemma_piece_bodies(
    pieces: Seq<Seq<(usize, usize)>>,
    rc: Seq<(usize, usize)>,
    texts: Seq<Seq<char>>,
    max: nat,
    j: int,
)
    requires
        pieces_split(pieces, rc, text_costs(texts), max),
        0 <= j < rc.len(),
        rc[j].0 < rc[j].1 <= texts.len(),
    ensures
        bodies_of(pieces[j], texts).flatten() == joined_lines(
            texts.subrange(rc[j].0 as int, rc[j].1 as int),
        ),
{
    let q = pieces[j];
    let g = rc[j];
    if max == 0 {
        assert(q == seq![g]);
    } else {
        assert(is_byte_chunking(q, text_costs(texts), g.0 as nat, g.1 as nat, max));
    }
    lemma_cover_bodies(q, texts, g.0 as int, g.1 as int);
}

/// The facts about row chunk `j` that the coverage proof needs.
proof fn lemma_chunk_facts(rc: Seq<(usize, usize)>, n: nat, size: nat, j: int)
    requires
        n > 0,
        is_chunking(rc, n, size),
        0 <= j < rc.len(),
    ensures
        rc[j].0 < rc[j].1 <= n,
        rc[j].0 == if j == 0 { 0 } else { rc[j - 1].1 as int },
        rc.last().1 == n,
{
    lemma_ranges_within(rc);
    if j > 0 {
        assert(rc[j - 1].1 == rc[j].0);
    }
}

/// The pieces of the first `k` row chunks, as bodies and concatenated, are the rows up to
/// the end of chunk `k - 1`.
proof fn lemma_pieces_bodies(
    pieces: Seq<Seq<(usize, usize)>>,
    rc: Seq<(usize, usize)>,
    texts: Seq<Seq<char>>,
    k: int,
)
    requires
        pieces.len() == rc.len(),
        0 <= k <= rc.len(),
        forall|j: int|
            0 <= j < rc.len() ==> (#[trigger] rc[j]).0 <= rc[j].1 <= texts.len() && rc[j].0 == (
            if j == 0 {
                0
            } else {
                rc[j - 1].1 as int
            }),
        forall|j: int|
            0 <= j < rc.len() ==> bodies_of(#[trigger] pieces[j], texts).flatten() == joined_lines(
                texts.subrange(rc[j].0 as int, rc[j].1 as int),
            ),
    ensures
        bodies_of(pieces.take(k).flatten(), texts).flatten() == joined_lines(
            texts.subrange(0, if k == 0 { 0 } else { rc[k - 1].1 as int }),
        ),
    decreases k,
{
    if k == 0 {
        assert(pieces.take(0) =~= Seq::<Seq<(usize, usize)>>::empty());
        assert(bodies_of(pieces.take(0).flatten(), texts) =~= Seq::<Seq<char>>::empty());
        assert(texts.subrange(0, 0) =~= Seq::<Seq<char>>::empty());
        assert(joined_lines(texts.subrange(0, 0)) =~= Seq::<char>::empty());
        assert(bodies_of(pieces.take(0).flatten(), texts).flatten() =~= Seq::<char>::empty());
    } else {
        lemma_pieces_bodies(pieces, rc, texts, k - 1);
        let q = pieces[k - 1];
        assert(rc[k - 1].0 <= rc[k - 1].1 <= texts.len());
        let start = rc[k - 1].0 as int;
        let end = rc[k - 1].1 as int;
        let before = pieces.take(k - 1).flatten();
        assert(pieces.take(k) =~= pieces.take(k - 1).push(q));
        pieces.take(k - 1).lemma_flatten_push(q);
        assert(bodies_of(before + q, texts) =~= bodies_of(before, texts) + bodies_of(q, texts));
        vstd::seq_lib::lemma_flatten_concat(bodies_of(before, texts), bodies_of(q, texts));
        assert(texts.subrange(0, start) + texts.subrange(start, end) =~= texts.subrange(0, end));
        lemma_joined_lines_append(texts.subrange(0, start), texts.subrange(start, end));
    }
}

/// A batch insert sends every row exactly once and in order: the bodies of its requests,
/// one after the other, are all the rows, one per line.
pub proof fn lemma_batch_sends_all_rows(
    ranges: Seq<(usize, usize)>,
    texts: Seq<Seq<char>>,
    size: nat,
    max: nat,
)
    requires
        texts.len() > 0,
        is_batch_plan(ranges, text_costs(texts), texts.len(), size, max),
    ensures
        bodies_of(ranges, texts).flatten() == joined_lines(texts),
{
    let (rc, pieces) = choose|rc: Seq<(usize, usize)>, pieces: Seq<Seq<(usize, usize)>>|
        #![trigger is_chunking(rc, texts.len(), size), pieces_split(pieces, rc, text_costs(texts), max)]
        is_chunking(rc, texts.len(), size) && pieces_split(pieces, rc, text_costs(texts), max)
            && ranges == pieces.flatten();
    assert forall|j: int| 0 <= j < rc.len() implies (#[trigger] rc[j]).0 <= rc[j].1 <= texts.len()
        && rc[j].0 == (if j == 0 {
        0
    } else {
        rc[j - 1].1 as int
    }) by {
        lemma_chunk_facts(rc, texts.len(), size, j);
    }
    assert forall|j: int| 0 <= j < rc.len() implies bodies_of(#[trigger] pieces[j], texts).flatten()
        == joined_lines(texts.subrange(rc[j].0 as int, rc[j].1 as int)) by {
        lemma_chunk_facts(rc, texts.len(), size, j);
        lemma_piece_bodies(pieces, rc, texts, max, j);
    }
    lemma_pieces_bodies(pieces, rc, texts, rc.len() as int);
    lemma_chunk_facts(rc, texts.len(), size, rc.len() - 1);
    assert(pieces.take(rc.len() as int) =~= pieces);
    assert(texts.subrange(0, texts.len() as int) =~= texts);
}

/// An insert into a plain identifier (letters of either case, digits, `_`) is planned
/// whenever its rows are JSON objects and, for a batch, within a non-zero `batch_size`.
pub proof fn lemma_plain_tables_are_planned(
    table: Seq<char>,
    rows: Seq<JsonRow>,
    options: BatchInsertOptions,
)
    requires
        crate::sql::plain_identifier(table),
        all_objects(rows),
    ensures
        rows_check(table, rows) is Ok,
        options.batch_size == 0 || rows.len() <= options.batch_size ==> batch_check(
            table,
            rows,
            options,
        ) is Ok,
{
    crate::sql::lemma_plain_identifiers_pass(table);
}

} // verus!
