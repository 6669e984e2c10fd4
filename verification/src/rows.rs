//! Result-row parsing, chunking and insert-body encoding (no network I/O).
use vstd::prelude::*;

use crate::error::{ClickHouseError, ClickHouseResult, ErrorView};
use crate::text::{chars_of, lemma_split_on_len, split_on, string_from_chars};

verus! {

/// A line as `str::lines` yields it: a terminated line loses its `\n` and then one `\r`.
pub open spec fn strip_cr(p: Seq<char>) -> Seq<char> {
    if p.len() > 0 && p.last() == '\r' {
        p.drop_last()
    } else {
        p
    }
}

/// The lines of `s` as `str::lines` yields them: the `\n`-separated pieces, where every
/// terminated piece loses a trailing `\r`, and a final empty piece is not a line.
pub open spec fn lines(s: Seq<char>) -> Seq<Seq<char>> {
    let pieces = split_on(s, '\n');
    let terminated = pieces.drop_last().map_values(|p: Seq<char>| strip_cr(p));
    if pieces.last().len() == 0 {
        terminated
    } else {
        terminated.push(pieces.last())
    }
}

/// The rows of `TabSeparated` text made of the lines `ls`: every non-empty line, split at tabs.
pub open spec fn rows_of_lines(ls: Seq<Seq<char>>) -> Seq<Seq<Seq<char>>>
    decreases ls.len(),
{
    if ls.len() == 0 {
        Seq::empty()
    } else {
        let prev = rows_of_lines(ls.drop_last());
        if ls.last().len() == 0 {
            prev
        } else {
            prev.push(split_on(ls.last(), '\t'))
        }
    }
}

/// The rows and cells of ClickHouse `TabSeparated` text.
pub open spec fn tab_separated_rows(s: Seq<char>) -> Seq<Seq<Seq<char>>> {
    rows_of_lines(lines(s))
}

pub open spec fn cells_view(v: Seq<String>) -> Seq<Seq<char>> {
    v.map_values(|c: String| c@)
}

pub open spec fn rows_view(v: Seq<Vec<String>>) -> Seq<Seq<Seq<char>>> {
    v.map_values(|r: Vec<String>| cells_view(r@))
}

/// Splits `cs` at tabs into owned cells.
fn split_cells(cs: &[char]) -> (cells: Vec<String>)
    ensures
        cells_view(cells@) == split_on(cs@, '\t'),
{
    let mut cells: Vec<String> = Vec::new();
    let mut start: usize = 0;
    let mut i: usize = 0;
    assert(cs@.take(0) =~= Seq::<char>::empty());
    assert(cs@.subrange(0, 0) =~= Seq::<char>::empty());
    while i < cs.len()
        invariant
            start <= i <= cs@.len(),
            split_on(cs@.take(i as int), '\t') == cells_view(cells@).push(
                cs@.subrange(start as int, i as int),
            ),
        decreases cs@.len() - i,
    {
        proof {
            assert(cs@.take(i + 1).drop_last() =~= cs@.take(i as int));
            lemma_split_on_len(cs@.take(i as int), '\t');
        }
        if cs[i] == '\t' {
            let cell = string_from_chars(&cs[start..i]);
            let ghost old_cells = cells@;
            cells.push(cell);
            proof {
                assert(cells_view(cells@) =~= cells_view(old_cells).push(cell@));
                assert(cs@.subrange(i + 1, i + 1) =~= Seq::<char>::empty());
            }
            start = i + 1;
        } else {
            proof {
                assert(cs@.subrange(start as int, i + 1) =~= cs@.subrange(start as int, i as int).push(
                    cs@[i as int],
                ));
            }
        }
        i = i + 1;
    }
    let last = string_from_chars(&cs[start..cs.len()]);
    let ghost old_cells = cells@;
    cells.push(last);
    proof {
        assert(cells_view(cells@) =~= cells_view(old_cells).push(last@));
        assert(cs@.take(cs@.len() as int) =~= cs@);
    }
    cells
}

proof fn lemma_rows_of_lines_push(ls: Seq<Seq<char>>, l: Seq<char>)
    ensures
        rows_of_lines(ls.push(l)) == if l.len() == 0 {
            rows_of_lines(ls)
        } else {
            rows_of_lines(ls).push(split_on(l, '\t'))
        },
{
    assert(ls.push(l).drop_last() =~= ls);
}

/// Parses ClickHouse's default `TabSeparated` text into rows and cells.
///
/// Lines are those of `str::lines` (a `\r` before a `\n` is dropped); empty lines are
/// skipped; each remaining line is split at every tab, so a trailing tab yields an empty
/// last cell.
pub fn parse_tab_separated_rows(text: &str) -> (rows: Vec<Vec<String>>)
    ensures
        rows_view(rows@) == tab_separated_rows(text@),
{
    let cs = chars_of(text);
    let mut rows: Vec<Vec<String>> = Vec::new();
    let mut line_start: usize = 0;
    let mut i: usize = 0;
    assert(cs@.take(0) =~= Seq::<char>::empty());
    assert(cs@.subrange(0, 0) =~= Seq::<char>::empty());
    assert(split_on(cs@.take(0), '\n').drop_last() =~= Seq::<Seq<char>>::empty());
    while i < cs.len()
        invariant
            cs@ == text@,
            line_start <= i <= cs@.len(),
            split_on(cs@.take(i as int), '\n').last() == cs@.subrange(line_start as int, i as int),
            rows_view(rows@) == rows_of_lines(
                split_on(cs@.take(i as int), '\n').drop_last().map_values(
                    |p: Seq<char>| strip_cr(p),
                ),
            ),
        decreases cs@.len() - i,
    {
        let ghost pieces = split_on(cs@.take(i as int), '\n');
        proof {
            lemma_split_on_len(cs@.take(i as int), '\n');
            assert(cs@.take(i + 1).drop_last() =~= cs@.take(i as int));
            assert(cs@.take(i + 1).last() == cs@[i as int]);
        }
        if cs[i] == '\n' {
            let mut end = i;
            if end > line_start && cs[end - 1] == '\r' {
                end = end - 1;
            }
            let ghost line = cs@.subrange(line_start as int, i as int);
            proof {
                assert(cs@.subrange(line_start as int, end as int) =~= strip_cr(line));
                assert(split_on(cs@.take(i + 1), '\n') == pieces.push(Seq::<char>::empty()));
                assert(split_on(cs@.take(i + 1), '\n').drop_last() =~= pieces);
                assert(pieces.map_values(|p: Seq<char>| strip_cr(p)) =~= pieces.drop_last().map_values(
                    |p: Seq<char>| strip_cr(p),
                ).push(strip_cr(line)));
                lemma_rows_of_lines_push(
                    pieces.drop_last().map_values(|p: Seq<char>| strip_cr(p)),
                    strip_cr(line),
                );
            }
            if end > line_start {
                let row = split_cells(&cs[line_start..end]);
                let ghost old_rows = rows@;
                rows.push(row);
                proof {
                    assert(rows_view(rows@) =~= rows_view(old_rows).push(cells_view(row@)));
                }
            }
            line_start = i + 1;
            proof {
                assert(cs@.subrange(line_start as int, i + 1) =~= Seq::<char>::empty());
            }
        } else {
            proof {
                assert(split_on(cs@.take(i + 1), '\n') == pieces.update(
                    pieces.len() - 1,
                    pieces.last().push(cs@[i as int]),
                ));
                assert(split_on(cs@.take(i + 1), '\n').drop_last() =~= pieces.drop_last());
                assert(cs@.subrange(line_start as int, i + 1) =~= cs@.subrange(
                    line_start as int,
                    i as int,
                ).push(cs@[i as int]));
            }
        }
        i = i + 1;
    }
    proof {
        assert(cs@.take(cs@.len() as int) =~= cs@);
    }
    let ghost pieces = split_on(cs@, '\n');
    proof {
        lemma_split_on_len(cs@, '\n');
    }
    let ghost terminated = pieces.drop_last().map_values(|p: Seq<char>| strip_cr(p));
    if line_start < cs.len() {
        let row = split_cells(&cs[line_start..cs.len()]);
        let ghost old_rows = rows@;
        rows.push(row);
        proof {
            assert(rows_view(rows@) =~= rows_view(old_rows).push(cells_view(row@)));
            lemma_rows_of_lines_push(terminated, pieces.last());
        }
    } else {
        proof {
            assert(pieces.last() =~= Seq::<char>::empty());
        }
    }
    rows
}

/// No piece of `split_on(s, sep)` contains `sep`, and a non-empty `s` never splits into a
/// single empty piece.
proof fn lemma_split_on_shape(s: Seq<char>, sep: char)
    ensures
        split_on(s, sep).len() >= 1,
        forall|i: int, k: int|
            0 <= i < split_on(s, sep).len() && 0 <= k < split_on(s, sep)[i].len() ==> #[trigger] split_on(
                s,
                sep,
            )[i][k] != sep,
        s.len() > 0 ==> (split_on(s, sep).len() > 1 || split_on(s, sep)[0].len() > 0),
    decreases s.len(),
{
    lemma_split_on_len(s, sep);
    if s.len() > 0 {
        lemma_split_on_shape(s.drop_last(), sep);
        let prev = split_on(s.drop_last(), sep);
        let cur = split_on(s, sep);
        assert forall|i: int, k: int| 0 <= i < cur.len() && 0 <= k < cur[i].len() implies #[trigger] cur[i][k]
            != sep by {
            if s.last() == sep {
                if i < prev.len() {
                    assert(cur[i] == prev[i]);
                }
            } else {
                if i < prev.len() - 1 {
                    assert(cur[i] == prev[i]);
                } else {
                    assert(cur[i] == prev.last().push(s.last()));
                    if k < prev.last().len() {
                        assert(cur[i][k] == prev[prev.len() - 1][k]);
                    }
                }
            }
        }
    }
}

proof fn lemma_rows_of_lines_shape(ls: Seq<Seq<char>>)
    ensures
        forall|i: int|
            0 <= i < rows_of_lines(ls).len() ==> (#[trigger] rows_of_lines(ls)[i]).len() >= 1 && (
            rows_of_lines(ls)[i].len() > 1 || rows_of_lines(ls)[i][0].len() > 0),
        forall|i: int, j: int, k: int|
            0 <= i < rows_of_lines(ls).len() && 0 <= j < rows_of_lines(ls)[i].len() && 0 <= k
                < rows_of_lines(ls)[i][j].len() ==> #[trigger] rows_of_lines(ls)[i][j][k] != '\t',
    decreases ls.len(),
{
    if ls.len() > 0 {
        lemma_rows_of_lines_shape(ls.drop_last());
        if ls.last().len() > 0 {
            lemma_split_on_shape(ls.last(), '\t');
            let prev = rows_of_lines(ls.drop_last());
            let cur = rows_of_lines(ls);
            assert(cur == prev.push(split_on(ls.last(), '\t')));
            assert forall|i: int| 0 <= i < cur.len() implies (#[trigger] cur[i]).len() >= 1 && (
            cur[i].len() > 1 || cur[i][0].len() > 0) by {
                if i < prev.len() {
                    assert(cur[i] == prev[i]);
                }
            }
            assert forall|i: int, j: int, k: int|
                0 <= i < cur.len() && 0 <= j < cur[i].len() && 0 <= k < cur[i][j].len() implies #[trigger] cur[i][j][k]
                != '\t' by {
                if i < prev.len() {
                    assert(cur[i] == prev[i]);
                } else {
                    assert(cur[i] == split_on(ls.last(), '\t'));
                }
            }
        } else {
            assert(rows_of_lines(ls) == rows_of_lines(ls.drop_last()));
        }
    }
}

/// Parsed rows are never blank (an empty line yields no row), and no cell contains a tab.
pub proof fn lemma_rows_are_not_blank(text: Seq<char>)
    ensures
        forall|i: int|
            0 <= i < tab_separated_rows(text).len() ==> (#[trigger] tab_separated_rows(text)[i]).len()
                >= 1 && (tab_separated_rows(text)[i].len() > 1 || tab_separated_rows(text)[i][0].len()
                > 0),
        forall|i: int, j: int, k: int|
            0 <= i < tab_separated_rows(text).len() && 0 <= j < tab_separated_rows(text)[i].len() && 0
                <= k < tab_separated_rows(text)[i][j].len() ==> #[trigger] tab_separated_rows(
                text,
            )[i][j][k] != '\t',
{
    lemma_rows_of_lines_shape(lines(text));
}

/// The cells of a row joined again with tabs.
pub open spec fn join_cells(cells: Seq<Seq<char>>) -> Seq<char>
    decreases cells.len(),
{
    if cells.len() == 0 {
        Seq::empty()
    } else if cells.len() == 1 {
        cells[0]
    } else {
        join_cells(cells.drop_last()) + seq!['\t'] + cells.last()
    }
}

/// The lines of `ls` that are not empty, in order.
pub open spec fn nonempty_lines(ls: Seq<Seq<char>>) -> Seq<Seq<char>>
    decreases ls.len(),
{
    if ls.len() == 0 {
        Seq::empty()
    } else if ls.last().len() == 0 {
        nonempty_lines(ls.drop_last())
    } else {
        nonempty_lines(ls.drop_last()).push(ls.last())
    }
}

/// Splitting at `sep` and joining the pieces with `sep` gives `s` back.
proof fn lemma_split_on_rejoins(s: Seq<char>)
    ensures
        join_cells(split_on(s, '\t')) == s,
    decreases s.len(),
{
    lemma_split_on_len(s, '\t');
    if s.len() > 0 {
        let prev = split_on(s.drop_last(), '\t');
        lemma_split_on_rejoins(s.drop_last());
        lemma_split_on_len(s.drop_last(), '\t');
        let cur = split_on(s, '\t');
        if s.last() == '\t' {
            assert(cur == prev.push(Seq::<char>::empty()));
            assert(cur.drop_last() =~= prev);
            assert(s =~= s.drop_last() + seq!['\t'] + Seq::<char>::empty());
        } else {
            assert(cur == prev.update(prev.len() - 1, prev.last().push(s.last())));
            if prev.len() == 1 {
                assert(s =~= prev[0].push(s.last()));
            } else {
                assert(cur.drop_last() =~= prev.drop_last());
                assert(join_cells(prev) == join_cells(prev.drop_last()) + seq!['\t'] + prev.last());
                assert(s =~= s.drop_last().push(s.last()));
                assert(s =~= join_cells(prev.drop_last()) + seq!['\t'] + prev.last().push(
                    s.last(),
                ));
            }
        }
    }
}

/// A character that `s` does not hold is in none of the pieces of `split_on(s, sep)`.
proof fn lemma_split_on_keeps_out(s: Seq<char>, sep: char, c: char)
    requires
        forall|k: int| 0 <= k < s.len() ==> s[k] != c,
    ensures
        forall|i: int, k: int|
            0 <= i < split_on(s, sep).len() && 0 <= k < split_on(s, sep)[i].len() ==> #[trigger] split_on(
                s,
                sep,
            )[i][k] != c,
    decreases s.len(),
{
    lemma_split_on_len(s, sep);
    if s.len() > 0 {
        assert forall|k: int| 0 <= k < s.drop_last().len() implies s.drop_last()[k] != c by {
            assert(s.drop_last()[k] == s[k]);
        }
        lemma_split_on_keeps_out(s.drop_last(), sep, c);
        lemma_split_on_len(s.drop_last(), sep);
        let prev = split_on(s.drop_last(), sep);
        let cur = split_on(s, sep);
        assert forall|i: int, k: int| 0 <= i < cur.len() && 0 <= k < cur[i].len() implies #[trigger] cur[i][k]
            != c by {
            if s.last() == sep {
                if i < prev.len() {
                    assert(cur[i] == prev[i]);
                }
            } else if i < prev.len() - 1 {
                assert(cur[i] == prev[i]);
            } else {
                assert(cur[i] == prev.last().push(s.last()));
                if k < prev.last().len() {
                    assert(cur[i][k] == prev[prev.len() - 1][k]);
                } else {
                    assert(s[s.len() - 1] != c);
                }
            }
        }
    }
}

/// No line holds a line feed.
proof fn lemma_lines_have_no_newline(s: Seq<char>)
    ensures
        forall|i: int, k: int|
            0 <= i < lines(s).len() && 0 <= k < lines(s)[i].len() ==> #[trigger] lines(s)[i][k]
                != '\n',
{
    lemma_split_on_shape(s, '\n');
    let pieces = split_on(s, '\n');
    let ls = lines(s);
    assert forall|i: int, k: int| 0 <= i < ls.len() && 0 <= k < ls[i].len() implies #[trigger] ls[i][k]
        != '\n' by {
        if i < pieces.len() - 1 {
            assert(ls[i] == strip_cr(pieces[i]));
            assert(ls[i][k] == pieces[i][k]);
        } else {
            assert(ls[i] == pieces.last());
            assert(ls[i][k] == pieces[pieces.len() - 1][k]);
        }
    }
}

proof fn lemma_rows_rejoin(ls: Seq<Seq<char>>)
    requires
        forall|i: int, k: int| 0 <= i < ls.len() && 0 <= k < ls[i].len() ==> #[trigger] ls[i][k] != '\n',
    ensures
        rows_of_lines(ls).len() == nonempty_lines(ls).len(),
        forall|i: int|
            0 <= i < rows_of_lines(ls).len() ==> join_cells(#[trigger] rows_of_lines(ls)[i])
                == nonempty_lines(ls)[i],
        forall|i: int, j: int, k: int|
            0 <= i < rows_of_lines(ls).len() && 0 <= j < rows_of_lines(ls)[i].len() && 0 <= k
                < rows_of_lines(ls)[i][j].len() ==> #[trigger] rows_of_lines(ls)[i][j][k] != '\n',
    decreases ls.len(),
{
    if ls.len() > 0 {
        let init = ls.drop_last();
        assert forall|i: int, k: int| 0 <= i < init.len() && 0 <= k < init[i].len() implies #[trigger] init[i][k]
            != '\n' by {
            assert(init[i] == ls[i]);
        }
        lemma_rows_rejoin(init);
        let prev = rows_of_lines(init);
        let cur = rows_of_lines(ls);
        if ls.last().len() > 0 {
            let l = ls.last();
            lemma_split_on_rejoins(l);
            assert forall|k: int| 0 <= k < l.len() implies l[k] != '\n' by {
                assert(l[k] == ls[ls.len() - 1][k]);
            }
            lemma_split_on_keeps_out(l, '\t', '\n');
            assert(cur == prev.push(split_on(l, '\t')));
            assert forall|i: int| 0 <= i < cur.len() implies join_cells(#[trigger] cur[i])
                == nonempty_lines(ls)[i] by {
                if i < prev.len() {
                    assert(cur[i] == prev[i]);
                }
            }
            assert forall|i: int, j: int, k: int|
                0 <= i < cur.len() && 0 <= j < cur[i].len() && 0 <= k < cur[i][j].len() implies #[trigger] cur[i][j][k]
                != '\n' by {
                if i < prev.len() {
                    assert(cur[i] == prev[i]);
                } else {
                    assert(cur[i] == split_on(l, '\t'));
                }
            }
        } else {
            assert(cur == prev);
        }
    }
}

/// The rows of `TabSeparated` text are its non-empty lines, in order: joining the cells
/// of row `i` with tabs gives the `i`-th non-empty line back, and no cell holds a line
/// feed (nor, by [`lemma_rows_are_not_blank`], a tab).
pub proof fn lemma_rows_are_the_nonempty_lines(text: Seq<char>)
    ensures
        tab_separated_rows(text).len() == nonempty_lines(lines(text)).len(),
        forall|i: int|
            0 <= i < tab_separated_rows(text).len() ==> join_cells(
                #[trigger] tab_separated_rows(text)[i],
            ) == nonempty_lines(lines(text))[i],
        forall|i: int, j: int, k: int|
            0 <= i < tab_separated_rows(text).len() && 0 <= j < tab_separated_rows(text)[i].len() && 0
                <= k < tab_separated_rows(text)[i][j].len() ==> #[trigger] tab_separated_rows(
                text,
            )[i][j][k] != '\n',
{
    lemma_lines_have_no_newline(text);
    lemma_rows_rejoin(lines(text));
}

/// The half-open chunk ranges of `chunk_ranges`: a partition of `[0, total)` into
/// consecutive ranges of exactly `size` items, the last one holding the rest.
pub open spec fn is_chunking(r: Seq<(usize, usize)>, total: nat, size: nat) -> bool {
    &&& total == 0 ==> r.len() == 0
    &&& total > 0 ==> {
        &&& r.len() > 0
        &&& r[0].0 == 0
        &&& r.last().1 == total
    }
    &&& forall|k: int| 0 <= k < r.len() ==> 0 < (#[trigger] r[k]).1 - r[k].0 <= size
    &&& forall|k: int|
        0 <= k < r.len() - 1 ==> (#[trigger] r[k]).1 == r[k + 1].0 && r[k].1 - r[k].0 == size
}

/// `max_per_chunk` as the chunk size actually used: 0 is raised to 1.
pub open spec fn effective_chunk_size(max_per_chunk: usize) -> nat {
    if max_per_chunk == 0 {
        1
    } else {
        max_per_chunk as nat
    }
}

/// Computes the chunk ranges `(start, end)` (half-open) that cover `0..total`.
///
/// `max_per_chunk` of 0 is raised to 1; `total` of 0 gives no ranges.
pub fn chunk_ranges(total: usize, max_per_chunk: usize) -> (r: Vec<(usize, usize)>)
    ensures
        is_chunking(r@, total as nat, effective_chunk_size(max_per_chunk)),
{
    let mut ranges: Vec<(usize, usize)> = Vec::new();
    if total == 0 {
        return ranges;
    }
    let size: usize = if max_per_chunk == 0 {
        1
    } else {
        max_per_chunk
    };
    let mut start: usize = 0;
    while start < total
        invariant
            size == effective_chunk_size(max_per_chunk),
            size >= 1,
            start <= total,
            total > 0,
            ranges@.len() == 0 ==> start == 0,
            ranges@.len() > 0 ==> ranges@[0].0 == 0 && ranges@.last().1 == start,
            forall|k: int|
                0 <= k < ranges@.len() ==> 0 < (#[trigger] ranges@[k]).1 - ranges@[k].0 <= size,
            forall|k: int|
                0 <= k < ranges@.len() - 1 ==> (#[trigger] ranges@[k]).1 == ranges@[k + 1].0
                    && ranges@[k].1 - ranges@[k].0 == size,
            ranges@.len() > 0 && start < total ==> ranges@.last().1 - ranges@.last().0 == size,
        decreases total - start,
    {
        let end: usize = if total - start <= size {
            total
        } else {
            start + size
        };
        ranges.push((start, end));
        start = end;
    }
    ranges
}

/// Total cost of rows `a..b` in a byte budget.
pub open spec fn cost_sum(costs: Seq<nat>, a: int, b: int) -> nat
    decreases b - a,
{
    if b <= a {
        0
    } else {
        cost_sum(costs, a, b - 1) + costs[b - 1]
    }
}

/// The byte length of the UTF-8 encoding of `s`.
pub open spec fn byte_len(s: Seq<char>) -> nat {
    vstd::utf8::encode_utf8(s).len()
}

/// What one encoded row costs in a request body: its bytes plus the `\n` after it.
pub open spec fn row_costs(encoded: Seq<String>) -> Seq<nat> {
    encoded.map_values(|s: String| byte_len(s@) + 1)
}

/// The byte chunks of `split_by_bytes`: consecutive non-empty ranges covering
/// `[start, end)`, each either a single row or within `max` bytes, and each (but the
/// last) as long as the budget allows, so that adding the next row would exceed it.
pub open spec fn is_byte_chunking(
    r: Seq<(usize, usize)>,
    costs: Seq<nat>,
    start: nat,
    end: nat,
    max: nat,
) -> bool {
    &&& r.len() > 0
    &&& r[0].0 == start
    &&& r.last().1 == end
    &&& forall|k: int| 0 <= k < r.len() - 1 ==> (#[trigger] r[k]).1 == r[k + 1].0
    &&& forall|k: int|
        0 <= k < r.len() ==> (#[trigger] r[k]).0 < r[k].1 && (r[k].1 == r[k].0 + 1 || cost_sum(
            costs,
            r[k].0 as int,
            r[k].1 as int,
        ) <= max)
    &&& forall|k: int|
        0 <= k < r.len() - 1 ==> cost_sum(costs, (#[trigger] r[k]).0 as int, r[k].1 + 1) > max
}

/// The byte length of the UTF-8 encoding of `s`.
fn string_byte_len(s: &String) -> (n: usize)
    ensures
        n == byte_len(s@),
{
    s.as_str().as_bytes().len()
}

/// Further splits the row range `[start, end)` so that each chunk stays within
/// `max_bytes` (counting a `\n` after each row).
///
/// `max_bytes` of 0 (no limit) or an empty range gives the range unchanged; a single row
/// over the limit forms a chunk of its own, so every chunk makes progress.
pub fn split_by_bytes(encoded: &[String], start: usize, end: usize, max_bytes: usize) -> (r: Vec<
    (usize, usize),
>)
    requires
        max_bytes > 0 && start < end ==> end <= encoded@.len(),
    ensures
        max_bytes == 0 || start >= end ==> r@ == seq![(start, end)],
        max_bytes > 0 && start < end ==> is_byte_chunking(
            r@,
            row_costs(encoded@),
            start as nat,
            end as nat,
            max_bytes as nat,
        ),
{
    let mut chunks: Vec<(usize, usize)> = Vec::new();
    if max_bytes == 0 || start >= end {
        chunks.push((start, end));
        return chunks;
    }
    let ghost costs = row_costs(encoded@);
    let mut chunk_start: usize = start;
    while chunk_start < end
        invariant
            start < end <= encoded@.len(),
            max_bytes > 0,
            costs == row_costs(encoded@),
            start <= chunk_start <= end,
            chunks@.len() == 0 ==> chunk_start == start,
            chunks@.len() > 0 ==> chunks@[0].0 == start && chunks@.last().1 == chunk_start,
            forall|k: int| 0 <= k < chunks@.len() - 1 ==> (#[trigger] chunks@[k]).1 == chunks@[k + 1].0,
            forall|k: int|
                0 <= k < chunks@.len() ==> (#[trigger] chunks@[k]).0 < chunks@[k].1 && (
                chunks@[k].1 == chunks@[k].0 + 1 || cost_sum(
                    costs,
                    chunks@[k].0 as int,
                    chunks@[k].1 as int,
                ) <= max_bytes),
            forall|k: int|
                0 <= k < chunks@.len() - 1 ==> cost_sum(
                    costs,
                    (#[trigger] chunks@[k]).0 as int,
                    chunks@[k].1 + 1,
                ) > max_bytes,
            chunks@.len() > 0 && chunk_start < end ==> cost_sum(
                costs,
                chunks@.last().0 as int,
                chunks@.last().1 + 1,
            ) > max_bytes,
        decreases end - chunk_start,
    {
        let mut chunk_end: usize = chunk_start;
        let mut bytes: u128 = 0;
        let mut stop = false;
        while chunk_end < end && !stop
            invariant
                start < end <= encoded@.len(),
                max_bytes > 0,
                costs == row_costs(encoded@),
                chunk_start < end,
                chunk_start <= chunk_end <= end,
                bytes == cost_sum(costs, chunk_start as int, chunk_end as int),
                bytes <= usize::MAX as u128 + 1,
                chunk_end > chunk_start + 1 ==> bytes <= max_bytes,
                stop ==> chunk_end > chunk_start && chunk_end < end && cost_sum(
                    costs,
                    chunk_start as int,
                    chunk_end + 1,
                ) > max_bytes,
            decreases end - chunk_end, if stop { 0int } else { 1int },
        {
            let len = string_byte_len(&encoded[chunk_end]);
            let next: u128 = len as u128 + 1;
            proof {
                assert(costs[chunk_end as int] == next);
            }
            if chunk_end > chunk_start && bytes + next > max_bytes as u128 {
                stop = true;
            } else {
                bytes = bytes + next;
                chunk_end = chunk_end + 1;
            }
        }
        chunks.push((chunk_start, chunk_end));
        chunk_start = chunk_end;
    }
    chunks
}

/// Concatenation of `ls`, each followed by a newline.
pub open spec fn joined_lines(ls: Seq<Seq<char>>) -> Seq<char>
    decreases ls.len(),
{
    if ls.len() == 0 {
        Seq::empty()
    } else {
        joined_lines(ls.drop_last()) + ls.last() + seq!['\n']
    }
}

/// Joins already-encoded rows into a request body, each row followed by `\n`.
pub fn join_lines(lines: &[String]) -> (body: String)
    ensures
        body@ == joined_lines(cells_view(lines@)),
{
    let mut body = String::new();
    let mut i: usize = 0;
    while i < lines.len()
        invariant
            i <= lines@.len(),
            body@ == joined_lines(cells_view(lines@.take(i as int))),
        decreases lines@.len() - i,
    {
        body.append(lines[i].as_str());
        body.append("\n");
        proof {
            reveal_strlit("\n");
            assert(cells_view(lines@.take(i + 1)).drop_last() =~= cells_view(lines@.take(i as int)));
        }
        i = i + 1;
    }
    proof {
        assert(lines@.take(lines@.len() as int) =~= lines@);
    }
    body
}

/// One row to insert, as the library reads it: whether the JSON value is an object, and
/// its compact JSON text.
pub struct JsonRow {
    pub is_object: bool,
    pub text: String,
}

/// The message of the error for a row that is not a JSON object.
pub open spec fn non_object_row_message() -> Seq<char> {
    "insert 行必须为 JSON object"@
}

/// Checks and encodes the rows to insert (one `JSONEachRow` document each).
///
/// Fails with `Serialization` when some row is not a JSON object.
pub fn encode_rows(rows: &[JsonRow]) -> (r: ClickHouseResult<Vec<String>>)
    ensures
        (forall|i: int| 0 <= i < rows@.len() ==> (#[trigger] rows@[i]).is_object) ==> (r matches Ok(
            v,
        ) && v@.len() == rows@.len() && forall|i: int|
            0 <= i < rows@.len() ==> (#[trigger] v@[i])@ == rows@[i].text@),
        !(forall|i: int| 0 <= i < rows@.len() ==> (#[trigger] rows@[i]).is_object) ==> (r matches Err(
            e,
        ) && e@ == ErrorView::Serialization(non_object_row_message())),
{
    let mut encoded: Vec<String> = Vec::new();
    let mut i: usize = 0;
    while i < rows.len()
        invariant
            i <= rows@.len(),
            encoded@.len() == i,
            forall|k: int| 0 <= k < i ==> (#[trigger] rows@[k]).is_object,
            forall|k: int| 0 <= k < i ==> (#[trigger] encoded@[k])@ == rows@[k].text@,
        decreases rows@.len() - i,
    {
        if !rows[i].is_object {
            return Err(ClickHouseError::Serialization(String::from_str("insert 行必须为 JSON object")));
        }
        encoded.push(rows[i].text.clone());
        i = i + 1;
    }
    Ok(encoded)
}

} // verus!
