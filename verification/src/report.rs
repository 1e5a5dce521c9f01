//! Writing the stored results of a batch into the report worksheet: one header
//! row of merged titles, then one line per report row.
use vstd::prelude::*;
use vstd::hash_map::StringHashMap;

use crate::knubs::{
    file_index_gen, file_index_step, gen_format, matrix_texts, merge_spec, merge_styles, merge_titles,
    style_for, style_triple,
};
use crate::models::{Batch, FileResult, JsonQuery};
use crate::query::texts;
use crate::text::{decimal, usize_to_string};
use crate::xlsx::{Highlight, sheet_cells, sheet_styles, string_write_ok, write_string_with_format};

verus! {

/// A stored file result as plain values: its titles and its report rows.
pub open spec fn file_view(f: FileResult) -> (Seq<Seq<char>>, Seq<Seq<Seq<char>>>) {
    (texts(f.titles@), matrix_texts(f.body_matrix@))
}

/// The serial text of a match: the file number, a dash, the row's match index.
pub open spec fn serial_spec(file_index: nat, match_index: Seq<char>) -> Seq<char> {
    decimal(file_index) + seq!['-'] + match_index
}

/// The text written for field `j` of a report row: the file number, the report
/// line and the serial in fields 1 to 3, the stored value elsewhere.
pub open spec fn out_text(body: Seq<Seq<char>>, j: int, file_index: nat, line: nat, match_index: Seq<char>) -> Seq<char> {
    if j == 1 {
        decimal(file_index)
    } else if j == 2 {
        decimal(line)
    } else if j == 3 {
        serial_spec(file_index, match_index)
    } else {
        body[j]
    }
}

/// The worksheet cells after writing the first `n` fields of a report row on line
/// `line`, each in the column of its title.
pub open spec fn write_row_spec(
    sheet: Map<(u32, u16), Seq<char>>,
    line: usize,
    columns: Seq<usize>,
    body: Seq<Seq<char>>,
    file_index: nat,
    match_index: Seq<char>,
    n: int,
) -> Map<(u32, u16), Seq<char>>
    decreases n,
{
    if n <= 0 {
        sheet
    } else {
        let prev = write_row_spec(sheet, line, columns, body, file_index, match_index, n - 1);
        let t = out_text(body, n - 1, file_index, line as nat, match_index);
        let key = (line as u32, columns[n - 1] as u16);
        if string_write_ok(key.0, key.1, t) {
            prev.insert(key, t)
        } else {
            prev
        }
    }
}

/// The file numbers, worksheet cells and next line after writing `rows`, in order,
/// starting on line `line`: each row's last field is its match index, its fifth
/// field its file name.
pub open spec fn rows_spec(
    files: Map<Seq<char>, usize>,
    sheet: Map<(u32, u16), Seq<char>>,
    line: usize,
    columns: Seq<usize>,
    rows: Seq<Seq<Seq<char>>>,
) -> (Map<Seq<char>, usize>, Map<(u32, u16), Seq<char>>, usize)
    decreases rows.len(),
{
    if rows.len() == 0 {
        (files, sheet, line)
    } else {
        let (f1, s1, l1) = rows_spec(files, sheet, line, columns, rows.drop_last());
        let row = rows.last();
        let body = row.drop_last();
        let (f2, fi) = file_index_step(f1, body[4]);
        (
            f2,
            write_row_spec(s1, l1, columns, body, fi as nat, row.last(), body.len() as int),
            (l1 + 1) as usize,
        )
    }
}

/// The title map, file numbers, worksheet cells and next line after writing a
/// file's results: its titles are merged first, and the file is skipped when a
/// header cell cannot be written.
pub open spec fn file_spec(
    titles_map: Map<Seq<char>, usize>,
    files: Map<Seq<char>, usize>,
    sheet: Map<(u32, u16), Seq<char>>,
    line: usize,
    file: (Seq<Seq<char>>, Seq<Seq<Seq<char>>>),
) -> (Map<Seq<char>, usize>, Map<Seq<char>, usize>, Map<(u32, u16), Seq<char>>, usize) {
    let (m, s, o) = merge_spec(titles_map, sheet, file.0);
    match o {
        None => (m, files, s, line),
        Some(columns) => {
            let (f2, s2, l2) = rows_spec(files, s, line, columns, file.1);
            (m, f2, s2, l2)
        },
    }
}

/// The state after writing the files' results in order.
pub open spec fn files_spec(
    titles_map: Map<Seq<char>, usize>,
    files: Map<Seq<char>, usize>,
    sheet: Map<(u32, u16), Seq<char>>,
    line: usize,
    results: Seq<(Seq<Seq<char>>, Seq<Seq<Seq<char>>>)>,
) -> (Map<Seq<char>, usize>, Map<Seq<char>, usize>, Map<(u32, u16), Seq<char>>, usize)
    decreases results.len(),
{
    if results.len() == 0 {
        (titles_map, files, sheet, line)
    } else {
        let (m, f, s, l) = files_spec(titles_map, files, sheet, line, results.drop_last());
        file_spec(m, f, s, l, results.last())
    }
}

/// The formats of the cells after writing the first `n` fields of a report row
/// on line `line`: each field written takes the style of its position in a row
/// of that line.
pub open spec fn write_row_styles(
    styles: Map<(u32, u16), (bool, Seq<char>, Option<Highlight>)>,
    line: usize,
    columns: Seq<usize>,
    body: Seq<Seq<char>>,
    file_index: nat,
    match_index: Seq<char>,
    only_data: bool,
    n: int,
) -> Map<(u32, u16), (bool, Seq<char>, Option<Highlight>)>
    decreases n,
{
    if n <= 0 {
        styles
    } else {
        let prev = write_row_styles(styles, line, columns, body, file_index, match_index, only_data, n - 1);
        let t = out_text(body, n - 1, file_index, line as nat, match_index);
        let key = (line as u32, columns[n - 1] as u16);
        if string_write_ok(key.0, key.1, t) {
            prev.insert(key, style_triple(style_for(only_data, (n - 1) as usize, line)))
        } else {
            prev
        }
    }
}

/// The formats of the cells after writing `rows` in order from line `line` on.
pub open spec fn rows_styles(
    files: Map<Seq<char>, usize>,
    sheet: Map<(u32, u16), Seq<char>>,
    styles: Map<(u32, u16), (bool, Seq<char>, Option<Highlight>)>,
    line: usize,
    columns: Seq<usize>,
    rows: Seq<Seq<Seq<char>>>,
    only_data: bool,
) -> Map<(u32, u16), (bool, Seq<char>, Option<Highlight>)>
    decreases rows.len(),
{
    if rows.len() == 0 {
        styles
    } else {
        let prev = rows_styles(files, sheet, styles, line, columns, rows.drop_last(), only_data);
        let (f1, s1, l1) = rows_spec(files, sheet, line, columns, rows.drop_last());
        let row = rows.last();
        let body = row.drop_last();
        let (f2, fi) = file_index_step(f1, body[4]);
        write_row_styles(prev, l1, columns, body, fi as nat, row.last(), only_data, body.len() as int)
    }
}

/// The formats of the cells after writing a file's results: its header cells,
/// then its rows.
pub open spec fn file_styles(
    titles_map: Map<Seq<char>, usize>,
    files: Map<Seq<char>, usize>,
    sheet: Map<(u32, u16), Seq<char>>,
    styles: Map<(u32, u16), (bool, Seq<char>, Option<Highlight>)>,
    line: usize,
    file: (Seq<Seq<char>>, Seq<Seq<Seq<char>>>),
    only_data: bool,
) -> Map<(u32, u16), (bool, Seq<char>, Option<Highlight>)> {
    let (m, s, o) = merge_spec(titles_map, sheet, file.0);
    let st = merge_styles(titles_map, sheet, styles, file.0, only_data);
    match o {
        None => st,
        Some(columns) => rows_styles(files, s, st, line, columns, file.1, only_data),
    }
}

/// The formats of the cells after writing the files' results in order.
pub open spec fn files_styles(
    titles_map: Map<Seq<char>, usize>,
    files: Map<Seq<char>, usize>,
    sheet: Map<(u32, u16), Seq<char>>,
    styles: Map<(u32, u16), (bool, Seq<char>, Option<Highlight>)>,
    line: usize,
    results: Seq<(Seq<Seq<char>>, Seq<Seq<Seq<char>>>)>,
    only_data: bool,
) -> Map<(u32, u16), (bool, Seq<char>, Option<Highlight>)>
    decreases results.len(),
{
    if results.len() == 0 {
        styles
    } else {
        let (m, f, s, l) = files_spec(titles_map, files, sheet, line, results.drop_last());
        let st = files_styles(titles_map, files, sheet, styles, line, results.drop_last(), only_data);
        file_styles(m, f, s, st, l, results.last(), only_data)
    }
}

/// A stored report row can be written under `n` titles: it has a match index and
/// at least five fields before it, and no more fields than titles.
pub open spec fn row_fits(row: Seq<Seq<char>>, n: nat) -> bool {
    &&& row.len() >= 6
    &&& row.len() - 1 <= n
}

/// Every report row of every file fits its file's titles.
pub open spec fn results_fit(results: Seq<(Seq<Seq<char>>, Seq<Seq<Seq<char>>>)>) -> bool {
    forall|i: int, k: int|
        0 <= i < results.len() && 0 <= k < results[i].1.len() ==> row_fits(
            #[trigger] results[i].1[k],
            results[i].0.len(),
        )
}

/// The number of report rows of the files.
pub open spec fn total_rows(results: Seq<(Seq<Seq<char>>, Seq<Seq<Seq<char>>>)>) -> nat
    decreases results.len(),
{
    if results.len() == 0 {
        0
    } else {
        total_rows(results.drop_last()) + results.last().1.len()
    }
}

/// The stored results of a batch as plain values.
pub open spec fn batch_view(b: Batch) -> Seq<(Seq<Seq<char>>, Seq<Seq<Seq<char>>>)> {
    b.file_results@.map_values(|f: FileResult| file_view(f))
}

/// The serial text of a match.
fn serial_text(file_index: usize, match_index: &String) -> (r: String)
    ensures
        r@ == serial_spec(file_index as nat, match_index@),
{
    let mut s = usize_to_string(file_index);
    crate::text::push_char(&mut s, '-');
    s.append(match_index.as_str());
    assert(s@ =~= serial_spec(file_index as nat, match_index@));
    s
}

/// Writes the fields of a stored report row, all but its last (the match
/// index), on line `line`, each in the column of its title, formatted for its
/// position.
fn write_report_row(
    sheet: &mut rust_xlsxwriter::Worksheet,
    columns: &Vec<usize>,
    row: &Vec<String>,
    file_index: usize,
    line: usize,
    query: &JsonQuery,
)
    requires
        row_fits(texts(row@), columns@.len()),
    ensures
        sheet_cells(*final(sheet)) == write_row_spec(
            sheet_cells(*old(sheet)),
            line,
            columns@,
            texts(row@).drop_last(),
            file_index as nat,
            texts(row@).last(),
            row@.len() - 1,
        ),
        sheet_styles(*final(sheet)) == write_row_styles(
            sheet_styles(*old(sheet)),
            line,
            columns@,
            texts(row@).drop_last(),
            file_index as nat,
            texts(row@).last(),
            *query is OnlyData,
            row@.len() - 1,
        ),
{
    let ghost body = texts(row@).drop_last();
    let last = row.len() - 1;
    let match_index = &row[last];
    assert(match_index@ == texts(row@).last());
    let fi_text = usize_to_string(file_index);
    let line_text = usize_to_string(line);
    let serial = serial_text(file_index, match_index);
    let row_no: u32 = #[verifier::truncate] (line as u32);
    let mut index: usize = 0;
    while index < last
        invariant
            row_fits(texts(row@), columns@.len()),
            last == row@.len() - 1,
            body == texts(row@).drop_last(),
            match_index@ == texts(row@).last(),
            index <= last,
            fi_text@ == decimal(file_index as nat),
            line_text@ == decimal(line as nat),
            serial@ == serial_spec(file_index as nat, match_index@),
            row_no == line as u32,
            sheet_cells(*sheet) == write_row_spec(
                sheet_cells(*old(sheet)),
                line,
                columns@,
                body,
                file_index as nat,
                match_index@,
                index as int,
            ),
            sheet_styles(*sheet) == write_row_styles(
                sheet_styles(*old(sheet)),
                line,
                columns@,
                body,
                file_index as nat,
                match_index@,
                *query is OnlyData,
                index as int,
            ),
        decreases last - index,
    {
        let cell = if index == 1 {
            fi_text.clone()
        } else if index == 2 {
            line_text.clone()
        } else if index == 3 {
            serial.clone()
        } else {
            row[index].clone()
        };
        assert(cell@ == out_text(body, index as int, file_index as nat, line as nat, match_index@));
        let format = gen_format(query, index, line);
        let col: u16 = #[verifier::truncate] (columns[index] as u16);
        let _ = write_string_with_format(sheet, row_no, col, cell, &format);
        index = index + 1;
    }
}

} // verus!

verus! {

broadcast use vstd::set::group_set_axioms, vstd::map::group_map_axioms;

/// Writing rows moves the line on by one per row and numbers at most one new
/// file per row, keeping the numbering finite.
proof fn lemma_rows_bounds(
    files: Map<Seq<char>, usize>,
    sheet: Map<(u32, u16), Seq<char>>,
    line: usize,
    columns: Seq<usize>,
    rows: Seq<Seq<Seq<char>>>,
)
    requires
        files.dom().finite(),
        line + rows.len() <= usize::MAX,
        forall|k: int| 0 <= k < rows.len() ==> #[trigger] rows[k].len() >= 6,
    ensures
        ({
            let (f, s, l) = rows_spec(files, sheet, line, columns, rows);
            &&& f.dom().finite()
            &&& f.len() <= files.len() + rows.len()
            &&& l == line + rows.len()
        }),
    decreases rows.len(),
{
    if rows.len() > 0 {
        lemma_rows_bounds(files, sheet, line, columns, rows.drop_last());
    }
}

/// Writes one file's stored results: merges its titles into the header row, then
/// writes its report rows from line `current_row` on; a file whose header cells
/// cannot be written is skipped.
pub fn write_file_result(
    sheet: &mut rust_xlsxwriter::Worksheet,
    titles_map: &mut StringHashMap<usize>,
    file_index_map: &mut StringHashMap<usize>,
    current_row: &mut usize,
    query: &JsonQuery,
    file: FileResult,
)
    requires
        results_fit(seq![file_view(file)]),
        old(file_index_map)@.dom().finite(),
        old(file_index_map)@.len() + file.body_matrix@.len() < usize::MAX,
        *old(current_row) + file.body_matrix@.len() <= usize::MAX,
    ensures
        (final(titles_map)@, final(file_index_map)@, sheet_cells(*final(sheet)), *final(current_row))
            == file_spec(
            old(titles_map)@,
            old(file_index_map)@,
            sheet_cells(*old(sheet)),
            *old(current_row),
            file_view(file),
        ),
        sheet_styles(*final(sheet)) == file_styles(
            old(titles_map)@,
            old(file_index_map)@,
            sheet_cells(*old(sheet)),
            sheet_styles(*old(sheet)),
            *old(current_row),
            file_view(file),
            *query is OnlyData,
        ),
{
    let ghost fv = file_view(file);
    let FileResult { titles, body_matrix } = file;
    let ghost f0 = file_index_map@;
    let ghost line0 = *current_row;
    let columns = match merge_titles(titles, titles_map, sheet, query) {
        Ok(c) => c,
        Err(_) => {
            return;
        },
    };
    let ghost s0 = sheet_cells(*sheet);
    let ghost st0 = sheet_styles(*sheet);
    let ghost rows = matrix_texts(body_matrix@);
    assert(rows == fv.1);
    assert(columns@.len() == fv.0.len()) by {
        lemma_merge_len(old(titles_map)@, sheet_cells(*old(sheet)), fv.0);
    }
    let mut k: usize = 0;
    while k < body_matrix.len()
        invariant
            rows == matrix_texts(body_matrix@),
            columns@.len() == fv.0.len(),
            results_fit(seq![fv]),
            fv.1 == rows,
            f0.dom().finite(),
            f0.len() + rows.len() < usize::MAX,
            line0 + rows.len() <= usize::MAX,
            k <= rows.len(),
            (file_index_map@, sheet_cells(*sheet), *current_row) == rows_spec(
                f0,
                s0,
                line0,
                columns@,
                rows.take(k as int),
            ),
            sheet_styles(*sheet) == rows_styles(
                f0,
                s0,
                st0,
                line0,
                columns@,
                rows.take(k as int),
                *query is OnlyData,
            ),
        decreases rows.len() - k,
    {
        proof {
            assert(rows.take(k + 1).drop_last() =~= rows.take(k as int));
            assert(rows.take(k + 1).last() == rows[k as int]);
            assert(seq![fv][0] == fv);
            assert(row_fits(rows[k as int], fv.0.len()));
            lemma_rows_bounds(f0, s0, line0, columns@, rows.take(k as int));
        }
        let row = &body_matrix[k];
        assert(texts(row@) == rows[k as int]);
        let file_index = file_index_gen(file_index_map, &row[4]);
        assert(texts(row@).drop_last()[4] == row@[4]@);
        write_report_row(sheet, &columns, row, file_index, *current_row, query);
        *current_row = *current_row + 1;
        k = k + 1;
    }
    assert(rows.take(k as int) =~= rows);
}

/// The header columns merged for some titles are as many as the titles.
proof fn lemma_merge_len(
    map: Map<Seq<char>, usize>,
    sheet: Map<(u32, u16), Seq<char>>,
    titles: Seq<Seq<char>>,
)
    ensures
        merge_spec(map, sheet, titles).2 matches Some(v) ==> v.len() == titles.len(),
    decreases titles.len(),
{
    if titles.len() > 0 {
        lemma_merge_len(map, sheet, titles.drop_last());
    }
}

} // verus!

verus! {

/// Writing files' results moves the line on by at most their number of rows and
/// numbers at most that many new files, keeping the numbering finite.
proof fn lemma_files_bounds(
    titles_map: Map<Seq<char>, usize>,
    files: Map<Seq<char>, usize>,
    sheet: Map<(u32, u16), Seq<char>>,
    line: usize,
    results: Seq<(Seq<Seq<char>>, Seq<Seq<Seq<char>>>)>,
)
    requires
        files.dom().finite(),
        line + total_rows(results) <= usize::MAX,
        results_fit(results),
    ensures
        ({
            let (m, f, s, l) = files_spec(titles_map, files, sheet, line, results);
            &&& f.dom().finite()
            &&& f.len() <= files.len() + total_rows(results)
            &&& line <= l <= line + total_rows(results)
        }),
    decreases results.len(),
{
    if results.len() > 0 {
        let prefix = results.drop_last();
        assert forall|i: int, k: int|
            0 <= i < prefix.len() && 0 <= k < prefix[i].1.len() implies row_fits(
            #[trigger] prefix[i].1[k],
            prefix[i].0.len(),
        ) by {
            assert(prefix[i] == results[i]);
        }
        lemma_files_bounds(titles_map, files, sheet, line, prefix);
        let (m, f, s, l) = files_spec(titles_map, files, sheet, line, prefix);
        let last = results.last();
        let (m2, s2, o) = merge_spec(m, s, last.0);
        if let Some(columns) = o {
            assert forall|k: int| 0 <= k < last.1.len() implies #[trigger] last.1[k].len() >= 6 by {
                assert(row_fits(results[results.len() - 1].1[k], results[results.len() - 1].0.len()));
            }
            lemma_rows_bounds(f, s2, l, columns, last.1);
        }
    }
}

/// Writes the stored results of a batch, file by file, from line `current_row`
/// on, keeping one header row of merged titles and one numbering of files.
pub fn write_batch(
    sheet: &mut rust_xlsxwriter::Worksheet,
    titles_map: &mut StringHashMap<usize>,
    file_index_map: &mut StringHashMap<usize>,
    current_row: &mut usize,
    batch: Batch,
)
    requires
        results_fit(batch_view(batch)),
        old(file_index_map)@.dom().finite(),
        old(file_index_map)@.len() + total_rows(batch_view(batch)) < usize::MAX,
        *old(current_row) + total_rows(batch_view(batch)) <= usize::MAX,
    ensures
        (final(titles_map)@, final(file_index_map)@, sheet_cells(*final(sheet)), *final(current_row))
            == files_spec(
            old(titles_map)@,
            old(file_index_map)@,
            sheet_cells(*old(sheet)),
            *old(current_row),
            batch_view(batch),
        ),
        sheet_styles(*final(sheet)) == files_styles(
            old(titles_map)@,
            old(file_index_map)@,
            sheet_cells(*old(sheet)),
            sheet_styles(*old(sheet)),
            *old(current_row),
            batch_view(batch),
            batch.query is OnlyData,
        ),
{
    let ghost bv = batch_view(batch);
    let ghost only = batch.query is OnlyData;
    let ghost st0 = sheet_styles(*sheet);
    let Batch { batch_id: _, file_results, query } = batch;
    let ghost m0 = titles_map@;
    let ghost f0 = file_index_map@;
    let ghost s0 = sheet_cells(*sheet);
    let ghost line0 = *current_row;
    let mut files = file_results;
    let ghost all = files@;
    let total = files.len();
    let mut done: usize = 0;
    while files.len() > 0
        invariant
            total == all.len(),
            bv.len() == all.len(),
            forall|i: int| 0 <= i < bv.len() ==> #[trigger] bv[i] == file_view(all[i]),
            files@ == all.skip(done as int),
            done <= bv.len(),
            results_fit(bv),
            f0.dom().finite(),
            f0.len() + total_rows(bv) < usize::MAX,
            line0 + total_rows(bv) <= usize::MAX,
            (titles_map@, file_index_map@, sheet_cells(*sheet), *current_row) == files_spec(
                m0,
                f0,
                s0,
                line0,
                bv.take(done as int),
            ),
            only == (query is OnlyData),
            sheet_styles(*sheet) == files_styles(m0, f0, s0, st0, line0, bv.take(done as int), only),
        decreases files@.len(),
    {
        let file = files.remove(0);
        proof {
            assert(file == all[done as int]);
            assert(bv[done as int] == file_view(file));
            assert(files@ =~= all.skip(done + 1));
            assert(bv.take(done + 1).drop_last() =~= bv.take(done as int));
            assert(bv.take(done + 1).last() == bv[done as int]);
            lemma_total_rows_prefix(bv, done as int);
            assert forall|i: int, k: int|
                0 <= i < bv.take(done as int).len() && 0 <= k < bv.take(done as int)[i].1.len() implies row_fits(
                #[trigger] bv.take(done as int)[i].1[k],
                bv.take(done as int)[i].0.len(),
            ) by {
                assert(bv.take(done as int)[i] == bv[i]);
            }
            lemma_files_bounds(m0, f0, s0, line0, bv.take(done as int));
            assert forall|i: int, k: int|
                0 <= i < 1 && 0 <= k < seq![file_view(file)][i].1.len() implies row_fits(
                #[trigger] seq![file_view(file)][i].1[k],
                seq![file_view(file)][i].0.len(),
            ) by {
                assert(seq![file_view(file)][i] == bv[done as int]);
            }
        }
        write_file_result(sheet, titles_map, file_index_map, current_row, &query, file);
        done = done + 1;
    }
    assert(bv.take(done as int) =~= bv);
}

/// The rows of a prefix of the files, with those of the next file, are the rows
/// of the longer prefix, and never more than all the rows.
proof fn lemma_total_rows_prefix(results: Seq<(Seq<Seq<char>>, Seq<Seq<Seq<char>>>)>, k: int)
    requires
        0 <= k < results.len(),
    ensures
        total_rows(results.take(k + 1)) == total_rows(results.take(k)) + results[k].1.len(),
        total_rows(results.take(k + 1)) <= total_rows(results),
    decreases results.len(),
{
    assert(results.take(k + 1).drop_last() =~= results.take(k));
    if k + 1 < results.len() {
        lemma_total_rows_prefix(results.drop_last(), k);
        assert(results.drop_last().take(k + 1) =~= results.take(k + 1));
        assert(results.drop_last().take(k) =~= results.take(k));
    } else {
        assert(results.take(k + 1) =~= results);
    }
}

} // verus!

verus! {

/// Whether every stored report row of the batch fits its file's titles, and the
/// batch's rows leave room for `files_numbered` more file numbers and for the
/// lines from `current_row` on: what `write_batch` needs.
pub fn batch_fits(batch: &Batch, files_numbered: usize, current_row: usize) -> (r: bool)
    ensures
        r == (results_fit(batch_view(*batch)) && files_numbered + total_rows(batch_view(*batch))
            < usize::MAX && current_row + total_rows(batch_view(*batch)) <= usize::MAX),
{
    let ghost bv = batch_view(*batch);
    if files_numbered == usize::MAX {
        return false;
    }
    let mut total: usize = 0;
    let mut i: usize = 0;
    while i < batch.file_results.len()
        invariant
            bv == batch_view(*batch),
            i <= bv.len(),
            total == total_rows(bv.take(i as int)),
            results_fit(bv.take(i as int)),
            total + files_numbered < usize::MAX,
            total + current_row <= usize::MAX,
        decreases bv.len() - i,
    {
        let file = &batch.file_results[i];
        assert(bv[i as int] == file_view(*file));
        proof {
            assert(bv.take(i + 1).drop_last() =~= bv.take(i as int));
            assert(bv.take(i + 1).last() == bv[i as int]);
        }
        let n_titles = file.titles.len();
        let mut k: usize = 0;
        while k < file.body_matrix.len()
            invariant
                i < bv.len(),
                bv == batch_view(*batch),
                bv[i as int] == file_view(*file),
                k <= file.body_matrix@.len(),
                n_titles == file.titles@.len(),
                forall|j: int| 0 <= j < k ==> row_fits(#[trigger] bv[i as int].1[j], bv[i as int].0.len()),
            decreases file.body_matrix@.len() - k,
        {
            let len = file.body_matrix[k].len();
            assert(bv[i as int].1[k as int].len() == len);
            if len < 6 || len - 1 > n_titles {
                proof {
                    assert(bv[i as int].1.len() == file.body_matrix@.len());
                    assert(!row_fits(bv[i as int].1[k as int], bv[i as int].0.len()));
                    if results_fit(bv) {
                        assert(row_fits(bv[i as int].1[k as int], bv[i as int].0.len()));
                    }
                }
                return false;
            }
            k = k + 1;
        }
        let rows = file.body_matrix.len();
        proof {
            lemma_total_rows_prefix(bv, i as int);
            assert forall|a: int, b: int|
                0 <= a < bv.take(i + 1).len() && 0 <= b < bv.take(i + 1)[a].1.len() implies row_fits(
                #[trigger] bv.take(i + 1)[a].1[b],
                bv.take(i + 1)[a].0.len(),
            ) by {
                if a < i {
                    assert(bv.take(i + 1)[a] == bv.take(i as int)[a]);
                } else {
                    assert(bv.take(i + 1)[a] == bv[i as int]);
                }
            }
        }
        if rows >= usize::MAX - files_numbered - total || rows > usize::MAX - current_row - total {
            proof {
                lemma_total_rows_prefix(bv, i as int);
            }
            return false;
        }
        total = total + rows;
        i = i + 1;
    }
    assert(bv.take(i as int) =~= bv);
    true
}

} // verus!
