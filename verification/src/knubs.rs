//! Row-level rules of a search: the title row check, the matching of data rows
//! against a query, and the bookkeeping of file and title indexes.
use vstd::prelude::*;
use vstd::hash_map::StringHashMap;

use crate::grid::{Cell, Grid, flat_cell, flat_text, row_texts};
use crate::models::{IndexError, JsonQuery};
use crate::xlsx::{
    color_cyan, color_pink, format_background, Highlight, format_bold, format_font_size, format_new, format_set_background_color, format_set_bold, format_set_font_size,
    sheet_cells, sheet_styles, string_write_ok, write_string_with_format,
};
use crate::query::{QuerySet, TitleQuery, texts};
use crate::clock::time_text_shape;
use crate::text::{clean_text_spec, cleanText, decimal, usize_to_string};

verus! {

broadcast use vstd::string::group_string_axioms;

/// The columns that every data-only report row starts with.
pub open spec fn data_titles() -> Seq<Seq<char>> {
    seq![
        "File Last Revised Date"@,
        "File Number"@,
        "Serial Number"@,
        "File Number - Serial Number"@,
        "Filename"@,
        "Data"@,
    ]
}

/// The columns that every title-and-data report row starts with.
pub open spec fn title_data_titles() -> Seq<Seq<char>> {
    seq![
        "File Last Revised Date"@,
        "File Number"@,
        "Serial Number"@,
        "File Number - Serial Number"@,
        "Filename"@,
        "Title"@,
        "Data"@,
    ]
}

/// The first row of the grid when it is present and has no empty cell.
pub open spec fn valid_title_row(cells: Seq<Seq<Cell>>) -> Option<Seq<Cell>> {
    if cells.len() > 0 && forall|c: int| 0 <= c < cells[0].len() ==> !(#[trigger] cells[0][c] is Empty) {
        Some(cells[0])
    } else {
        None
    }
}

/// The title row of a data-only report for a grid, if the grid passes the check.
pub open spec fn validity_spec(cells: Seq<Seq<Cell>>) -> Option<Seq<Seq<char>>> {
    match valid_title_row(cells) {
        Some(row) => Some(data_titles() + row_texts(row)),
        None => None,
    }
}

/// The columns of `row` whose cleaned text is a title of `query`, each with the
/// set looked for under it, left to right.
pub open spec fn query_columns(row: Seq<Cell>, query: TitleQuery) -> Seq<(int, Seq<Seq<char>>)>
    decreases row.len(),
{
    if row.len() == 0 {
        Seq::empty()
    } else {
        let prev = query_columns(row.drop_last(), query);
        match query.lookup(clean_text_spec(row.last().text())) {
            Some(q) => prev.push((row.len() - 1, q)),
            None => prev,
        }
    }
}

/// The queried columns of a row are columns of that row.
pub proof fn lemma_query_columns_bound(row: Seq<Cell>, query: TitleQuery)
    ensures
        forall|k: int|
            0 <= k < query_columns(row, query).len() ==> 0 <= #[trigger] query_columns(row, query)[k].0
                < row.len(),
    decreases row.len(),
{
    if row.len() > 0 {
        lemma_query_columns_bound(row.drop_last(), query);
        let prev = query_columns(row.drop_last(), query);
        let qc = query_columns(row, query);
        assert forall|k: int| 0 <= k < qc.len() implies 0 <= #[trigger] qc[k].0 < row.len() by {
            if k < prev.len() {
                assert(qc[k] == prev[k]);
            }
        }
    }
}

/// The title row of a title-and-data report and the queried columns, if the grid
/// passes the check.
pub open spec fn validity_1_spec(cells: Seq<Seq<Cell>>, query: TitleQuery) -> Option<
    (Seq<Seq<char>>, Seq<(int, Seq<Seq<char>>)>),
> {
    match valid_title_row(cells) {
        Some(row) => Some((title_data_titles() + row_texts(row), query_columns(row, query))),
        None => None,
    }
}

/// The queried columns as plain values.
pub open spec fn columns_view(v: Seq<(usize, QuerySet)>) -> Seq<(int, Seq<Seq<char>>)> {
    v.map_values(|p: (usize, QuerySet)| (p.0 as int, p.1@))
}

fn labels_data() -> (v: Vec<String>)
    ensures
        texts(v@) == data_titles(),
{
    let mut v: Vec<String> = Vec::new();
    v.push("File Last Revised Date".to_string());
    v.push("File Number".to_string());
    v.push("Serial Number".to_string());
    v.push("File Number - Serial Number".to_string());
    v.push("Filename".to_string());
    v.push("Data".to_string());
    assert(texts(v@) =~= data_titles());
    v
}

fn labels_title_data() -> (v: Vec<String>)
    ensures
        texts(v@) == title_data_titles(),
{
    let mut v: Vec<String> = Vec::new();
    v.push("File Last Revised Date".to_string());
    v.push("File Number".to_string());
    v.push("Serial Number".to_string());
    v.push("File Number - Serial Number".to_string());
    v.push("Filename".to_string());
    v.push("Title".to_string());
    v.push("Data".to_string());
    assert(texts(v@) =~= title_data_titles());
    v
}

/// Checks that the grid has a first row with no empty cell; if so, returns the
/// title row of a data-only report: the fixed columns, then the grid's titles.
pub fn validity(excel: &Grid) -> (r: Option<Vec<String>>)
    ensures
        match r {
            Some(v) => validity_spec(excel.cells()) == Some(texts(v@)),
            None => validity_spec(excel.cells()) is None,
        },
{
    if excel.height() == 0 {
        return None;
    }
    let first = excel.row(0);
    let mut titles = labels_data();
    let mut c: usize = 0;
    while c < first.len()
        invariant
            first@ == excel.cells()[0],
            excel.cells().len() > 0,
            c <= first@.len(),
            forall|j: int| 0 <= j < c ==> !(#[trigger] first@[j] is Empty),
            texts(titles@) == data_titles() + row_texts(first@.take(c as int)),
        decreases first@.len() - c,
    {
        if first[c].is_empty() {
            return None;
        }
        let ghost prev = titles@;
        let t = first[c].to_text();
        titles.push(t);
        proof {
            assert(first@.take(c + 1) =~= first@.take(c as int).push(first@[c as int]));
            assert(texts(titles@) =~= texts(prev).push(t@));
            assert(row_texts(first@.take(c + 1)) =~= row_texts(first@.take(c as int)).push(
                first@[c as int].text(),
            ));
        }
        c = c + 1;
    }
    assert(first@.take(c as int) =~= first@);
    Some(titles)
}

/// Checks the grid as `validity` does; if it passes, returns the title row of a
/// title-and-data report and, left to right, each column whose cleaned title is a
/// title of `query`, with the set looked for under it.
pub fn validity_1(excel: &Grid, query: TitleQuery) -> (r: Option<(Vec<String>, Vec<(usize, QuerySet)>)>)
    ensures
        match r {
            Some((v, cols)) => validity_1_spec(excel.cells(), query) == Some(
                (texts(v@), columns_view(cols@)),
            ),
            None => validity_1_spec(excel.cells(), query) is None,
        },
{
    if excel.height() == 0 {
        return None;
    }
    let first = excel.row(0);
    let mut titles = labels_title_data();
    let mut query_indexes: Vec<(usize, QuerySet)> = Vec::new();
    let mut c: usize = 0;
    while c < first.len()
        invariant
            first@ == excel.cells()[0],
            excel.cells().len() > 0,
            c <= first@.len(),
            forall|j: int| 0 <= j < c ==> !(#[trigger] first@[j] is Empty),
            texts(titles@) == title_data_titles() + row_texts(first@.take(c as int)),
            columns_view(query_indexes@) == query_columns(first@.take(c as int), query),
        decreases first@.len() - c,
    {
        if first[c].is_empty() {
            return None;
        }
        let ghost prev = titles@;
        let ghost prevq = query_indexes@;
        let t = first[c].to_text();
        let key = cleanText(&t);
        titles.push(t);
        proof {
            assert(first@.take(c + 1) =~= first@.take(c as int).push(first@[c as int]));
            assert(first@.take(c + 1).drop_last() =~= first@.take(c as int));
            assert(texts(titles@) =~= texts(prev).push(t@));
            assert(row_texts(first@.take(c + 1)) =~= row_texts(first@.take(c as int)).push(
                first@[c as int].text(),
            ));
        }
        match query.get(&key) {
            Some(values) => {
                let copy = values.duplicate();
                query_indexes.push((c, copy));
                proof {
                    assert(columns_view(query_indexes@) =~= columns_view(prevq).push(
                        (c as int, copy@),
                    ));
                }
            },
            None => {},
        }
        c = c + 1;
    }
    assert(first@.take(c as int) =~= first@);
    Some((titles, query_indexes))
}

/// Whether `cell` is one of the queried texts.
#[allow(unused)]
pub fn is_query(queries: &QuerySet, cell: String) -> (r: bool)
    ensures
        r == queries@.contains(cell@),
{
    queries.contains(&cell)
}

/// One step of file numbering: a known file keeps its number, a new file gets the
/// next number (one more than the number of files seen so far).
pub open spec fn file_index_step(m: Map<Seq<char>, usize>, f: Seq<char>) -> (Map<Seq<char>, usize>, usize) {
    if m.contains_key(f) {
        (m, m[f])
    } else {
        (m.insert(f, (m.len() + 1) as usize), (m.len() + 1) as usize)
    }
}

/// The number of `filename` among the files seen so far, recording a new file.
pub fn file_index_gen(fileindex_map: &mut StringHashMap<usize>, filename: &String) -> (r: usize)
    requires
        old(fileindex_map)@.len() < usize::MAX,
    ensures
        (final(fileindex_map)@, r) == file_index_step(old(fileindex_map)@, filename@),
{
    match fileindex_map.get(filename.as_str()) {
        Some(ind) => *ind,
        None => {
            let ind = fileindex_map.len() + 1;
            fileindex_map.insert(filename.clone(), ind);
            ind
        },
    }
}

} // verus!

verus! {

/// The cleaned texts of a row of cells.
pub open spec fn cleaned_row(row: Seq<Cell>) -> Seq<Seq<char>> {
    row.map_values(|c: Cell| clean_text_spec(c.text()))
}

/// The queried texts that occur among the cleaned texts of a row, in query order.
pub open spec fn matched_data(query: Seq<Seq<char>>, cleaned: Seq<Seq<char>>) -> Seq<Seq<char>> {
    query.filter(|d: Seq<char>| cleaned.contains(d))
}

/// A report row: the time, three unknown fields, the file name, the leading values
/// of the match, the cleaned row, and the row index.
pub open spec fn report_row(
    time: Seq<char>,
    file_name: Seq<char>,
    leading: Seq<Seq<char>>,
    cleaned: Seq<Seq<char>>,
    index: nat,
) -> Seq<Seq<char>> {
    seq![time, "Unknown"@, "Unknown"@, "Unknown"@, file_name] + leading + cleaned + seq![
        decimal(index),
    ]
}

/// The texts of a matrix of strings.
pub open spec fn matrix_texts(m: Seq<Vec<String>>) -> Seq<Seq<Seq<char>>> {
    m.map_values(|r: Vec<String>| texts(r@))
}

/// A copy of a vector of strings.
pub(crate) fn copy_strings(v: &Vec<String>) -> (r: Vec<String>)
    ensures
        texts(r@) == texts(v@),
{
    let mut r: Vec<String> = Vec::new();
    let mut i: usize = 0;
    while i < v.len()
        invariant
            i <= v@.len(),
            texts(r@) == texts(v@).take(i as int),
        decreases v@.len() - i,
    {
        let ghost prev = r@;
        let c = v[i].clone();
        r.push(c);
        proof {
            assert(texts(r@) =~= texts(prev).push(c@));
            assert(texts(v@).take(i + 1) =~= texts(v@).take(i as int).push(v@[i as int]@));
        }
        i = i + 1;
    }
    assert(texts(v@).take(i as int) =~= texts(v@));
    r
}

/// Whether `s` is one of the strings of `v`.
pub(crate) fn strings_contain(v: &Vec<String>, s: &String) -> (b: bool)
    ensures
        b == texts(v@).contains(s@),
{
    let mut i: usize = 0;
    while i < v.len()
        invariant
            i <= v@.len(),
            forall|j: int| 0 <= j < i ==> v@[j]@ != s@,
        decreases v@.len() - i,
    {
        if v[i] == *s {
            assert(texts(v@)[i as int] == s@);
            return true;
        }
        i = i + 1;
    }
    assert forall|j: int| 0 <= j < texts(v@).len() implies texts(v@)[j] != s@ by {
        assert(texts(v@)[j] == v@[j]@);
    }
    false
}

/// The cleaned texts of a row of cells.
fn clean_row(row: &Vec<Cell>) -> (r: Vec<String>)
    ensures
        texts(r@) == cleaned_row(row@),
{
    let mut r: Vec<String> = Vec::new();
    let mut i: usize = 0;
    while i < row.len()
        invariant
            i <= row@.len(),
            texts(r@) == cleaned_row(row@).take(i as int),
        decreases row@.len() - i,
    {
        let ghost prev = r@;
        let t = row[i].to_text();
        let c = cleanText(&t);
        r.push(c);
        proof {
            assert(texts(r@) =~= texts(prev).push(c@));
            assert(cleaned_row(row@).take(i + 1) =~= cleaned_row(row@).take(i as int).push(
                clean_text_spec(row@[i as int].text()),
            ));
        }
        i = i + 1;
    }
    assert(cleaned_row(row@).take(i as int) =~= cleaned_row(row@));
    r
}

/// A report row whose first field is a date and time as `get_time` writes it.
pub open spec fn time_stamped(row: Vec<String>) -> bool {
    row@.len() > 0 && time_text_shape(row@[0]@)
}

/// Builds one report row.
fn make_record(
    time: String,
    file_name: &String,
    leading: Vec<String>,
    cleaned: &Vec<String>,
    index: usize,
) -> (r: Vec<String>)
    ensures
        texts(r@) == report_row(time@, file_name@, texts(leading@), texts(cleaned@), index as nat),
        r@.len() > 0 && r@[0]@ == time@,
{
    let mut r: Vec<String> = Vec::new();
    r.push(time);
    r.push("Unknown".to_string());
    r.push("Unknown".to_string());
    r.push("Unknown".to_string());
    r.push(file_name.clone());
    let ghost head = r@;
    let mut i: usize = 0;
    while i < leading.len()
        invariant
            i <= leading@.len(),
            r@.len() == head.len() + i,
            texts(r@) == texts(head) + texts(leading@).take(i as int),
        decreases leading@.len() - i,
    {
        let ghost prev = r@;
        let c = leading[i].clone();
        r.push(c);
        proof {
            assert(texts(r@) =~= texts(prev).push(c@));
            assert(texts(leading@).take(i + 1) =~= texts(leading@).take(i as int).push(
                leading@[i as int]@,
            ));
        }
        i = i + 1;
    }
    assert(texts(leading@).take(i as int) =~= texts(leading@));
    let ghost mid = r@;
    let mut j: usize = 0;
    while j < cleaned.len()
        invariant
            j <= cleaned@.len(),
            texts(r@) == texts(mid) + texts(cleaned@).take(j as int),
        decreases cleaned@.len() - j,
    {
        let ghost prev = r@;
        let c = cleaned[j].clone();
        r.push(c);
        proof {
            assert(texts(r@) =~= texts(prev).push(c@));
            assert(texts(cleaned@).take(j + 1) =~= texts(cleaned@).take(j as int).push(
                cleaned@[j as int]@,
            ));
        }
        j = j + 1;
    }
    assert(texts(cleaned@).take(j as int) =~= texts(cleaned@));
    let ghost before_index = r@;
    let idx = usize_to_string(index);
    r.push(idx);
    assert(texts(r@) =~= texts(before_index).push(idx@));
    assert(texts(r@) =~= report_row(
        time@,
        file_name@,
        texts(leading@),
        texts(cleaned@),
        index as nat,
    ));
    assert(texts(r@)[0] == r@[0]@);
    r
}

/// Makes one report row for each queried text that occurs among the cleaned cells
/// of `row`, in query order; `None` when there is none. The first field of each
/// report row is the time at which it was made.
pub fn filter_rows(row: &Vec<Cell>, query: &QuerySet, file_name: String, index: usize) -> (r: Option<
    Vec<Vec<String>>,
>)
    ensures
        ({
            let m = matched_data(query@, cleaned_row(row@));
            match r {
                None => m.len() == 0,
                Some(rows) => {
                    &&& m.len() > 0
                    &&& rows@.len() == m.len()
                    &&& forall|k: int| 0 <= k < rows@.len() ==> time_stamped(#[trigger] rows@[k])
                    &&& forall|k: int|
                        0 <= k < m.len() ==> #[trigger] texts(rows@[k]@) == report_row(
                            texts(rows@[k]@)[0],
                            file_name@,
                            seq![m[k]],
                            cleaned_row(row@),
                            index as nat,
                        )
                },
            }
        }),
{
    let cleaned = clean_row(row);
    let ghost cl = cleaned_row(row@);
    let mut matches: Vec<Vec<String>> = Vec::new();
    let mut i: usize = 0;
    while i < query.len()
        invariant
            i <= query@.len(),
            texts(cleaned@) == cl,
            matches@.len() == matched_data(query@.take(i as int), cl).len(),
            forall|k: int| 0 <= k < matches@.len() ==> time_stamped(#[trigger] matches@[k]),
            forall|k: int|
                0 <= k < matches@.len() ==> #[trigger] texts(matches@[k]@) == report_row(
                    texts(matches@[k]@)[0],
                    file_name@,
                    seq![matched_data(query@.take(i as int), cl)[k]],
                    cl,
                    index as nat,
                ),
        decreases query@.len() - i,
    {
        let data = query.get(i);
        let ghost m0 = matched_data(query@.take(i as int), cl);
        proof {
            assert(query@.take(i + 1) =~= query@.take(i as int).push(query@[i as int]));
            query@.take(i as int).lemma_filter_push(query@[i as int], |d: Seq<char>| cl.contains(d));
        }
        if strings_contain(&cleaned, data) {
            let mut lead: Vec<String> = Vec::new();
            lead.push(data.clone());
            assert(texts(lead@) =~= seq![data@]);
            let time = crate::clock::get_time();
            let rec = make_record(time, &file_name, lead, &cleaned, index);
            let ghost prev = matches@;
            matches.push(rec);
            proof {
                assert forall|k: int| 0 <= k < matches@.len() implies time_stamped(#[trigger] matches@[k]) by {
                    if k < prev.len() {
                        assert(matches@[k] == prev[k]);
                    }
                }
                assert forall|k: int| 0 <= k < matches@.len() implies #[trigger] texts(matches@[k]@)
                    == report_row(
                    texts(matches@[k]@)[0],
                    file_name@,
                    seq![matched_data(query@.take(i + 1), cl)[k]],
                    cl,
                    index as nat,
                ) by {
                    if k < prev.len() {
                        assert(matches@[k] == prev[k]);
                        assert(matched_data(query@.take(i + 1), cl)[k] == m0[k]);
                    }
                }
            }
        } else {
            proof {
                assert forall|k: int| 0 <= k < matches@.len() implies #[trigger] texts(matches@[k]@)
                    == report_row(
                    texts(matches@[k]@)[0],
                    file_name@,
                    seq![matched_data(query@.take(i + 1), cl)[k]],
                    cl,
                    index as nat,
                ) by {
                    assert(matched_data(query@.take(i + 1), cl)[k] == m0[k]);
                }
            }
        }
        i = i + 1;
    }
    assert(query@.take(i as int) =~= query@);
    if matches.len() > 0 {
        Some(matches)
    } else {
        None
    }
}

} // verus!

verus! {

/// Whether the cell of row `index` under queried column `col`, as `Grid::get`
/// finds it, holds, once cleaned, one of the texts looked for under that column.
pub open spec fn column_hit(cells: Seq<Seq<Cell>>, width: nat, index: int, col: (int, Seq<Seq<char>>)) -> bool {
    match flat_cell(cells, width, index * width + col.0) {
        Some(x) => col.1.contains(clean_text_spec(x.text())),
        None => false,
    }
}

/// The queried columns whose cell in row `index` is a hit, in their order.
pub open spec fn column_hits(
    cells: Seq<Seq<Cell>>,
    width: nat,
    index: int,
    cols: Seq<(int, Seq<Seq<char>>)>,
) -> Seq<(int, Seq<Seq<char>>)> {
    cols.filter(|p: (int, Seq<Seq<char>>)| column_hit(cells, width, index, p))
}

/// Makes one report row for each queried column whose cell in row `index` of the
/// grid (as `Grid::get` finds it) holds, once cleaned, a text looked for under
/// it; the row leads with the column's title (the cell that `Grid::get` finds in
/// row 0) and that cell's text, then the cleaned cells of `row`. `None` when there
/// is none. The first field of each report row is the time at which it was made.
pub fn filter_rows_1(
    row: &Vec<Cell>,
    query_titles_index: &Vec<(usize, QuerySet)>,
    workbook: &Grid,
    file_name: String,
    index: usize,
) -> (r: Option<Vec<Vec<String>>>)
    requires
        forall|k: int|
            0 <= k < query_titles_index@.len() ==> index * workbook.width_spec()
                + (#[trigger] query_titles_index@[k]).0 <= usize::MAX,
    ensures
        ({
            let cells = workbook.cells();
            let h = column_hits(cells, workbook.width_spec(), index as int, columns_view(query_titles_index@));
            match r {
                None => h.len() == 0,
                Some(rows) => {
                    &&& h.len() > 0
                    &&& rows@.len() == h.len()
                    &&& forall|k: int| 0 <= k < rows@.len() ==> time_stamped(#[trigger] rows@[k])
                    &&& forall|k: int|
                        0 <= k < h.len() ==> #[trigger] texts(rows@[k]@) == report_row(
                            texts(rows@[k]@)[0],
                            file_name@,
                            seq![flat_text(cells, workbook.width_spec(), h[k].0), flat_text(
                                cells,
                                workbook.width_spec(),
                                index * workbook.width_spec() + h[k].0,
                            )],
                            cleaned_row(row@),
                            index as nat,
                        )
                },
            }
        }),
{
    proof {
        use_type_invariant(workbook);
    }
    let cleaned = clean_row(row);
    let ghost cl = cleaned_row(row@);
    let ghost cells = workbook.cells();
    let ghost w = workbook.width_spec();
    let ghost cols = columns_view(query_titles_index@);
    let mut matches: Vec<Vec<String>> = Vec::new();
    let mut i: usize = 0;
    while i < query_titles_index.len()
        invariant
            workbook.wf(),
            forall|k: int|
                0 <= k < query_titles_index@.len() ==> index * workbook.width_spec()
                    + (#[trigger] query_titles_index@[k]).0 <= usize::MAX,
            cells == workbook.cells(),
            w == workbook.width_spec(),
            cols == columns_view(query_titles_index@),
            i <= query_titles_index@.len(),
            texts(cleaned@) == cl,
            matches@.len() == column_hits(cells, w, index as int, cols.take(i as int)).len(),
            forall|k: int| 0 <= k < matches@.len() ==> time_stamped(#[trigger] matches@[k]),
            forall|k: int|
                0 <= k < matches@.len() ==> #[trigger] texts(matches@[k]@) == report_row(
                    texts(matches@[k]@)[0],
                    file_name@,
                    seq![
                        flat_text(cells, w, column_hits(cells, w, index as int, cols.take(i as int))[k].0),
                        flat_text(cells, w, index * w + column_hits(cells, w, index as int, cols.take(i as int))[k].0),
                    ],
                    cl,
                    index as nat,
                ),
        decreases query_titles_index@.len() - i,
    {
        let title_index = query_titles_index[i].0;
        let query_data = &query_titles_index[i].1;
        let ghost h0 = column_hits(cells, w, index as int, cols.take(i as int));
        let ghost p = cols[i as int];
        proof {
            assert(p == (title_index as int, query_data@));
            assert(cols.take(i + 1) =~= cols.take(i as int).push(p));
            cols.take(i as int).lemma_filter_push(
                p,
                |q: (int, Seq<Seq<char>>)| column_hit(cells, w, index as int, q),
            );
        }
        let mut hit = false;
        assert(index * w + title_index <= usize::MAX) by {
            assert(query_titles_index@[i as int].0 == title_index);
        }
        assert(index * w >= 0) by (nonlinear_arith)
            requires
                index >= 0,
                w >= 0,
        ;
        assert(0 * w + title_index == title_index);
        match workbook.get(index, title_index) {
            Some(cell) => {
                let text = cell.to_text();
                let key = cleanText(&text);
                if query_data.contains(&key) {
                    hit = true;
                    match workbook.get(0, title_index) {
                        Some(title_cell) => {
                            let mut lead: Vec<String> = Vec::new();
                            lead.push(title_cell.to_text());
                            lead.push(text);
                            assert(texts(lead@) =~= seq![
                                flat_text(cells, w, title_index as int),
                                flat_text(cells, w, index * w + title_index),
                            ]);
                            let time = crate::clock::get_time();
                            let rec = make_record(
                                time,
                                &file_name,
                                lead,
                                &cleaned,
                                index,
                            );
                            let ghost prev = matches@;
                            matches.push(rec);
                            proof {
                                assert forall|k: int| 0 <= k < matches@.len() implies time_stamped(
                                    #[trigger] matches@[k],
                                ) by {
                                    if k < prev.len() {
                                        assert(matches@[k] == prev[k]);
                                    }
                                }
                                let h1 = column_hits(cells, w, index as int, cols.take(i + 1));
                                assert(h1 == h0.push(p));
                                assert forall|k: int| 0 <= k < matches@.len() implies #[trigger] texts(
                                    matches@[k]@,
                                ) == report_row(
                                    texts(matches@[k]@)[0],
                                    file_name@,
                                    seq![flat_text(cells, w, h1[k].0), flat_text(cells, w, index * w + h1[k].0)],
                                    cl,
                                    index as nat,
                                ) by {
                                    if k < prev.len() {
                                        assert(matches@[k] == prev[k]);
                                        assert(h1[k] == h0[k]);
                                    }
                                }
                            }
                        },
                        None => {},
                    }
                }
            },
            None => {},
        }
        if !hit {
            proof {
                let h1 = column_hits(cells, w, index as int, cols.take(i + 1));
                assert(!column_hit(cells, w, index as int, p));
                assert(h1 == h0);
            }
        }
        i = i + 1;
    }
    assert(cols.take(i as int) =~= cols);
    if matches.len() > 0 {
        Some(matches)
    } else {
        None
    }
}

} // verus!

verus! {

/// How a report cell is formatted.
#[derive(Debug)]
pub struct CellStyle {
    pub bold: bool,
    pub font_size: Option<u16>,
    pub background: Option<Highlight>,
}

/// The style of the report cell at column position `cell_index` of row
/// `row_index`: plain for title-and-data reports; for data-only reports the title
/// row is bold at size 12 with the data column in cyan, and the data column of
/// other rows is bold at size 12 in pink.
pub open spec fn style_for(only_data: bool, cell_index: usize, row_index: usize) -> CellStyle {
    if !only_data {
        CellStyle { bold: false, font_size: None, background: None }
    } else if row_index == 0 {
        CellStyle {
            bold: true,
            font_size: Some(12),
            background: if cell_index == 5 {
                Some(Highlight::Cyan)
            } else {
                None
            },
        }
    } else if cell_index == 5 {
        CellStyle { bold: true, font_size: Some(12), background: Some(Highlight::Pink) }
    } else {
        CellStyle { bold: false, font_size: None, background: None }
    }
}

/// The style of a report cell for a query of type `search_type`.
pub fn format_style(search_type: &JsonQuery, cell_index: usize, row_index: usize) -> (s: CellStyle)
    ensures
        s == style_for(*search_type is OnlyData, cell_index, row_index),
{
    match search_type {
        JsonQuery::TitleData(_) => CellStyle { bold: false, font_size: None, background: None },
        JsonQuery::OnlyData(_) => {
            if row_index == 0 {
                let background = if cell_index == 5 {
                    Some(Highlight::Cyan)
                } else {
                    None
                };
                return CellStyle { bold: true, font_size: Some(12), background };
            }
            if cell_index == 5 {
                return CellStyle {
                    bold: true,
                    font_size: Some(12),
                    background: Some(Highlight::Pink),
                };
            }
            CellStyle { bold: false, font_size: None, background: None }
        },
    }
}

/// The font size text of a style: its size in decimal, or the default "11".
pub open spec fn style_font_size(s: CellStyle) -> Seq<char> {
    match s.font_size {
        Some(n) => decimal(n as nat),
        None => "11"@,
    }
}

/// The worksheet format of a report cell, built from `format_style`: bold, font
/// size and background as the style says.
pub fn gen_format(search_type: &JsonQuery, cell_index: usize, row_index: usize) -> (r: rust_xlsxwriter::Format)
    ensures
        format_bold(r) == style_for(*search_type is OnlyData, cell_index, row_index).bold,
        format_font_size(r) == style_font_size(style_for(*search_type is OnlyData, cell_index, row_index)),
        format_background(r) == style_for(*search_type is OnlyData, cell_index, row_index).background,
{
    let style = format_style(search_type, cell_index, row_index);
    let mut format = format_new();
    match style.background {
        Some(Highlight::Cyan) => {
            format = format_set_background_color(format, color_cyan());
        },
        Some(Highlight::Pink) => {
            format = format_set_background_color(format, color_pink());
        },
        None => {},
    }
    if style.bold {
        format = format_set_bold(format);
    }
    match style.font_size {
        Some(size) => {
            format = format_set_font_size(format, size);
        },
        None => {},
    }
    format
}

/// One title of `merge_titles`: a title whose cleaned text is new gets the next
/// column and is written in the header row; a known one keeps its column. `None`
/// when the header cell cannot be written.
pub open spec fn merge_step(
    map: Map<Seq<char>, usize>,
    sheet: Map<(u32, u16), Seq<char>>,
    title: Seq<char>,
) -> Option<(Map<Seq<char>, usize>, Map<(u32, u16), Seq<char>>, usize)> {
    let key = clean_text_spec(title);
    if map.contains_key(key) {
        Some((map, sheet, map[key]))
    } else {
        let idx = map.len() as usize;
        if string_write_ok(0, idx as u16, title) {
            Some((map.insert(key, idx), sheet.insert((0, idx as u16), title), idx))
        } else {
            None
        }
    }
}

/// The titles merged in order: the title map and header cells afterwards, and the
/// column of each title, or `None` in place of the columns when a header cell
/// could not be written (the state is then the one reached before that title).
pub open spec fn merge_spec(
    map: Map<Seq<char>, usize>,
    sheet: Map<(u32, u16), Seq<char>>,
    titles: Seq<Seq<char>>,
) -> (Map<Seq<char>, usize>, Map<(u32, u16), Seq<char>>, Option<Seq<usize>>)
    decreases titles.len(),
{
    if titles.len() == 0 {
        (map, sheet, Some(Seq::empty()))
    } else {
        let (m, s, o) = merge_spec(map, sheet, titles.drop_last());
        match o {
            None => (m, s, None),
            Some(v) => match merge_step(m, s, titles.last()) {
                None => (m, s, None),
                Some((m2, s2, i)) => (m2, s2, Some(v.push(i))),
            },
        }
    }
}

/// Once a merge has stopped on a header cell it could not write, later titles
/// change nothing.
proof fn lemma_merge_stops(
    map: Map<Seq<char>, usize>,
    sheet: Map<(u32, u16), Seq<char>>,
    t: Seq<Seq<char>>,
    k: int,
)
    requires
        0 <= k <= t.len(),
        merge_spec(map, sheet, t.take(k)).2 is None,
    ensures
        merge_spec(map, sheet, t) == merge_spec(map, sheet, t.take(k)),
    decreases t.len() - k,
{
    if k < t.len() {
        assert(t.take(k + 1).drop_last() =~= t.take(k));
        lemma_merge_stops(map, sheet, t, k + 1);
    } else {
        assert(t.take(k) =~= t);
    }
}

/// The style of a report cell as a triple: bold flag, font size text, background.
pub open spec fn style_triple(s: CellStyle) -> (bool, Seq<char>, Option<Highlight>) {
    (s.bold, style_font_size(s), s.background)
}

/// The formats of the header cells after merging titles in order: each new title
/// written in the header row takes the style of a title row cell at its position
/// among the titles.
pub open spec fn merge_styles(
    map: Map<Seq<char>, usize>,
    sheet: Map<(u32, u16), Seq<char>>,
    styles: Map<(u32, u16), (bool, Seq<char>, Option<Highlight>)>,
    titles: Seq<Seq<char>>,
    only_data: bool,
) -> Map<(u32, u16), (bool, Seq<char>, Option<Highlight>)>
    decreases titles.len(),
{
    if titles.len() == 0 {
        styles
    } else {
        let prev = merge_styles(map, sheet, styles, titles.drop_last(), only_data);
        let (m, s, o) = merge_spec(map, sheet, titles.drop_last());
        let idx = m.len() as usize;
        if o is Some && !m.contains_key(clean_text_spec(titles.last())) && string_write_ok(
            0,
            idx as u16,
            titles.last(),
        ) {
            prev.insert((0u32, idx as u16), style_triple(style_for(only_data, (titles.len() - 1) as usize, 0)))
        } else {
            prev
        }
    }
}

/// Once a merge has stopped, later titles change no header cell's format.
proof fn lemma_merge_styles_stop(
    map: Map<Seq<char>, usize>,
    sheet: Map<(u32, u16), Seq<char>>,
    styles: Map<(u32, u16), (bool, Seq<char>, Option<Highlight>)>,
    t: Seq<Seq<char>>,
    k: int,
    only_data: bool,
)
    requires
        0 <= k <= t.len(),
        merge_spec(map, sheet, t.take(k)).2 is None,
    ensures
        merge_styles(map, sheet, styles, t, only_data) == merge_styles(map, sheet, styles, t.take(k), only_data),
    decreases t.len() - k,
{
    if k < t.len() {
        assert(t.take(k + 1).drop_last() =~= t.take(k));
        lemma_merge_styles_stop(map, sheet, styles, t, k + 1, only_data);
    } else {
        assert(t.take(k) =~= t);
    }
}

/// Gives each title a report column, so that no cleaned title appears twice in
/// the header row: a title seen before keeps its column, a new one gets the next
/// column and is written, formatted, in the header row.
pub fn merge_titles(
    titles: Vec<String>,
    title_map: &mut StringHashMap<usize>,
    cursor: &mut rust_xlsxwriter::Worksheet,
    query_type: &JsonQuery,
) -> (r: Result<Vec<usize>, IndexError>)
    ensures
        ({
            let (m, s, o) = merge_spec(old(title_map)@, sheet_cells(*old(cursor)), texts(titles@));
            &&& final(title_map)@ == m
            &&& sheet_cells(*final(cursor)) == s
            &&& sheet_styles(*final(cursor)) == merge_styles(
                old(title_map)@,
                sheet_cells(*old(cursor)),
                sheet_styles(*old(cursor)),
                texts(titles@),
                *query_type is OnlyData,
            )
            &&& match r {
                Ok(v) => o == Some(v@),
                Err(e) => o is None && e is XlsxwriterError,
            }
        }),
{
    let ghost t = texts(titles@);
    let mut titles_index: Vec<usize> = Vec::new();
    let mut index: usize = 0;
    while index < titles.len()
        invariant
            t == texts(titles@),
            index <= titles@.len(),
            merge_spec(old(title_map)@, sheet_cells(*old(cursor)), t.take(index as int)) == (
                title_map@,
                sheet_cells(*cursor),
                Some(titles_index@),
            ),
            sheet_styles(*cursor) == merge_styles(
                old(title_map)@,
                sheet_cells(*old(cursor)),
                sheet_styles(*old(cursor)),
                t.take(index as int),
                *query_type is OnlyData,
            ),
        decreases titles@.len() - index,
    {
        proof {
            assert(t.take(index + 1).drop_last() =~= t.take(index as int));
            assert(t.take(index + 1).last() == t[index as int]);
        }
        let title = titles[index].clone();
        let key = cleanText(&title);
        if !title_map.contains_key(key.as_str()) {
            let format = gen_format(query_type, index, 0);
            let title_index = title_map.len();
            let col: u16 = #[verifier::truncate] (title_index as u16);
            match write_string_with_format(cursor, 0, col, title, &format) {
                Ok(()) => {},
                Err(e) => {
                    proof {
                        lemma_merge_stops(
                            old(title_map)@,
                            sheet_cells(*old(cursor)),
                            t,
                            index + 1,
                        );
                        lemma_merge_styles_stop(
                            old(title_map)@,
                            sheet_cells(*old(cursor)),
                            sheet_styles(*old(cursor)),
                            t,
                            index + 1,
                            *query_type is OnlyData,
                        );
                    }
                    return Err(IndexError::XlsxwriterError(e));
                },
            }
            titles_index.push(title_index);
            title_map.insert(key, title_index);
        } else {
            match title_map.get(key.as_str()) {
                Some(i) => {
                    titles_index.push(*i);
                },
                None => {},
            }
        }
        index = index + 1;
    }
    assert(t.take(index as int) =~= t);
    Ok(titles_index)
}

} // verus!

verus! {

/// A character that a sanitized file name never holds, on any platform: path and
/// extension separators, characters that shells treat specially, control characters.
pub open spec fn unsafe_name_char(c: char) -> bool {
    ||| c == '.' || c == '/' || c == '\\'
    ||| c == '<' || c == '>' || c == '|' || c == ':' || c == '(' || c == ')'
    ||| c == '&' || c == ';' || c == '#' || c == '?' || c == '*'
    ||| c <= '\u{1f}'
    ||| ('\u{7f}' <= c && c <= '\u{9f}')
}

/// A file name as `rocket::fs::FileName::as_str` may give it: a non-empty piece of
/// the raw name holding no unsafe character.
pub open spec fn is_sanitized_stem(stem: Seq<char>, raw: Seq<char>) -> bool {
    &&& stem.len() > 0
    &&& forall|i: int| 0 <= i < stem.len() ==> !unsafe_name_char(#[trigger] stem[i])
    &&& exists|k: int| 0 <= k && k + stem.len() <= raw.len() && #[trigger] raw.subrange(k, k + stem.len()) == stem
}

/// A character that `FileName::as_str` treats as bad on some platform: the
/// characters of its Windows list (which holds all of its Unix list) and control
/// characters.
pub open spec fn windows_bad_char(c: char) -> bool {
    ||| unsafe_name_char(c)
    ||| c == '"' || c == ',' || c == '='
}

/// A file name with no path separator, drive colon or other bad character but
/// `.`: `Path::file_name` gives it whole on every platform, and only `.` splits it.
pub open spec fn plain_file_name(raw: Seq<char>) -> bool {
    forall|i: int| 0 <= i < raw.len() ==> (#[trigger] raw[i] == '.' || !windows_bad_char(raw[i]))
}

/// The characters of `s` before its first `.`.
pub open spec fn take_until_dot(s: Seq<char>) -> Seq<char>
    decreases s.len(),
{
    if s.len() == 0 || s[0] == '.' {
        Seq::empty()
    } else {
        seq![s[0]] + take_until_dot(s.drop_first())
    }
}

/// The first non-empty piece of `s` between dots; empty when there is none.
pub open spec fn first_piece(s: Seq<char>) -> Seq<char>
    decreases s.len(),
{
    if s.len() == 0 {
        Seq::empty()
    } else if s[0] == '.' {
        first_piece(s.drop_first())
    } else {
        take_until_dot(s)
    }
}

/// A file name that no platform splits into path components: it holds no `/`,
/// backslash or `:`, and none of the characters that only Windows counts as bad
/// (`"`, `,`, `=`). `Path::file_name` gives such a name whole (or nothing for an
/// empty name, `.` and `..`), and both platforms split it at the same characters.
pub open spec fn portable_file_name(raw: Seq<char>) -> bool {
    forall|i: int|
        0 <= i < raw.len() ==> !(#[trigger] raw[i] == '/' || raw[i] == '\\' || raw[i] == ':' || raw[i] == '"'
            || raw[i] == ',' || raw[i] == '=')
}

/// The characters of `s` before its first unsafe character.
pub open spec fn take_until_unsafe(s: Seq<char>) -> Seq<char>
    decreases s.len(),
{
    if s.len() == 0 || unsafe_name_char(s[0]) {
        Seq::empty()
    } else {
        seq![s[0]] + take_until_unsafe(s.drop_first())
    }
}

/// The first non-empty piece of `s` between unsafe characters; empty when there
/// is none.
pub open spec fn first_safe_piece(s: Seq<char>) -> Seq<char>
    decreases s.len(),
{
    if s.len() == 0 {
        Seq::empty()
    } else if unsafe_name_char(s[0]) {
        first_safe_piece(s.drop_first())
    } else {
        take_until_unsafe(s)
    }
}

/// A name that Windows reserves, which `FileName::as_str` refuses there.
pub open spec fn reserved_name(n: Seq<char>) -> bool {
    seq![
        "CON"@, "PRN"@, "AUX"@, "NUL"@, "COM1"@, "COM2"@, "COM3"@, "COM4"@, "COM5"@, "COM6"@,
        "COM7"@, "COM8"@, "COM9"@, "LPT1"@, "LPT2"@, "LPT3"@, "LPT4"@, "LPT5"@, "LPT6"@,
        "LPT7"@, "LPT8"@, "LPT9"@,
    ].contains(n)
}

/// Calls `rocket::fs::FileName::new(raw).as_str()`, the sanitized name without
/// its extension. Which characters it drops depends on the platform, so only what
/// its source shows on every platform is stated: a name it returns is a
/// non-empty piece of `raw` without unsafe characters. Its source takes the last
/// path component and returns its first non-empty piece between bad characters
/// (refusing reserved names on Windows); so for a plain file name whose first
/// piece is not reserved, the result is that first piece between dots, on every
/// platform, and `None` when the name has none.
#[verifier::external_body]
fn sanitized_file_stem(raw: &str) -> (r: Option<String>)
    ensures
        r matches Some(s) ==> is_sanitized_stem(s@, raw@),
        plain_file_name(raw@) && !reserved_name(first_piece(raw@)) ==> (if first_piece(raw@).len() > 0 {
            r matches Some(s) && s@ == first_piece(raw@)
        } else {
            r is None
        }),
        portable_file_name(raw@) && !reserved_name(first_safe_piece(raw@)) ==> (if first_safe_piece(raw@).len()
            > 0 {
            r matches Some(s) && s@ == first_safe_piece(raw@)
        } else {
            r is None
        }),
{
    match rocket::fs::FileName::new(raw).as_str() {
        Some(s) => Some(s.to_string()),
        None => None,
    }
}

/// `i` is the position of the last `.` of `s`.
pub open spec fn is_last_dot(s: Seq<char>, i: int) -> bool {
    &&& 0 <= i < s.len()
    &&& s[i] == '.'
    &&& forall|j: int| i < j < s.len() ==> s[j] != '.'
}

/// What follows the last `.` of `s`, or all of `s` when it has none
/// (`split(".").last()`).
pub open spec fn extension_of(s: Seq<char>) -> Seq<char> {
    if exists|i: int| is_last_dot(s, i) {
        s.skip((choose|i: int| is_last_dot(s, i)) + 1)
    } else {
        s
    }
}

/// The name under which a file's results are reported: its sanitized name, a dot,
/// and the extension of its raw name.
pub open spec fn file_trail_spec(stem: Seq<char>, raw: Seq<char>) -> Seq<char> {
    stem + seq!['.'] + extension_of(raw)
}

/// The name reported for a file whose name is missing.
pub open spec fn missing_file_trail() -> Seq<char> {
    "Dangerous Or Missing filename.xlsx"@
}

/// The extension of a raw file name: what follows its last `.`, or all of it.
fn extension(raw: &str) -> (r: &str)
    ensures
        r@ == extension_of(raw@),
{
    let len = raw.unicode_len();
    let mut last: Option<usize> = None;
    let mut pos: usize = 0;
    for c in it: raw.chars()
        invariant
            it.seq() == raw@,
            len == raw@.len(),
            pos == it.index(),
            match last {
                Some(i) => i < pos && raw@[i as int] == '.' && forall|j: int| i < j < pos ==> raw@[j] != '.',
                None => forall|j: int| 0 <= j < pos ==> raw@[j] != '.',
            },
    {
        assert(c == raw@[pos as int]);
        if c == '.' {
            last = Some(pos);
        }
        pos = pos + 1;
    }
    match last {
        Some(i) => {
            proof {
                assert(is_last_dot(raw@, i as int));
                let k = choose|k: int| is_last_dot(raw@, k);
                if k < i {
                    assert(raw@[i as int] != '.');
                } else if i < k {
                    assert(raw@[k] != '.');
                }
            }
            let r = raw.substring_char(i + 1, len);
            assert(r@ =~= raw@.skip(i + 1));
            r
        },
        None => {
            proof {
                assert forall|i: int| !is_last_dot(raw@, i) by {
                    if 0 <= i < raw@.len() {
                        assert(raw@[i] != '.');
                    }
                }
            }
            raw
        },
    }
}

/// The name reported for a file with sanitized name `stem` and raw name `raw`.
pub fn file_trail(stem: &str, raw: &str) -> (r: String)
    ensures
        r@ == file_trail_spec(stem@, raw@),
{
    let mut r = stem.to_string();
    proof {
        reveal_strlit(".");
    }
    r.append(".");
    r.append(extension(raw));
    assert(r@ =~= file_trail_spec(stem@, raw@));
    r
}

/// The name under which a file's results are reported, from its raw name: the
/// sanitized name, a dot and the raw name's extension; a fixed name when the name
/// is missing. `None` when the raw name has no safe part to report it under.
pub fn get_file_trail(filename: Option<&str>) -> (r: Option<String>)
    ensures
        filename is None ==> (r matches Some(t) && t@ == missing_file_trail()),
        filename matches Some(raw) ==> (r matches Some(t) ==> exists|stem: Seq<char>|
            is_sanitized_stem(stem, raw@) && t@ == #[trigger] file_trail_spec(stem, raw@)),
        filename matches Some(raw) ==> (plain_file_name(raw@) && !reserved_name(first_piece(raw@))
            ==> (if first_piece(raw@).len() > 0 {
            r matches Some(t) && t@ == file_trail_spec(first_piece(raw@), raw@)
        } else {
            r is None
        })),
        filename matches Some(raw) ==> (portable_file_name(raw@) && !reserved_name(first_safe_piece(raw@))
            ==> (if first_safe_piece(raw@).len() > 0 {
            r matches Some(t) && t@ == file_trail_spec(first_safe_piece(raw@), raw@)
        } else {
            r is None
        })),
{
    match filename {
        Some(raw) => match sanitized_file_stem(raw) {
            Some(stem) => {
                let t = file_trail(stem.as_str(), raw);
                assert(is_sanitized_stem(stem@, raw@) && t@ == file_trail_spec(stem@, raw@));
                Some(t)
            },
            None => None,
        },
        None => Some("Dangerous Or Missing filename.xlsx".to_string()),
    }
}

} // verus!
