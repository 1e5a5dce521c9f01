//! Properties that hold across calls of the library's functions.
use vstd::prelude::*;

use crate::grid::Cell;
use crate::knubs::{
    cleaned_row, data_titles, file_index_step, lemma_query_columns_bound, merge_spec, merge_step, query_columns,
    report_row, title_data_titles, validity_1_spec,
};
use crate::query::TitleQuery;
use crate::report::{files_spec, out_text, row_fits, rows_spec, total_rows, write_row_spec};
use crate::text::{all_digits, decimal, is_digit, lemma_decimal_digits};
use crate::xlsx::{string_write_ok, utf16_len};
use crate::search::{first_keys, keep_first_titles, scan, scan_row, td_title, title_hit, title_hits};
use crate::text::clean_text_spec;

verus! {

broadcast use vstd::set::group_set_axioms, vstd::map::group_map_axioms;

/// A file numbering: finitely many files, numbered `1..=n` without repeats.
pub open spec fn numbering_ok(m: Map<Seq<char>, usize>) -> bool {
    &&& m.dom().finite()
    &&& forall|k: Seq<char>| #[trigger] m.contains_key(k) ==> 1 <= m[k] <= m.len()
    &&& forall|a: Seq<char>, b: Seq<char>|
        #[trigger] m.contains_key(a) && #[trigger] m.contains_key(b) && a != b ==> m[a] != m[b]
}

/// Numbering a file keeps a numbering a numbering, and gives the file a number in
/// `1..=n` for the `n` files numbered afterwards.
pub proof fn lemma_file_index_keeps_numbering(m: Map<Seq<char>, usize>, f: Seq<char>)
    requires
        numbering_ok(m),
        m.contains_key(f) || m.len() < usize::MAX,
    ensures
        numbering_ok(file_index_step(m, f).0),
        file_index_step(m, f).0.contains_key(f),
        file_index_step(m, f).0[f] == file_index_step(m, f).1,
        1 <= file_index_step(m, f).1 <= file_index_step(m, f).0.len(),
{
    if !m.contains_key(f) {
        let m2 = m.insert(f, (m.len() + 1) as usize);
        assert(m2.dom() =~= m.dom().insert(f));
        assert(m2.len() == m.len() + 1);
        assert forall|a: Seq<char>, b: Seq<char>|
            #[trigger] m2.contains_key(a) && #[trigger] m2.contains_key(b) && a != b implies m2[a] != m2[b] by {
            if a != f && b != f {
                assert(m.contains_key(a) && m.contains_key(b));
            } else if a == f {
                assert(m.contains_key(b));
            } else {
                assert(m.contains_key(a));
            }
        }
    }
}

/// A file numbered again keeps its number, and the numbering does not change.
pub proof fn lemma_file_index_stable(m: Map<Seq<char>, usize>, f: Seq<char>)
    ensures
        file_index_step(file_index_step(m, f).0, f) == file_index_step(m, f),
{
}

/// Two different files get different numbers.
pub proof fn lemma_file_index_distinct(m: Map<Seq<char>, usize>, f: Seq<char>, g: Seq<char>)
    requires
        numbering_ok(m),
        m.contains_key(f) || m.len() < usize::MAX,
        m.contains_key(g) || file_index_step(m, f).0.len() < usize::MAX,
        f != g,
    ensures
        ({
            let (m1, i) = file_index_step(m, f);
            let (m2, j) = file_index_step(m1, g);
            i != j && m2[f] == i
        }),
{
    lemma_file_index_keeps_numbering(m, f);
    let (m1, i) = file_index_step(m, f);
    lemma_file_index_keeps_numbering(m1, g);
    let (m2, j) = file_index_step(m1, g);
    assert(m2.contains_key(f));
    assert(m2.contains_key(g));
}

/// A title map: finitely many cleaned titles, each with its own column below the
/// number of titles.
pub open spec fn columns_ok(m: Map<Seq<char>, usize>) -> bool {
    &&& m.dom().finite()
    &&& forall|k: Seq<char>| #[trigger] m.contains_key(k) ==> m[k] < m.len()
    &&& forall|a: Seq<char>, b: Seq<char>|
        #[trigger] m.contains_key(a) && #[trigger] m.contains_key(b) && a != b ==> m[a] != m[b]
}

proof fn lemma_merge_step_keeps(
    map: Map<Seq<char>, usize>,
    sheet: Map<(u32, u16), Seq<char>>,
    title: Seq<char>,
)
    requires
        columns_ok(map),
        map.len() <= usize::MAX,
        merge_step(map, sheet, title) is Some,
    ensures
        ({
            let (m2, s2, i) = merge_step(map, sheet, title).unwrap();
            &&& columns_ok(m2)
            &&& m2.len() <= map.len() + 1
            &&& m2.contains_key(clean_text_spec(title))
            &&& m2[clean_text_spec(title)] == i
            &&& forall|k: Seq<char>| #[trigger] map.contains_key(k) ==> m2.contains_key(k) && m2[k] == map[k]
        }),
{
    let key = clean_text_spec(title);
    if !map.contains_key(key) {
        let idx = map.len() as usize;
        let m2 = map.insert(key, idx);
        assert(m2.dom() =~= map.dom().insert(key));
        assert(m2.len() == map.len() + 1);
        assert forall|a: Seq<char>, b: Seq<char>|
            #[trigger] m2.contains_key(a) && #[trigger] m2.contains_key(b) && a != b implies m2[a] != m2[b] by {
            if a != key && b != key {
                assert(map.contains_key(a) && map.contains_key(b));
            } else if a == key {
                assert(map.contains_key(b));
            } else {
                assert(map.contains_key(a));
            }
        }
    }
}

/// Merging titles keeps a title map a title map, and every merged title's cleaned
/// text maps to the column given to it.
pub proof fn lemma_merge_keeps_columns(
    map: Map<Seq<char>, usize>,
    sheet: Map<(u32, u16), Seq<char>>,
    titles: Seq<Seq<char>>,
)
    requires
        columns_ok(map),
        map.len() + titles.len() <= usize::MAX,
    ensures
        ({
            let (m, s, o) = merge_spec(map, sheet, titles);
            &&& columns_ok(m)
            &&& m.len() <= map.len() + titles.len()
            &&& forall|k: Seq<char>| #[trigger] map.contains_key(k) ==> m.contains_key(k) && m[k] == map[k]
            &&& o matches Some(v) ==> v.len() == titles.len() && forall|i: int|
                0 <= i < titles.len() ==> m.contains_key(clean_text_spec(#[trigger] titles[i])) && m[clean_text_spec(titles[i])] == v[i]
        }),
    decreases titles.len(),
{
    if titles.len() > 0 {
        let prefix = titles.drop_last();
        lemma_merge_keeps_columns(map, sheet, prefix);
        let (m, s, o) = merge_spec(map, sheet, prefix);
        if let Some(v) = o {
            if let Some((m2, s2, i)) = merge_step(m, s, titles.last()) {
                lemma_merge_step_keeps(m, s, titles.last());
                assert forall|j: int| 0 <= j < titles.len() implies m2.contains_key(clean_text_spec(#[trigger] titles[j])) && m2[clean_text_spec(titles[j])] == v.push(i)[j] by {
                    if j < prefix.len() {
                        assert(titles[j] == prefix[j]);
                    }
                }
            }
        }
    }
}

/// No title appears twice in the header row: merged titles share a column exactly
/// when their cleaned texts are equal.
pub proof fn lemma_merge_no_duplicate_titles(
    map: Map<Seq<char>, usize>,
    sheet: Map<(u32, u16), Seq<char>>,
    titles: Seq<Seq<char>>,
    i: int,
    j: int,
)
    requires
        columns_ok(map),
        map.len() + titles.len() <= usize::MAX,
        merge_spec(map, sheet, titles).2 is Some,
        0 <= i < titles.len(),
        0 <= j < titles.len(),
    ensures
        merge_spec(map, sheet, titles).2.unwrap()[i] == merge_spec(map, sheet, titles).2.unwrap()[j]
            <==> clean_text_spec(titles[i]) == clean_text_spec(titles[j]),
{
    lemma_merge_keeps_columns(map, sheet, titles);
    let (m, s, o) = merge_spec(map, sheet, titles);
    assert(m.contains_key(clean_text_spec(titles[i])));
    assert(m.contains_key(clean_text_spec(titles[j])));
}

/// The titles under which hits are grouped are distinct.
pub proof fn lemma_group_keys_distinct<K, V>(hits: Seq<(K, V)>)
    ensures
        first_keys(hits).no_duplicates(),
    decreases hits.len(),
{
    if hits.len() > 0 {
        lemma_group_keys_distinct(hits.drop_last());
        let ks = first_keys(hits.drop_last());
        if !ks.contains(hits.last().0) {
            let ks2 = ks.push(hits.last().0);
            assert forall|a: int, b: int| 0 <= a < ks2.len() && 0 <= b < ks2.len() && a != b implies ks2[a] != ks2[b] by {
                if a < ks.len() && b < ks.len() {
                } else if a == ks.len() {
                    assert(ks.contains(ks[b]));
                } else {
                    assert(ks.contains(ks[a]));
                }
            }
        }
    }
}

/// The titles of a title-and-data search result are distinct: of columns
/// sharing a title, one entry is kept.
pub proof fn lemma_td_titles_distinct<X>(entries: Seq<(Seq<char>, X)>)
    ensures
        keep_first_titles(entries).map_values(|e: (Seq<char>, X)| e.0).no_duplicates(),
    decreases entries.len(),
{
    if entries.len() > 0 {
        lemma_td_titles_distinct(entries.drop_last());
        let prev = keep_first_titles(entries.drop_last());
        let ks = prev.map_values(|e: (Seq<char>, X)| e.0);
        if !ks.contains(entries.last().0) {
            let ks2 = keep_first_titles(entries).map_values(|e: (Seq<char>, X)| e.0);
            assert(ks2 =~= ks.push(entries.last().0));
            assert forall|a: int, b: int| 0 <= a < ks2.len() && 0 <= b < ks2.len() && a != b implies ks2[a]
                != ks2[b] by {
                if a < ks.len() && b < ks.len() {
                } else if a == ks.len() {
                    assert(ks.contains(ks[b]));
                } else {
                    assert(ks.contains(ks[a]));
                }
            }
        }
    }
}

/// A report row of a data-only search of a row as wide as the title row fits the
/// report's titles, whatever its time.
pub proof fn lemma_data_rows_fit(
    time: Seq<char>,
    file_name: Seq<char>,
    data: Seq<char>,
    row: Seq<Cell>,
    title_row: Seq<Cell>,
    index: nat,
)
    requires
        row.len() == title_row.len(),
    ensures
        row_fits(
            report_row(time, file_name, seq![data], cleaned_row(row), index),
            data_titles().len() + title_row.len(),
        ),
{
}

/// A report row of a title-and-data search of a row as wide as the title row fits
/// the report's titles, whatever its time.
pub proof fn lemma_title_data_rows_fit(
    time: Seq<char>,
    file_name: Seq<char>,
    title: Seq<char>,
    value: Seq<char>,
    row: Seq<Cell>,
    title_row: Seq<Cell>,
    index: nat,
)
    requires
        row.len() == title_row.len(),
    ensures
        row_fits(
            report_row(time, file_name, seq![title, value], cleaned_row(row), index),
            title_data_titles().len() + title_row.len(),
        ),
{
}

} // verus!

verus! {

/// The header row (row 0) of a worksheet holds each title of a title map in the
/// title's column: the cell there is written, and its cleaned text is the title.
pub open spec fn header_ok(m: Map<Seq<char>, usize>, s: Map<(u32, u16), Seq<char>>) -> bool {
    forall|k: Seq<char>|
        #[trigger] m.contains_key(k) ==> s.contains_key((0u32, m[k] as u16)) && clean_text_spec(
            s[(0u32, m[k] as u16)],
        ) == k
}

/// Two worksheets have the same header row.
pub open spec fn same_header_row(s1: Map<(u32, u16), Seq<char>>, s2: Map<(u32, u16), Seq<char>>) -> bool {
    forall|c: u16|
        #![trigger s1.contains_key((0u32, c))]
        #![trigger s2.contains_key((0u32, c))]
        s1.contains_key((0u32, c)) == s2.contains_key((0u32, c)) && (s1.contains_key((0u32, c))
            ==> s1[(0u32, c)] == s2[(0u32, c)])
}

proof fn lemma_merge_step_header(
    map: Map<Seq<char>, usize>,
    sheet: Map<(u32, u16), Seq<char>>,
    title: Seq<char>,
)
    requires
        columns_ok(map),
        header_ok(map, sheet),
        map.len() < 65536,
        merge_step(map, sheet, title) is Some,
    ensures
        header_ok(merge_step(map, sheet, title).unwrap().0, merge_step(map, sheet, title).unwrap().1),
{
    let key = clean_text_spec(title);
    if !map.contains_key(key) {
        let idx = map.len() as usize;
        let m2 = map.insert(key, idx);
        let s2 = sheet.insert((0u32, idx as u16), title);
        assert forall|k: Seq<char>| #[trigger] m2.contains_key(k) implies s2.contains_key(
            (0u32, m2[k] as u16),
        ) && clean_text_spec(s2[(0u32, m2[k] as u16)]) == k by {
            if k != key {
                assert(map.contains_key(k));
                assert(map[k] < idx);
                assert((map[k] as u16) != (idx as u16));
            }
        }
    }
}

/// Merging titles keeps the header row in step with the title map: each title
/// of the grown map is written once, in its own column, in the header row.
pub proof fn lemma_merge_keeps_header(
    map: Map<Seq<char>, usize>,
    sheet: Map<(u32, u16), Seq<char>>,
    titles: Seq<Seq<char>>,
)
    requires
        columns_ok(map),
        header_ok(map, sheet),
        map.len() + titles.len() <= 65536,
    ensures
        header_ok(merge_spec(map, sheet, titles).0, merge_spec(map, sheet, titles).1),
    decreases titles.len(),
{
    if titles.len() > 0 {
        let prefix = titles.drop_last();
        lemma_merge_keeps_header(map, sheet, prefix);
        lemma_merge_keeps_columns(map, sheet, prefix);
        let (m, s, o) = merge_spec(map, sheet, prefix);
        if o is Some {
            if merge_step(m, s, titles.last()) is Some {
                lemma_merge_step_header(m, s, titles.last());
            }
        }
    }
}


/// The number of titles of the files.
pub open spec fn total_titles(results: Seq<(Seq<Seq<char>>, Seq<Seq<Seq<char>>>)>) -> nat
    decreases results.len(),
{
    if results.len() == 0 {
        0
    } else {
        total_titles(results.drop_last()) + results.last().0.len()
    }
}

proof fn lemma_header_transfer(
    m: Map<Seq<char>, usize>,
    s1: Map<(u32, u16), Seq<char>>,
    s2: Map<(u32, u16), Seq<char>>,
)
    requires
        header_ok(m, s1),
        same_header_row(s1, s2),
    ensures
        header_ok(m, s2),
{
    assert forall|k: Seq<char>| #[trigger] m.contains_key(k) implies s2.contains_key(
        (0u32, m[k] as u16),
    ) && clean_text_spec(s2[(0u32, m[k] as u16)]) == k by {
        assert(s1.contains_key((0u32, m[k] as u16)));
    }
}

/// Writing a report row on a line other than the header's leaves the header row as it was.
proof fn lemma_write_row_keeps_header_row(
    sheet: Map<(u32, u16), Seq<char>>,
    line: usize,
    columns: Seq<usize>,
    body: Seq<Seq<char>>,
    file_index: nat,
    match_index: Seq<char>,
    n: int,
)
    requires
        1 <= line <= u32::MAX,
    ensures
        same_header_row(sheet, write_row_spec(sheet, line, columns, body, file_index, match_index, n)),
    decreases n,
{
    if n > 0 {
        lemma_write_row_keeps_header_row(sheet, line, columns, body, file_index, match_index, n - 1);
    }
}

/// Writing report rows from line 1 on leaves the header row as it was, and moves
/// the line on by one per row.
proof fn lemma_rows_keep_header_row(
    files: Map<Seq<char>, usize>,
    sheet: Map<(u32, u16), Seq<char>>,
    line: usize,
    columns: Seq<usize>,
    rows: Seq<Seq<Seq<char>>>,
)
    requires
        1 <= line,
        line + rows.len() <= u32::MAX,
    ensures
        same_header_row(sheet, rows_spec(files, sheet, line, columns, rows).1),
        rows_spec(files, sheet, line, columns, rows).2 == line + rows.len(),
    decreases rows.len(),
{
    if rows.len() > 0 {
        let prefix = rows.drop_last();
        lemma_rows_keep_header_row(files, sheet, line, columns, prefix);
        let (f1, s1, l1) = rows_spec(files, sheet, line, columns, prefix);
        let row = rows.last();
        let body = row.drop_last();
        let (f2, fi) = file_index_step(f1, body[4]);
        lemma_write_row_keeps_header_row(s1, l1, columns, body, fi as nat, row.last(), body.len() as int);
    }
}

/// A report keeps its header row: writing files' results from line 1 on, with a
/// title map in step with the header row, leaves the grown title map in step
/// with the header row, so each cleaned title is written there once.
pub proof fn lemma_files_keep_header(
    titles_map: Map<Seq<char>, usize>,
    files: Map<Seq<char>, usize>,
    sheet: Map<(u32, u16), Seq<char>>,
    line: usize,
    results: Seq<(Seq<Seq<char>>, Seq<Seq<Seq<char>>>)>,
)
    requires
        columns_ok(titles_map),
        header_ok(titles_map, sheet),
        1 <= line,
        line + total_rows(results) <= u32::MAX,
        titles_map.len() + total_titles(results) <= 65536,
    ensures
        ({
            let (m, f, s, l) = files_spec(titles_map, files, sheet, line, results);
            &&& columns_ok(m)
            &&& header_ok(m, s)
            &&& m.len() <= titles_map.len() + total_titles(results)
            &&& line <= l <= line + total_rows(results)
        }),
    decreases results.len(),
{
    if results.len() > 0 {
        let prefix = results.drop_last();
        lemma_files_keep_header(titles_map, files, sheet, line, prefix);
        let (m, f, s, l) = files_spec(titles_map, files, sheet, line, prefix);
        let last = results.last();
        lemma_merge_keeps_columns(m, s, last.0);
        lemma_merge_keeps_header(m, s, last.0);
        let (m2, s2, o) = merge_spec(m, s, last.0);
        if let Some(columns) = o {
            lemma_rows_keep_header_row(f, s2, l, columns, last.1);
            let (f3, s3, l3) = rows_spec(f, s2, l, columns, last.1);
            lemma_header_transfer(m2, s2, s3);
        }
    }
}

} // verus!

verus! {

/// The queried columns of a title row are exactly the columns whose title, with
/// all whitespace removed, is a title of the query, each with the set looked for
/// under that title.
pub proof fn lemma_query_columns_by_cleaned_title(row: Seq<Cell>, query: TitleQuery)
    ensures
        forall|c: int, q: Seq<Seq<char>>|
            #[trigger] query_columns(row, query).contains((c, q)) <==> (0 <= c < row.len()
                && query.lookup(clean_text_spec(row[c].text())) == Some(q)),
    decreases row.len(),
{
    if row.len() > 0 {
        let prefix = row.drop_last();
        lemma_query_columns_by_cleaned_title(prefix, query);
        lemma_query_columns_bound(prefix, query);
        let prev = query_columns(prefix, query);
        let qc = query_columns(row, query);
        let last = row.len() - 1;
        assert forall|c: int, q: Seq<Seq<char>>|
            #[trigger] qc.contains((c, q)) <==> (0 <= c < row.len() && query.lookup(
                clean_text_spec(row[c].text()),
            ) == Some(q)) by {
            if 0 <= c < last {
                assert(prefix[c] == row[c]);
            }
            if qc.contains((c, q)) {
                let i = choose|i: int| 0 <= i < qc.len() && qc[i] == (c, q);
                if i < prev.len() {
                    assert(prev.contains((c, q)));
                    assert(prev[i].0 < prefix.len());
                }
            }
            if 0 <= c < row.len() && query.lookup(clean_text_spec(row[c].text())) == Some(q) {
                if c < last {
                    assert(prev.contains((c, q)));
                    let i = choose|i: int| 0 <= i < prev.len() && prev[i] == (c, q);
                    assert(qc[i] == (c, q));
                } else {
                    assert(qc[qc.len() - 1] == (c, q));
                }
            }
            if c == last && prev.contains((c, q)) {
                let i = choose|i: int| 0 <= i < prev.len() && prev[i] == (c, q);
                assert(prev[i].0 < prefix.len());
            }
        }
    }
}

/// A title-and-data search queries exactly the columns of the title row whose
/// title, with all whitespace removed, is a title of the query, each with the set
/// looked for under that title.
pub proof fn lemma_validity_1_columns(cells: Seq<Seq<Cell>>, query: TitleQuery)
    ensures
        validity_1_spec(cells, query) matches Some((titles, cols)) ==> forall|c: int, q: Seq<Seq<char>>|
            #[trigger] cols.contains((c, q)) <==> (0 <= c < cells[0].len() && query.lookup(
                clean_text_spec(cells[0][c].text()),
            ) == Some(q)),
{
    if cells.len() > 0 {
        lemma_query_columns_by_cleaned_title(cells[0], query);
    }
}

/// The title at `i` is the first of `titles` with its cleaned text.
pub open spec fn first_spelling(titles: Seq<Seq<char>>, i: int) -> bool {
    forall|j: int| 0 <= j < i ==> clean_text_spec(#[trigger] titles[j]) != clean_text_spec(titles[i])
}

proof fn lemma_merge_keys_from(map: Map<Seq<char>, usize>, sheet: Map<(u32, u16), Seq<char>>, titles: Seq<Seq<char>>)
    ensures
        forall|k: Seq<char>|
            #[trigger] merge_spec(map, sheet, titles).0.contains_key(k) ==> map.contains_key(k) || exists|j: int|
                0 <= j < titles.len() && clean_text_spec(#[trigger] titles[j]) == k,
    decreases titles.len(),
{
    if titles.len() > 0 {
        let prefix = titles.drop_last();
        lemma_merge_keys_from(map, sheet, prefix);
        let (m, s, o) = merge_spec(map, sheet, prefix);
        assert forall|k: Seq<char>| #[trigger] merge_spec(map, sheet, titles).0.contains_key(k) implies map.contains_key(
            k,
        ) || exists|j: int| 0 <= j < titles.len() && clean_text_spec(#[trigger] titles[j]) == k by {
            if m.contains_key(k) && !map.contains_key(k) {
                let j = choose|j: int| 0 <= j < prefix.len() && clean_text_spec(#[trigger] prefix[j]) == k;
                assert(titles[j] == prefix[j]);
            } else if !m.contains_key(k) {
                assert(clean_text_spec(titles[titles.len() - 1]) == k);
            }
        }
    }
}

/// A title new to the header is written there with its own text: when merging
/// succeeds, the header cell of the column of each title whose cleaned text was
/// not mapped before, and that no earlier title shares, holds exactly that title.
pub proof fn lemma_merge_writes_own_title(
    map: Map<Seq<char>, usize>,
    sheet: Map<(u32, u16), Seq<char>>,
    titles: Seq<Seq<char>>,
)
    requires
        columns_ok(map),
        map.len() + titles.len() <= 65536,
    ensures
        ({
            let (m, s, o) = merge_spec(map, sheet, titles);
            o is Some ==> forall|i: int|
                0 <= i < titles.len() && !map.contains_key(clean_text_spec(#[trigger] titles[i]))
                    && first_spelling(titles, i) ==> s.contains_key((0u32, m[clean_text_spec(titles[i])] as u16))
                    && s[(0u32, m[clean_text_spec(titles[i])] as u16)] == titles[i]
        }),
    decreases titles.len(),
{
    if titles.len() > 0 {
        let prefix = titles.drop_last();
        let n = titles.len() - 1;
        lemma_merge_writes_own_title(map, sheet, prefix);
        lemma_merge_keeps_columns(map, sheet, prefix);
        lemma_merge_keys_from(map, sheet, prefix);
        let (m, s, o) = merge_spec(map, sheet, prefix);
        if let Some(v) = o {
            if let Some((m2, s2, idx)) = merge_step(m, s, titles.last()) {
                lemma_merge_step_keeps(m, s, titles.last());
                let key = clean_text_spec(titles[n]);
                assert forall|i: int|
                    0 <= i < titles.len() && !map.contains_key(clean_text_spec(#[trigger] titles[i]))
                        && first_spelling(titles, i) implies s2.contains_key(
                    (0u32, m2[clean_text_spec(titles[i])] as u16),
                ) && s2[(0u32, m2[clean_text_spec(titles[i])] as u16)] == titles[i] by {
                    let ki = clean_text_spec(titles[i]);
                    if i < n {
                        assert(titles[i] == prefix[i]);
                        assert forall|j: int| 0 <= j < i implies clean_text_spec(#[trigger] prefix[j])
                            != clean_text_spec(prefix[i]) by {
                            assert(prefix[j] == titles[j]);
                        }
                        assert(first_spelling(prefix, i));
                        assert(m.contains_key(ki));
                        assert(m2[ki] == m[ki]);
                        if !m.contains_key(key) {
                            assert(m[ki] < m.len());
                            assert((m[ki] as u16) != (m.len() as usize as u16));
                        }
                    } else {
                        assert(i == n);
                        if m.contains_key(key) {
                            let j = choose|j: int| 0 <= j < prefix.len() && clean_text_spec(#[trigger] prefix[j]) == key;
                            assert(titles[j] == prefix[j]);
                            assert(false);
                        }
                    }
                }
            }
        }
    }
}

/// Within the first `n` fields of a row, the columns of different fields differ.
pub open spec fn columns_distinct(columns: Seq<usize>, n: int) -> bool {
    forall|a: int, b: int| 0 <= a < n && 0 <= b < n && a != b ==> (#[trigger] columns[a] as u16) != (
    #[trigger] columns[b] as u16)
}

proof fn lemma_write_row_field(
    sheet: Map<(u32, u16), Seq<char>>,
    line: usize,
    columns: Seq<usize>,
    body: Seq<Seq<char>>,
    file_index: nat,
    match_index: Seq<char>,
    n: int,
    j: int,
)
    requires
        0 <= j < n <= columns.len(),
        columns_distinct(columns, n),
        string_write_ok(line as u32, columns[j] as u16, out_text(body, j, file_index, line as nat, match_index)),
    ensures
        write_row_spec(sheet, line, columns, body, file_index, match_index, n).contains_key(
            (line as u32, columns[j] as u16),
        ),
        write_row_spec(sheet, line, columns, body, file_index, match_index, n)[(line as u32, columns[j] as u16)]
            == out_text(body, j, file_index, line as nat, match_index),
    decreases n,
{
    if n - 1 > j {
        lemma_write_row_field(sheet, line, columns, body, file_index, match_index, n - 1, j);
        assert((columns[n - 1] as u16) != (columns[j] as u16));
    }
}

/// Every report row carries its numbers: written on line `line` for the file
/// numbered `file_index`, the row's field under "File Number" (field 1) holds that
/// file number, the one under "Serial Number" (field 2) holds the line, and the
/// one under "File Number - Serial Number" (field 3) holds the file number, a
/// dash and the row's match index, whenever those cells can be written and the
/// fields' columns differ.
pub proof fn lemma_report_row_numbers(
    sheet: Map<(u32, u16), Seq<char>>,
    line: usize,
    columns: Seq<usize>,
    body: Seq<Seq<char>>,
    file_index: nat,
    match_index: Seq<char>,
    n: int,
)
    requires
        3 < n <= columns.len(),
        columns_distinct(columns, n),
        string_write_ok(line as u32, columns[1] as u16, decimal(file_index)),
        string_write_ok(line as u32, columns[2] as u16, decimal(line as nat)),
        string_write_ok(line as u32, columns[3] as u16, decimal(file_index) + seq!['-'] + match_index),
    ensures
        ({
            let cells = write_row_spec(sheet, line, columns, body, file_index, match_index, n);
            &&& cells.contains_key((line as u32, columns[1] as u16))
            &&& cells[(line as u32, columns[1] as u16)] == decimal(file_index)
            &&& cells.contains_key((line as u32, columns[2] as u16))
            &&& cells[(line as u32, columns[2] as u16)] == decimal(line as nat)
            &&& cells.contains_key((line as u32, columns[3] as u16))
            &&& cells[(line as u32, columns[3] as u16)] == decimal(file_index) + seq!['-'] + match_index
        }),
{
    lemma_write_row_field(sheet, line, columns, body, file_index, match_index, n, 1);
    lemma_write_row_field(sheet, line, columns, body, file_index, match_index, n, 2);
    lemma_write_row_field(sheet, line, columns, body, file_index, match_index, n, 3);
}

proof fn lemma_scan_row_congruent<T>(
    row1: Seq<Cell>,
    row2: Seq<Cell>,
    r: int,
    f1: spec_fn(int, int, Cell) -> Option<T>,
    f2: spec_fn(int, int, Cell) -> Option<T>,
)
    requires
        row1.len() == row2.len(),
        forall|c: int| 0 <= c < row1.len() ==> f1(r, c, #[trigger] row1[c]) == f2(r, c, row2[c]),
    ensures
        scan_row(row1, r, f1) == scan_row(row2, r, f2),
    decreases row1.len(),
{
    if row1.len() > 0 {
        let p1 = row1.drop_last();
        let p2 = row2.drop_last();
        assert forall|c: int| 0 <= c < p1.len() implies f1(r, c, #[trigger] p1[c]) == f2(r, c, p2[c]) by {
            assert(p1[c] == row1[c]);
            assert(p2[c] == row2[c]);
        }
        lemma_scan_row_congruent(p1, p2, r, f1, f2);
        assert(f1(r, row1.len() - 1, row1[row1.len() - 1]) == f2(r, row1.len() - 1, row2[row1.len() - 1]));
    }
}

proof fn lemma_scan_congruent<T>(
    rows1: Seq<Seq<Cell>>,
    rows2: Seq<Seq<Cell>>,
    f1: spec_fn(int, int, Cell) -> Option<T>,
    f2: spec_fn(int, int, Cell) -> Option<T>,
)
    requires
        rows1.len() == rows2.len(),
        forall|r: int| 0 <= r < rows1.len() ==> (#[trigger] rows1[r]).len() == rows2[r].len(),
        forall|r: int, c: int|
            0 <= r < rows1.len() && 0 <= c < rows1[r].len() ==> f1(r, c, #[trigger] rows1[r][c]) == f2(
                r,
                c,
                rows2[r][c],
            ),
    ensures
        scan(rows1, f1) == scan(rows2, f2),
    decreases rows1.len(),
{
    if rows1.len() > 0 {
        let n = rows1.len() - 1;
        let p1 = rows1.drop_last();
        let p2 = rows2.drop_last();
        assert forall|r: int| 0 <= r < p1.len() implies (#[trigger] p1[r]).len() == p2[r].len() by {
            assert(p1[r] == rows1[r]);
            assert(p2[r] == rows2[r]);
        }
        assert forall|r: int, c: int| 0 <= r < p1.len() && 0 <= c < p1[r].len() implies f1(
            r,
            c,
            #[trigger] p1[r][c],
        ) == f2(r, c, p2[r][c]) by {
            assert(p1[r] == rows1[r]);
            assert(p2[r] == rows2[r]);
        }
        lemma_scan_congruent(p1, p2, f1, f2);
        let l1 = rows1[n];
        let l2 = rows2[n];
        assert forall|c: int| 0 <= c < l1.len() implies f1(n, c, #[trigger] l1[c]) == f2(n, c, l2[c]) by {
            assert(rows1[n][c] == l1[c]);
        }
        lemma_scan_row_congruent(l1, l2, n, f1, f2);
    }
}

/// Two sheets that differ only in the whitespace of their title cells.
pub open spec fn same_but_title_whitespace(c1: Seq<Seq<Cell>>, c2: Seq<Seq<Cell>>) -> bool {
    &&& c1.len() == c2.len()
    &&& forall|r: int| 0 < r < c1.len() ==> #[trigger] c1[r] == c2[r]
    &&& c1.len() > 0 ==> c1[0].len() == c2[0].len()
    &&& c1.len() > 0 ==> forall|c: int|
        0 <= c < c1[0].len() ==> (#[trigger] c1[0][c] is Empty) == (c2[0][c] is Empty) && clean_text_spec(
            c1[0][c].text(),
        ) == clean_text_spec(c2[0][c].text())
}

/// A title-and-data search sees a title cell only through its text with all
/// whitespace removed: inserting or removing whitespace in title cells changes
/// none of the hits (which columns hold them, and their texts).
pub proof fn lemma_title_hits_ignore_title_whitespace(
    c1: Seq<Seq<Cell>>,
    c2: Seq<Seq<Cell>>,
    query: TitleQuery,
)
    requires
        same_but_title_whitespace(c1, c2),
    ensures
        title_hits(c1, query) == title_hits(c2, query),
{
    let f1 = |r: int, c: int, cell: Cell| title_hit(c1, query, r, c, cell);
    let f2 = |r: int, c: int, cell: Cell| title_hit(c2, query, r, c, cell);
    assert forall|r: int| 0 <= r < c1.len() implies (#[trigger] c1[r]).len() == c2[r].len() by {
        if r > 0 {
            assert(c1[r] == c2[r]);
        }
    }
    assert forall|r: int, c: int| 0 <= r < c1.len() && 0 <= c < c1[r].len() implies f1(
        r,
        c,
        #[trigger] c1[r][c],
    ) == f2(r, c, c2[r][c]) by {
        if r > 0 {
            assert(c1[r] == c2[r]);
            if c < c1[0].len() {
                assert((c1[0][c] is Empty) == (c2[0][c] is Empty));
            }
            let t1 = td_title(c1, query, c);
            let t2 = td_title(c2, query, c);
            assert(t1 is Some == t2 is Some);
            if t1 is Some {
                assert(clean_text_spec(t1->0) == clean_text_spec(t2->0));
            }
        }
    }
    lemma_scan_congruent(c1, c2, f1, f2);
}

/// Ten to the power `k`.
pub open spec fn pow10(k: nat) -> nat
    decreases k,
{
    if k == 0 {
        1
    } else {
        10 * pow10((k - 1) as nat)
    }
}

proof fn lemma_pow10_monotone(a: nat, b: nat)
    requires
        a <= b,
    ensures
        pow10(a) <= pow10(b),
    decreases b,
{
    if a < b {
        lemma_pow10_monotone(a, (b - 1) as nat);
    }
}

proof fn lemma_decimal_lower_bound(n: nat)
    ensures
        decimal(n).len() == 1 || n >= pow10((decimal(n).len() - 1) as nat),
    decreases n,
{
    if n >= 10 {
        lemma_decimal_lower_bound(n / 10);
        lemma_decimal_digits(n / 10);
        let l = decimal(n / 10).len();
        assert(decimal(n).len() == l + 1);
        assert(n >= 10 * (n / 10)) by (nonlinear_arith);
        if l > 1 {
            assert(pow10(l as nat) == 10 * pow10((l - 1) as nat));
        }
    }
}

proof fn lemma_digits_utf16(s: Seq<char>)
    requires
        all_digits(s),
    ensures
        utf16_len(s) == s.len(),
    decreases s.len(),
{
    if s.len() > 0 {
        assert(all_digits(s.drop_last())) by {
            assert forall|i: int| 0 <= i < s.drop_last().len() implies is_digit(#[trigger] s.drop_last()[i]) by {
                assert(s.drop_last()[i] == s[i]);
            }
        }
        lemma_digits_utf16(s.drop_last());
        assert(is_digit(s[s.len() - 1]));
    }
}

/// The decimal text of a `usize` has at most 20 digits, so it fits in a cell.
proof fn lemma_decimal_fits_cell(n: nat)
    requires
        n <= usize::MAX,
    ensures
        utf16_len(decimal(n)) == decimal(n).len(),
        decimal(n).len() <= 20,
{
    lemma_decimal_digits(n);
    lemma_digits_utf16(decimal(n));
    lemma_decimal_lower_bound(n);
    let l = decimal(n).len();
    if l > 20 {
        lemma_pow10_monotone(20, (l - 1) as nat);
        assert(pow10(20) == 100000000000000000000) by {
            reveal_with_fuel(pow10, 21);
        }
        assert(usize::MAX <= 0xffff_ffff_ffff_ffff);
    }
}

/// Writing a report row on line `l` changes no cell of another line.
proof fn lemma_write_row_other_lines(
    sheet: Map<(u32, u16), Seq<char>>,
    l: usize,
    columns: Seq<usize>,
    body: Seq<Seq<char>>,
    file_index: nat,
    match_index: Seq<char>,
    n: int,
    key: (u32, u16),
)
    requires
        key.0 != l as u32,
    ensures
        write_row_spec(sheet, l, columns, body, file_index, match_index, n).contains_key(key)
            == sheet.contains_key(key),
        sheet.contains_key(key) ==> write_row_spec(sheet, l, columns, body, file_index, match_index, n)[key]
            == sheet[key],
    decreases n,
{
    if n > 0 {
        lemma_write_row_other_lines(sheet, l, columns, body, file_index, match_index, n - 1, key);
    }
}

/// Row `k` of `rows`, written from line `line` on, carries its numbers: its
/// "File Number" field holds the number that `f` gives the row's file name, and
/// its "Serial Number" field holds its line `line + k`.
pub open spec fn row_numbered(
    f: Map<Seq<char>, usize>,
    s: Map<(u32, u16), Seq<char>>,
    line: usize,
    columns: Seq<usize>,
    rows: Seq<Seq<Seq<char>>>,
    k: int,
) -> bool {
    &&& f.contains_key(rows[k][4])
    &&& s.contains_key(((line + k) as u32, columns[1] as u16))
    &&& s[((line + k) as u32, columns[1] as u16)] == decimal(f[rows[k][4]] as nat)
    &&& s.contains_key(((line + k) as u32, columns[2] as u16))
    &&& s[((line + k) as u32, columns[2] as u16)] == decimal((line + k) as nat)
}

proof fn lemma_row_numbered_kept(
    f1: Map<Seq<char>, usize>,
    s1: Map<(u32, u16), Seq<char>>,
    f2: Map<Seq<char>, usize>,
    l1: usize,
    line: usize,
    columns: Seq<usize>,
    rows: Seq<Seq<Seq<char>>>,
    body: Seq<Seq<char>>,
    fi: nat,
    mi: Seq<char>,
    m: int,
    k: int,
)
    requires
        0 <= k < rows.len(),
        line + k < l1 < u32::MAX,
        row_numbered(f1, s1, line, columns, rows, k),
        forall|x: Seq<char>| #[trigger] f1.contains_key(x) ==> f2.contains_key(x) && f2[x] == f1[x],
    ensures
        row_numbered(f2, write_row_spec(s1, l1, columns, body, fi, mi, m), line, columns, rows, k),
{
    lemma_write_row_other_lines(s1, l1, columns, body, fi, mi, m, ((line + k) as u32, columns[1] as u16));
    lemma_write_row_other_lines(s1, l1, columns, body, fi, mi, m, ((line + k) as u32, columns[2] as u16));
    assert(f1.contains_key(rows[k][4]));
}

proof fn lemma_row_numbered_new(
    f1: Map<Seq<char>, usize>,
    s1: Map<(u32, u16), Seq<char>>,
    line: usize,
    columns: Seq<usize>,
    rows: Seq<Seq<Seq<char>>>,
    n: int,
)
    requires
        0 <= n < rows.len(),
        line + n < 1_048_576,
        columns.len() >= 3,
        columns_distinct(columns, columns.len() as int),
        columns[1] < 16_384,
        columns[2] < 16_384,
        row_fits(rows[n], columns.len()),
    ensures
        ({
            let row = rows[n];
            let body = row.drop_last();
            let (f2, fi) = file_index_step(f1, body[4]);
            &&& forall|x: Seq<char>| #[trigger] f1.contains_key(x) ==> f2.contains_key(x) && f2[x] == f1[x]
            &&& row_numbered(
                f2,
                write_row_spec(s1, (line + n) as usize, columns, body, fi as nat, row.last(), body.len() as int),
                line,
                columns,
                rows,
                n,
            )
        }),
{
    let row = rows[n];
    let body = row.drop_last();
    let (f2, fi) = file_index_step(f1, body[4]);
    let m = body.len() as int;
    let l1 = (line + n) as usize;
    assert(body[4] == row[4]);
    assert(columns_distinct(columns, m)) by {
        assert forall|a: int, b: int| 0 <= a < m && 0 <= b < m && a != b implies (#[trigger] columns[a] as u16)
            != (#[trigger] columns[b] as u16) by {
            assert(columns_distinct(columns, columns.len() as int));
        }
    }
    lemma_decimal_fits_cell(fi as nat);
    lemma_decimal_fits_cell(l1 as nat);
    assert(out_text(body, 1, fi as nat, l1 as nat, row.last()) == decimal(fi as nat));
    assert(out_text(body, 2, fi as nat, l1 as nat, row.last()) == decimal(l1 as nat));
    lemma_write_row_field(s1, l1, columns, body, fi as nat, row.last(), m, 1);
    lemma_write_row_field(s1, l1, columns, body, fi as nat, row.last(), m, 2);
}

/// The report rows of one stored file are numbered as the report reads them:
/// written from line `line` on, row `k` lands on line `line + k`, its "Serial
/// Number" field holds `line + k`, and its "File Number" field holds the number
/// that the file numbering gives the row's file name (so rows of one file share
/// it), whenever the columns of the fields differ and the cells are within
/// Excel's limits.
pub proof fn lemma_rows_numbered(
    files: Map<Seq<char>, usize>,
    sheet: Map<(u32, u16), Seq<char>>,
    line: usize,
    columns: Seq<usize>,
    rows: Seq<Seq<Seq<char>>>,
)
    requires
        line + rows.len() < 1_048_576,
        columns.len() >= 3,
        columns_distinct(columns, columns.len() as int),
        columns[1] < 16_384,
        columns[2] < 16_384,
        forall|k: int| 0 <= k < rows.len() ==> row_fits(#[trigger] rows[k], columns.len()),
    ensures
        rows_spec(files, sheet, line, columns, rows).2 == line + rows.len(),
        forall|k: int|
            0 <= k < rows.len() ==> #[trigger] row_numbered(
                rows_spec(files, sheet, line, columns, rows).0,
                rows_spec(files, sheet, line, columns, rows).1,
                line,
                columns,
                rows,
                k,
            ),
    decreases rows.len(),
{
    if rows.len() > 0 {
        let prefix = rows.drop_last();
        let n = rows.len() - 1;
        assert forall|k: int| 0 <= k < prefix.len() implies row_fits(#[trigger] prefix[k], columns.len()) by {
            assert(prefix[k] == rows[k]);
        }
        lemma_rows_numbered(files, sheet, line, columns, prefix);
        let (f1, s1, l1) = rows_spec(files, sheet, line, columns, prefix);
        let row = rows[n];
        assert(row == rows.last());
        let body = row.drop_last();
        let (f2, fi) = file_index_step(f1, body[4]);
        let s2 = write_row_spec(s1, l1, columns, body, fi as nat, row.last(), body.len() as int);
        assert(rows_spec(files, sheet, line, columns, rows) == (f2, s2, (l1 + 1) as usize));
        lemma_row_numbered_new(f1, s1, line, columns, rows, n);
        assert forall|k: int| 0 <= k < rows.len() implies #[trigger] row_numbered(f2, s2, line, columns, rows, k) by {
            if k < n {
                assert(row_numbered(f1, s1, line, columns, prefix, k));
                assert(prefix[k] == rows[k]);
                assert(row_numbered(f1, s1, line, columns, rows, k));
                lemma_row_numbered_kept(f1, s1, f2, l1, line, columns, rows, body, fi as nat, row.last(), body.len() as int, k);
            }
        }
    }
}

} // verus!
