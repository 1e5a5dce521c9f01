//! Searching a worksheet: cell-by-cell searches that group the hits under their
//! column titles, and row searches that build report rows.
use vstd::prelude::*;

use crate::grid::{Cell, Grid, lemma_flat_cell_inside};
use crate::knubs::{
    cleaned_row, column_hit, column_hits, lemma_query_columns_bound, columns_view, filter_rows, filter_rows_1, matched_data, report_row,
    strings_contain, time_stamped, validity, validity_1, validity_1_spec, validity_spec,
};
use crate::models::IndexError;
use crate::query::{QuerySet, TitleQuery, texts};
use crate::text::{clean_text_spec, cleanText};

verus! {

/// What `f` picks from row `r`, left to right.
pub open spec fn scan_row<T>(row: Seq<Cell>, r: int, f: spec_fn(int, int, Cell) -> Option<T>) -> Seq<T>
    decreases row.len(),
{
    if row.len() == 0 {
        Seq::empty()
    } else {
        let prev = scan_row(row.drop_last(), r, f);
        match f(r, row.len() - 1, row.last()) {
            Some(x) => prev.push(x),
            None => prev,
        }
    }
}

/// What `f` picks from the cells, row by row, each row left to right (the order
/// of a worksheet's used cells).
pub open spec fn scan<T>(rows: Seq<Seq<Cell>>, f: spec_fn(int, int, Cell) -> Option<T>) -> Seq<T>
    decreases rows.len(),
{
    if rows.len() == 0 {
        Seq::empty()
    } else {
        scan(rows.drop_last(), f) + scan_row(rows.last(), rows.len() - 1, f)
    }
}

/// The distinct keys of the hits, in the order in which each first appears.
pub open spec fn first_keys<K, V>(hits: Seq<(K, V)>) -> Seq<K>
    decreases hits.len(),
{
    if hits.len() == 0 {
        Seq::empty()
    } else {
        let ks = first_keys(hits.drop_last());
        if ks.contains(hits.last().0) {
            ks
        } else {
            ks.push(hits.last().0)
        }
    }
}

/// The values of the hits with key `k`, in order.
pub open spec fn values_under<K, V>(hits: Seq<(K, V)>, k: K) -> Seq<V>
    decreases hits.len(),
{
    if hits.len() == 0 {
        Seq::empty()
    } else {
        let vs = values_under(hits.drop_last(), k);
        if hits.last().0 == k {
            vs.push(hits.last().1)
        } else {
            vs
        }
    }
}

/// The hits grouped by key: each key once, in order of first appearance, with
/// its values in order.
pub open spec fn group_hits<K, V>(hits: Seq<(K, V)>) -> Seq<(K, Seq<V>)> {
    first_keys(hits).map_values(|k: K| (k, values_under(hits, k)))
}

/// A hit of a data-only search: a cell below the first row, not empty, whose
/// cleaned text is queried, under a non-empty cell at sheet row 0 of its column
/// number. It yields that title's text and the cell's text.
pub open spec fn data_hit(g: Grid, query: Seq<Seq<char>>, r: int, c: int, cell: Cell) -> Option<
    (Seq<char>, Seq<char>),
> {
    if r != 0 && !(cell is Empty) && query.contains(clean_text_spec(cell.text())) {
        match g.value_at(0, c) {
            Some(t) => if !(t is Empty) {
                Some((t.text(), cell.text()))
            } else {
                None
            },
            None => None,
        }
    } else {
        None
    }
}

/// The hits of a data-only search, in the order of the used cells.
pub open spec fn data_hits(g: Grid, query: Seq<Seq<char>>) -> Seq<(Seq<char>, Seq<char>)> {
    scan(g.cells(), |r: int, c: int, cell: Cell| data_hit(g, query, r, c, cell))
}

proof fn lemma_scan_row_step<T>(row: Seq<Cell>, r: int, c: int, f: spec_fn(int, int, Cell) -> Option<T>)
    requires
        0 <= c < row.len(),
    ensures
        scan_row(row.take(c + 1), r, f) == match f(r, c, row[c]) {
            Some(x) => scan_row(row.take(c), r, f).push(x),
            None => scan_row(row.take(c), r, f),
        },
{
    assert(row.take(c + 1).drop_last() =~= row.take(c));
    assert(row.take(c + 1).last() == row[c]);
}

proof fn lemma_scan_step<T>(rows: Seq<Seq<Cell>>, r: int, f: spec_fn(int, int, Cell) -> Option<T>)
    requires
        0 <= r < rows.len(),
    ensures
        scan(rows.take(r + 1), f) == scan(rows.take(r), f) + scan_row(
            rows[r].take(rows[r].len() as int),
            r,
            f,
        ),
{
    assert(rows.take(r + 1).drop_last() =~= rows.take(r));
    assert(rows.take(r + 1).last() == rows[r]);
    assert(rows[r].take(rows[r].len() as int) =~= rows[r]);
}

/// The texts of a list of (title, value) hits.
pub open spec fn pair_texts(v: Seq<(String, String)>) -> Seq<(Seq<char>, Seq<char>)> {
    v.map_values(|p: (String, String)| (p.0@, p.1@))
}

/// The texts of titles with their values.
pub open spec fn groups_texts(v: Seq<(String, Vec<String>)>) -> Seq<(Seq<char>, Seq<Seq<char>>)> {
    v.map_values(|p: (String, Vec<String>)| (p.0@, texts(p.1@)))
}

/// The hits of a data-only search of `g`, as (title, cell text).
fn collect_data_hits(g: &Grid, query: &QuerySet) -> (r: Vec<(String, String)>)
    ensures
        pair_texts(r@) == data_hits(*g, query@),
{
    proof {
        use_type_invariant(g);
    }
    let ghost f = |r: int, c: int, cell: Cell| data_hit(*g, query@, r, c, cell);
    let ghost cells = g.cells();
    let mut hits: Vec<(String, String)> = Vec::new();
    let h = g.height();
    let w = g.width();
    let mut r: usize = 0;
    while r < h
        invariant
            g.wf(),
            cells == g.cells(),
            h == cells.len(),
            w == g.width_spec(),
            r <= h,
            f == (|r: int, c: int, cell: Cell| data_hit(*g, query@, r, c, cell)),
            pair_texts(hits@) == scan(cells.take(r as int), f),
        decreases h - r,
    {
        let row = g.row(r);
        assert(row@.len() == w);
        let mut c: usize = 0;
        while c < w
            invariant
                g.wf(),
                cells == g.cells(),
                h == cells.len(),
                w == g.width_spec(),
                r < h,
                c <= w,
                row@ == cells[r as int],
                row@.len() == w,
                f == (|r: int, c: int, cell: Cell| data_hit(*g, query@, r, c, cell)),
                pair_texts(hits@) == scan(cells.take(r as int), f) + scan_row(
                    row@.take(c as int),
                    r as int,
                    f,
                ),
            decreases w - c,
        {
            proof {
                lemma_scan_row_step(row@, r as int, c as int, f);
            }
            let cell = &row[c];
            let mut picked = false;
            if r != 0 && !cell.is_empty() {
                let text = cell.to_text();
                let key = cleanText(&text);
                if query.contains(&key) {
                    if c <= u32::MAX as usize {
                        match g.get_value(0, c as u32) {
                            Some(t) => {
                                if !t.is_empty() {
                                    let ghost prev = hits@;
                                    let tt = t.to_text();
                                    hits.push((tt, text));
                                    picked = true;
                                    proof {
                                        assert(pair_texts(hits@) =~= pair_texts(prev).push(
                                            (tt@, cell.text()),
                                        ));
                                    }
                                }
                            },
                            None => {},
                        }
                    } else {
                        proof {
                            assert(g.value_at(0, c as int) is None);
                        }
                    }
                }
            }
            proof {
                if !picked {
                    assert(f(r as int, c as int, row@[c as int]) is None);
                }
            }
            c = c + 1;
        }
        proof {
            lemma_scan_step(cells, r as int, f);
            assert(row@.take(w as int) =~= row@);
        }
        r = r + 1;
    }
    assert(cells.take(h as int) =~= cells);
    hits
}

} // verus!

verus! {

/// The values of the hits under `key`, in order.
fn values_of(hits: &Vec<(String, String)>, key: &String) -> (r: Vec<String>)
    ensures
        texts(r@) == values_under(pair_texts(hits@), key@),
{
    let ghost hv = pair_texts(hits@);
    let mut r: Vec<String> = Vec::new();
    let mut i: usize = 0;
    while i < hits.len()
        invariant
            hv == pair_texts(hits@),
            i <= hits@.len(),
            texts(r@) == values_under(hv.take(i as int), key@),
        decreases hits@.len() - i,
    {
        proof {
            assert(hv.take(i + 1).drop_last() =~= hv.take(i as int));
            assert(hv.take(i + 1).last() == hv[i as int]);
        }
        if hits[i].0 == *key {
            let ghost prev = r@;
            let v = hits[i].1.clone();
            r.push(v);
            assert(texts(r@) =~= texts(prev).push(v@));
        }
        i = i + 1;
    }
    assert(hv.take(i as int) =~= hv);
    r
}

/// The hits grouped under their titles: each title once, in the order in which it
/// first appears, with its values in order.
fn group_by_title(hits: &Vec<(String, String)>) -> (r: Vec<(String, Vec<String>)>)
    ensures
        groups_texts(r@) == group_hits(pair_texts(hits@)),
{
    let ghost hv = pair_texts(hits@);
    let mut keys: Vec<String> = Vec::new();
    let mut i: usize = 0;
    while i < hits.len()
        invariant
            hv == pair_texts(hits@),
            i <= hits@.len(),
            texts(keys@) == first_keys(hv.take(i as int)),
        decreases hits@.len() - i,
    {
        proof {
            assert(hv.take(i + 1).drop_last() =~= hv.take(i as int));
            assert(hv.take(i + 1).last() == hv[i as int]);
        }
        if !strings_contain(&keys, &hits[i].0) {
            let ghost prev = keys@;
            let k = hits[i].0.clone();
            keys.push(k);
            assert(texts(keys@) =~= texts(prev).push(k@));
        }
        i = i + 1;
    }
    assert(hv.take(i as int) =~= hv);
    let ghost ks = first_keys(hv);
    let mut groups: Vec<(String, Vec<String>)> = Vec::new();
    let mut j: usize = 0;
    while j < keys.len()
        invariant
            hv == pair_texts(hits@),
            texts(keys@) == ks,
            ks == first_keys(hv),
            j <= keys@.len(),
            groups_texts(groups@) == ks.take(j as int).map_values(
                |k: Seq<char>| (k, values_under(hv, k)),
            ),
        decreases keys@.len() - j,
    {
        let ghost prev = groups@;
        let k = keys[j].clone();
        let vs = values_of(hits, &k);
        groups.push((k, vs));
        proof {
            assert(ks[j as int] == k@);
            assert(groups_texts(groups@) =~= groups_texts(prev).push((k@, texts(vs@))));
            assert(ks.take(j + 1).map_values(|k: Seq<char>| (k, values_under(hv, k))) =~= ks.take(
                j as int,
            ).map_values(|k: Seq<char>| (k, values_under(hv, k))).push((k@, values_under(hv, k@))));
        }
        j = j + 1;
    }
    assert(ks.take(j as int) =~= ks);
    groups
}

/// Data-only search of a worksheet's first sheet (when it could be read): every
/// used cell below the first row whose cleaned text is queried and whose column
/// has a non-empty title at sheet row 0, grouped under that title, as the texts
/// of those cells. `file_index` is not part of the result.
#[allow(unused_variables)]
pub fn search_for_d_x(
    excel: Option<Result<Grid, calamine::Error>>,
    query: QuerySet,
    file_index: usize,
) -> (r: Option<Vec<(String, Vec<String>)>>)
    ensures
        match excel {
            Some(Ok(g)) => r matches Some(v) && groups_texts(v@) == group_hits(data_hits(g, query@)),
            _ => r is None,
        },
{
    match excel {
        Some(Ok(g)) => {
            let hits = collect_data_hits(&g, &query);
            Some(group_by_title(&hits))
        },
        _ => None,
    }
}

/// Data-only search of a worksheet's first sheet (when it could be read): every
/// used cell below the first row whose cleaned text is queried and whose column
/// has a non-empty title at sheet row 0, grouped under that title.
#[allow(unused)]
pub fn search_for_d(excel: Option<Result<Grid, calamine::Error>>, query: QuerySet) -> (r: Option<
    Vec<(String, Vec<String>)>,
>)
    ensures
        match excel {
            Some(Ok(g)) => r matches Some(v) && groups_texts(v@) == group_hits(data_hits(g, query@)),
            _ => r is None,
        },
{
    match excel {
        Some(Ok(g)) => {
            let hits = collect_data_hits(&g, &query);
            Some(group_by_title(&hits))
        },
        _ => None,
    }
}

} // verus!

verus! {

/// The title of column `c` in a title-and-data search: the text of its first-row
/// cell, when that cell is not empty and its cleaned text is a title of the query.
pub open spec fn td_title(cells: Seq<Seq<Cell>>, query: TitleQuery, c: int) -> Option<Seq<char>> {
    if cells.len() > 0 && 0 <= c < cells[0].len() && !(cells[0][c] is Empty) && query.keys().contains(
        clean_text_spec(cells[0][c].text()),
    ) {
        Some(cells[0][c].text())
    } else {
        None
    }
}

/// A hit of a title-and-data search: a used cell below the first row, in a titled
/// column, whose cleaned text is looked for under the cleaned title. It yields the
/// column and the cell's text.
pub open spec fn title_hit(cells: Seq<Seq<Cell>>, query: TitleQuery, r: int, c: int, cell: Cell) -> Option<
    (int, Seq<char>),
> {
    if r != 0 && !(cell is Empty) {
        match td_title(cells, query, c) {
            Some(t) => match query.lookup(clean_text_spec(t)) {
                Some(q) => if q.contains(clean_text_spec(cell.text())) {
                    Some((c, cell.text()))
                } else {
                    None
                },
                None => None,
            },
            None => None,
        }
    } else {
        None
    }
}

/// The hits of a title-and-data search, in the order of the used cells.
pub open spec fn title_hits(cells: Seq<Seq<Cell>>, query: TitleQuery) -> Seq<(int, Seq<char>)> {
    scan(cells, |r: int, c: int, cell: Cell| title_hit(cells, query, r, c, cell))
}

/// Each column with hits under its title, in the order in which the columns first
/// have a hit.
pub open spec fn titled_columns(cells: Seq<Seq<Cell>>, query: TitleQuery) -> Seq<
    (Seq<char>, Seq<Seq<char>>),
> {
    let hits = title_hits(cells, query);
    first_keys(hits).filter_map(
        |c: int|
            match td_title(cells, query, c) {
                Some(t) => Some((t, values_under(hits, c))),
                None => None,
            },
    )
}

/// The entries whose title is not the title of an earlier entry.
pub open spec fn keep_first_titles<X>(entries: Seq<(Seq<char>, X)>) -> Seq<(Seq<char>, X)>
    decreases entries.len(),
{
    if entries.len() == 0 {
        Seq::empty()
    } else {
        let prev = keep_first_titles(entries.drop_last());
        if prev.map_values(|e: (Seq<char>, X)| e.0).contains(entries.last().0) {
            prev
        } else {
            prev.push(entries.last())
        }
    }
}

/// The texts of column hits.
pub open spec fn column_texts(v: Seq<(usize, String)>) -> Seq<(int, Seq<char>)> {
    v.map_values(|p: (usize, String)| (p.0 as int, p.1@))
}

/// The title of column `c` of the grid for a title-and-data search.
fn column_title(g: &Grid, query: &TitleQuery, c: usize) -> (r: Option<String>)
    ensures
        match r {
            Some(t) => td_title(g.cells(), *query, c as int) == Some(t@),
            None => td_title(g.cells(), *query, c as int) is None,
        },
{
    proof {
        use_type_invariant(g);
    }
    if g.height() == 0 || c >= g.width() {
        proof {
            if g.cells().len() > 0 {
                assert(g.cells()[0].len() == g.width_spec());
            }
        }
        return None;
    }
    proof {
        assert(g.cells()[0].len() == g.width_spec());
        lemma_flat_cell_inside(g.cells(), g.width_spec(), 0, c as int);
        assert(0 * g.width_spec() + c == c);
    }
    match g.get(0, c) {
        Some(cell) => {
            if cell.is_empty() {
                return None;
            }
            let t = cell.to_text();
            let key = cleanText(&t);
            if query.contains_key(&key) {
                Some(t)
            } else {
                None
            }
        },
        None => None,
    }
}

/// The hits of a title-and-data search of `g`, as (column, cell text).
fn collect_title_hits(g: &Grid, query: &TitleQuery) -> (r: Vec<(usize, String)>)
    ensures
        column_texts(r@) == title_hits(g.cells(), *query),
{
    proof {
        use_type_invariant(g);
    }
    let ghost cells = g.cells();
    let ghost f = |r: int, c: int, cell: Cell| title_hit(cells, *query, r, c, cell);
    let mut hits: Vec<(usize, String)> = Vec::new();
    let h = g.height();
    let w = g.width();
    let mut r: usize = 0;
    while r < h
        invariant
            g.wf(),
            cells == g.cells(),
            h == cells.len(),
            w == g.width_spec(),
            r <= h,
            f == (|r: int, c: int, cell: Cell| title_hit(cells, *query, r, c, cell)),
            column_texts(hits@) == scan(cells.take(r as int), f),
        decreases h - r,
    {
        let row = g.row(r);
        assert(row@.len() == w);
        let mut c: usize = 0;
        while c < w
            invariant
                g.wf(),
                cells == g.cells(),
                h == cells.len(),
                w == g.width_spec(),
                r < h,
                c <= w,
                row@ == cells[r as int],
                row@.len() == w,
                f == (|r: int, c: int, cell: Cell| title_hit(cells, *query, r, c, cell)),
                column_texts(hits@) == scan(cells.take(r as int), f) + scan_row(
                    row@.take(c as int),
                    r as int,
                    f,
                ),
            decreases w - c,
        {
            proof {
                lemma_scan_row_step(row@, r as int, c as int, f);
            }
            let cell = &row[c];
            let mut picked = false;
            if r != 0 && !cell.is_empty() {
                match column_title(g, query, c) {
                    Some(t) => {
                        let tkey = cleanText(&t);
                        match query.get(&tkey) {
                            Some(q) => {
                                let text = cell.to_text();
                                let key = cleanText(&text);
                                if q.contains(&key) {
                                    let ghost prev = hits@;
                                    hits.push((c, text));
                                    picked = true;
                                    proof {
                                        assert(column_texts(hits@) =~= column_texts(prev).push(
                                            (c as int, cell.text()),
                                        ));
                                    }
                                }
                            },
                            None => {},
                        }
                    },
                    None => {},
                }
            }
            proof {
                if !picked {
                    assert(f(r as int, c as int, row@[c as int]) is None);
                }
            }
            c = c + 1;
        }
        proof {
            lemma_scan_step(cells, r as int, f);
            assert(row@.take(w as int) =~= row@);
        }
        r = r + 1;
    }
    assert(cells.take(h as int) =~= cells);
    hits
}

/// The cell texts of the hits in column `col`, in order.
fn column_values(hits: &Vec<(usize, String)>, col: usize) -> (r: Vec<String>)
    ensures
        texts(r@) == values_under(column_texts(hits@), col as int),
{
    let ghost hv = column_texts(hits@);
    let mut r: Vec<String> = Vec::new();
    let mut i: usize = 0;
    while i < hits.len()
        invariant
            hv == column_texts(hits@),
            i <= hits@.len(),
            texts(r@) == values_under(hv.take(i as int), col as int),
        decreases hits@.len() - i,
    {
        proof {
            assert(hv.take(i + 1).drop_last() =~= hv.take(i as int));
            assert(hv.take(i + 1).last() == hv[i as int]);
        }
        if hits[i].0 == col {
            let ghost prev = r@;
            let v = hits[i].1.clone();
            r.push(v);
            assert(texts(r@) =~= texts(prev).push(v@));
        }
        i = i + 1;
    }
    assert(hv.take(i as int) =~= hv);
    r
}

/// Whether `col` is among `cols`.
fn columns_contain(cols: &Vec<usize>, col: usize) -> (b: bool)
    ensures
        b == cols@.map_values(|c: usize| c as int).contains(col as int),
{
    let ghost cv = cols@.map_values(|c: usize| c as int);
    let mut i: usize = 0;
    while i < cols.len()
        invariant
            cv == cols@.map_values(|c: usize| c as int),
            i <= cols@.len(),
            forall|j: int| 0 <= j < i ==> cv[j] != col as int,
        decreases cols@.len() - i,
    {
        if cols[i] == col {
            assert(cv[i as int] == col as int);
            return true;
        }
        i = i + 1;
    }
    false
}

/// The distinct columns of the hits, in order of first appearance.
fn hit_columns(hits: &Vec<(usize, String)>) -> (r: Vec<usize>)
    ensures
        r@.map_values(|c: usize| c as int) == first_keys(column_texts(hits@)),
{
    let ghost hv = column_texts(hits@);
    let mut cols: Vec<usize> = Vec::new();
    let mut i: usize = 0;
    while i < hits.len()
        invariant
            hv == column_texts(hits@),
            i <= hits@.len(),
            cols@.map_values(|c: usize| c as int) == first_keys(hv.take(i as int)),
        decreases hits@.len() - i,
    {
        proof {
            assert(hv.take(i + 1).drop_last() =~= hv.take(i as int));
            assert(hv.take(i + 1).last() == hv[i as int]);
        }
        if !columns_contain(&cols, hits[i].0) {
            let ghost prev = cols@;
            cols.push(hits[i].0);
            assert(cols@.map_values(|c: usize| c as int) =~= prev.map_values(|c: usize| c as int).push(
                hits@[i as int].0 as int,
            ));
        }
        i = i + 1;
    }
    assert(hv.take(i as int) =~= hv);
    cols
}

} // verus!

verus! {

/// Each column with hits under its title, in the order in which the columns first
/// have a hit.
fn titled_column_groups(g: &Grid, query: &TitleQuery, hits: &Vec<(usize, String)>) -> (r: Vec<
    (String, Vec<String>),
>)
    requires
        column_texts(hits@) == title_hits(g.cells(), *query),
    ensures
        groups_texts(r@) == titled_columns(g.cells(), *query),
{
    proof {
        use_type_invariant(g);
    }
    let ghost cells = g.cells();
    let ghost hv = column_texts(hits@);
    let ghost f = |c: int|
        match td_title(cells, *query, c) {
            Some(t) => Some((t, values_under(hv, c))),
            None => None,
        };
    let cols = hit_columns(hits);
    let ghost cv = cols@.map_values(|c: usize| c as int);
    let mut r: Vec<(String, Vec<String>)> = Vec::new();
    let mut j: usize = 0;
    while j < cols.len()
        invariant
            g.wf(),
            cells == g.cells(),
            hv == column_texts(hits@),
            cv == cols@.map_values(|c: usize| c as int),
            cv == first_keys(hv),
            f == (|c: int|
                match td_title(cells, *query, c) {
                    Some(t) => Some((t, values_under(hv, c))),
                    None => None,
                }),
            j <= cols@.len(),
            groups_texts(r@) == cv.take(j as int).filter_map(f),
        decreases cols@.len() - j,
    {
        proof {
            cv.lemma_filter_map_take_succ(f, j as int);
        }
        let c = cols[j];
        assert(cv[j as int] == c as int);
        match column_title(g, query, c) {
            Some(t) => {
                let vs = column_values(hits, c);
                let ghost prev = r@;
                r.push((t, vs));
                assert(groups_texts(r@) =~= groups_texts(prev) + seq![(t@, texts(vs@))]);
            },
            None => {},
        }
        j = j + 1;
    }
    assert(cv.take(j as int) =~= cv);
    r
}

/// Keeps each entry whose title is not the title of an earlier entry.
fn keep_first(entries: Vec<(String, Vec<String>)>) -> (r: Vec<(String, Vec<String>)>)
    ensures
        groups_texts(r@) == keep_first_titles(groups_texts(entries@)),
{
    let ghost ev = groups_texts(entries@);
    let mut r: Vec<(String, Vec<String>)> = Vec::new();
    let mut keys: Vec<String> = Vec::new();
    let mut i: usize = 0;
    while i < entries.len()
        invariant
            ev == groups_texts(entries@),
            i <= entries@.len(),
            groups_texts(r@) == keep_first_titles(ev.take(i as int)),
            texts(keys@) == keep_first_titles(ev.take(i as int)).map_values(
                |e: (Seq<char>, Seq<Seq<char>>)| e.0,
            ),
        decreases entries@.len() - i,
    {
        proof {
            assert(ev.take(i + 1).drop_last() =~= ev.take(i as int));
            assert(ev.take(i + 1).last() == ev[i as int]);
        }
        if !strings_contain(&keys, &entries[i].0) {
            let ghost prevr = r@;
            let ghost prevk = keys@;
            let k = entries[i].0.clone();
            let k2 = entries[i].0.clone();
            let vs = crate::knubs::copy_strings(&entries[i].1);
            r.push((k, vs));
            keys.push(k2);
            proof {
                assert(groups_texts(r@) =~= groups_texts(prevr).push((k@, texts(vs@))));
                assert(texts(keys@) =~= texts(prevk).push(k2@));
                let kf = keep_first_titles(ev.take(i + 1));
                assert(kf == keep_first_titles(ev.take(i as int)).push(ev[i as int]));
                assert(kf.map_values(|e: (Seq<char>, Seq<Seq<char>>)| e.0) =~= keep_first_titles(
                    ev.take(i as int),
                ).map_values(|e: (Seq<char>, Seq<Seq<char>>)| e.0).push(ev[i as int].0));
            }
        }
        i = i + 1;
    }
    assert(ev.take(i as int) =~= ev);
    r
}

/// The result of a title-and-data search: each titled column with hits, under its
/// title (of columns sharing a title, the one that first has a hit), with the
/// texts of its hits in row order.
pub open spec fn td_result(cells: Seq<Seq<Cell>>, query: TitleQuery) -> Seq<(Seq<char>, Seq<Seq<char>>)> {
    keep_first_titles(titled_columns(cells, query))
}

/// Title-and-data search of a worksheet's first sheet (when it could be read):
/// the first-row cells whose cleaned text is a title of the query mark the titled
/// columns; every used cell below them whose cleaned text is looked for under the
/// cleaned title is a hit. The texts of the hits are grouped under their column's
/// title. `file_index` is not part of the result.
#[allow(unused_variables)]
pub fn search_for_td(
    excel: Option<Result<Grid, calamine::Error>>,
    query: TitleQuery,
    file_index: usize,
) -> (r: Option<Vec<(String, Vec<String>)>>)
    ensures
        match excel {
            Some(Ok(g)) => r matches Some(v) && groups_texts(v@) == td_result(g.cells(), query),
            _ => r is None,
        },
{
    match excel {
        Some(Ok(g)) => {
            let hits = collect_title_hits(&g, &query);
            let groups = titled_column_groups(&g, &query, &hits);
            Some(keep_first(groups))
        },
        _ => None,
    }
}

} // verus!

verus! {

broadcast use vstd::string::group_string_axioms;

/// The message of the error for a workbook whose first sheet is missing.
pub open spec fn not_found_message() -> Seq<char> {
    "The workbook was not found...? Or Could not be opened"@
}

/// The message of the error for a sheet whose title row fails the check.
pub open spec fn invalid_file_message() -> Seq<char> {
    "Invalid file , the row had an empty column"@
}

/// The matches of a data-only row search in rows `1..n`, as (row, matched text).
pub open spec fn row_hits(cells: Seq<Seq<Cell>>, query: Seq<Seq<char>>, n: int) -> Seq<(int, Seq<char>)>
    decreases n,
{
    if n <= 1 {
        Seq::empty()
    } else {
        row_hits(cells, query, n - 1) + matched_data(query, cleaned_row(cells[n - 1])).map_values(
            |d: Seq<char>| (n - 1, d),
        )
    }
}

/// The matches of a title-and-data row search in rows `1..n`, as (row, column).
pub open spec fn column_row_hits(
    cells: Seq<Seq<Cell>>,
    width: nat,
    cols: Seq<(int, Seq<Seq<char>>)>,
    n: int,
) -> Seq<(int, int)>
    decreases n,
{
    if n <= 1 {
        Seq::empty()
    } else {
        column_row_hits(cells, width, cols, n - 1) + column_hits(cells, width, n - 1, cols).map_values(
            |p: (int, Seq<Seq<char>>)| (n - 1, p.0),
        )
    }
}

/// What holds of every element of a sequence holds of every element kept by a filter.
proof fn lemma_filter_keeps<A>(s: Seq<A>, pred: spec_fn(A) -> bool, inv: spec_fn(A) -> bool)
    requires
        forall|i: int| 0 <= i < s.len() ==> inv(#[trigger] s[i]),
    ensures
        forall|j: int| 0 <= j < s.filter(pred).len() ==> inv(#[trigger] s.filter(pred)[j]),
    decreases s.len(),
{
    reveal(Seq::filter);
    if s.len() > 0 {
        lemma_filter_keeps(s.drop_last(), pred, inv);
        let sub = s.drop_last().filter(pred);
        assert forall|j: int| 0 <= j < s.filter(pred).len() implies inv(#[trigger] s.filter(pred)[j]) by {
            if j < sub.len() {
                assert(s.filter(pred)[j] == sub[j]);
            } else {
                assert(s.filter(pred)[j] == s.last());
            }
        }
    }
}

/// Data-only row search of a worksheet's first sheet: checks the title row, then
/// makes a report row for each queried text found among the cleaned cells of each
/// row below it. Fails when the sheet is missing, could not be read, or has an
/// empty title cell.
pub fn search_for_data_row(
    excel: Option<Result<Grid, calamine::Error>>,
    query: QuerySet,
    file_name: String,
) -> (r: Result<(Vec<String>, Vec<Vec<String>>), IndexError>)
    ensures
        match excel {
            None => r matches Err(IndexError::NotFound(s)) && s@ == not_found_message(),
            Some(Err(e)) => r matches Err(IndexError::CalamineError(e2)) && e2 == e,
            Some(Ok(g)) => match validity_spec(g.cells()) {
                None => r matches Err(IndexError::FileFormatError(s)) && s@ == invalid_file_message(),
                Some(titles) => r matches Ok((t, m)) && {
                    let hits = row_hits(g.cells(), query@, g.cells().len() as int);
                    &&& texts(t@) == titles
                    &&& m@.len() == hits.len()
                    &&& forall|k: int| 0 <= k < m@.len() ==> time_stamped(#[trigger] m@[k])
                    &&& forall|k: int|
                        0 <= k < hits.len() ==> #[trigger] texts(m@[k]@) == report_row(
                            texts(m@[k]@)[0],
                            file_name@,
                            seq![hits[k].1],
                            cleaned_row(g.cells()[hits[k].0]),
                            hits[k].0 as nat,
                        )
                },
            },
        },
{
    let g = match excel {
        None => {
            return Err(IndexError::not_found("The workbook was not found...? Or Could not be opened"));
        },
        Some(Err(e)) => {
            return Err(IndexError::CalamineError(e));
        },
        Some(Ok(g)) => g,
    };
    proof {
        use_type_invariant(&g);
    }
    let titles = match validity(&g) {
        None => {
            return Err(IndexError::invalid_file_format("Invalid file , the row had an empty column"));
        },
        Some(t) => t,
    };
    let ghost cells = g.cells();
    let h = g.height();
    let mut matrix: Vec<Vec<String>> = Vec::new();
    let mut index: usize = 1;
    while index < h
        invariant
            g.wf(),
            cells == g.cells(),
            h == cells.len(),
            1 <= index,
            forall|k: int| 0 <= k < matrix@.len() ==> time_stamped(#[trigger] matrix@[k]),
            index <= h || h == 0,
            matrix@.len() == row_hits(cells, query@, index as int).len(),
            forall|k: int|
                0 <= k < matrix@.len() ==> #[trigger] texts(matrix@[k]@) == report_row(
                    texts(matrix@[k]@)[0],
                    file_name@,
                    seq![row_hits(cells, query@, index as int)[k].1],
                    cleaned_row(cells[row_hits(cells, query@, index as int)[k].0]),
                    row_hits(cells, query@, index as int)[k].0 as nat,
                ),
        decreases h - index,
    {
        let row = g.row(index);
        let ghost prev = matrix@;
        let ghost h0 = row_hits(cells, query@, index as int);
        let ghost md = matched_data(query@, cleaned_row(cells[index as int]));
        let ghost h1 = row_hits(cells, query@, index + 1);
        assert(h1 == h0 + md.map_values(|d: Seq<char>| (index as int, d)));
        match filter_rows(row, &query, file_name.clone(), index) {
            Some(mut res) => {
                let ghost added = res@;
                matrix.append(&mut res);
                proof {
                    assert(matrix@ == prev + added);
                    assert forall|k: int| 0 <= k < matrix@.len() implies time_stamped(#[trigger] matrix@[k]) by {
                        if k < prev.len() {
                            assert(matrix@[k] == prev[k]);
                        } else {
                            assert(matrix@[k] == added[k - prev.len()]);
                        }
                    }
                    assert forall|k: int| 0 <= k < matrix@.len() implies #[trigger] texts(matrix@[k]@)
                        == report_row(
                        texts(matrix@[k]@)[0],
                        file_name@,
                        seq![h1[k].1],
                        cleaned_row(cells[h1[k].0]),
                        h1[k].0 as nat,
                    ) by {
                        if k < prev.len() {
                            assert(matrix@[k] == prev[k]);
                            assert(h1[k] == h0[k]);
                        } else {
                            let j = k - prev.len();
                            assert(matrix@[k] == added[j]);
                            assert(h1[k] == (index as int, md[j]));
                        }
                    }
                }
            },
            None => {
                proof {
                    assert(h1 =~= h0);
                }
            },
        }
        index = index + 1;
    }
    proof {
        if h == 0 {
            assert(false);
        }
    }
    Ok((titles, matrix))
}

} // verus!

verus! {

/// Title-and-data row search of a worksheet's first sheet: checks the title row
/// and finds the queried columns, then makes a report row for each queried column
/// whose cell in a row below holds, once cleaned, a text looked for under it.
/// Fails when the sheet is missing, could not be read, or has an empty title cell.
pub fn search_for_data_row_1(
    excel: Option<Result<Grid, calamine::Error>>,
    query: TitleQuery,
    file_name: String,
) -> (r: Result<(Vec<String>, Vec<Vec<String>>), IndexError>)
    ensures
        match excel {
            None => r matches Err(IndexError::NotFound(s)) && s@ == not_found_message(),
            Some(Err(e)) => r matches Err(IndexError::CalamineError(e2)) && e2 == e,
            Some(Ok(g)) => match validity_1_spec(g.cells(), query) {
                None => r matches Err(IndexError::FileFormatError(s)) && s@ == invalid_file_message(),
                Some((titles, cols)) => r matches Ok((t, m)) && {
                    let cells = g.cells();
                    let hits = column_row_hits(cells, g.width_spec(), cols, cells.len() as int);
                    &&& texts(t@) == titles
                    &&& m@.len() == hits.len()
                    &&& forall|k: int| 0 <= k < m@.len() ==> time_stamped(#[trigger] m@[k])
                    &&& forall|k: int|
                        0 <= k < hits.len() ==> #[trigger] texts(m@[k]@) == report_row(
                            texts(m@[k]@)[0],
                            file_name@,
                            seq![cells[0][hits[k].1].text(), cells[hits[k].0][hits[k].1].text()],
                            cleaned_row(cells[hits[k].0]),
                            hits[k].0 as nat,
                        )
                },
            },
        },
{
    let g = match excel {
        None => {
            return Err(IndexError::not_found("The workbook was not found...? Or Could not be opened"));
        },
        Some(Err(e)) => {
            return Err(IndexError::CalamineError(e));
        },
        Some(Ok(g)) => g,
    };
    proof {
        use_type_invariant(&g);
    }
    let (titles, cols) = match validity_1(&g, query) {
        None => {
            return Err(IndexError::invalid_file_format("Invalid file , the row had an empty column"));
        },
        Some(v) => v,
    };
    let ghost cells = g.cells();
    let ghost w = g.width_spec();
    let ghost cv = columns_view(cols@);
    proof {
        lemma_query_columns_bound(cells[0], query);
        assert(cells[0].len() == w);
    }
    let h = g.height();
    let mut matrix: Vec<Vec<String>> = Vec::new();
    let mut index: usize = 1;
    while index < h
        invariant
            g.wf(),
            cells == g.cells(),
            w == g.width_spec(),
            cv == columns_view(cols@),
            forall|k: int| 0 <= k < cv.len() ==> 0 <= #[trigger] cv[k].0 < w,
            h == cells.len(),
            1 <= index,
            forall|k: int| 0 <= k < matrix@.len() ==> time_stamped(#[trigger] matrix@[k]),
            index <= h || h == 0,
            matrix@.len() == column_row_hits(cells, w, cv, index as int).len(),
            forall|k: int|
                0 <= k < matrix@.len() ==> #[trigger] texts(matrix@[k]@) == report_row(
                    texts(matrix@[k]@)[0],
                    file_name@,
                    seq![
                        cells[0][column_row_hits(cells, w, cv, index as int)[k].1].text(),
                        cells[column_row_hits(cells, w, cv, index as int)[k].0][column_row_hits(cells, w, cv, index as int)[k].1].text(),
                    ],
                    cleaned_row(cells[column_row_hits(cells, w, cv, index as int)[k].0]),
                    column_row_hits(cells, w, cv, index as int)[k].0 as nat,
                ),
        decreases h - index,
    {
        let row = g.row(index);
        let ghost prev = matrix@;
        let ghost h0 = column_row_hits(cells, w, cv, index as int);
        let ghost ch = column_hits(cells, w, index as int, cv);
        let ghost h1 = column_row_hits(cells, w, cv, index + 1);
        assert(h1 == h0 + ch.map_values(|p: (int, Seq<Seq<char>>)| (index as int, p.0)));
        assert forall|k: int| 0 <= k < cols@.len() implies index * w + (#[trigger] cols@[k]).0
            <= usize::MAX by {
            assert(cv[k].0 == cols@[k].0);
            let c = cols@[k].0 as int;
            assert(index * w + c <= h * w) by (nonlinear_arith)
                requires
                    0 <= c < w,
                    0 <= index < h,
            ;
        }
        proof {
            lemma_filter_keeps(
                cv,
                |p: (int, Seq<Seq<char>>)| column_hit(cells, w, index as int, p),
                |p: (int, Seq<Seq<char>>)| 0 <= p.0 < w,
            );
        }
        match filter_rows_1(row, &cols, &g, file_name.clone(), index) {
            Some(mut res) => {
                let ghost added = res@;
                matrix.append(&mut res);
                proof {
                    assert(matrix@ == prev + added);
                    assert forall|k: int| 0 <= k < matrix@.len() implies time_stamped(#[trigger] matrix@[k]) by {
                        if k < prev.len() {
                            assert(matrix@[k] == prev[k]);
                        } else {
                            assert(matrix@[k] == added[k - prev.len()]);
                        }
                    }
                    assert forall|k: int| 0 <= k < matrix@.len() implies #[trigger] texts(matrix@[k]@)
                        == report_row(
                        texts(matrix@[k]@)[0],
                        file_name@,
                        seq![cells[0][h1[k].1].text(), cells[h1[k].0][h1[k].1].text()],
                        cleaned_row(cells[h1[k].0]),
                        h1[k].0 as nat,
                    ) by {
                        if k < prev.len() {
                            assert(matrix@[k] == prev[k]);
                            assert(h1[k] == h0[k]);
                        } else {
                            let j = k - prev.len();
                            assert(matrix@[k] == added[j]);
                            assert(h1[k] == (index as int, ch[j].0));
                            let c = ch[j].0;
                            assert(0 <= c < w);
                            lemma_flat_cell_inside(cells, w, 0, c);
                            lemma_flat_cell_inside(cells, w, index as int, c);
                            assert(0 * w + c == c);
                        }
                    }
                }
            },
            None => {
                proof {
                    assert(h1 =~= h0);
                }
            },
        }
        index = index + 1;
    }
    proof {
        if h == 0 {
            assert(false);
        }
    }
    Ok((titles, matrix))
}

} // verus!
