use rust_xlsxwriter::{Color, Format};
use sheet_search::clock::get_time;
use sheet_search::excel::{
    example_workbook, matrix_workbook, new_example, new_excel_file, new_excel_file_t,
};
use sheet_search::grid::{Cell, Grid};
use sheet_search::knubs::{
    file_index_gen, file_trail, filter_rows, filter_rows_1, format_style, gen_format, get_file_trail, is_query,
    merge_titles, validity, validity_1,
};
use sheet_search::models::{Batch, DuserInst, Duserreq, FileResult, IndexError, JsonQuery, Process};
use sheet_search::query::{QuerySet, TitleQuery};
use sheet_search::report::{batch_fits, write_batch};
use sheet_search::search::{
    search_for_d, search_for_d_x, search_for_data_row, search_for_data_row_1, search_for_td,
};
use sheet_search::text::{
    char_is_whitespace, cleanText, generate_index, get_bacth_index_from_proc_id, parse_batch_index,
    parse_usize, usize_to_string,
};
use sheet_search::threads::{chunk_end, thread_share};
use sheet_search::xlsx::Highlight;
use sheet_search::StringHashMap;

fn v(s: &str) -> Cell {
    Cell::Value(s.to_string())
}

fn grid(rows: Vec<Vec<Cell>>) -> Grid {
    Grid::new(0, 0, rows).unwrap()
}

fn set(items: &[&str]) -> QuerySet {
    let mut q = QuerySet::new();
    for i in items {
        q.insert(i.to_string());
    }
    q
}

fn strings(items: &[&str]) -> Vec<String> {
    items.iter().map(|s| s.to_string()).collect()
}

fn sample() -> Grid {
    grid(vec![
        vec![v("Code"), v("Name"), v("Qty")],
        vec![v("A 1"), v("bolt"), v("3")],
        vec![v("B2"), v("nut"), v("A1")],
        vec![Cell::Empty, v("A1"), v("x")],
    ])
}

#[test]
fn whitespace_matches_std() {
    for u in 0u32..=0x10FFFF {
        if let Some(c) = char::from_u32(u) {
            assert_eq!(char_is_whitespace(c), c.is_whitespace(), "{u:x}");
        }
    }
}

#[test]
fn clean_text_removes_all_whitespace_and_is_idempotent() {
    let s = "\u{3000}a b\u{2028}c\u{85}\td ".to_string();
    let once = cleanText(&s);
    assert_eq!(once, "abcd");
    assert_eq!(cleanText(&once), once);
    assert_eq!(cleanText(&String::new()), "");
    assert_eq!(cleanText(&"物料代號\nmã vật liệu".to_string()), "物料代號mãvậtliệu");
}

#[test]
fn decimal_rendering_and_parsing() {
    for n in [0usize, 7, 10, 99, 100, 12345, usize::MAX] {
        assert_eq!(usize_to_string(n), n.to_string());
        assert_eq!(parse_usize(&n.to_string()), Some(n));
    }
    assert_eq!(parse_usize("+5"), Some(5));
    assert_eq!(parse_usize("007"), Some(7));
    assert_eq!(parse_usize(""), None);
    assert_eq!(parse_usize("+"), None);
    assert_eq!(parse_usize("-1"), None);
    assert_eq!(parse_usize("12a"), None);
    assert_eq!(parse_usize(" 1"), None);
    let too_big = format!("{}0", usize::MAX);
    assert_eq!(parse_usize(&too_big), None);
    for s in ["", "+", "-0", "0", "+42", "4 2", "99999999999999999999999"] {
        assert_eq!(parse_usize(s), s.parse::<usize>().ok(), "{s}");
    }
}

#[test]
fn index_identifiers() {
    assert_eq!(generate_index(3, 45), "3@45");
    assert_eq!(parse_batch_index("x@7"), Some(7));
    assert_eq!(parse_batch_index("a@b@3"), None);
    assert_eq!(parse_batch_index("a@+3"), Some(3));
    assert_eq!(parse_batch_index("no-at"), None);
    assert_eq!(parse_batch_index("a@"), None);
    assert_eq!(get_bacth_index_from_proc_id(&"proc@12".to_string()), 12);
}

#[test]
fn index_roundtrip_law() {
    for b in [0usize, 1, 9, 10, 123, usize::MAX] {
        for i in [0usize, 5, 10, 4096, usize::MAX] {
            let id = generate_index(b, i);
            assert_eq!(get_bacth_index_from_proc_id(&id), i);
        }
    }
}

#[test]
fn index_injective_law() {
    let a = generate_index(1, 23);
    let b = generate_index(12, 3);
    assert_ne!(a, b);
    assert_ne!(generate_index(0, 10), generate_index(10, 0));
}

#[test]
fn grid_shapes() {
    assert!(Grid::new(0, 0, vec![]).is_some());
    assert!(Grid::new(0, 0, vec![vec![v("a")], vec![v("b"), v("c")]]).is_none());
    assert!(Grid::new(0, 0, vec![vec![]]).is_none());
    assert!(Grid::new(u32::MAX, 0, vec![vec![v("a")], vec![v("b")]]).is_none());
    assert!(Grid::new(u32::MAX, u32::MAX, vec![vec![v("a")]]).is_some());
    let g = Grid::new(2, 1, vec![vec![v("a"), v("b")]]).unwrap();
    assert!(matches!(g.get_value(2, 2), Some(Cell::Value(s)) if s == "b"));
    assert!(g.get_value(0, 1).is_none());
    assert!(g.get_value(2, 3).is_none());
    assert!(matches!(g.get(0, 0), Some(Cell::Value(s)) if s == "a"));
    assert!(g.get(1, 0).is_none());
}

#[test]
fn grid_reads_past_the_last_column() {
    let g = sample();
    assert!(matches!(g.get(0, 4), Some(Cell::Value(s)) if s == "bolt"));
    assert!(matches!(g.get(1, 3), Some(Cell::Value(s)) if s == "B2"));
    assert!(g.get(2, 6).is_none());
    let row = g.row(1).clone_cells();
    let cols = vec![(4usize, set(&["nut"]))];
    let rows = filter_rows_1(&row, &cols, &g, "f".to_string(), 1).unwrap();
    assert_eq!(rows.len(), 1);
    assert_eq!(&rows[0][5..7], &strings(&["bolt", "nut"])[..]);
}

#[test]
fn validity_checks_title_row() {
    let titles = validity(&sample()).unwrap();
    assert_eq!(
        titles,
        strings(&[
            "File Last Revised Date",
            "File Number",
            "Serial Number",
            "File Number - Serial Number",
            "Filename",
            "Data",
            "Code",
            "Name",
            "Qty"
        ])
    );
    assert!(validity(&grid(vec![])).is_none());
    assert!(validity(&grid(vec![vec![v("a"), Cell::Empty]])).is_none());
    assert_eq!(validity(&grid(vec![vec![v("")]])).unwrap().len(), 7);
}

#[test]
fn validity_1_finds_query_columns() {
    let mut q = TitleQuery::new();
    q.insert("Qty".to_string(), set(&["3"]));
    q.insert("Code".to_string(), set(&["A1", "B2"]));
    let (titles, cols) = validity_1(&sample(), q).unwrap();
    assert_eq!(titles.len(), 10);
    assert_eq!(titles[5], "Title");
    assert_eq!(cols.len(), 2);
    assert_eq!(cols[0].0, 0);
    assert_eq!(cols[0].1.len(), 2);
    assert_eq!(cols[1].0, 2);
    assert!(validity_1(&grid(vec![vec![Cell::Empty]]), TitleQuery::new()).is_none());
}

#[test]
fn filter_rows_builds_report_rows() {
    let row = vec![v("A 1"), v(" bolt"), Cell::Empty];
    let q = set(&["zzz", "bolt", "A1"]);
    let rows = filter_rows(&row, &q, "f.xlsx".to_string(), 4).unwrap();
    assert_eq!(rows.len(), 2);
    for (r, data) in rows.iter().zip(["bolt", "A1"]) {
        assert_eq!(r[0].len(), 19);
        assert_eq!(&r[1..6], &strings(&["Unknown", "Unknown", "Unknown", "f.xlsx", data])[..]);
        assert_eq!(&r[6..], &strings(&["A1", "bolt", "", "4"])[..]);
    }
    assert!(filter_rows(&row, &set(&["nothing"]), "f".to_string(), 0).is_none());
}

#[test]
fn filter_rows_1_matches_columns() {
    let g = sample();
    let mut q = TitleQuery::new();
    q.insert("Code".to_string(), set(&["B2"]));
    q.insert("Qty".to_string(), set(&["A1"]));
    let (_, cols) = validity_1(&g, q).unwrap();
    let row = g.row(2).clone_cells();
    let rows = filter_rows_1(&row, &cols, &g, "f".to_string(), 2).unwrap();
    assert_eq!(rows.len(), 2);
    assert_eq!(&rows[0][5..7], &strings(&["Code", "B2"])[..]);
    assert_eq!(&rows[1][5..7], &strings(&["Qty", "A1"])[..]);
    assert_eq!(rows[0].last().unwrap(), "2");
    assert!(filter_rows_1(&row, &cols, &g, "f".to_string(), 1).is_none());
    assert!(filter_rows_1(&row, &cols, &g, "f".to_string(), 9).is_none());
}

trait CloneCells {
    fn clone_cells(&self) -> Vec<Cell>;
}

impl CloneCells for Vec<Cell> {
    fn clone_cells(&self) -> Vec<Cell> {
        self.iter()
            .map(|c| match c {
                Cell::Empty => Cell::Empty,
                Cell::Value(s) => Cell::Value(s.clone()),
            })
            .collect()
    }
}

#[test]
fn file_numbers_are_stable_and_distinct() {
    let mut m: StringHashMap<usize> = StringHashMap::new();
    assert_eq!(file_index_gen(&mut m, &"a.xlsx".to_string()), 1);
    assert_eq!(file_index_gen(&mut m, &"b.xlsx".to_string()), 2);
    assert_eq!(file_index_gen(&mut m, &"a.xlsx".to_string()), 1);
    assert_eq!(file_index_gen(&mut m, &"c.xlsx".to_string()), 3);
    assert_eq!(m.len(), 3);
}

#[test]
fn query_membership() {
    let q = set(&["a", "b", "a"]);
    assert_eq!(q.len(), 2);
    assert!(is_query(&q, "b".to_string()));
    assert!(!is_query(&q, "c".to_string()));
    let mut t = TitleQuery::new();
    t.insert("k".to_string(), set(&["1"]));
    t.insert("k".to_string(), set(&["2", "3"]));
    assert_eq!(t.len(), 1);
    assert_eq!(t.get(&"k".to_string()).unwrap().len(), 2);
    assert!(t.get(&"j".to_string()).is_none());
}

#[test]
fn file_trails() {
    assert_eq!(get_file_trail(None).unwrap(), "Dangerous Or Missing filename.xlsx");
    assert_eq!(get_file_trail(Some("report.final.xlsx")).unwrap(), "report.xlsx");
    assert_eq!(get_file_trail(Some("../../etc/data.csv")).unwrap(), "data.csv");
    assert_eq!(get_file_trail(Some("noext")).unwrap(), "noext.noext");
    assert!(get_file_trail(Some("//./.<>")).is_none());
    assert_eq!(get_file_trail(Some("some-file.txt.zip")).unwrap(), "some-file.zip");
    assert_eq!(get_file_trail(Some(".hidden.csv")).unwrap(), "hidden.csv");
    assert!(get_file_trail(Some("...")).is_none());
    assert!(get_file_trail(Some("")).is_none());
    assert_eq!(file_trail("a", "x.tar.gz"), "a.gz");
    assert_eq!(file_trail("a", "x."), "a.");
}

#[test]
fn report_formats_follow_styles() {
    let only = JsonQuery::OnlyData(QuerySet::new());
    let titled = JsonQuery::TitleData(TitleQuery::new());
    assert_eq!(
        gen_format(&only, 5, 0),
        Format::new().set_background_color(Color::Cyan).set_bold().set_font_size(12)
    );
    assert_eq!(gen_format(&only, 1, 0), Format::new().set_bold().set_font_size(12));
    assert_eq!(
        gen_format(&only, 5, 4),
        Format::new().set_bold().set_background_color(Color::Pink).set_font_size(12)
    );
    assert_eq!(gen_format(&only, 2, 4), Format::new());
    assert_eq!(gen_format(&titled, 5, 0), Format::new());
    assert_ne!(gen_format(&only, 5, 4), gen_format(&only, 5, 0));
    assert_ne!(
        gen_format(&only, 5, 0),
        Format::new().set_background_color(Color::RGB(0x00FFFF)).set_bold().set_font_size(12)
    );
}

#[test]
fn cell_styles() {
    let only = JsonQuery::OnlyData(QuerySet::new());
    let titled = JsonQuery::TitleData(TitleQuery::new());
    let s = format_style(&only, 5, 0);
    assert!(s.bold && s.font_size == Some(12) && s.background == Some(Highlight::Cyan));
    let s = format_style(&only, 2, 0);
    assert!(s.bold && s.font_size == Some(12) && s.background.is_none());
    let s = format_style(&only, 5, 3);
    assert!(s.bold && s.font_size == Some(12) && s.background == Some(Highlight::Pink));
    let s = format_style(&only, 1, 3);
    assert!(!s.bold && s.font_size.is_none() && s.background.is_none());
    let s = format_style(&titled, 5, 0);
    assert!(!s.bold && s.font_size.is_none() && s.background.is_none());
}

#[test]
fn merge_titles_keeps_one_column_per_title() {
    let mut ws = rust_xlsxwriter::Worksheet::new();
    let mut map: StringHashMap<usize> = StringHashMap::new();
    let q = JsonQuery::OnlyData(QuerySet::new());
    let cols = merge_titles(strings(&["A", " A", "B", "A\t"]), &mut map, &mut ws, &q).unwrap();
    assert_eq!(cols, vec![0, 0, 1, 0]);
    let cols = merge_titles(strings(&["B", "C"]), &mut map, &mut ws, &q).unwrap();
    assert_eq!(cols, vec![1, 2]);
    assert_eq!(map.len(), 3);
    let long = "x".repeat(40_000);
    let r = merge_titles(vec![long], &mut map, &mut ws, &q);
    assert!(matches!(r, Err(IndexError::XlsxwriterError(_))));
    assert_eq!(map.len(), 3);
}

#[test]
fn data_row_search() {
    let (titles, matrix) =
        search_for_data_row(Some(Ok(sample())), set(&["A1", "3"]), "f.xlsx".to_string()).unwrap();
    assert_eq!(titles.len(), 9);
    assert_eq!(matrix.len(), 4);
    assert_eq!(matrix[0][5], "A1");
    assert_eq!(matrix[0].last().unwrap(), "1");
    assert_eq!(matrix[1][5], "3");
    assert_eq!(matrix[2].last().unwrap(), "2");
    assert_eq!(matrix[3].last().unwrap(), "3");
    for row in &matrix {
        assert_eq!(row.len(), titles.len() + 1);
    }
    match search_for_data_row(None, set(&[]), "f".to_string()) {
        Err(IndexError::NotFound(s)) => {
            assert_eq!(s, "The workbook was not found...? Or Could not be opened")
        }
        _ => panic!("expected NotFound"),
    }
    assert!(matches!(
        search_for_data_row(Some(Err(calamine::Error::Msg("bad"))), set(&[]), "f".to_string()),
        Err(IndexError::CalamineError(calamine::Error::Msg("bad")))
    ));
    match search_for_data_row(Some(Ok(grid(vec![vec![Cell::Empty]]))), set(&[]), "f".to_string()) {
        Err(IndexError::FileFormatError(s)) => {
            assert_eq!(s, "Invalid file , the row had an empty column")
        }
        _ => panic!("expected FileFormatError"),
    }
}

#[test]
fn title_data_row_search() {
    let mut q = TitleQuery::new();
    q.insert("Name".to_string(), set(&["nut", "A1"]));
    let (titles, matrix) =
        search_for_data_row_1(Some(Ok(sample())), q, "f.xlsx".to_string()).unwrap();
    assert_eq!(titles.len(), 10);
    assert_eq!(matrix.len(), 2);
    assert_eq!(&matrix[0][5..7], &strings(&["Name", "nut"])[..]);
    assert_eq!(&matrix[1][5..7], &strings(&["Name", "A1"])[..]);
    for row in &matrix {
        assert_eq!(row.len(), titles.len() + 1);
    }
    assert!(matches!(
        search_for_data_row_1(None, TitleQuery::new(), "f".to_string()),
        Err(IndexError::NotFound(_))
    ));
}

#[test]
fn cell_searches_group_hits_by_title() {
    let r = search_for_d_x(Some(Ok(sample())), set(&["A1", "3", "nut"]), 7).unwrap();
    assert_eq!(r.len(), 3);
    assert_eq!(r[0].0, "Code");
    assert_eq!(r[0].1, strings(&["A 1"]));
    assert_eq!(r[1].0, "Qty");
    assert_eq!(r[1].1, strings(&["3", "A1"]));
    assert_eq!(r[2].0, "Name");
    assert_eq!(r[2].1, strings(&["nut", "A1"]));
    let d = search_for_d(Some(Ok(sample())), set(&["A1"])).unwrap();
    assert_eq!(d.len(), 3);
    assert!(search_for_d(None, set(&["A1"])).is_none());
    let shifted = Grid::new(1, 0, vec![vec![v("T")], vec![v("A1")]]).unwrap();
    assert!(search_for_d(Some(Ok(shifted)), set(&["A1"])).unwrap().is_empty());

    let mut q = TitleQuery::new();
    q.insert("Code".to_string(), set(&["A1", "B2"]));
    q.insert("Name".to_string(), set(&["nut"]));
    let t = search_for_td(Some(Ok(sample())), q, 2).unwrap();
    assert_eq!(t.len(), 2);
    assert_eq!(t[0].0, "Code");
    assert_eq!(t[0].1, strings(&["A 1", "B2"]));
    assert_eq!(t[1].0, "Name");
    assert!(search_for_td(Some(Err(calamine::Error::Msg("x"))), TitleQuery::new(), 0).is_none());
}

#[test]
fn same_title_columns_are_listed_once() {
    let g = grid(vec![vec![v("T"), v("T")], vec![v("a"), v("a")]]);
    let mut q = TitleQuery::new();
    q.insert("T".to_string(), set(&["a"]));
    let t = search_for_td(Some(Ok(g)), q, 0).unwrap();
    assert_eq!(t.len(), 1);
}

#[test]
fn batches_are_written_in_order() {
    let (titles, body) =
        search_for_data_row(Some(Ok(sample())), set(&["A1"]), "f.xlsx".to_string()).unwrap();
    let mut batch = Batch::new("p@0".to_string(), JsonQuery::OnlyData(set(&["A1"])));
    batch.file_results.push(FileResult { titles: titles.clone(), body_matrix: body });
    batch.file_results.push(FileResult::new());
    assert!(batch_fits(&batch, 0, 1));
    assert!(!batch_fits(&batch, usize::MAX, 1));
    let mut ws = rust_xlsxwriter::Worksheet::new();
    let mut titles_map: StringHashMap<usize> = StringHashMap::new();
    let mut files: StringHashMap<usize> = StringHashMap::new();
    let mut row = 1usize;
    write_batch(&mut ws, &mut titles_map, &mut files, &mut row, batch);
    assert_eq!(row, 4);
    assert_eq!(titles_map.len(), titles.len());
    assert_eq!(files.len(), 1);

    let mut bad = Batch::new("p@1".to_string(), JsonQuery::OnlyData(QuerySet::new()));
    bad.file_results.push(FileResult {
        titles: strings(&["a"]),
        body_matrix: vec![strings(&["1", "2", "3"])],
    });
    assert!(!batch_fits(&bad, 0, 1));
}

#[test]
fn report_header_keeps_each_title_once() {
    let mut ws = rust_xlsxwriter::Worksheet::new();
    let mut titles_map: StringHashMap<usize> = StringHashMap::new();
    let mut files: StringHashMap<usize> = StringHashMap::new();
    let mut row = 1usize;
    let mut first = Batch::new("p@0".to_string(), JsonQuery::OnlyData(set(&["x"])));
    first.file_results.push(FileResult {
        titles: strings(&["T0", "T1", "T2", "T3", "Filename", "Data", "Code"]),
        body_matrix: vec![strings(&["t", "u", "u", "u", "a.xlsx", "x", "x", "1"])],
    });
    let mut second = Batch::new("p@1".to_string(), JsonQuery::OnlyData(set(&["x"])));
    second.file_results.push(FileResult {
        titles: strings(&["T0", "T 1", "T2", "T3", "File name", "Data", "Qty"]),
        body_matrix: vec![strings(&["t", "u", "u", "u", "b.xlsx", "x", "x", "2"])],
    });
    assert!(batch_fits(&first, 0, row));
    write_batch(&mut ws, &mut titles_map, &mut files, &mut row, first);
    assert_eq!(titles_map.len(), 7);
    assert!(batch_fits(&second, files.len(), row));
    write_batch(&mut ws, &mut titles_map, &mut files, &mut row, second);
    assert_eq!(titles_map.len(), 8);
    assert_eq!(titles_map.get("T1"), Some(&1));
    assert_eq!(titles_map.get("Filename"), Some(&4));
    assert_eq!(titles_map.get("Qty"), Some(&7));
    assert_eq!(row, 3);
    assert_eq!(files.len(), 2);
}

#[test]
fn workbooks_are_zip_files() {
    let mut wb = matrix_workbook(vec![strings(&["a", "b"]), strings(&["c"])]);
    assert_eq!(wb.worksheets().len(), 1);
    assert!(!wb.save_to_buffer().unwrap().is_empty());
    assert_eq!(example_workbook().worksheets().len(), 1);
    let bytes = new_example().unwrap();
    assert_eq!(&bytes[0..2], b"PK");
    let bytes = new_excel_file(vec![vec!["a", "b"], vec!["c"]]).unwrap();
    assert_eq!(&bytes[0..2], b"PK");
    let bytes = new_excel_file_t(vec![vec!["a".to_string()]]).unwrap();
    assert_eq!(&bytes[0..2], b"PK");
}

#[test]
fn time_text_shape() {
    let t = get_time();
    let c: Vec<char> = t.chars().collect();
    assert_eq!(c.len(), 19);
    assert_eq!((c[4], c[7], c[10], c[13], c[16]), ('-', '-', ' ', ':', ':'));
    let field = |i: usize| c[i].to_digit(10).unwrap() * 10 + c[i + 1].to_digit(10).unwrap();
    assert!(c[..4].iter().all(|d| d.is_ascii_digit()));
    assert!((1..=12).contains(&field(5)));
    assert!((1..=31).contains(&field(8)));
    assert!(field(11) <= 23 && field(14) <= 59 && field(17) <= 60);
}

#[test]
fn processes_get_fresh_ids() {
    let a = Process::new();
    let b = Process::new();
    assert_eq!(a.total_batches, 1);
    assert_eq!(a.proc_id.len(), 36);
    for (i, c) in a.proc_id.chars().enumerate() {
        if i == 8 || i == 13 || i == 18 || i == 23 {
            assert_eq!(c, '-');
        } else {
            assert!(c.is_ascii_digit() || ('a'..='f').contains(&c));
        }
    }
    let c: Vec<char> = a.proc_id.chars().collect();
    assert_eq!(c[14], '4');
    assert!(matches!(c[19], '8' | '9' | 'a' | 'b'));
    assert!(a.data.is_empty());
    assert_ne!(a.proc_id, b.proc_id);
}

fn user(name: &str, email: &str, phone: i64) -> Duserreq {
    let inst = DuserInst { fullname: name.to_string(), email: email.to_string(), phone_number: phone };
    Duserreq {
        id: uuid::Uuid::nil(),
        fullname: inst.fullname,
        email: inst.email,
        phone_number: inst.phone_number,
        joined: chrono::NaiveDate::from_ymd_opt(2000, 1, 1).unwrap(),
    }
}

#[test]
fn sign_up_rules() {
    let mut ok = user("Jane Doe", "jane.doe+x@mail.example.com", 123456789);
    let saved = ok.validate_and_save().unwrap();
    assert_ne!(saved.id, uuid::Uuid::nil());
    assert_eq!(saved.id.get_version_num(), 4);
    assert_eq!(saved.id, ok.id);
    assert_eq!(saved.email, "jane.doe+x@mail.example.com");
    assert!(user("Jane", "a@b.co", -12345678).validate_and_save().is_some());
    assert!(user("Jane", "a@b.co", 12345678).validate_and_save().is_none());
    assert!(user("Jan", "a@b.co", 123456789).validate_and_save().is_none());
    assert!(user("Jé", "a@b.co", 123456789).validate_and_save().is_none());
    assert!(user("Jéé", "a@b.co", 123456789).validate_and_save().is_some());
    for bad in ["a@b.c", "@b.co", "a@.co", "a@b", "a b@c.co", "a@b.co ", "a@b.c0"] {
        assert!(user("Jane", bad, 123456789).validate_and_save().is_none(), "{bad}");
    }
    for good in ["a@b.co", "x_y%z-1@d-1.e.org", "A@B.CD"] {
        assert!(user("Jane", good, 123456789).validate_and_save().is_some(), "{good}");
    }
}

#[test]
fn sign_ups_become_records() {
    let make = || DuserInst {
        fullname: "Jane Doe".to_string(),
        email: "jane@mail.example.com".to_string(),
        phone_number: 123456789,
    };
    let a = make().into();
    let b = make().into();
    assert_eq!(a.fullname, "Jane Doe");
    assert_eq!(a.email, "jane@mail.example.com");
    assert_eq!(a.phone_number, 123456789);
    assert_ne!(a.id, b.id);
    assert_eq!(a.id.get_version_num(), 4);
    let today = chrono::Utc::now().date_naive();
    assert!(a.joined == today || a.joined.succ_opt() == Some(today));
}

#[test]
fn sign_ups_are_stamped_with_given_id_and_date() {
    let id = uuid::Uuid::from_u128(7);
    let day = chrono::NaiveDate::from_ymd_opt(2024, 2, 29).unwrap();
    let mut ok = user("Jane Doe", "jane@mail.example.com", 123456789);
    let saved = ok.validate_with(id, day).unwrap();
    assert_eq!((saved.id, saved.joined), (id, day));
    assert_eq!((ok.id, ok.joined), (id, day));
    let mut bad = user("Jo", "jane@mail.example.com", 123456789);
    assert!(bad.validate_with(id, day).is_none());
    assert_eq!((bad.id, bad.joined), (id, day));
}

#[test]
fn error_constructors() {
    assert!(matches!(IndexError::invalid_file_format("m"), IndexError::FileFormatError(s) if s == "m"));
    assert!(matches!(IndexError::no_match_found("n"), IndexError::NoMatchFound(s) if s == "n"));
    assert!(matches!(IndexError::not_found(&5), IndexError::NotFound(s) if s == "5"));
}

#[test]
fn thread_shares_cover_the_work() {
    for amount in [0usize, 1, 7, 11111, 100000] {
        for threads in [1usize, 2, 3, 32, 200] {
            let total: usize = (0..threads).map(|t| thread_share(amount, threads, t)).sum();
            assert_eq!(total, amount);
        }
    }
    assert_eq!(thread_share(11111, 32, 0), 347);
    assert_eq!(thread_share(11111, 32, 31), 347 + 7);
    assert_eq!(chunk_end(10, 5, 3, 100, 200), 15);
    assert_eq!(chunk_end(10, 5, 99, 100, 7), 17);
}

fn chunk_bounds(ex_count: usize, threads: usize) -> Vec<usize> {
    let mut bounds = vec![0usize];
    for t in 0..threads {
        let start = *bounds.last().unwrap();
        bounds.push(chunk_end(start, ex_count / threads, t, ex_count, threads));
    }
    bounds
}

#[test]
fn worker_chunks_cover_every_item_once() {
    for (ex_count, threads) in [(100000usize, 200usize), (5, 8), (8, 8), (12, 4)] {
        let b = chunk_bounds(ex_count, threads);
        assert!(b.windows(2).all(|w| w[0] <= w[1]));
        assert_eq!(*b.last().unwrap(), ex_count);
    }
    assert_eq!(*chunk_bounds(5, 2).last().unwrap(), 4);
}
