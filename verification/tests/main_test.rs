use std::collections::{HashMap, HashSet};

use sheet_search::text::{cleanText, generate_index, get_bacth_index_from_proc_id};

#[test]
fn testclean_text() {
    let text = String::from("text\n\n\r\r\t\t  now go");
    let res = cleanText(&text);
    println!("{res:?}");
    assert_eq!(res.contains("\r"), false)
}

#[test]
fn test_get_index() {
    let proc_id = "duheih@1".to_string();
    let id = get_bacth_index_from_proc_id(&proc_id);
    assert_eq!(id, 1);
}

#[test]
fn test_gen_index() {
    let mut indexes = vec![];
    for batch in 0..10 {
        for file_index in 0..10 {
            let file_batch_index = generate_index(batch, file_index);
            indexes.push(file_batch_index);
        }
    }
    println!("{:?}", indexes);
    let mut as_set = HashSet::new();
    for y in indexes.to_owned() {
        as_set.insert(y);
    }
    assert_eq!(indexes.len(), as_set.len());
}

#[test]
fn maps_test() {
    let (mut a_s, mut a_b) = (Vec::new(), Vec::new());

    a_s.extend(["1", "2", "3", "6", "iter"]);
    a_b.extend(["iter", "not", "1"]);
    let _v = vec![vec!["name", "brother", "her"], vec!["yourname", "1"]];

    a_b.extend(a_s);

    println!("{a_b:?}");
}

#[test]
fn gen_titles() {
    // loop through all the titles and create a map only if the title is unique
    let titles = vec!["titles1", "titles1", "titles2 ", "titles 2", "titles3"];

    // create a map for the title and its index and also create a new vector a unique titles
    let mut clean_title_index_map = HashMap::new();
    let mut titles_vec_set = Vec::new();

    for title in titles {
        if !clean_title_index_map.contains_key(&cleanText(&title.to_string())) {
            titles_vec_set.push(title);
            clean_title_index_map.insert(cleanText(&title.to_string()), titles_vec_set.len() - 1);
        }
    }

    println!("Clean Map: {:?} \n Vec Set: {:?}", clean_title_index_map, titles_vec_set);
}

#[test]
fn test_main_x() {
    // a map of file names to their indexes, and a map of cleaned titles to their columns
    let _file_index_map: HashMap<&str, usize> = HashMap::new();
    let _clean_title_index_map: HashMap<String, usize> = HashMap::new();
}
