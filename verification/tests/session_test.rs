use std::collections::HashMap;

use sheet_search::text::cleanText;

#[test]
fn edue() {
    for (x, _) in (1..3).enumerate() {
        println!("{x}");
    }

    let mut map = HashMap::new();
    map.insert("物料代號\nmã vật liệu", "1");
    assert!(map.get("物料代號\nmã vật liệu").is_some())
}

#[test]
#[allow(non_snake_case)]
fn testcleanText() {
    let text = String::from("text\n\n\r\r\t\t  ");
    let res = cleanText(&text);
    assert_eq!(res.contains("\r"), false)
}
