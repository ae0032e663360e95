use gtf_font::{resize_bitmap, Size};

fn rows(v: &[&str]) -> Vec<String> {
    v.iter().map(|s| s.to_string()).collect()
}

#[test]
fn grows_with_fill_character() {
    let r = resize_bitmap(rows(&["#"]), Size { width: 1, height: 1 }, Size { width: 3, height: 2 });
    assert_eq!(r, Ok(rows(&["#..", "..."])));
}

#[test]
fn shrinks_by_cutting() {
    let r = resize_bitmap(rows(&["###", "#.#", "..."]), Size { width: 3, height: 3 }, Size { width: 2, height: 2 });
    assert_eq!(r, Ok(rows(&["##", "#."])));
}

#[test]
fn rejects_zero_sizes() {
    let r = resize_bitmap(rows(&["#"]), Size { width: 1, height: 1 }, Size { width: 0, height: 2 });
    assert_eq!(r, Err("New size dimensions must be greater than zero".to_string()));
    let r = resize_bitmap(rows(&["#"]), Size { width: 1, height: 0 }, Size { width: 1, height: 2 });
    assert_eq!(r, Err("Old size dimensions must be greater than zero".to_string()));
}
