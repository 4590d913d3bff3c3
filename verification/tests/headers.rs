use mini_http::headers::Headers;

#[test]
fn new_headers_are_empty() {
    let headers = Headers::new();
    assert_eq!(headers.len(), 0);
    assert_eq!(headers.get("Host"), None);
    assert_eq!(headers.get(""), None);
}

#[test]
fn insert_then_get() {
    let mut headers = Headers::new();
    headers.insert(String::from("Host"), String::from("localhost"));
    assert_eq!(headers.len(), 1);
    assert_eq!(headers.get("Host").map(|v| v.as_str()), Some("localhost"));
    assert_eq!(headers.get("host"), None);
    assert_eq!(headers.get("Host "), None);
}

#[test]
fn insert_overwrites_in_place() {
    let mut headers = Headers::new();
    headers.insert(String::from("A"), String::from("1"));
    headers.insert(String::from("B"), String::from("2"));
    headers.insert(String::from("C"), String::from("3"));
    headers.insert(String::from("B"), String::from("4"));
    assert_eq!(headers.len(), 3);
    assert_eq!(headers.get("A").map(|v| v.as_str()), Some("1"));
    assert_eq!(headers.get("B").map(|v| v.as_str()), Some("4"));
    assert_eq!(headers.get("C").map(|v| v.as_str()), Some("3"));
    assert_eq!(headers.name_at(0), "A");
    assert_eq!(headers.name_at(1), "B");
    assert_eq!(headers.value_at(1), "4");
    assert_eq!(headers.name_at(2), "C");
    assert_eq!(headers.value_at(2), "3");
}

#[test]
fn names_differ_by_case() {
    let mut headers = Headers::new();
    headers.insert(String::from("Content-Length"), String::from("1"));
    headers.insert(String::from("content-length"), String::from("2"));
    headers.insert(String::from("CONTENT-LENGTH"), String::from("3"));
    assert_eq!(headers.len(), 3);
    assert_eq!(headers.get("Content-Length").map(|v| v.as_str()), Some("1"));
    assert_eq!(headers.get("content-length").map(|v| v.as_str()), Some("2"));
    assert_eq!(headers.get("CONTENT-LENGTH").map(|v| v.as_str()), Some("3"));
}

#[test]
fn no_name_occurs_twice() {
    let mut headers = Headers::new();
    for round in 0..5 {
        for name in ["x", "y", "z", "", "\u{e9}"] {
            headers.insert(String::from(name), format!("{}{}", name, round));
        }
    }
    assert_eq!(headers.len(), 5);
    for i in 0..headers.len() {
        for j in 0..i {
            assert_ne!(headers.name_at(i), headers.name_at(j));
        }
        assert_eq!(headers.value_at(i), &format!("{}4", headers.name_at(i)));
    }
}
