use graph_node::domains::{handles_host, handles_url, MAX_NAME_LEN};

#[test]
fn short_names_are_taken() {
    let name = "\u{e9}".repeat(MAX_NAME_LEN);
    assert!(handles_url(&format!("http://{}/", name)));
    assert!(!handles_url(&format!("http://{}\u{e9}/", name)));
    assert!(!handles_url(&format!(" Http:\\\t/{}\u{e9}", name)));
    assert!(handles_host("http://h/", &name));
    assert!(!handles_host("http://h/", &format!("{}a", name)));
}

#[test]
fn simple_names_are_taken() {
    let long = "a-b.C1".repeat(MAX_NAME_LEN);
    assert!(handles_url(&format!("https://{}:1/", long)));
    assert!(handles_host("ws://h", &long));
    for end in vec!["--", "%", "\u{e9}", " ", "\t"] {
        assert!(!handles_host("ws://h", &format!("{}{}", long, end)));
        assert!(!handles_url(&format!("ws://{}{}?", long, end)));
        assert!(handles_url(&format!("ws://{}?{}", long, end)));
    }
}

#[test]
fn other_schemes_have_no_domain_names() {
    let name = "\u{e9}".repeat(MAX_NAME_LEN + 1);
    assert!(handles_url(&format!("postgres://{}", name)));
    assert!(handles_url(&format!("\u{0}\n postgres://{}", name)));
    assert!(handles_host("postgres://h", &name));
    assert!(handles_url(&name));
    assert!(handles_url(&format!("file{}", name)));
    assert!(handles_url(""));
    assert!(!handles_url(&format!("file:{}", name)));
}
