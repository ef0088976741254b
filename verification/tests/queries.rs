use graph_node::nesting::nesting_of;
use graph_node::queries::{parse_expensive_queries, record_query, MAX_NESTING};

fn strings(items: &[&str]) -> Vec<String> {
    items.iter().map(|s| s.to_string()).collect()
}

#[test]
fn every_line_is_parsed() {
    let lines = strings(&["{ a }", "query Q { b(x: 1) { c } }"]);
    let queries = parse_expensive_queries(&lines).unwrap().unwrap();
    assert_eq!(queries.len(), 2);
    assert_eq!(queries[0].to_string(), "{\n  a\n}\n");
    for (query, line) in queries.iter().zip(&lines) {
        assert_eq!(*query, graphql_parser::parse_query(line).unwrap());
    }
    assert!(parse_expensive_queries(&Vec::new()).unwrap().unwrap().is_empty());
}

#[test]
fn the_first_invalid_line_is_reported() {
    let error = graphql_parser::parse_query("{ a").unwrap_err().to_string();
    let invalid = parse_expensive_queries(&strings(&["{ ok }", "{ a", "}"])).unwrap().unwrap_err();
    assert_eq!(
        invalid.message,
        format!(
            "invalid GraphQL query in /etc/graph-node/expensive-queries.txt: {}\n{{ a",
            error
        )
    );
    assert!(error.starts_with("query parse error: "));
    // A line without a query is not skipped.
    assert!(parse_expensive_queries(&strings(&["{ ok }", ""])).unwrap().is_err());
}

#[test]
fn outcomes_are_recorded() {
    let mut queries = Vec::new();
    let document = graphql_parser::parse_query("{ a }").unwrap();
    assert!(record_query(&mut queries, "{ a }", Ok(document.clone())).is_ok());
    let invalid = record_query(&mut queries, "line", Err("why".to_string())).unwrap_err();
    assert_eq!(
        invalid.message,
        "invalid GraphQL query in /etc/graph-node/expensive-queries.txt: why\nline"
    );
    assert_eq!(queries, vec![document]);
}

#[test]
fn queries_that_nest_too_deep_are_not_parsed() {
    let shapes: Vec<(&str, &str, &str)> = vec![
        ("{a", "", "}"),
        ("{...on A@b(c:1)", "", "}"),
        ("{a(x:[", "", "])}"),
        ("{a(x:{y:", "1", "}){b}}"),
        ("{a}{a", "", "}"),
    ];
    for (open, middle, close) in shapes {
        let deep = |n: usize| format!("{}{}{}", open.repeat(n), middle, close.repeat(n));
        let fits = |n: &usize| nesting_of(&deep(*n)) <= MAX_NESTING;
        let most = (1..100).filter(fits).max().unwrap();
        let lines = vec!["{ a }".to_string(), deep(most)];
        let parsed = parse_expensive_queries(&lines).unwrap();
        assert_eq!(parsed.is_ok(), graphql_parser::parse_query(&lines[1]).is_ok());
        assert!(parse_expensive_queries(&vec![deep(most + 1)]).is_none());
        assert!(parse_expensive_queries(&vec![deep(100_000)]).is_none());
    }
    let deep = format!("query($a:{}A{}){{a}}", "[".repeat(MAX_NESTING), "]".repeat(MAX_NESTING));
    assert!(parse_expensive_queries(&vec![deep]).unwrap().is_ok());
    let block = format!("{{a(x:\"\"\"}}]\\\"\"\"{{[\"\"\"){}}}", "{b}a".repeat(1000));
    assert!(parse_expensive_queries(&vec![block]).unwrap().is_ok());
    let wide = format!("{{a{}}}", "{b}a".repeat(1000));
    assert!(parse_expensive_queries(&vec![wide]).unwrap().is_ok());
}

#[test]
fn texts_of_several_lines_are_not_parsed() {
    assert!(parse_expensive_queries(&strings(&["{ a }", "{\na }"])).is_none());
    assert_eq!(parse_expensive_queries(&strings(&["{ a }"])).unwrap().unwrap().len(), 1);
    assert!(parse_expensive_queries(&strings(&["{ a"])).unwrap().is_err());
}

#[test]
fn lines_after_an_invalid_one_do_not_matter() {
    let deep = format!("{}a{}", "{a".repeat(MAX_NESTING + 1), "}".repeat(MAX_NESTING + 1));
    let message = |lines: &[&str]| {
        parse_expensive_queries(&strings(lines)).unwrap().unwrap_err().message
    };
    assert_eq!(message(&["{ ok }", "{ a", &deep]), message(&["{ ok }", "{ a"]));
    assert_eq!(message(&["{ a", "x\ny"]), message(&["{ a"]));
    assert!(parse_expensive_queries(&strings(&["{ ok }", &deep, "{ a"])).is_none());
}

#[test]
fn appended_queries_are_last() {
    let few = parse_expensive_queries(&strings(&["{ a }", "{ b }"])).unwrap().unwrap();
    let more = parse_expensive_queries(&strings(&["{ a }", "{ b }", "{ a }"])).unwrap().unwrap();
    assert_eq!(more[..2], few[..]);
    assert_eq!(more[2], few[0]);
}
