use graph_node::nesting::nesting_of;

#[test]
fn brackets_nest() {
    assert_eq!(nesting_of(""), 0);
    assert_eq!(nesting_of("{ a }"), 1);
    assert_eq!(nesting_of("{ a { b } c { d } }"), 2);
    assert_eq!(nesting_of("{ a(x: [{ y: [] }]) }"), 4);
    assert_eq!(nesting_of("}}]{"), 1);
    assert_eq!(nesting_of("((((a"), 0);
}

#[test]
fn brackets_in_strings_and_comments_do_not_count() {
    assert_eq!(nesting_of("{ a(x: \"}}[[\") { b } }"), 2);
    assert_eq!(nesting_of("{ a(x: \"\\\"{{{\") { b } }"), 2);
    assert_eq!(nesting_of("{ a(x: \"\\\\\") {{{"), 4);
    assert_eq!(nesting_of("{ a(x: \"\") { b } }"), 2);
    assert_eq!(nesting_of("{ a #}{{{"), 1);
    assert_eq!(nesting_of("{ a #}\r{{{"), 4);
}

#[test]
fn block_strings_do_not_count() {
    assert_eq!(nesting_of("{ a { b } c { d } e(x: \"\"\"}\"\"\") }"), 2);
    assert_eq!(nesting_of("{ a(x: \"\"\"[\"\"[\"[\"\"\") {{{"), 4);
    // Three quotation marks after a backslash are part of the string, all of them.
    assert_eq!(nesting_of("{\"\"\"[\\\"\"\"[\"\"\"{"), 2);
    assert_eq!(nesting_of("{\"\"\"[\\\"\"\"\"\"[\"\"\"{"), 2);
    assert_eq!(nesting_of("{\"\"\"[\\\"\"\"\"\"\"{"), 2);
    // The string ends with the first three; a fourth begins the next string.
    assert_eq!(nesting_of("{\"\"\"[\"\"\"\"{{{"), 1);
    assert_eq!(nesting_of("{\"\"\"\"\"\"{{{"), 4);
    // Two are an empty string.
    assert_eq!(nesting_of("{\"\"{\"\"}\"\"#{"), 2);
    assert_eq!(nesting_of("{\"\\\"\"{"), 2);
}
