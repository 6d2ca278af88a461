use fleetform::hcl::{
    parse_block, parse_blocks, parse_terraform_config, validate_hcl_syntax, SyntaxError,
};

fn strings(v: &[&str]) -> Vec<String> {
    v.iter().map(|s| s.to_string()).collect()
}

#[test]
fn empty_text_has_no_blocks() {
    assert_eq!(parse_blocks("").ok().unwrap().len(), 0);
    assert_eq!(parse_blocks("  \n\t ").ok().unwrap().len(), 0);
    assert_eq!(parse_blocks("# only a comment").ok().unwrap().len(), 0);
    assert_eq!(parse_blocks("words without braces").ok().unwrap().len(), 0);
    assert_eq!(validate_hcl_syntax(""), Ok(()));
    assert_eq!(parse_terraform_config("").ok().unwrap(), Vec::<String>::new());
}

#[test]
fn several_blocks_keep_their_order() {
    let text = "provider \"aws\" {\n  region = \"eu-west-1\"\n}\n\nresource \"aws_instance\" \"a\" {\n}\nresource \"aws_s3_bucket\" \"b\" {\n}\nresource \"aws_instance\" \"a\" {\n}\nresource \"lonely\" {\n}\n";
    let blocks = parse_blocks(text).ok().unwrap();
    assert_eq!(blocks.len(), 5);
    assert_eq!(blocks[0].block_type, "provider");
    assert_eq!(blocks[0].labels, strings(&["aws"]));
    assert_eq!(blocks[0].attribute("region"), Some(&"eu-west-1".to_string()));
    assert_eq!(blocks[4].labels, strings(&["lonely"]));
    assert_eq!(
        parse_terraform_config(text).ok().unwrap(),
        strings(&["aws_instance_a", "aws_s3_bucket_b", "aws_instance_a"])
    );
}

#[test]
fn odd_quotes_are_rejected() {
    assert_eq!(parse_blocks("a {\n  x = \"open\n}\n").err(), Some(SyntaxError::UnmatchedQuotes));
    assert_eq!(validate_hcl_syntax("a {\n  x = \"open\n}\n"), Err(SyntaxError::UnmatchedBraces));
    assert_eq!(validate_hcl_syntax("a {\n}\n\""), Err(SyntaxError::UnmatchedQuotes));
    assert_eq!(validate_hcl_syntax("a {\n  x = \"closed\"\n}\n"), Ok(()));
}

#[test]
fn quotes_in_comments_do_not_count() {
    let text = "a {\n  x = 1 # \"\n}\n";
    assert_eq!(validate_hcl_syntax(text), Ok(()));
    let blocks = parse_blocks(text).ok().unwrap();
    assert_eq!(blocks[0].attribute("x"), Some(&"1".to_string()));
}

#[test]
fn escaped_quote_does_not_close_a_string() {
    let text = "a {\n  x = \"say \\\"hi\\\"\"\n}\n";
    assert_eq!(validate_hcl_syntax(text), Ok(()));
    assert_eq!(parse_blocks("a {\n  x = \"bad\\\"\n}\n").err(), Some(SyntaxError::UnmatchedQuotes));
    assert_eq!(validate_hcl_syntax("a {\n  x = \"bad\\\"\n}\n"), Err(SyntaxError::UnmatchedBraces));
}

#[test]
fn hash_inside_a_string_is_no_comment() {
    let text = "a {\n  color = \"#fff\"\n}\n";
    let blocks = parse_blocks(text).ok().unwrap();
    assert_eq!(blocks[0].attribute("color"), Some(&"#fff".to_string()));
}

#[test]
fn closing_brace_without_opening_is_rejected() {
    assert_eq!(validate_hcl_syntax("}"), Err(SyntaxError::UnexpectedClosingBrace));
    assert_eq!(validate_hcl_syntax("} {"), Err(SyntaxError::UnexpectedClosingBrace));
    assert_eq!(validate_hcl_syntax("a { } }"), Err(SyntaxError::UnexpectedClosingBrace));
    assert_eq!(parse_blocks("}").err(), Some(SyntaxError::UnmatchedBraces));
    assert_eq!(parse_blocks("} {").ok().unwrap().len(), 0);
}

#[test]
fn braces_in_strings_are_hidden_from_the_check_only() {
    assert_eq!(validate_hcl_syntax("a {\n  x = \"}\"\n}\n"), Err(SyntaxError::UnmatchedBraces));
    assert_eq!(parse_blocks("a {\n  x = \"}\"\n}\n").err(), Some(SyntaxError::UnmatchedBraces));
    assert_eq!(validate_hcl_syntax("a {\n  x = \"{}\"\n}\n"), Ok(()));
}

#[test]
fn later_attribute_wins() {
    let blocks = parse_blocks("a {\n  x = 1\n  y = 2\n  x = 3\n}\n").ok().unwrap();
    assert_eq!(blocks[0].attribute_count(), 2);
    assert_eq!(blocks[0].attribute("x"), Some(&"3".to_string()));
    assert_eq!(blocks[0].attribute("y"), Some(&"2".to_string()));
    assert_eq!(blocks[0].attribute("z"), None);
}

#[test]
fn value_is_split_at_the_first_equals_sign() {
    let blocks = parse_blocks("a {\n  expr = left = right\n  list = \"x\",,\n}\n").ok().unwrap();
    assert_eq!(blocks[0].attribute("expr"), Some(&"left = right".to_string()));
    assert_eq!(blocks[0].attribute("list"), Some(&"x".to_string()));
}

#[test]
fn nested_blocks_nest() {
    let text = "a \"l\" {\n  outer = 1\n  b {\n    c \"deep\" {\n      k = v\n    }\n    mid = 2\n  }\n  d {\n  }\n  word\n}\n";
    let blocks = parse_blocks(text).ok().unwrap();
    let a = &blocks[0];
    assert_eq!(a.attribute_count(), 1);
    assert_eq!(a.blocks.len(), 3);
    let b = &a.blocks[0];
    assert_eq!(b.block_type, "b");
    assert_eq!(b.attribute("mid"), Some(&"2".to_string()));
    assert_eq!(b.blocks.len(), 1);
    assert_eq!(b.blocks[0].block_type, "c");
    assert_eq!(b.blocks[0].labels, strings(&["deep"]));
    assert_eq!(b.blocks[0].attribute("k"), Some(&"v".to_string()));
    assert_eq!(a.blocks[1].block_type, "d");
    assert_eq!(a.blocks[2].block_type, "word");
    assert_eq!(a.blocks[2].attribute_count(), 0);
}

#[test]
fn nested_block_without_type_is_rejected() {
    assert_eq!(
        parse_blocks("a {\n  {\n  }\n}\n").err(),
        Some(SyntaxError::MissingBlockType)
    );
}

#[test]
fn header_on_its_own_line() {
    let block = parse_block("tags\n").ok().unwrap();
    assert_eq!(block.block_type, "tags");
    assert!(block.labels.is_empty());
    assert_eq!(block.attribute_count(), 0);
    assert_eq!(parse_block("").err(), Some(SyntaxError::MissingBlockType));
    assert_eq!(parse_block("   \n").err(), Some(SyntaxError::MissingBlockType));
}

#[test]
fn white_space_between_blocks_is_dropped() {
    let blocks = parse_blocks("\n\n   a { }   \n\t b \"x\"  { }\n").ok().unwrap();
    assert_eq!(blocks.len(), 2);
    assert_eq!(blocks[0].block_type, "a");
    assert_eq!(blocks[1].block_type, "b");
    assert_eq!(blocks[1].labels, strings(&["x"]));
}

#[test]
fn messages_name_the_fault() {
    assert_eq!(SyntaxError::UnmatchedBraces.message(), "Invalid HCL syntax: unmatched braces");
    assert_eq!(
        SyntaxError::UnexpectedClosingBrace.message(),
        "Invalid HCL syntax: unexpected closing brace"
    );
    assert_eq!(SyntaxError::UnmatchedQuotes.message(), "Invalid HCL syntax: unmatched quotes");
    assert_eq!(
        SyntaxError::MissingBlockType.message(),
        "Invalid HCL syntax: block without a type"
    );
}

#[test]
fn commas_go_before_quotes() {
    let text = "a {\n  p = \"v\"\n  q = v,\n  r = \",\"\n  s = \"v\",\" ,\n  t = ,\"v\n}\n";
    let blocks = parse_blocks(text).ok().unwrap();
    assert_eq!(blocks[0].attribute("p"), Some(&"v".to_string()));
    assert_eq!(blocks[0].attribute("q"), Some(&"v".to_string()));
    assert_eq!(blocks[0].attribute("r"), Some(&",".to_string()));
    assert_eq!(blocks[0].attribute("s"), Some(&"v\",\" ".to_string()));
    assert_eq!(blocks[0].attribute("t"), Some(&",\"v".to_string()));
}
