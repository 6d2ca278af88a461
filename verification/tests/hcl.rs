use fleetform::hcl::{
    extract_quoted_value, parse_block, parse_blocks, parse_terraform_config,
    validate_hcl_syntax, SyntaxError,
};

#[test]
fn single_line_resource_block() {
    let text = "resource \"aws_instance\" \"example\" { instance_type = \"t2.micro\" }";
    let blocks = parse_blocks(text).unwrap();
    assert_eq!(blocks.len(), 1);
    let block = &blocks[0];
    assert_eq!(block.block_type, "resource");
    assert_eq!(block.labels, vec!["aws_instance".to_string(), "example".to_string()]);
    assert_eq!(block.attribute_count(), 1);
    assert_eq!(block.attribute("instance_type"), Some(&"t2.micro".to_string()));
    assert!(block.blocks.is_empty());
    assert_eq!(
        parse_terraform_config(text).unwrap(),
        vec!["aws_instance_example".to_string()]
    );
}

#[test]
fn multi_line_block_with_nested_block() {
    let text = "# leading comment\nresource \"aws_instance\" \"web\" {\n  ami = \"ami-1\", # trailing\n  # a comment line\n\n  tags {\n    Name = \"x\"\n  }\n  count = 2\n}\n";
    let blocks = parse_blocks(text).unwrap();
    assert_eq!(blocks.len(), 1);
    let block = &blocks[0];
    assert_eq!(block.block_type, "resource");
    assert_eq!(block.labels, vec!["aws_instance".to_string(), "web".to_string()]);
    assert_eq!(block.attribute_count(), 2);
    assert_eq!(block.attribute("ami"), Some(&"ami-1".to_string()));
    assert_eq!(block.attribute("count"), Some(&"2".to_string()));
    assert_eq!(block.blocks.len(), 1);
    let nested = &block.blocks[0];
    assert_eq!(nested.block_type, "tags");
    assert!(nested.labels.is_empty());
    assert_eq!(nested.attribute("Name"), Some(&"x".to_string()));
}

#[test]
fn unmatched_open_brace_is_rejected() {
    assert_eq!(parse_blocks("resource \"a\" \"b\" {").err(), Some(SyntaxError::UnmatchedBraces));
    assert_eq!(validate_hcl_syntax("resource \"a\" \"b\" {"), Err(SyntaxError::UnmatchedBraces));
}

#[test]
fn quoted_value() {
    assert_eq!(extract_quoted_value("\"abc\""), Some("abc".to_string()));
    assert_eq!(extract_quoted_value("\"\""), Some(String::new()));
    assert_eq!(extract_quoted_value("\""), None);
    assert_eq!(extract_quoted_value("abc"), None);
    assert_eq!(extract_quoted_value("\"abc"), None);
}

#[test]
fn block_without_type_is_rejected() {
    assert_eq!(parse_blocks("{}").err(), Some(SyntaxError::MissingBlockType));
    assert_eq!(parse_block("{ a = 1 }").err(), Some(SyntaxError::MissingBlockType));
}

#[test]
fn quoted_value_before_a_comma_loses_both() {
    let block = parse_block("a {\nx = \"v\",\n}").ok().unwrap();
    assert_eq!(block.block_type, "a");
    assert_eq!(block.attribute_count(), 1);
    assert_eq!(block.attribute("x"), Some(&"v".to_string()));
}
