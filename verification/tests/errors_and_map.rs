use multitext::is_whitespace;
use multitext::parse_lines;
use multitext::Error;
use multitext::SectionMap;

#[test]
fn render_missing_header_error() {
    let lines: Vec<String> = vec!["a".to_string(), "b".to_string(), "c".to_string()];
    let e = parse_lines(&lines).unwrap_err();
    assert_eq!(
        e.render().as_str(),
        "multitext Error : missing multitext header : (3)"
    );
}

#[test]
fn render_with_attached_filename() {
    let lines: Vec<String> = vec!["no header here".to_string()];
    let mut e = parse_lines(&lines).unwrap_err();
    e.set_filename("shaders.mt".to_string());
    assert_eq!(e.line_number, Some(1));
    assert_eq!(e.filename.as_deref(), Some("shaders.mt"));
    assert_eq!(e.error_message.as_str(), "missing multitext header");
    assert_eq!(
        e.render().as_str(),
        "multitext Error : missing multitext header : shaders.mt(1)"
    );
}

#[test]
fn render_large_line_number() {
    let e = Error {
        line_number: Some(1048576),
        filename: None,
        error_message: "missing multitext header".to_string(),
    };
    assert_eq!(
        e.render().as_str(),
        "multitext Error : missing multitext header : (1048576)"
    );
}

#[test]
fn upstream_error_has_no_line_number() {
    let e = Error::upstream("could not open source".to_string());
    assert_eq!(e.line_number, None);
    assert_eq!(e.filename, None);
    assert_eq!(e.render().as_str(), "multitext Error : could not open source : ");
}

#[test]
fn section_map_insert_overwrites() {
    let mut m = SectionMap::new();
    assert_eq!(m.len(), 0);
    m.insert("a".to_string(), "1".to_string());
    m.insert("b".to_string(), "2".to_string());
    m.insert("a".to_string(), "3".to_string());
    assert_eq!(m.len(), 2);
    assert_eq!(m.get("a").unwrap().as_str(), "3");
    assert_eq!(m.get("b").unwrap().as_str(), "2");
    assert!(m.contains_key("a"));
    assert!(!m.contains_key("c"));
    assert!(m.get("c").is_none());
}

#[test]
fn whitespace_class_matches_trimming() {
    assert!(is_whitespace(' '));
    assert!(is_whitespace('\t'));
    assert!(is_whitespace('\u{3000}'));
    assert!(!is_whitespace('x'));
    assert!(!is_whitespace('#'));
}
