use multitext::parse_lines;

fn to_lines(xs: &[&str]) -> Vec<String> {
    xs.iter().map(|s| s.to_string()).collect()
}

#[test]
fn test_parse() {
    let lines = to_lines(&[
        "these two lines",
        "should be ignored",
        "###multitext header",
        "mh line 1",
        "mh line 2",
        "mh line 3",
        "###first thing",
        "ft line 1",
        "ft line 2",
        "ft line 3",
        "ft line 4",
        "### second thing ",
        "st line 1",
        "     ",
        "st line 3",
    ]);
    let mt = parse_lines(&lines).unwrap();
    assert_eq!(mt.len(), 3);
    assert_eq!(
        mt.get("multitext header").unwrap().as_str(),
        "mh line 1\nmh line 2\nmh line 3\n"
    );
    assert_eq!(
        mt.get("first thing").unwrap().as_str(),
        "ft line 1\nft line 2\nft line 3\nft line 4\n"
    );
    assert_eq!(
        mt.get("second thing").unwrap().as_str(),
        "st line 1\n     \nst line 3\n"
    );
}

#[test]
fn three_sections_with_hash_marker() {
    let lines = to_lines(&[
        "x",
        "y",
        "###multitext header",
        "mh line 1",
        "mh line 2",
        "mh line 3",
        "###first thing",
        "ft line 1",
        "###second thing",
        "st line 1",
    ]);
    let mt = parse_lines(&lines).unwrap();
    assert_eq!(mt.len(), 3);
    assert_eq!(
        mt.get("multitext header").unwrap().as_str(),
        "mh line 1\nmh line 2\nmh line 3\n"
    );
    assert_eq!(mt.get("first thing").unwrap().as_str(), "ft line 1\n");
    assert_eq!(mt.get("second thing").unwrap().as_str(), "st line 1\n");
}

#[test]
fn declaring_line_opens_an_empty_section() {
    let lines = to_lines(&[
        "$$ multitext header",
        "$$ fox",
        "The quick brown fox jumps over the lazy dog.",
        "$$ lorem ipsum",
        "Lorem ipsum dolor sit amet",
    ]);
    let mt = parse_lines(&lines).unwrap();
    assert_eq!(mt.len(), 3);
    assert_eq!(mt.get("multitext header").unwrap().as_str(), "");
    assert_eq!(
        mt.get("fox").unwrap().as_str(),
        "The quick brown fox jumps over the lazy dog.\n"
    );
    assert_eq!(
        mt.get("lorem ipsum").unwrap().as_str(),
        "Lorem ipsum dolor sit amet\n"
    );
}

#[test]
fn missing_header_reports_lines_consumed() {
    let lines = to_lines(&["a", "b", "c"]);
    let e = parse_lines(&lines).unwrap_err();
    assert_eq!(e.line_number, Some(3));
    assert_eq!(e.filename, None);
    assert_eq!(e.error_message.as_str(), "missing multitext header");
}

#[test]
fn empty_input_reports_line_zero() {
    let lines: Vec<String> = Vec::new();
    let e = parse_lines(&lines).unwrap_err();
    assert_eq!(e.line_number, Some(0));
    assert_eq!(e.filename, None);
    assert_eq!(e.error_message.as_str(), "missing multitext header");
}

#[test]
fn trailing_marker_line_yields_empty_body() {
    let lines = to_lines(&["$$multitext header", "body", "$$tail"]);
    let mt = parse_lines(&lines).unwrap();
    assert_eq!(mt.len(), 2);
    assert_eq!(mt.get("multitext header").unwrap().as_str(), "body\n");
    assert_eq!(mt.get("tail").unwrap().as_str(), "");
}

#[test]
fn later_section_overwrites_earlier_of_same_name() {
    let lines = to_lines(&[
        "##multitext header",
        "first",
        "## dup",
        "one",
        "## dup",
        "two",
    ]);
    let mt = parse_lines(&lines).unwrap();
    assert_eq!(mt.len(), 2);
    assert_eq!(mt.get("multitext header").unwrap().as_str(), "first\n");
    assert_eq!(mt.get("dup").unwrap().as_str(), "two\n");
}

#[test]
fn reparsing_yields_identical_mapping() {
    let lines = to_lines(&["@@multitext header", "a", "@@ s1", "b", "c", "@@ s2"]);
    let first = parse_lines(&lines).unwrap();
    let second = parse_lines(&lines).unwrap();
    assert_eq!(first.len(), second.len());
    for name in ["multitext header", "s1", "s2"] {
        assert_eq!(first.get(name).unwrap(), second.get(name).unwrap());
    }
}

#[test]
fn empty_marker_makes_every_line_a_marker_line() {
    // The declaring line has no prefix, so the marker is empty and every
    // remaining line opens a (bodiless) section named by its own text.
    let lines = to_lines(&["multitext header", "alpha", "beta"]);
    let mt = parse_lines(&lines).unwrap();
    assert_eq!(mt.len(), 3);
    assert_eq!(mt.get("multitext header").unwrap().as_str(), "");
    assert_eq!(mt.get("alpha").unwrap().as_str(), "");
    assert_eq!(mt.get("beta").unwrap().as_str(), "");
}

#[test]
fn whitespace_only_prefix_trims_to_empty_marker() {
    let lines = to_lines(&["   multitext header", "x"]);
    let mt = parse_lines(&lines).unwrap();
    assert_eq!(mt.len(), 2);
    assert_eq!(mt.get("multitext header").unwrap().as_str(), "");
    assert_eq!(mt.get("x").unwrap().as_str(), "");
}

#[test]
fn marker_keeps_leading_whitespace() {
    // Only trailing whitespace is stripped from the prefix.
    let lines = to_lines(&[" >multitext header", " >a", "body", "not > a marker"]);
    let mt = parse_lines(&lines).unwrap();
    assert_eq!(mt.len(), 2);
    assert_eq!(mt.get("multitext header").unwrap().as_str(), "");
    assert_eq!(mt.get("a").unwrap().as_str(), "body\nnot > a marker\n");
}

#[test]
fn marker_inside_a_line_is_not_a_boundary() {
    let lines = to_lines(&["@@multitext header", "has @@ inside", "@@s"]);
    let mt = parse_lines(&lines).unwrap();
    assert_eq!(mt.len(), 2);
    assert_eq!(
        mt.get("multitext header").unwrap().as_str(),
        "has @@ inside\n"
    );
    assert_eq!(mt.get("s").unwrap().as_str(), "");
}

#[test]
fn discovery_stops_at_first_declaring_line() {
    // The second line also holds the literal, but the marker comes from
    // the first one.
    let lines = to_lines(&[
        "##multitext header",
        "!!multitext header",
        "## next",
        "x",
    ]);
    let mt = parse_lines(&lines).unwrap();
    assert_eq!(mt.len(), 2);
    assert_eq!(
        mt.get("multitext header").unwrap().as_str(),
        "!!multitext header\n"
    );
    assert_eq!(mt.get("next").unwrap().as_str(), "x\n");
}

#[test]
fn section_names_are_trimmed_both_ends() {
    let lines = to_lines(&["%%multitext header", "%%  spaced name \t", "b"]);
    let mt = parse_lines(&lines).unwrap();
    assert_eq!(mt.get("spaced name").unwrap().as_str(), "b\n");
}
