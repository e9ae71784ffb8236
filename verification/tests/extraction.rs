use docgen::extract::{
    clean_block, extract_page, extract_pages, extract_text, parse_block, split_segments, ExtractError, ManBlock,
};

fn chars(s: &str) -> Vec<char> {
    s.chars().collect()
}

fn text(v: &[char]) -> String {
    v.iter().collect()
}

#[test]
fn whole_file_gives_its_page() {
    let content = chars(
        "/// @MANSTART{foo}\n/// ignored-first-line\n/// Hello\n/// World\n/// @MANEND\n",
    );
    let r = extract_pages(&content);
    assert_eq!(r.error, None);
    assert_eq!(r.pages.len(), 1);
    assert_eq!(text(&r.pages[0].name), "foo");
    assert_eq!(text(&r.pages[0].text), "Hello\nWorld\n");
}

#[test]
fn line_after_the_name_is_left_out() {
    let content =
        chars("// @MANSTART{example}\n// # Example\n// This is a man page.\n// @MANEND\n");
    let r = extract_pages(&content);
    assert_eq!(r.error, None);
    assert_eq!(r.pages.len(), 1);
    assert_eq!(text(&r.pages[0].name), "example");
    assert_eq!(text(&r.pages[0].text), "This is a man page.\n");
}

#[test]
fn each_block_gives_one_page() {
    let content = chars(
        "x\n// @MANSTART{one}\n//\n// first\n// @MANEND\ncode();\n\
         // @MANSTART{two}\n//\n// second\n// more\n// @MANEND\n\
         // @MANSTART{three}\n//\n// @MANEND\n",
    );
    let r = extract_pages(&content);
    assert_eq!(r.error, None);
    assert_eq!(r.pages.len(), 3);
    assert_eq!(text(&r.pages[0].name), "one");
    assert_eq!(text(&r.pages[0].text), "first\n");
    assert_eq!(text(&r.pages[1].name), "two");
    assert_eq!(text(&r.pages[1].text), "second\nmore\n");
    assert_eq!(text(&r.pages[2].name), "three");
    assert_eq!(text(&r.pages[2].text), "");
}

#[test]
fn text_without_start_token_gives_nothing() {
    let r = extract_pages(&chars("fn main() {}\n// @MANEND\n"));
    assert_eq!(r.error, None);
    assert!(r.pages.is_empty());
    let r = extract_pages(&chars(""));
    assert_eq!(r.error, None);
    assert!(r.pages.is_empty());
}

#[test]
fn missing_open_brace_is_reported() {
    let r = extract_pages(&chars("// @MANSTART foo\n// text\n// @MANEND\n"));
    assert_eq!(r.error, Some(ExtractError::NoOpenDelimiter));
    assert!(r.pages.is_empty());
    assert_eq!(ExtractError::NoOpenDelimiter.message(), "No opened '{' for MANSTART");
}

#[test]
fn pages_before_a_bad_block_are_kept() {
    let content = chars(
        "// @MANSTART{good}\n//\n// kept\n// @MANEND\n// @MANSTART bad\n// @MANEND\n\
         // @MANSTART{later}\n//\n// lost\n// @MANEND\n",
    );
    let r = extract_pages(&content);
    assert_eq!(r.error, Some(ExtractError::NoOpenDelimiter));
    assert_eq!(r.pages.len(), 1);
    assert_eq!(text(&r.pages[0].name), "good");
    assert_eq!(text(&r.pages[0].text), "kept\n");
}

#[test]
fn missing_close_brace_is_reported() {
    let r = parse_block(&chars("{foo\n// text\n// @MANEND\n"));
    assert_eq!(r.err(), Some(ExtractError::UnclosedDelimiter));
    assert_eq!(ExtractError::UnclosedDelimiter.message(), "Unclosed '{' for MANSTART");
}

#[test]
fn close_brace_before_open_brace_is_reported() {
    let r = parse_block(&chars("}{foo}\n// text\n// @MANEND\n"));
    assert_eq!(r.err(), Some(ExtractError::MisplacedDelimiter));
    assert_eq!(ExtractError::MisplacedDelimiter.message(), "'}' before '{' for MANSTART");
}

#[test]
fn name_over_two_lines_is_reported() {
    let r = extract_pages(&chars("// @MANSTART{fo\no}\n// text\n// @MANEND\n"));
    assert_eq!(r.error, Some(ExtractError::MalformedName));
    assert!(r.pages.is_empty());
    assert_eq!(ExtractError::MalformedName.message(), "malformed manpage name");
}

#[test]
fn name_with_line_feed_at_its_end_is_reported() {
    let r = parse_block(&chars("{foo\n}\n// text\n// @MANEND\n"));
    assert_eq!(r.err(), Some(ExtractError::MalformedName));
}

#[test]
fn empty_name_is_reported() {
    let r = parse_block(&chars("{}\n// text\n// @MANEND\n"));
    assert_eq!(r.err(), Some(ExtractError::MalformedName));
}

#[test]
fn missing_end_token_is_reported() {
    let r = extract_pages(&chars("// @MANSTART{foo}\n// text\n"));
    assert_eq!(r.error, Some(ExtractError::UnclosedBlock));
    assert!(r.pages.is_empty());
    assert_eq!(ExtractError::UnclosedBlock.message(), "Unclosed @MANSTART (use @MANEND)");
}

#[test]
fn end_token_is_sought_behind_the_name() {
    let r = parse_block(&chars(" @MANEND {foo}\n// text\n"));
    assert_eq!(r.err(), Some(ExtractError::UnclosedBlock));
    let block = parse_block(&chars(" @MANEND {foo} a\n// text\n// @MANEND tail")).unwrap();
    assert_eq!(text(&block.name), "foo");
    assert_eq!(text(&block.body), "a\n// text\n// @MANEND");
}

#[test]
fn block_has_name_and_trimmed_body() {
    let block = parse_block(&chars("{page one} \t\n// a\n// b\n  // @MANEND\nrest")).unwrap();
    assert_eq!(text(&block.name), "page one");
    assert_eq!(text(&block.body), "// a\n// b\n  // @MANEND");
}

#[test]
fn body_ends_at_the_first_end_token() {
    let block = parse_block(&chars("{n}\nx\n@MANEND\ny\n@MANEND\n")).unwrap();
    assert_eq!(text(&block.body), "x\n@MANEND");
}

#[test]
fn block_is_cleaned_under_its_name() {
    let block = ManBlock { name: chars("n"), body: chars("first\n/// a\n//! b\n@MANEND") };
    let page = clean_block(block);
    assert_eq!(text(&page.name), "n");
    assert_eq!(text(&page.text), "a\nb\n");
}

#[test]
fn page_of_one_segment() {
    let page = extract_page(&chars("{seg}\nfirst\n-> x\n<!- y\n\\z\n@MANEND")).unwrap();
    assert_eq!(text(&page.name), "seg");
    assert_eq!(text(&page.text), " x\n y\nz\n");
    assert_eq!(extract_page(&chars("no braces")).err(), Some(ExtractError::NoOpenDelimiter));
}

#[test]
fn segments_follow_the_start_tokens() {
    let segs = split_segments(&chars("before@MANSTARTone@MANSTART@MANSTARTthree"));
    let segs: Vec<String> = segs.iter().map(|s| text(s)).collect();
    assert_eq!(segs, vec!["one".to_string(), "".to_string(), "three".to_string()]);
    assert!(split_segments(&chars("nothing here")).is_empty());
    let segs = split_segments(&chars("@MANSTART"));
    assert_eq!(segs.len(), 1);
    assert!(segs[0].is_empty());
}

#[test]
fn string_gives_pages_with_string_parts() {
    let r = extract_text(
        "/// @MANSTART{foo}\n/// ignored-first-line\n/// Hello\n/// World\n/// @MANEND\n",
    );
    assert_eq!(r.error, None);
    assert_eq!(r.pages.len(), 1);
    assert_eq!(r.pages[0].name_string(), "foo");
    assert_eq!(r.pages[0].text_string(), "Hello\nWorld\n");
}

#[test]
fn characters_beyond_ascii_pass_through() {
    let r = extract_text("# @MANSTART{pägé}\n#\n// grüße → ok\n-> 日本語\n# @MANEND");
    assert_eq!(r.error, None);
    assert_eq!(r.pages.len(), 1);
    assert_eq!(r.pages[0].name_string(), "pägé");
    assert_eq!(r.pages[0].text_string(), "grüße → ok\n 日本語\n");
}

#[test]
fn same_name_twice_gives_two_pages() {
    let r = extract_text("@MANSTART{a}\n\nx\n@MANEND @MANSTART{a}\n\ny\n@MANEND");
    assert_eq!(r.error, None);
    assert_eq!(r.pages.len(), 2);
    assert_eq!(r.pages[0].name_string(), "a");
    assert_eq!(r.pages[1].name_string(), "a");
}
