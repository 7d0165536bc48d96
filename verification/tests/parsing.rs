use gamo::records::Mas;
use gamo::records::ReadParseFile;
use gamo::script::ParseError;
use gamo::script::Rename;

fn parse_words(content: &str) -> Vec<Mas> {
    let parser = ReadParseFile { content: content.to_string() };
    let template = Mas::new().setup(&"f".to_string(), &"t".to_string());
    parser.split_mas(template)
}

#[test]
fn empty_lines_are_skipped_but_numbering_is_kept() {
    let records = parse_words("a\n\nb\n");
    assert_eq!(records.len(), 2);
    assert_eq!(records[0].word, "a");
    assert_eq!(records[0].line, 1);
    assert_eq!(records[1].word, "b");
    assert_eq!(records[1].line, 3);
}

#[test]
fn records_carry_folder_and_type() {
    let records = parse_words("hello\n");
    assert_eq!(records.len(), 1);
    assert_eq!(records[0].folder, "f");
    assert_eq!(records[0].tipo, "t");
    assert_eq!(records[0].line, 1);
}

#[test]
fn words_are_trimmed() {
    let records = parse_words("  padded \n\t\n x\ty ");
    assert_eq!(records.len(), 2);
    assert_eq!(records[0].word, "padded");
    assert_eq!(records[0].line, 1);
    assert_eq!(records[1].word, "x\ty");
    assert_eq!(records[1].line, 3);
}

#[test]
fn empty_content_yields_no_records() {
    assert_eq!(parse_words("").len(), 0);
    assert_eq!(parse_words("   \n \t \n").len(), 0);
}

#[test]
fn no_trailing_newline_still_counts() {
    let records = parse_words("a\nb");
    assert_eq!(records.len(), 2);
    assert_eq!(records[0].line, 1);
    assert_eq!(records[1].line, 2);
}

#[test]
fn whitespace_split_drops_all_separators() {
    let parser = ReadParseFile { content: "  alpha  beta\ngamma\t ".to_string() };
    let words = parser.split_whitespace();
    assert_eq!(words, vec!["alpha".to_string(), "beta".to_string(), "gamma".to_string()]);
}

#[test]
fn whitespace_split_of_blank_text_is_empty() {
    let parser = ReadParseFile { content: " \n\t ".to_string() };
    assert_eq!(parser.split_whitespace().len(), 0);
}

fn parse_script(content: &str) -> Result<Rename, ParseError> {
    Rename::new().setup(&"cfg".to_string(), content)
}

#[test]
fn rename_script_splits_comments_and_changes() {
    let ren = parse_script("// one\n// two\nfrom: x to: y\n").unwrap();
    assert_eq!(ren.comments, vec!["// one".to_string(), "// two".to_string()]);
    assert_eq!(ren.changes.len(), 1);
    assert_eq!(ren.changes[0].from, "x");
    assert_eq!(ren.changes[0].to, "y");
}

#[test]
fn rename_script_location_is_derived() {
    let ren = parse_script("").unwrap();
    assert_eq!(ren.file_path, "cfg/rename.on");
    assert_eq!(ren.file_name, "rename.on");
    assert_eq!(ren.name, "rename");
}

#[test]
fn rename_instruction_parts_are_trimmed() {
    let ren = parse_script("from:   spaced name   to:   other  \n").unwrap();
    assert_eq!(ren.changes[0].from, "spaced name");
    assert_eq!(ren.changes[0].to, "other");
}

#[test]
fn rename_instruction_without_separator_is_fatal() {
    assert!(matches!(parse_script("// c\nnope\n"), Err(ParseError::MalformedRenameLine)));
}

#[test]
fn rename_instruction_with_short_prefix_is_fatal() {
    // the part before the separator is shorter than the from-prefix
    assert!(matches!(parse_script("abc to: y\n"), Err(ParseError::MalformedRenameLine)));
}

#[test]
fn comment_after_instruction_is_not_a_comment() {
    // the comment block is only the leading prefix; a later `//` line
    // must parse as an instruction
    assert!(matches!(
        parse_script("from: a to: b\n// late\n"),
        Err(ParseError::MalformedRenameLine)
    ));
}

#[test]
fn second_separator_bounds_the_destination() {
    let ren = parse_script("from: a to: b to: c\n").unwrap();
    assert_eq!(ren.changes[0].from, "a");
    assert_eq!(ren.changes[0].to, "b");
}

#[test]
fn one_character_line_is_fatal() {
    assert!(matches!(parse_script("x\n"), Err(ParseError::MalformedRenameLine)));
}

#[test]
fn comment_only_script_keeps_everything() {
    let ren = parse_script("// a\n\n// b\n").unwrap();
    assert_eq!(ren.comments, vec!["// a".to_string(), "// b".to_string()]);
    assert_eq!(ren.changes.len(), 0);
}

