use plush::lexer::{FileIdMap, Lexer, SrcPos, MAX_COL_NO, MAX_FILES, MAX_LINE_NO};

#[test]
fn src_pos_size()
{
    assert_eq!(std::mem::size_of::<SrcPos>(), 8);
}

#[test]
fn src_pos_roundtrip()
{
    for (file_id, line_no, col_no) in [
        (0, 0, 0),
        (0, 1, 1),
        (7, 1234, 56),
        (MAX_FILES - 1, MAX_LINE_NO, MAX_COL_NO),
        (MAX_FILES - 1, 1, 1),
        (0, MAX_LINE_NO, 0),
        (0, 0, MAX_COL_NO),
    ] {
        let pos = SrcPos::new(file_id, line_no, col_no);
        assert_eq!(pos.file_id(), file_id);
        assert_eq!(pos.line_no(), line_no);
        assert_eq!(pos.col_no(), col_no);
    }
}

#[test]
fn src_pos_clamps_col()
{
    let pos = SrcPos::new(3, 42, MAX_COL_NO + 1);
    assert_eq!(pos.file_id(), 3);
    assert_eq!(pos.line_no(), 42);
    assert_eq!(pos.col_no(), MAX_COL_NO);

    let pos = SrcPos::new(3, 42, 1_000_000);
    assert_eq!(pos.line_no(), 42);
    assert_eq!(pos.col_no(), MAX_COL_NO);
}

#[test]
fn src_pos_default_has_no_line()
{
    assert_eq!(SrcPos::default().line_no(), 0);
}

fn lexer(src: &str, files: &mut FileIdMap) -> Lexer
{
    Lexer::new(src, "test.psh", files)
}

#[test]
fn file_ids_are_shared_by_name()
{
    let mut files = FileIdMap::new();
    let a = files.get_file_id("a.psh");
    let b = files.get_file_id("b.psh");
    assert_ne!(a, b);
    assert_eq!(files.get_file_id("a.psh"), a);
    assert_eq!(files.len(), 2);
    assert_eq!(files.name_from_id(b), "b.psh");
}

#[test]
fn lexer_tracks_lines_and_columns()
{
    let mut files = FileIdMap::new();
    let mut input = lexer("ab\ncd", &mut files);
    assert_eq!(input.get_pos().line_no(), 1);
    assert_eq!(input.get_pos().col_no(), 1);
    assert_eq!(input.eat_ch(), 'a');
    assert_eq!(input.eat_ch(), 'b');
    assert_eq!(input.eat_ch(), '\n');
    assert_eq!(input.get_pos().line_no(), 2);
    assert_eq!(input.get_pos().col_no(), 1);
    assert_eq!(input.peek_ch(), 'c');
    assert_eq!(input.get_src_name(), "test.psh");
}

#[test]
fn lexer_skips_whitespace_and_comments()
{
    let mut files = FileIdMap::new();
    let mut input = lexer("  // one\n /* two /* nested */ */ x", &mut files);
    input.eat_ws().unwrap();
    assert_eq!(input.peek_ch(), 'x');

    let mut input = lexer("/* open", &mut files);
    assert!(input.eat_ws().is_err());
}

#[test]
fn lexer_tokens_and_keywords()
{
    let mut files = FileIdMap::new();
    let mut input = lexer("  let x <= y", &mut files);
    assert_eq!(input.match_keyword("let").unwrap(), true);
    assert_eq!(input.match_keyword("x").unwrap(), true);
    assert_eq!(input.match_token("<").unwrap(), true);
    assert_eq!(input.match_token("=").unwrap(), true);
    assert_eq!(input.match_token("z").unwrap(), false);

    // A keyword must not be the start of a longer identifier
    let mut input = lexer("letx", &mut files);
    assert_eq!(input.match_keyword("let").unwrap(), false);
    assert_eq!(input.parse_ident().unwrap(), "letx");

    let mut input = lexer("(", &mut files);
    assert!(input.expect_token(")").is_err());
}

#[test]
fn lexer_integers()
{
    let mut files = FileIdMap::new();
    assert_eq!(lexer("1_000_000", &mut files).parse_int(10).unwrap(), 1_000_000);
    assert_eq!(lexer("ff", &mut files).parse_int(16).unwrap(), 255);
    assert_eq!(lexer("101", &mut files).parse_int(2).unwrap(), 5);
    assert!(lexer("x", &mut files).parse_int(10).is_err());
    assert_eq!(lexer("4.5e7;", &mut files).read_numeric().unwrap(), "4.5e7");
}

#[test]
fn lexer_strings()
{
    let mut files = FileIdMap::new();
    let mut input = lexer("\"foo\\tbar\\n\"", &mut files);
    assert_eq!(input.parse_str('"').unwrap(), "foo\tbar\n");

    let mut input = lexer("'unterminated", &mut files);
    assert!(input.parse_str('\'').is_err());
}
