use rust_doc_tool::lines::count_code_lines;

#[test]
fn empty_text_has_no_lines() {
    assert_eq!(count_code_lines(""), 0);
    assert_eq!(count_code_lines("\n\n\n"), 0);
    assert_eq!(count_code_lines("   \n\t\n"), 0);
}

#[test]
fn plain_code_lines_count() {
    assert_eq!(count_code_lines("fn main() {}\n"), 1);
    assert_eq!(count_code_lines("fn a() {}\nfn b() {}\n"), 2);
    assert_eq!(count_code_lines("let x = 1;"), 1);
}

#[test]
fn line_comments_do_not_count() {
    assert_eq!(count_code_lines("// a comment\n"), 0);
    assert_eq!(count_code_lines("   // indented comment\n"), 0);
    assert_eq!(count_code_lines("let x = 1; // trailing\n"), 1);
    assert_eq!(count_code_lines("// one\n// two\nlet x = 1;\n"), 1);
}

#[test]
fn block_comments_do_not_count() {
    assert_eq!(count_code_lines("/* a */\n"), 0);
    assert_eq!(count_code_lines("/*\nspanning\nlines\n*/\n"), 0);
    assert_eq!(count_code_lines("/*\nspanning\n*/\nlet x = 1;\n"), 1);
    assert_eq!(count_code_lines("let a = 1; /* c */ let b = 2;\n"), 1);
    assert_eq!(count_code_lines("/* c */ let b = 2;\n"), 1);
}

#[test]
fn code_before_block_comment_counts() {
    assert_eq!(count_code_lines("let x = 1; /* starts here\nstill inside\n*/ let y;\n"), 2);
}

#[test]
fn block_opener_inside_line_comment_still_opens() {
    // The classifier finds `/*` before `//`, so a line comment that
    // contains a block opener leaves the rest of the text inside the
    // block comment.
    assert_eq!(count_code_lines("// /*\nlooks like code\n*/\nlet x = 1;\n"), 1);
}

#[test]
fn windows_line_endings() {
    assert_eq!(count_code_lines("fn a() {}\r\n\r\n// c\r\nfn b() {}\r\n"), 2);
}
