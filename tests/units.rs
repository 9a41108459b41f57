use nufmt::{
    add_depth, format_buffer, gen_tokens, suppresses_space, Token, Tokonizer, TokonizerTools,
};

fn fmt(s: &str) -> String {
    format_buffer(s.to_string())
}

fn word(s: &str) -> Token {
    Token::Word(s.to_string())
}

#[test]
fn formatting_twice_changes_nothing() {
    let inputs = [
        "  let answer = 42  ",
        "if answer == 42 {\nif pos == 69 {\nlet pos = 69\n}\n}",
        "(something=this=that)",
        "$item | each {\n[ [ { ($in.title $in.text ] \n} ",
        "a$b/c d",
        "a#b\nc",
        "x:y<z",
        "@attr x\nfoo",
        "use ~/.cache/starship/init.nu\n$env.config.buffer_editor = \"nvim\"",
    ];
    for s in inputs {
        let once = fmt(s);
        assert_eq!(fmt(&once), once, "input {:?}", s);
    }
}

#[test]
fn formatting_keeps_the_lexemes() {
    let inputs = [
        "let     answer   =     42",
        "http get http://42_is_the_answer.com |from json|list ",
        "if a <= 42 {\n$pos = 69\n} ",
        "let answer = '42  '",
    ];
    for s in inputs {
        assert_eq!(gen_tokens(fmt(s)), gen_tokens(s.to_string()), "input {:?}", s);
    }
}

#[test]
fn no_trailing_white_space_of_any_kind() {
    assert_eq!(fmt("a\u{a0}\u{3000} \n\t"), "a");
    assert_eq!(fmt("{\n"), "{");
    assert_eq!(fmt(""), "");
    assert_eq!(fmt(" \n \t"), "");
}

#[test]
fn no_double_spaces_outside_lexemes() {
    let out = fmt("a  =   b ,  c  |  d");
    assert_eq!(out, "a = b, c | d");
    assert!(!out.contains("  "));
}

#[test]
fn newline_indent_follows_depth() {
    assert_eq!(fmt("[\n(\nx\n)\n]"), "[\n\t\t(\n\t\t\t\tx\n\t\t)\n]");
    assert_eq!(fmt("{\n(\nx\n)\n}"), "{\n\t\t(\n\t\t\t\tx\n\t\t)\n}");
    assert_eq!(fmt("{\n[\nx\n]\n}"), "{\n\t\t[\n\t\t\t\tx\n\t\t]\n}");
    assert_eq!(fmt("a > b"), "a > b");
    assert_eq!(fmt("}\n}\nx"), "}\n}\nx");
}

#[test]
fn quoted_block_with_braces() {
    assert_eq!(fmt("x \"a{\"}\" y"), "x \"a{\"}\" y");
    assert_eq!(fmt("x 'a{'}' y"), "x 'a{'}' y");
}

#[test]
fn unterminated_quote_takes_the_rest() {
    assert_eq!(fmt("a \"b  c   "), "a \"b  c");
}

#[test]
fn tabs_inside_a_quote_are_dropped() {
    assert_eq!(fmt("\"a\tb\""), "\"ab\"");
}

#[test]
fn attribute_line_is_opaque() {
    assert_eq!(fmt("@attr   x  \nfoo"), "@attr   x \nfoo");
}

#[test]
fn path_ends_at_a_closing_brace() {
    assert_eq!(fmt("{/a}"), "{ /a }");
}

#[test]
fn pending_word_goes_after_unflushed_tokens() {
    assert_eq!(fmt("a$b"), "$ab");
    assert_eq!(fmt("a-b"), "- ab");
}

#[test]
fn numbers_and_words() {
    assert_eq!(
        gen_tokens("12ab x".to_string()),
        vec![Token::Number("12ab".to_string()), word("x")]
    );
}

#[test]
fn folder_forms_opaque_lexemes() {
    assert_eq!(
        gen_tokens("ab/c d #x y\n@q r ".to_string()),
        vec![
            Token::Path("ab/c".to_string()),
            word("d"),
            Token::CommentBlock("#x y".to_string()),
            Token::NewLine,
            Token::AttSomething("@q r".to_string()),
        ]
    );
}

#[test]
fn tab_renders_two_tabs_per_level() {
    assert_eq!(Token::Tab(2).as_string(), "\t\t\t\t");
    assert_eq!(Token::Tab(0).as_string(), "");
    assert_eq!(Token::Char('x').as_string(), "x");
    assert_eq!(Token::MoreThen.as_string(), ">");
}

#[test]
fn classifier_table() {
    assert_eq!(Token::from_char('{'), Token::BraceOpen);
    assert_eq!(Token::from_char('\t'), Token::Tab(0));
    assert_eq!(Token::from_char('-'), Token::Dash);
    assert_eq!(Token::from_char('@'), Token::Att);
    assert_eq!(Token::from_char('x'), Token::Char('x'));
    assert_eq!(Token::from('|'), Token::Pipe);
    let t: Token = ' '.into();
    assert_eq!(t, Token::WhiteSpace);
}

#[test]
fn quote_blocks_hold_the_text_between_the_quotes() {
    assert_eq!(
        gen_tokens("x = \"a {\"} b\"".to_string()),
        vec![
            word("x"),
            Token::Equals,
            Token::DoubleQuoteBlock("a {\"} b".to_string(), true),
        ]
    );
    assert_eq!(
        gen_tokens("'' 'ab".to_string()),
        vec![
            Token::SingleQuoteBlock(String::new(), true),
            Token::SingleQuoteBlock("ab".to_string(), false),
        ]
    );
    assert_eq!(Token::DoubleQuoteBlock(String::new(), true).as_string(), "\"\"");
    assert_eq!(Token::SingleQuoteBlock("a b".to_string(), true).as_string(), "'a b'");
    assert_eq!(Token::DoubleQuoteBlock("ab".to_string(), false).as_string(), "\"ab");
}

#[test]
fn to_option_reports_overflow() {
    assert_eq!((5usize, false).to_option(), Some(5));
    assert_eq!((5usize, true).to_option(), None);
}

#[test]
fn depth_saturates_at_zero() {
    let mut d: usize = 0;
    add_depth(&Token::BraceClose, &mut d);
    assert_eq!(d, 0);
    add_depth(&Token::ParenOpen, &mut d);
    assert_eq!(d, 1);
    add_depth(&Token::BraceSquareOpen, &mut d);
    assert_eq!(d, 2);
    let mut e: usize = 4;
    add_depth(&Token::ParenOpen, &mut e);
    assert_eq!(e, 5);
    add_depth(&Token::ParenClose, &mut e);
    assert_eq!(e, 4);
    add_depth(&Token::BraceSquareClosed, &mut d);
    assert_eq!(d, 1);
    add_depth(&word("x"), &mut d);
    assert_eq!(d, 1);
}

#[test]
fn spacing_table_in_isolation() {
    assert!(suppresses_space(&word("a"), &Some(Token::Comma), &None));
    assert!(!suppresses_space(&word("a"), &Some(Token::LessThen), &None));
    assert!(suppresses_space(&word("a"), &Some(Token::LessThen), &Some(Token::Colon)));
    assert!(suppresses_space(&Token::LessThen, &Some(word("b")), &None));
    assert!(suppresses_space(&Token::Colon, &Some(Token::Path("/a".to_string())), &None));
    assert!(!suppresses_space(&Token::Pipe, &None, &None));
    assert!(suppresses_space(&Token::Dolar, &Some(word("x")), &None));
    assert!(!suppresses_space(&Token::Number("1".to_string()), &None, &None));
}

#[test]
fn cursor_peeks() {
    let t = Tokonizer::new(vec![word("a"), Token::WhiteSpace, Token::WhiteSpace, Token::Comma]);
    assert_eq!(t.get(), Some(word("a")));
    assert_eq!(t.peak_next(), Some(Token::WhiteSpace));
    assert_eq!(t.peak_prev(), None);
    assert_eq!(t.peak_next_non_whitespace(), Some(Token::Comma));
    assert!(t.next_eq(Token::WhiteSpace));
    assert!(t.is_eq(&word("a")));
    assert!(t.one_of_is_eq(&[Token::Comma, word("a")]));
    assert!(!t.one_of_is_eq(&[Token::Comma]));
    let mut t = t;
    t.next();
    t.next();
    t.next();
    assert!(t.prev_eq(Token::WhiteSpace));
    assert_eq!(t.peak_prev_non_whitespace(), Some(word("a")));
    t.prev();
    assert_eq!(t.index, 2);
}

#[test]
fn cursor_takes() {
    let toks: Vec<Token> = "\"a{\"}\"b".chars().map(Token::from_char).collect();
    let mut t = Tokonizer::new(toks);
    assert_eq!(t.take_upto(&[Token::DoubleQuote], true), "\"a{\"}\"");
    assert_eq!(t.index, 5);

    let toks: Vec<Token> = "#ab\ncd".chars().map(Token::from_char).collect();
    let mut t = Tokonizer::new(toks.clone());
    assert_eq!(t.take_upto(&[Token::NewLine], false), "#ab");
    assert_eq!(t.index, 2);
    let mut t = Tokonizer::new(toks.clone());
    assert_eq!(t.take_before(&[Token::NewLine]), "#ab");
    assert_eq!(t.index, 3);
    let mut t = Tokonizer::new(toks.clone());
    assert_eq!(t.take_upto_either_included_if(&[Token::NewLine], Token::NewLine), "#ab\n");
    assert_eq!(t.index, 3);
    let mut t = Tokonizer::new(toks);
    assert_eq!(t.take_upto_either_included_if(&[Token::NewLine], Token::Comma), "#ab");
}

#[test]
fn pending_word_buffer() {
    let mut t = Tokonizer::new(vec![]);
    t.to_temp("ab".to_string());
    t.to_temp("c".to_string());
    assert_eq!(t.temp, "abc");
    t.temp_to_word();
    assert_eq!(t.stack, vec![word("abc")]);
    assert_eq!(t.temp, "");
    t.temp_to_word();
    assert_eq!(t.stack.len(), 1);
    t.to_temp("7x".to_string());
    t.temp_to_word_or_number();
    assert_eq!(t.stack[1], Token::Number("7x".to_string()));
    t.to_stack(Token::NewLine);
    t.to_stack(Token::Tab(1));
    t.to_stack(Token::WhiteSpace);
    assert_eq!(t.to_string(), "abc7x");
}

#[test]
fn pending_word_after_a_comment_joins_it() {
    assert_eq!(fmt("a#b"), "#ba");
    assert_eq!(fmt("a#b\nc"), "#ba\nc");
    assert_eq!(fmt("#ba\nc"), "#ba\nc");
}

#[test]
fn pending_word_after_an_unterminated_quote() {
    assert_eq!(fmt("a\"b  "), "\"b   a");
}

#[test]
fn newline_inside_a_quote_is_not_indented() {
    assert_eq!(fmt("{\n\"a\nb"), "{\n\t\t\"a\nb");
}
