use rumbaa::texparser2::texparser::{parse_tex, TexCmd, TexParser};
use rumbaa::document::Document;

#[test]
fn tex_cmd_new_has_name_and_no_argument() {
    let cmd = TexCmd::new(&"section".to_string());
    assert_eq!(
        format!("{:?}", cmd),
        "TexCmd { name: \"section\", args: [], option_args: [] }"
    );
}

#[test]
fn tex_cmd_new_with_empty_name() {
    let cmd = TexCmd::new(&String::new());
    assert_eq!(format!("{:?}", cmd), "TexCmd { name: \"\", args: [], option_args: [] }");
}

#[test]
fn second_parser_backslash_after_argument_renames_macro() {
    // A backslash right after an argument names the finished macro with the
    // (empty) buffer: `\begin{theorem}` is lost, and the later
    // `\end{theorem}` closes no environment.
    assert!(parse_tex("\\begin{theorem}\\label{th}\\end{theorem}\n", &"m.tex".to_string())
        .is_none());
}

#[test]
fn second_parser_macro_ended_by_space() {
    let doc = parse_tex(
        "\\begin{lemma} \\label{l1} text \\end{lemma} ",
        &"m.tex".to_string(),
    )
    .unwrap();
    assert!(doc.contains_key(&"l1".to_string()));
    assert_eq!(doc.get_group_from_key(&"l1".to_string()), Some(4));
}

#[test]
fn second_parser_unlabelled_theorems_are_numbered() {
    let doc = parse_tex(
        "\\begin{theorem}\n\\end{theorem}\n\\begin{theorem}\n\\end{theorem}\n",
        &"m.tex".to_string(),
    )
    .unwrap();
    assert!(doc.contains_key(&"NOLABEL-1".to_string()));
    assert!(doc.contains_key(&"NOLABEL-2".to_string()));
}

#[test]
fn second_parser_links_proof_to_definition() {
    let source = "\\begin{definition}\n\\label{def}\n\\end{definition}\n\\begin{theorem}\n\\label{th}\n\\end{theorem}\n\\begin{proof}\n%!TEX proof = {th}\nBy \\ref{def} and \\ref{nowhere}.\n\\end{proof}\n";
    let doc = parse_tex(source, &"main.tex".to_string()).unwrap();
    let deps = doc.get_vec_dependences(&"th".to_string()).unwrap();
    assert_eq!(deps, vec!["def".to_string()]);
}

#[test]
fn second_parser_refuses_proof_of_unknown_statement() {
    let source = "\\begin{proof}\n%!TEX proof = {missing}\n\\end{proof}\n";
    assert!(parse_tex(source, &"main.tex".to_string()).is_none());
}

#[test]
fn second_parser_refuses_unbalanced_end() {
    assert!(parse_tex("\\end{theorem}\n", &"main.tex".to_string()).is_none());
}

#[test]
fn second_parser_refuses_begin_without_argument() {
    assert!(parse_tex("\\begin \n", &"main.tex".to_string()).is_none());
}

#[test]
fn second_parser_plain_text_gives_empty_document() {
    let doc = parse_tex("just words, no macro\n", &"main.tex".to_string()).unwrap();
    assert!(doc.keys().is_empty());
}

#[test]
fn second_parser_char_by_char() {
    let mut parser = TexParser::new(Document::new("x.tex".to_string()));
    for c in "\\begin{corollary} \\label{c} \\end{corollary} ".chars() {
        assert!(parser.can_add_char(c));
        parser.add_char(c);
    }
    let doc = parser.into_document();
    assert!(doc.contains_key(&"c".to_string()));
}

#[test]
fn second_parser_cannot_read_end_outside_environment() {
    let mut parser = TexParser::new(Document::new("x.tex".to_string()));
    for c in "\\end".chars() {
        assert!(parser.can_add_char(c));
        parser.add_char(c);
    }
    assert!(!parser.can_add_char(' '));
}
