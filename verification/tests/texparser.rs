use rumbaa::texparser::texparser::{parse_tex, TexParser};
use rumbaa::texstruct::tex_logic::{EnumMacroType, TexMacro};

#[test]
fn one_simple_macro() {
    let tex_line = String::from("\\mymacro[opt]{arg1}{arg2}");
    let mut parser = TexParser::new();

    // 1. Assert that nothing is returned
    for c in tex_line.chars() {
        assert!(parser.add_char(c).is_none())
    }

    // 2. Assert end of macro
    let opt_macro_out = parser.add_char('\n');
    assert!(!opt_macro_out.is_none());

    // 3. Check argument
    let macro_out = opt_macro_out.unwrap();
    assert!(macro_out.get_nb_args() == 2);
    assert!(macro_out.get_arg(0) == String::from("arg1"));
    assert!(macro_out.get_arg(1) == String::from("arg2"));

    assert!(macro_out.get_nb_opt_args() == 1);
    assert!(macro_out.get_opt_arg(0) == String::from("opt"));
}

#[test]
fn nested_macros() {
    let tex_line_part1 = String::from("\\macroOne{\\macroTwo{arg}");
    let tex_line_part2 = '}';
    let tex_line_part3 = '\n';
    let mut parser = TexParser::new();

    // 1. Assert that nothing is returned
    for c in tex_line_part1.chars() {
        assert!(parser.add_char(c).is_none())
    }

    // 2. End of first macro
    let opt_macro_out_1 = parser.add_char(tex_line_part2);

    // 2.1
    assert!(!opt_macro_out_1.is_none());

    // 2.2. Check argument
    let macro_out_1 = opt_macro_out_1.unwrap();
    assert!(macro_out_1.get_nb_args() == 1);
    assert!(macro_out_1.get_arg(0) == String::from("arg"));

    // 3. End of second macro
    let opt_macro_out_2 = parser.add_char(tex_line_part3);

    // 2.1
    assert!(!opt_macro_out_2.is_none());

    // 2.2. Check argument
    let macro_out_2 = opt_macro_out_2.unwrap();
    assert!(macro_out_2.get_nb_args() == 1);
    assert!(macro_out_2.get_arg(0) == String::from("\\macroTwo{arg}"));
}

#[test]
fn two_nested_macro() {
    let tex_line_1 = String::from("\\kvbar{\\kangle{\\atome");
    let tex_line_2 = '(';
    let tex_line_3 = String::from("\\param");
    let tex_line_4 = ')';
    let tex_line_5 = String::from(",\\Vobs");
    let tex_line_6 = '}';
    let tex_line_7 = '}';
    let tex_line_8 = '\n';

    let mut parser = TexParser::new();

    // 1. Assert that nothing is returned
    for c in tex_line_1.chars() {
        assert!(parser.add_char(c).is_none())
    }

    // 2. End of first macro
    let opt_macro_out_1 = parser.add_char(tex_line_2);
    {
        assert!(!opt_macro_out_1.is_none());

        let macro_out = opt_macro_out_1.unwrap();
        assert!(macro_out.get_name() == String::from("atome"));
        assert!(macro_out.get_nb_args() == 0);
    }

    // 3. nothing happen
    for c in tex_line_3.chars() {
        assert!(parser.add_char(c).is_none())
    }

    // 4. End of second macro
    let opt_macro_out_2 = parser.add_char(tex_line_4);
    {
        assert!(!opt_macro_out_2.is_none());

        let macro_out = opt_macro_out_2.unwrap();
        assert!(macro_out.get_name() == String::from("param"));
        assert!(macro_out.get_nb_args() == 0);
    }

    // 5. nothing happen
    for c in tex_line_5.chars() {
        assert!(parser.add_char(c).is_none())
    }

    // 6. End of second macro
    let opt_macro_out_3 = parser.add_char(tex_line_6);
    {
        assert!(!opt_macro_out_3.is_none());

        let macro_out = opt_macro_out_3.unwrap();
        assert!(macro_out.get_name() == String::from("Vobs"));
        assert!(macro_out.get_nb_args() == 0);
    }

    // 7. End of second macro
    let opt_macro_out_4 = parser.add_char(tex_line_7);
    {
        assert!(!opt_macro_out_4.is_none());

        let macro_out = opt_macro_out_4.unwrap();
        assert!(macro_out.get_name() == String::from("kangle"));
        assert!(macro_out.get_nb_args() == 1);
    }

    // 8. End of second macro
    let opt_macro_out_5 = parser.add_char(tex_line_8);
    {
        assert!(!opt_macro_out_5.is_none());

        let macro_out = opt_macro_out_5.unwrap();
        assert!(macro_out.get_name() == String::from("kvbar"));
        assert!(macro_out.get_nb_args() == 1);
    }
}

#[test]
fn clean_macro_name() {
    // A macro name stops at the first space, which is not part of it.
    let mut parser = TexParser::new();
    for c in "\\mymacro".chars() {
        assert!(parser.add_char(c).is_none());
    }
    let out = parser.add_char(' ').unwrap();
    assert_eq!(out.get_name(), "mymacro");
    assert_eq!(out.get_nb_args(), 0);
}

#[test]
fn handle_breakline() {
    // A double backslash (a LaTeX line break) gives no macro.
    let tex_line_part1 = String::from("\\\\");

    let mut parser = TexParser::new();

    for c in tex_line_part1.chars() {
        assert!(parser.add_char(c).is_none())
    }
}

#[test]
fn latexmk_comment_gives_proof_macro() {
    let mut parser = TexParser::new();
    for c in "%!TEX proof = {th:main}".chars() {
        assert!(parser.add_char(c).is_none());
    }
    let m = parser.add_char('\n').unwrap();
    assert_eq!(m.get_name(), "proof");
    assert_eq!(m.get_nb_args(), 1);
    assert_eq!(m.get_arg(0), "th:main");
}

#[test]
fn ordinary_comment_gives_nothing() {
    let mut parser = TexParser::new();
    for c in "% just a remark".chars() {
        assert!(parser.add_char(c).is_none());
    }
    assert!(parser.add_char('\n').is_none());
}

#[test]
fn macro_ended_by_second_backslash() {
    let mut parser = TexParser::new();
    for c in "\\alpha".chars() {
        assert!(parser.add_char(c).is_none());
    }
    let m = parser.add_char('\\').unwrap();
    assert_eq!(m.get_name(), "alpha");
    assert_eq!(m.get_tex_code(), "\\alpha");
}

const SOURCE: &str = "\\begin{definition}\n\\label{def}\n\\begin{equation}\n\\label{eq:a} x\n\\end{equation}\n\\end{definition}\n\\begin{theorem}\n\\label{th}\n\\end{theorem}\n\\begin{proof}\n%!TEX proof = {th}\nBy \\eqref{eq:a} and \\ref{nowhere}.\n\\end{proof}\n";

#[test]
fn macro_swallows_following_backslash() {
    // A macro that ends on a backslash keeps the backslash for itself: the
    // label right after `\begin{theorem}` is lost, the theorem is unlabelled.
    let doc = parse_tex("\\begin{theorem}\\label{th}\n\\end{theorem}\n", &"m.tex".to_string()).unwrap();
    assert!(!doc.contains_key(&"th".to_string()));
    assert!(doc.contains_key(&"NOLABEL-1".to_string()));
}

#[test]
fn parse_tex_links_proof_to_definition() {
    let doc = parse_tex(SOURCE, &"main.tex".to_string()).unwrap();
    assert!(doc.contains_key(&"def".to_string()));
    assert!(doc.contains_key(&"th".to_string()));
    let deps = doc.get_vec_dependences(&"th".to_string()).unwrap();
    assert_eq!(deps, vec!["def".to_string()]);
    assert_eq!(doc.structs_contain_label(&"eq:a".to_string()), Some("def".to_string()));
    assert_eq!(doc.structs_contain_label(&"nowhere".to_string()), None);
}

#[test]
fn parse_tex_refuses_unbalanced_end() {
    assert!(parse_tex("\\end{theorem}\n", &"main.tex".to_string()).is_none());
}

#[test]
fn parse_tex_theorem_without_label() {
    let doc = parse_tex("\\begin{theorem}\nno label\n\\end{theorem}\n", &"m.tex".to_string()).unwrap();
    assert!(doc.contains_key(&"NOLABEL-1".to_string()));
}

#[test]
fn tex_code_reads_back_as_the_macro() {
    let mut m = TexMacro::new(EnumMacroType::Tex);
    m.set_name(&"frac".to_string());
    m.add_opt_arg(&"o1".to_string());
    m.add_opt_arg(&"o2".to_string());
    m.add_arg(&"a b".to_string());
    m.add_arg(&"c".to_string());
    let code = m.get_tex_code();
    assert_eq!(code, "\\frac[o1][o2]{a b}{c}");

    let mut parser = TexParser::new();
    for c in code.chars() {
        assert!(parser.add_char(c).is_none());
    }
    let out = parser.add_char(' ').unwrap();
    assert_eq!(out.get_name(), "frac");
    assert_eq!(out.get_args(), vec!["a b".to_string(), "c".to_string()]);
    assert_eq!(out.get_nb_opt_args(), 2);
    assert_eq!(out.get_opt_arg(0), "o1");
    assert_eq!(out.get_opt_arg(1), "o2");
    assert_eq!(out.get_tex_code(), code);
}

#[test]
fn tex_code_without_arguments_reads_back() {
    let mut m = TexMacro::new(EnumMacroType::Tex);
    m.set_name(&"alpha".to_string());
    let code = m.get_tex_code();
    assert_eq!(code, "\\alpha");
    let mut parser = TexParser::new();
    for c in code.chars() {
        assert!(parser.add_char(c).is_none());
    }
    let out = parser.add_char('.').unwrap();
    assert_eq!(out.get_name(), "alpha");
    assert_eq!(out.get_nb_args(), 0);
    assert_eq!(out.get_nb_opt_args(), 0);
}
