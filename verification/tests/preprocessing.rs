use rumbaa::preprocessing::{
    assembles_filename, clean_line, comment_block_step, contain_input_file, get_tmp_filename,
    preprocess_line, strip_input_commands, format_dir_name, remove_newlines, remove_comments_text,
};

#[test]
fn comments_are_removed() {
    assert_eq!(clean_line(&"a % b % c".to_string()), "a ");
    assert_eq!(clean_line(&"%!TEX proof = {th}".to_string()), "%!TEX proof = {th}");
    assert_eq!(clean_line(&"no comment".to_string()), "no comment");
    assert_eq!(clean_line(&"% all".to_string()), "");
}

#[test]
fn comment_environment_is_skipped() {
    assert_eq!(
        comment_block_step(false, &"keep \\begin{comment} drop".to_string()),
        (true, Some("keep ".to_string()))
    );
    assert_eq!(comment_block_step(true, &"drop".to_string()), (true, None));
    assert_eq!(
        comment_block_step(true, &"x\\end{comment}after\\end{comment}tail".to_string()),
        (false, Some("after".to_string()))
    );
    assert_eq!(comment_block_step(false, &"plain".to_string()), (false, Some("plain".to_string())));
}

#[test]
fn input_command_is_found() {
    assert_eq!(
        contain_input_file(&"a \\input{chap1} b \\input{chap2}".to_string()),
        Some(("\\input{chap1}".to_string(), "chap1".to_string()))
    );
    assert_eq!(contain_input_file(&"\\input{open".to_string()), None);
    assert_eq!(contain_input_file(&"nothing".to_string()), None);
}

#[test]
fn input_commands_are_stripped() {
    let (rest, names) =
        strip_input_commands(&"a\\input{x}b\\input{y}c\\input{x}".to_string());
    assert_eq!(rest, "abc");
    assert_eq!(names, vec!["x".to_string(), "y".to_string()]);
}

#[test]
fn line_step_names_included_files() {
    let step = preprocess_line(false, &"\\input{intro} text % note".to_string(), &"dir/".to_string());
    assert!(!step.in_long_comment);
    assert_eq!(step.line, Some(" text ".to_string()));
    assert_eq!(step.input_names, vec!["intro".to_string()]);
    assert_eq!(step.input_files, vec!["dir/intro.tex".to_string()]);

    let commented = preprocess_line(false, &"% \\input{hidden}".to_string(), &"".to_string());
    assert_eq!(commented.line, Some("".to_string()));
    assert!(commented.input_files.is_empty());

    let inside = preprocess_line(true, &"\\input{hidden}".to_string(), &"".to_string());
    assert!(inside.in_long_comment);
    assert_eq!(inside.line, None);
}

#[test]
fn file_names() {
    assert_eq!(assembles_filename(&"a.tex".to_string(), &"dir/".to_string()), "dir/a.tex");
    assert_eq!(get_tmp_filename(&"main.tex".to_string(), &"d/".to_string()), "d/rumbaa_main.tex.tex");
}

#[test]
fn format_dir_name_adds_slash() {
    assert_eq!(format_dir_name("data".to_string()), "data/".to_string());
}

#[test]
fn format_dir_name_keeps_slash() {
    assert_eq!(format_dir_name("data/".to_string()), "data/".to_string());
}

#[test]
fn format_dir_name_of_empty_is_slash() {
    assert_eq!(format_dir_name(String::new()), "/".to_string());
}

#[test]
fn remove_newlines_joins_lines() {
    assert_eq!(remove_newlines(&"a\nb\n\nc\n".to_string()), "abc".to_string());
    assert_eq!(remove_newlines(&"no break".to_string()), "no break".to_string());
}

#[test]
fn include_command_is_found() {
    assert_eq!(
        contain_input_file(&"x \\include{chap3} y".to_string()),
        Some(("\\include{chap3}".to_string(), "chap3".to_string()))
    );
    assert_eq!(
        contain_input_file(&"\\include{a}\\input{b}".to_string()),
        Some(("\\include{a}".to_string(), "a".to_string()))
    );
    assert_eq!(contain_input_file(&"\\includegraphics{fig}".to_string()), None);
}

#[test]
fn include_and_input_commands_are_stripped_in_order() {
    let (rest, names) = strip_input_commands(&"1\\input{b}2\\include{a}3".to_string());
    assert_eq!(rest, "123");
    assert_eq!(names, vec!["b".to_string(), "a".to_string()]);
    let step = preprocess_line(false, &"\\include{part}".to_string(), &"src/".to_string());
    assert_eq!(step.input_files, vec!["src/part.tex".to_string()]);
}

#[test]
fn remove_comments_text_joins_cleaned_lines() {
    let lines = vec![
        "a % note".to_string(),
        "%!TEX proof = {th}".to_string(),
        "b\\begin{comment}".to_string(),
        "hidden".to_string(),
        "x\\end{comment}c".to_string(),
        "d".to_string(),
    ];
    assert_eq!(remove_comments_text(&lines), "a %!TEX proof = {th}bcd".to_string());
    assert_eq!(remove_comments_text(&Vec::new()), "".to_string());
}
