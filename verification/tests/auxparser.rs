use rumbaa::auxparser::{get_aux_path, process_aux_line, process_line};
use rumbaa::document::Document;
use rumbaa::texstruct::tex_logic::{EnumTheoremType, Theorem};

fn doc_with(label: &str, t: EnumTheoremType) -> Document {
    let mut doc = Document::new("main.tex".to_string());
    doc.push(label.to_string(), Theorem::new(label.to_string(), t));
    doc
}

#[test]
fn aux_path() {
    assert_eq!(get_aux_path(&"main.tex".to_string(), &"aux/".to_string()), "aux/main.aux");
    assert_eq!(get_aux_path(&"a.b.tex".to_string(), &"".to_string()), "a.aux");
}

#[test]
fn simple_newlabel_numbers_structure() {
    let mut doc = doc_with("def:label1", EnumTheoremType::Definition);
    process_aux_line(&"\\newlabel{def:label1}{{1}{1}}".to_string(), &mut doc);
    assert_eq!(doc.get_name_from_key(&"def:label1".to_string()), Some(&"Def. 1".to_string()));
}

#[test]
fn long_newlabel_names_structure() {
    let mut doc = doc_with("th:x", EnumTheoremType::Theorem);
    process_aux_line(&"\\newlabel{th:x}{{2}{15}{}{theorem.3.2}{}}".to_string(), &mut doc);
    assert_eq!(doc.get_name_from_key(&"th:x".to_string()), Some(&"theorem.3.2".to_string()));
}

#[test]
fn cref_and_unknown_lines_change_nothing() {
    let mut doc = doc_with("th:x", EnumTheoremType::Theorem);
    process_aux_line(&"\\newlabel{th:x@cref}{{[theorem][2][]2}{15}}".to_string(), &mut doc);
    process_aux_line(&"\\newlabel{other}{{4}{5}}".to_string(), &mut doc);
    process_aux_line(&"\\relax".to_string(), &mut doc);
    assert_eq!(doc.get_name_from_key(&"th:x".to_string()), Some(&"th:x".to_string()));
}

#[test]
fn non_numeric_number_stops_reading() {
    let mut doc = doc_with("l", EnumTheoremType::Lemma);
    process_line(&"\\newlabel{l}{A.1}{3}".to_string(), &mut doc);
    assert_eq!(doc.get_name_from_key(&"l".to_string()), Some(&"l".to_string()));
    process_line(&"\\newlabel{l}{+7}{x}".to_string(), &mut doc);
    assert_eq!(doc.get_name_from_key(&"l".to_string()), Some(&"Lem. 7".to_string()));
}

#[test]
fn other_aux_lines_are_read_too() {
    // Only `\newlabel` lines holding `@cref` are skipped: any other line
    // with brace groups is read the same way.
    let mut doc = doc_with("def:a", EnumTheoremType::Definition);
    process_aux_line(&"\\bibcite{def:a}{3}".to_string(), &mut doc);
    assert_eq!(doc.get_name_from_key(&"def:a".to_string()), Some(&"Def. 3".to_string()));
}

#[test]
fn cref_outside_newlabel_is_read() {
    let mut doc = doc_with("def:b", EnumTheoremType::Definition);
    process_aux_line(&"\\relax{def:b}{{4}{9}}@cref".to_string(), &mut doc);
    assert_eq!(doc.get_name_from_key(&"def:b".to_string()), Some(&"Def. 4".to_string()));
}
