use rumbaa::document::Document;
use rumbaa::texstruct::tex_logic::{EnumTheoremType, Proof, Theorem};

fn theorem(label: &str, t: EnumTheoremType) -> Theorem {
    Theorem::new(label.to_string(), t)
}

#[test]
fn push_then_get_reads_back() {
    let mut doc = Document::new("main.tex".to_string());
    doc.push("th:a".to_string(), theorem("th:a", EnumTheoremType::Theorem));
    assert!(doc.contains_key(&"th:a".to_string()));
    assert_eq!(doc.get(&"th:a".to_string()).clone_label(), "th:a");
    assert_eq!(doc.get_group_from_key(&"th:a".to_string()), Some(2));
    assert_eq!(doc.get_name_from_key(&"th:a".to_string()), Some(&"th:a".to_string()));
    assert_eq!(doc.get_name_from_key(&"missing".to_string()), None);
    assert_eq!(doc.get_group_from_key(&"missing".to_string()), None);
}

#[test]
fn push_same_key_replaces() {
    let mut doc = Document::new("main.tex".to_string());
    doc.push("k".to_string(), theorem("k", EnumTheoremType::Lemma));
    doc.push("other".to_string(), theorem("other", EnumTheoremType::Lemma));
    doc.push("k".to_string(), theorem("k", EnumTheoremType::Corollary));
    assert_eq!(doc.keys().len(), 2);
    assert_eq!(doc.keys()[0], "k");
    assert_eq!(doc.get_group_from_key(&"k".to_string()), Some(5));
}

#[test]
fn structs_contain_label_finds_equations() {
    let mut doc = Document::new("main.tex".to_string());
    let mut def = theorem("def", EnumTheoremType::Definition);
    def.add_equation("eq:1".to_string());
    doc.push("def".to_string(), def);
    doc.push("th".to_string(), theorem("th", EnumTheoremType::Theorem));
    assert_eq!(doc.structs_contain_label(&"eq:1".to_string()), Some("def".to_string()));
    assert_eq!(doc.structs_contain_label(&"th".to_string()), Some("th".to_string()));
    assert_eq!(doc.structs_contain_label(&"eq:2".to_string()), None);
}

#[test]
fn dependences_follow_proof_links() {
    let mut doc = Document::new("main.tex".to_string());
    let mut def = theorem("def", EnumTheoremType::Definition);
    def.add_equation("eq:1".to_string());
    doc.push("def".to_string(), def);
    doc.push("lem".to_string(), theorem("lem", EnumTheoremType::Lemma));
    doc.push("th".to_string(), theorem("th", EnumTheoremType::Theorem));
    assert_eq!(doc.get_vec_dependences(&"th".to_string()), Some(vec![]));
    assert_eq!(doc.get_vec_dependences(&"nothing".to_string()), None);

    let mut proof = Proof::new("th".to_string());
    proof.add_link("lem".to_string());
    proof.add_link("unknown".to_string());
    proof.add_link("eq:1".to_string());
    doc.set_proof(&"th".to_string(), proof);
    assert_eq!(
        doc.get_vec_dependences(&"th".to_string()),
        Some(vec!["lem".to_string(), "def".to_string()])
    );
}

#[test]
fn setters_update_one_structure() {
    let mut doc = Document::new("main.tex".to_string());
    doc.push("p".to_string(), theorem("p", EnumTheoremType::Proposition));
    doc.push("q".to_string(), theorem("q", EnumTheoremType::Proposition));
    doc.set_label_number(&"p".to_string(), 12);
    assert_eq!(doc.get_name_from_key(&"p".to_string()), Some(&"Prop. 12".to_string()));
    doc.set_name(&"p".to_string(), "Main result".to_string());
    assert_eq!(doc.get_name_from_key(&"p".to_string()), Some(&"Main result".to_string()));
    doc.set_page(&"p".to_string(), 7);
    assert_eq!(doc.get_name_from_key(&"q".to_string()), Some(&"q".to_string()));
}

#[test]
fn print_lists_structures_in_order() {
    let mut doc = Document::new("main.tex".to_string());
    doc.push("a".to_string(), theorem("a", EnumTheoremType::Definition));
    doc.push("b".to_string(), theorem("b", EnumTheoremType::Custom));
    assert_eq!(
        doc.print(),
        "Printing tex structures\n - Definition: aNone\n - Other: bNone\n"
    );
}

#[test]
fn document_keeps_its_file_name() {
    let doc = Document::new("main.tex".to_string());
    assert_eq!(doc.filename, "main.tex".to_string());
}

#[test]
fn push_calls_chain() {
    let mut doc = Document::new("main.tex".to_string());
    doc.push("a".to_string(), theorem("a", EnumTheoremType::Lemma))
        .push("b".to_string(), theorem("b", EnumTheoremType::Corollary));
    assert!(doc.contains_key(&"a".to_string()));
    assert!(doc.contains_key(&"b".to_string()));
    assert_eq!(doc.keys(), &vec!["a".to_string(), "b".to_string()]);
}

#[test]
fn contains_key_follows_pushes_only() {
    let mut doc = Document::new("main.tex".to_string());
    doc.push("a".to_string(), theorem("a", EnumTheoremType::Lemma));
    doc.set_page(&"a".to_string(), 4);
    doc.set_label_number(&"a".to_string(), 2);
    doc.push("b".to_string(), theorem("b", EnumTheoremType::Theorem));
    doc.set_name(&"b".to_string(), "Main".to_string());
    doc.set_proof(&"b".to_string(), Proof::new("b".to_string()));
    assert!(doc.contains_key(&"a".to_string()));
    assert!(doc.contains_key(&"b".to_string()));
    assert!(!doc.contains_key(&"Main".to_string()));
    assert!(!doc.contains_key(&"c".to_string()));
}
