use rumbaa::texstruct::tex_logic::{EnumMacroType, EnumTheoremType, Proof, TexMacro, Theorem};

#[test]
fn tex_code_of_macro() {
    let mut m = TexMacro::new(EnumMacroType::Tex);
    m.set_name(&"frac".to_string());
    m.add_opt_arg(&"o".to_string());
    m.add_arg(&"a".to_string());
    m.add_arg(&"b".to_string());
    assert_eq!(m.get_tex_code(), "\\frac[o]{a}{b}");
    assert_eq!(m.get_args(), vec!["a".to_string(), "b".to_string()]);
    assert!(matches!(m.get_macro_type(), EnumMacroType::Tex));
}

#[test]
fn theorem_numbered_names() {
    let mut t = Theorem::new("th:x".to_string(), EnumTheoremType::Theorem);
    assert_eq!(t.get_name(), "th:x");
    t.set_ilabel(3);
    assert_eq!(t.get_name(), " - Th. 3");
    let mut d = Theorem::new("d".to_string(), EnumTheoremType::Definition);
    d.set_ilabel(-42);
    assert_eq!(d.get_name(), "Def. -42");
    let mut c = Theorem::new("c".to_string(), EnumTheoremType::Corollary);
    c.set_ilabel(i32::MIN);
    assert_eq!(c.get_name(), "Cor. -2147483648");
    assert_eq!(c.print(), " - Corollary: cCor. -2147483648");
}

#[test]
fn theorem_groups_and_equations() {
    let mut l = Theorem::new("l".to_string(), EnumTheoremType::Lemma);
    assert_eq!(l.get_group(), 4);
    assert!(!l.contains_equation(&"e".to_string()));
    l.add_equation("e".to_string());
    assert!(l.contains_equation(&"e".to_string()));
    assert!(l.get_proof().is_none());
    l.set_proof(Proof::new("l".to_string()));
    assert!(l.get_proof().is_some());
    l.set_label(&"l2".to_string());
    assert_eq!(l.clone_label(), "l2");
}

#[test]
fn proof_accessors() {
    let mut p = Proof::new("th".to_string());
    assert_eq!(p.get_title(), "Proof");
    assert_eq!(p.get_nblinks(), 0);
    p.add_link("a".to_string());
    assert_eq!(p.get_link(0), "a");
    p.set_struct_label(&"other".to_string());
    assert_eq!(p.get_struct_label(), "other");
    p.set_title(&"Sketch".to_string());
    assert_eq!(p.get_title(), "Sketch");
}

#[test]
fn contains_equation_follows_added_equations() {
    let mut t = Theorem::new("th".to_string(), EnumTheoremType::Theorem);
    t.add_equation("eq:1".to_string());
    t.set_label(&"th:new".to_string());
    t.set_ilabel(3);
    t.add_equation("eq:2".to_string());
    t.set_page(7);
    assert!(t.contains_equation(&"eq:1".to_string()));
    assert!(t.contains_equation(&"eq:2".to_string()));
    assert!(!t.contains_equation(&"eq:3".to_string()));
    assert!(!t.contains_equation(&"th:new".to_string()));
}
