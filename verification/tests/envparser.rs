use rumbaa::document::Document;
use rumbaa::envparser::texparser::EnvParser;
use rumbaa::texstruct::tex_logic::{EnumMacroType, TexMacro};

fn tex_macro_builder(name: String, arg1: String) -> TexMacro {
    let mut macro_out = TexMacro::new(EnumMacroType::Tex);
    macro_out.set_name(&name);
    macro_out.add_arg(&arg1);

    macro_out
}

fn mk_macro_builder(name: String, arg1: String) -> TexMacro {
    let mut macro_out = TexMacro::new(EnumMacroType::LatexMk);
    macro_out.set_name(&name);
    macro_out.add_arg(&arg1);

    macro_out
}

#[test]
fn open_and_close_env() {
    let doc = Document::new("filename".to_string());
    let mut env_parser = EnvParser::new(doc);

    let open_macro = tex_macro_builder(String::from("begin"), String::from("theorem"));
    let label_macro = tex_macro_builder(String::from("label"), String::from("th:name"));
    let close_macro = tex_macro_builder(String::from("end"), String::from("theorem"));

    env_parser.process_macro(&open_macro);
    env_parser.process_macro(&label_macro);
    env_parser.process_macro(&close_macro);

    let doc = env_parser.into_document();
    assert!(doc.contains_key(&String::from("th:name")))
}

#[test]
fn equation_in_def() {
    let doc = Document::new("filename".to_string());
    let mut env_parser = EnvParser::new(doc);

    let open_def = tex_macro_builder(String::from("begin"), String::from("definition"));
    let open_eq = tex_macro_builder(String::from("begin"), String::from("equation"));
    let label_eq = tex_macro_builder(String::from("label"), String::from("eq:name"));
    let close_eq = tex_macro_builder(String::from("end"), String::from("equation"));
    let close_def = tex_macro_builder(String::from("end"), String::from("definition"));

    let open_th = tex_macro_builder(String::from("begin"), String::from("theorem"));
    let label_th = tex_macro_builder(String::from("label"), String::from("th:name"));
    let close_th = tex_macro_builder(String::from("end"), String::from("theorem"));

    let open_proof = tex_macro_builder(String::from("begin"), String::from("proof"));
    let proof_of = mk_macro_builder(String::from("proof"), String::from("th:name"));
    let ref_in_proof = tex_macro_builder(String::from("ref"), String::from("eq:name"));
    let end_proof = tex_macro_builder(String::from("end"), String::from("proof"));

    env_parser.process_macro(&open_def);
    env_parser.process_macro(&open_eq);
    env_parser.process_macro(&label_eq);
    env_parser.process_macro(&close_eq);
    env_parser.process_macro(&close_def);

    env_parser.process_macro(&open_th);
    env_parser.process_macro(&label_th);
    env_parser.process_macro(&close_th);

    env_parser.process_macro(&open_proof);
    env_parser.process_macro(&proof_of);
    env_parser.process_macro(&ref_in_proof);
    env_parser.process_macro(&end_proof);

    let doc = env_parser.into_document();
    assert!(doc.contains_key(&String::from("th:name")));

    let dep = doc.get_vec_dependences(&"th:name".to_string());
    assert!(!dep.is_none());
    let vec_dep = dep.unwrap();
    assert!(vec_dep.len() == 1);
}

#[test]
fn unlabelled_structures_are_numbered() {
    let doc = Document::new("f".to_string());
    let mut env_parser = EnvParser::new(doc);
    for _ in 0..2 {
        env_parser.process_macro(&tex_macro_builder("begin".to_string(), "lemma".to_string()));
        env_parser.process_macro(&tex_macro_builder("end".to_string(), "lemma".to_string()));
    }
    let doc = env_parser.into_document();
    assert!(doc.contains_key(&"NOLABEL-1".to_string()));
    assert!(doc.contains_key(&"NOLABEL-2".to_string()));
    assert_eq!(doc.keys().len(), 2);
    assert_eq!(doc.get_group_from_key(&"NOLABEL-1".to_string()), Some(4));
}

#[test]
fn newtheorem_declares_custom_structure() {
    let doc = Document::new("f".to_string());
    let mut env_parser = EnvParser::new(doc);
    let mut decl = TexMacro::new(EnumMacroType::Tex);
    decl.set_name(&"newtheorem".to_string());
    decl.add_arg(&"claim".to_string());
    decl.add_arg(&"Claim".to_string());
    env_parser.process_macro(&decl);
    env_parser.process_macro(&tex_macro_builder("begin".to_string(), "claim".to_string()));
    env_parser.process_macro(&tex_macro_builder("label".to_string(), "cl:a".to_string()));
    env_parser.process_macro(&tex_macro_builder("end".to_string(), "claim".to_string()));
    let doc = env_parser.into_document();
    assert_eq!(doc.get_group_from_key(&"cl:a".to_string()), Some(0));
    assert_eq!(doc.get(&"cl:a".to_string()).print(), " - Other: cl:aNone");
}

#[test]
fn proof_of_unknown_structure_is_dropped() {
    let doc = Document::new("f".to_string());
    let mut env_parser = EnvParser::new(doc);
    env_parser.process_macro(&tex_macro_builder("begin".to_string(), "proof".to_string()));
    env_parser.process_macro(&mk_macro_builder("proof".to_string(), "th:none".to_string()));
    env_parser.process_macro(&tex_macro_builder("end".to_string(), "proof".to_string()));
    let doc = env_parser.into_document();
    assert!(doc.keys().is_empty());
}

#[test]
fn unbalanced_end_cannot_be_processed() {
    let doc = Document::new("f".to_string());
    let env_parser = EnvParser::new(doc);
    let end = tex_macro_builder("end".to_string(), "theorem".to_string());
    assert!(!env_parser.can_process(&end));
    let bare_label = TexMacro::new(EnumMacroType::Tex);
    assert!(env_parser.can_process(&bare_label));
    let mut label_without_arg = TexMacro::new(EnumMacroType::Tex);
    label_without_arg.set_name(&"label".to_string());
    assert!(!env_parser.can_process(&label_without_arg));
}
