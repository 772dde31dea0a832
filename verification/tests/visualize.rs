use rumbaa::texparser::texparser::parse_tex;
use rumbaa::visualize::{export_json_links, export_json_nodes, export_to_json};
use rumbaa::visualize2::{export_json_links as export_graph_links, render_page};

const SOURCE: &str = "\\begin{definition}\n\\label{def}\n\\end{definition}\n\\begin{theorem}\n\\label{th}\n\\end{theorem}\n\\begin{proof}\n%!TEX proof = {th}\nBy \\ref{def}.\n\\end{proof}\n";

#[test]
fn json_links_from_theorem_to_definition() {
    let doc = parse_tex(SOURCE, &"main.tex".to_string()).unwrap();
    let json = export_to_json(&doc);
    assert!(json.contains("\"source\": \"th\", \"target\":\"def\""));
    assert_eq!(
        export_json_nodes(&doc),
        "\t\"nodes\": [\n\t\t{\"id\": \"def\", \"group\": 1}\n\t\t, {\"id\": \"th\", \"group\": 2}\n\t]\n"
    );
    assert_eq!(
        export_json_links(&doc),
        "\t\"links\": [\n\t\t{\"source\": \"th\", \"target\":\"def\", \"value\": 1}\n\t]\n"
    );
    assert!(json.starts_with("{\n\t\"nodes\""));
    assert!(json.ends_with("\t]\n}\n"));
}

#[test]
fn graph_page_replaces_links_marker() {
    let doc = parse_tex(SOURCE, &"main.tex".to_string()).unwrap();
    let links = export_graph_links(&doc);
    assert_eq!(
        links,
        "var links = [\n\t\t{\"source\": \"def\", \"target\":\"def\", \"type\": 1}, \n\t\t{\"source\": \"th\", \"target\":\"th\", \"type\": 1}, \n\t\t{\"source\": \"th\", \"target\":\"def\", \"type\": 1},\n]\n"
    );
    let page = render_page("<html>\n#LINKS\n</html>", &doc);
    assert_eq!(page, format!("<html>\n{}</html>\n", links));
}
