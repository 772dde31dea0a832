//! The reading of LaTeX auxiliary files: each line (a `\newlabel` line,
//! typically; those that hold `@cref` are skipped) gives the number, the
//! page and the name of a labelled structure.
use vstd::prelude::*;
use crate::document::{Document, DocumentView, doc_set_number, doc_set_page, doc_set_name};
use crate::strutil::{
    strs_view, parse_i32, parse_i32_spec, split_char, split_at_char, starts_with_seq,
    starts_with_str, contains_seq, contains_str, replace_all, replace_str,
};
use crate::texregex::{brace_groups, regex_brace_groups};

verus! {

/// The effect of the brace groups of a `\newlabel` line on a document: the
/// first group is a label; when a structure is stored under it, the second
/// group (if a number) numbers it, then the third (if a number) gives its
/// page, then the fifth (if any) names it.
pub open spec fn aux_apply(d: DocumentView, g: Seq<Seq<char>>) -> DocumentView {
    if g.len() < 2 || !d.structs.dom().contains(g[0]) {
        d
    } else {
        match parse_i32_spec(g[1]) {
            None => d,
            Some(n) => {
                let d1 = doc_set_number(d, g[0], n);
                if g.len() < 3 {
                    d1
                } else {
                    match parse_i32_spec(g[2]) {
                        None => d1,
                        Some(p) => {
                            let d2 = doc_set_page(d1, g[0], p);
                            if g.len() < 5 {
                                d2
                            } else {
                                doc_set_name(d2, g[0], g[4])
                            }
                        },
                    }
                }
            },
        }
    }
}

/// The effect of one line of an auxiliary file: every line counts but the
/// `\newlabel` lines that hold `@cref`; a line is read after `{{` and `}}`
/// are made single.
pub open spec fn aux_line_spec(d: DocumentView, line: Seq<char>) -> DocumentView {
    if !(starts_with_seq(line, "\\newlabel"@) && contains_seq(line, "@cref"@)) {
        aux_apply(
            d,
            brace_groups(replace_all(replace_all(line, "{{"@, "{"@), "}}"@, "}"@)),
        )
    } else {
        d
    }
}

/// An auxiliary line never adds or removes a structure: the labels stay
/// the same, in the same order, and a line about a label that the document
/// does not hold changes nothing.
pub proof fn lemma_aux_keeps_labels(d: DocumentView, g: Seq<Seq<char>>)
    requires
        crate::document::view_wf(d),
    ensures
        aux_apply(d, g).keys == d.keys,
        aux_apply(d, g).structs.dom() == d.structs.dom(),
        crate::document::view_wf(aux_apply(d, g)),
        g.len() > 0 && !d.structs.dom().contains(g[0]) ==> aux_apply(d, g) == d,
{
    if g.len() >= 2 && d.structs.dom().contains(g[0]) {
        if let Some(n) = parse_i32_spec(g[1]) {
            let d1 = doc_set_number(d, g[0], n);
            assert(d1.structs.dom() =~= d.structs.dom());
            if g.len() >= 3 {
                if let Some(p) = parse_i32_spec(g[2]) {
                    let d2 = doc_set_page(d1, g[0], p);
                    assert(d2.structs.dom() =~= d.structs.dom());
                    if g.len() >= 5 {
                        let d3 = doc_set_name(d2, g[0], g[4]);
                        assert(d3.structs.dom() =~= d.structs.dom());
                    }
                }
            }
        }
    }
}

/// The number that a `\newlabel` line gives a structure is the one its
/// numbered name shows: the name ends with the decimal notation of the
/// number, and reading that notation back gives the number.
pub proof fn lemma_aux_number_shown(d: DocumentView, g: Seq<Seq<char>>, n: i32)
    requires
        g.len() >= 2,
        d.structs.dom().contains(g[0]),
        parse_i32_spec(g[1]) == Some(n),
        g.len() < 5,
    ensures
        aux_apply(d, g).structs[g[0]].ilabel == n,
        aux_apply(d, g).structs[g[0]].name == crate::texstruct::tex_logic::type_abbrev(
            d.structs[g[0]].theorem_type,
        ) + crate::strutil::int_decimal(n as int),
        parse_i32_spec(crate::strutil::int_decimal(n as int)) == Some(n),
{
    crate::strutil::lemma_parse_decimal_roundtrip(n);
}

/// The path of the auxiliary file of `filename` in `folder`: the folder,
/// the file name up to its first `.`, and `.aux`.
pub open spec fn aux_path_spec(filename: Seq<char>, folder: Seq<char>) -> Seq<char> {
    folder + split_char(filename, '.')[0] + ".aux"@
}

/// The path of the auxiliary file of `filename` in `folder`.
pub fn get_aux_path(filename: &String, folder: &String) -> (r: String)
    ensures
        r@ == aux_path_spec(filename@, folder@),
{
    let vec = split_at_char(filename.as_str(), '.');
    proof {
        crate::strutil::lemma_split_char_len(filename@, '.');
        assert(strs_view(vec@)[0] == vec@[0]@);
    }
    let mut result = folder.clone();
    result.append(vec[0].as_str());
    result.append(".aux");
    result
}

/// Applies one `\newlabel` line (already made single-braced) to `doc`.
pub fn process_line(line: &String, doc: &mut Document)
    requires
        old(doc).wf(),
    ensures
        final(doc).wf(),
        final(doc)@ == aux_apply(old(doc)@, brace_groups(line@)),
{
    let groups = regex_brace_groups(line.as_str());
    let n = groups.len();
    proof {
        assert(strs_view(groups@).len() == n);
    }
    if n < 2 {
        return;
    }
    let strlabel = groups[0].clone();
    proof {
        assert(strs_view(groups@)[0] == strlabel@);
        assert(strs_view(groups@)[1] == groups@[1]@);
    }
    if !doc.contains_key(&strlabel) {
        return;
    }
    match parse_i32(groups[1].as_str()) {
        None => {
            return;
        },
        Some(label_number) => {
            doc.set_label_number(&strlabel, label_number);
        },
    }
    if n < 3 {
        return;
    }
    proof {
        assert(strs_view(groups@)[2] == groups@[2]@);
    }
    match parse_i32(groups[2].as_str()) {
        None => {
            return;
        },
        Some(label_page) => {
            doc.set_page(&strlabel, label_page);
        },
    }
    if n < 5 {
        return;
    }
    proof {
        assert(strs_view(groups@)[4] == groups@[4]@);
    }
    let name = groups[4].clone();
    doc.set_name(&strlabel, name);
}

/// Applies one line of an auxiliary file to `doc`.
pub fn process_aux_line(line: &String, doc: &mut Document)
    requires
        old(doc).wf(),
    ensures
        final(doc).wf(),
        final(doc)@ == aux_line_spec(old(doc)@, line@),
{
    if !(starts_with_str(line.as_str(), "\\newlabel") && contains_str(line.as_str(), "@cref")) {
        proof {
            reveal_strlit("{{");
            reveal_strlit("}}");
        }
        let l = replace_str(line.as_str(), "{{", "{");
        let l = replace_str(l.as_str(), "}}", "}");
        process_line(&l, doc);
    }
}

} // verus!
