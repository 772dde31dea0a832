//! The dependency graph page: a JavaScript list of links between the
//! structures of a document, placed in an HTML template.
use vstd::prelude::*;
use crate::document::{Document, DocumentView, dependences, view_wf};
use crate::strutil::{strs_view, split_char, split_at_char, eq_str};
use crate::texstruct::tex_logic::display_name;

verus! {

/// The line that makes a structure a node of the graph: a link to itself.
pub open spec fn self_ref_line(n1: Seq<char>) -> Seq<char> {
    "\t\t{\"source\": \""@ + n1 + "\", \"target\":\""@ + n1 + "\", \"type\": 1}, "@ + "\n"@
}

/// The line of a link from `n1` to `n2`.
pub open spec fn link_line(n1: Seq<char>, n2: Seq<char>) -> Seq<char> {
    "\t\t{\"source\": \""@ + n1 + "\", \"target\":\""@ + n2 + "\", \"type\": 1},"@ + "\n"@
}

/// The display name of the structure stored under `k`.
pub open spec fn name_of(d: DocumentView, k: Seq<char>) -> Seq<char> {
    display_name(d.structs[k])
}

/// The link lines from `n1` to each of `deps` that holds a structure.
pub open spec fn dep_lines(d: DocumentView, n1: Seq<char>, deps: Seq<Seq<char>>) -> Seq<char>
    decreases deps.len(),
{
    if deps.len() == 0 {
        Seq::empty()
    } else {
        dep_lines(d, n1, deps.drop_last()) + if d.structs.dom().contains(deps.last()) {
            link_line(n1, name_of(d, deps.last()))
        } else {
            Seq::empty()
        }
    }
}

/// The lines of one structure: its self link, then its dependences.
pub open spec fn key_block(d: DocumentView, key: Seq<char>) -> Seq<char> {
    self_ref_line(name_of(d, key)) + dep_lines(d, name_of(d, key), dependences(d, key)->0)
}

/// The lines of the structures under `keys`, in order.
pub open spec fn key_blocks(d: DocumentView, keys: Seq<Seq<char>>) -> Seq<char>
    decreases keys.len(),
{
    if keys.len() == 0 {
        Seq::empty()
    } else {
        key_blocks(d, keys.drop_last()) + key_block(d, keys.last())
    }
}

/// The JavaScript list of the links of a document.
pub open spec fn links_text(d: DocumentView) -> Seq<char> {
    "var links = ["@ + "\n"@ + key_blocks(d, d.keys) + "]"@ + "\n"@
}

proof fn lemma_dep_lines_each(d: DocumentView, n1: Seq<char>, ds: Seq<Seq<char>>)
    requires
        forall|j: int| 0 <= j < ds.len() ==> d.structs.dom().contains(#[trigger] ds[j]),
    ensures
        dep_lines(d, n1, ds) == Seq::new(
            ds.len(),
            |j: int| link_line(n1, display_name(d.structs[ds[j]])),
        ).flatten(),
    decreases ds.len(),
{
    let f = |j: int| link_line(n1, display_name(d.structs[ds[j]]));
    if ds.len() == 0 {
        assert(Seq::new(ds.len(), f) =~= Seq::<Seq<char>>::empty());
    } else {
        let dl = ds.drop_last();
        assert forall|j: int| 0 <= j < dl.len() implies d.structs.dom().contains(#[trigger] dl[j]) by {
            assert(dl[j] == ds[j]);
        }
        lemma_dep_lines_each(d, n1, dl);
        let g = |j: int| link_line(n1, display_name(d.structs[dl[j]]));
        assert(Seq::new(ds.len(), f) =~= Seq::new(dl.len(), g).push(f(ds.len() - 1)));
        Seq::new(dl.len(), g).lemma_flatten_push(f(ds.len() - 1));
        assert(d.structs.dom().contains(ds[ds.len() - 1]));
    }
}

/// The link lines of the structures under `keys`, each block written out:
/// the self link of the structure, then one link line per dependence.
proof fn lemma_key_blocks_each(d: DocumentView, keys: Seq<Seq<char>>)
    requires
        view_wf(d),
        forall|i: int| 0 <= i < keys.len() ==> d.structs.dom().contains(#[trigger] keys[i]),
    ensures
        key_blocks(d, keys) == Seq::new(
            keys.len(),
            |i: int|
                self_ref_line(display_name(d.structs[keys[i]])) + Seq::new(
                    dependences(d, keys[i])->0.len(),
                    |j: int|
                        link_line(
                            display_name(d.structs[keys[i]]),
                            display_name(d.structs[dependences(d, keys[i])->0[j]]),
                        ),
                ).flatten(),
        ).flatten(),
    decreases keys.len(),
{
    let f = |i: int|
        self_ref_line(display_name(d.structs[keys[i]])) + Seq::new(
            dependences(d, keys[i])->0.len(),
            |j: int|
                link_line(
                    display_name(d.structs[keys[i]]),
                    display_name(d.structs[dependences(d, keys[i])->0[j]]),
                ),
        ).flatten();
    if keys.len() == 0 {
        assert(Seq::new(keys.len(), f) =~= Seq::<Seq<char>>::empty());
    } else {
        let kl = keys.drop_last();
        assert forall|i: int| 0 <= i < kl.len() implies d.structs.dom().contains(#[trigger] kl[i]) by {
            assert(kl[i] == keys[i]);
        }
        lemma_key_blocks_each(d, kl);
        let g = |i: int|
            self_ref_line(display_name(d.structs[kl[i]])) + Seq::new(
                dependences(d, kl[i])->0.len(),
                |j: int|
                    link_line(
                        display_name(d.structs[kl[i]]),
                        display_name(d.structs[dependences(d, kl[i])->0[j]]),
                    ),
            ).flatten();
        let k = keys.last();
        assert(d.structs.dom().contains(keys[keys.len() - 1]));
        crate::document::lemma_dependences_stored(d, k);
        lemma_dep_lines_each(d, name_of(d, k), dependences(d, k)->0);
        assert(key_block(d, k) == f(keys.len() - 1));
        assert forall|i: int| 0 <= i < kl.len() implies #[trigger] g(i) == f(i) by {
            assert(kl[i] == keys[i]);
        }
        assert(Seq::new(keys.len(), f) =~= Seq::new(kl.len(), g).push(f(keys.len() - 1)));
        Seq::new(kl.len(), g).lemma_flatten_push(f(keys.len() - 1));
    }
}

/// What the list of links holds: after its opening line, for every stored
/// structure in the order of its labels, the self link of the structure
/// followed by exactly one link line from it to each of its dependences,
/// in order (as many lines as dependences), then the closing line.
pub proof fn lemma_links_text_lines(d: DocumentView)
    requires
        view_wf(d),
    ensures
        links_text(d) == "var links = ["@ + "\n"@ + Seq::new(
            d.keys.len(),
            |i: int|
                self_ref_line(display_name(d.structs[d.keys[i]])) + Seq::new(
                    dependences(d, d.keys[i])->0.len(),
                    |j: int|
                        link_line(
                            display_name(d.structs[d.keys[i]]),
                            display_name(d.structs[dependences(d, d.keys[i])->0[j]]),
                        ),
                ).flatten(),
        ).flatten() + "]"@ + "\n"@,
{
    assert forall|i: int| 0 <= i < d.keys.len() implies d.structs.dom().contains(
        #[trigger] d.keys[i],
    ) by {
        assert(d.keys.contains(d.keys[i]));
    }
    lemma_key_blocks_each(d, d.keys);
}

/// The page: every line of the template followed by a newline, except
/// the lines `#LINKS`, each replaced by the list of links.
pub open spec fn page_lines(lines: Seq<Seq<char>>, links: Seq<char>) -> Seq<char>
    decreases lines.len(),
{
    if lines.len() == 0 {
        Seq::empty()
    } else {
        page_lines(lines.drop_last(), links) + if lines.last() == "#LINKS"@ {
            links
        } else {
            lines.last() + "\n"@
        }
    }
}

fn append_link_line(out: &mut String, n1: &String, n2: &String, self_ref: bool)
    ensures
        final(out)@ == old(out)@ + if self_ref {
            self_ref_line(n1@)
        } else {
            link_line(n1@, n2@)
        },
{
    out.append("\t\t{\"source\": \"");
    out.append(n1.as_str());
    out.append("\", \"target\":\"");
    if self_ref {
        out.append(n1.as_str());
        out.append("\", \"type\": 1}, ");
    } else {
        out.append(n2.as_str());
        out.append("\", \"type\": 1},");
    }
    out.append("\n");
    proof {
        if self_ref {
            assert(final(out)@ =~= old(out)@ + self_ref_line(n1@));
        } else {
            assert(final(out)@ =~= old(out)@ + link_line(n1@, n2@));
        }
    }
}

/// The JavaScript list of the links between the structures of `doc`: for
/// each structure, in storage order, a link to itself and a link to each
/// structure its proof refers to.
pub fn export_json_links(doc: &Document) -> (r: String)
    requires
        doc.wf(),
    ensures
        r@ == links_text(doc@),
{
    let mut out = String::new();
    out.append("var links = [");
    out.append("\n");
    let ghost head = out@;
    let keys = doc.keys();
    let mut i: usize = 0;
    while i < keys.len()
        invariant
            doc.wf(),
            strs_view(keys@) == doc@.keys,
            i <= keys@.len(),
            out@ == head + key_blocks(doc@, doc@.keys.subrange(0, i as int)),
        decreases keys@.len() - i,
    {
        let key = &keys[i];
        proof {
            assert(doc@.keys[i as int] == key@);
            assert(doc@.keys.contains(key@));
        }
        let vec_dependences = doc.get_vec_dependences(key).unwrap();
        let name1 = doc.get_name_from_key(key).unwrap();
        let ghost before = out@;
        append_link_line(&mut out, name1, name1, true);
        let ghost deps = strs_view(vec_dependences@);
        let mut j: usize = 0;
        while j < vec_dependences.len()
            invariant
                doc.wf(),
                deps == strs_view(vec_dependences@),
                j <= vec_dependences@.len(),
                out@ == before + self_ref_line(name1@) + dep_lines(
                    doc@,
                    name1@,
                    deps.subrange(0, j as int),
                ),
            decreases vec_dependences@.len() - j,
        {
            proof {
                let ds = deps.subrange(0, j + 1);
                assert(ds.drop_last() =~= deps.subrange(0, j as int));
                assert(ds.last() == vec_dependences@[j as int]@);
            }
            match doc.get_name_from_key(&vec_dependences[j]) {
                Some(name2) => {
                    append_link_line(&mut out, name1, name2, false);
                },
                None => {},
            }
            j = j + 1;
        }
        proof {
            assert(deps.subrange(0, j as int) =~= deps);
            let ks = doc@.keys.subrange(0, i + 1);
            assert(ks.drop_last() =~= doc@.keys.subrange(0, i as int));
            assert(ks.last() == key@);
            assert(out@ =~= head + key_blocks(doc@, ks));
        }
        i = i + 1;
    }
    out.append("]");
    out.append("\n");
    proof {
        assert(doc@.keys.subrange(0, i as int) =~= doc@.keys);
        assert(out@ =~= links_text(doc@));
    }
    out
}

/// The graph page of `doc` built from the HTML template `html_text`: the
/// template's lines, with each `#LINKS` line replaced by the links.
pub fn render_page(html_text: &str, doc: &Document) -> (r: String)
    requires
        doc.wf(),
    ensures
        r@ == page_lines(split_char(html_text@, '\n'), links_text(doc@)),
{
    let links = export_json_links(doc);
    let lines = split_at_char(html_text, '\n');
    let mut out = String::new();
    let mut i: usize = 0;
    while i < lines.len()
        invariant
            i <= lines@.len(),
            links@ == links_text(doc@),
            strs_view(lines@) == split_char(html_text@, '\n'),
            out@ == page_lines(strs_view(lines@).subrange(0, i as int), links@),
        decreases lines@.len() - i,
    {
        proof {
            let ls = strs_view(lines@).subrange(0, i + 1);
            assert(ls.drop_last() =~= strs_view(lines@).subrange(0, i as int));
            assert(ls.last() == lines@[i as int]@);
        }
        if !eq_str(&lines[i], "#LINKS") {
            out.append(lines[i].as_str());
            out.append("\n");
        } else {
            out.append(links.as_str());
        }
        i = i + 1;
    }
    proof {
        assert(strs_view(lines@).subrange(0, i as int) =~= strs_view(lines@));
    }
    out
}

} // verus!
