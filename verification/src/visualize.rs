//! The JSON description of the dependency graph of a document: a list of
//! nodes (the structures) and a list of links (the dependences of proofs).
use vstd::prelude::*;
use crate::document::{Document, DocumentView, dependences, lemma_dependences_stored};
use crate::strutil::{strs_view, push_i32_decimal, int_decimal};
use crate::texstruct::tex_logic::type_group;
use crate::visualize2::name_of;

verus! {

/// The line of one node; every line but the first starts with a comma.
pub open spec fn node_line(name: Seq<char>, group: i32, first: bool) -> Seq<char> {
    (if first {
        "\t\t{"@
    } else {
        "\t\t, {"@
    }) + "\"id\": \""@ + name + "\", \"group\": "@ + int_decimal(group as int) + "}"@ + "\n"@
}

/// The node lines of the structures under `keys`, in order.
pub open spec fn node_lines(d: DocumentView, keys: Seq<Seq<char>>) -> Seq<char>
    decreases keys.len(),
{
    if keys.len() == 0 {
        Seq::empty()
    } else {
        node_lines(d, keys.drop_last()) + node_line(
            name_of(d, keys.last()),
            type_group(d.structs[keys.last()].theorem_type),
            keys.len() == 1,
        )
    }
}

/// The `nodes` member of the description.
pub open spec fn nodes_text(d: DocumentView) -> Seq<char> {
    "\t\"nodes\": ["@ + "\n"@ + node_lines(d, d.keys) + "\t]"@ + "\n"@
}

/// The links from `n1` to `names`, in order, up to the first of `names`
/// that is `n1` itself.
pub open spec fn pairs_until_self(n1: Seq<char>, names: Seq<Seq<char>>) -> Seq<
    (Seq<char>, Seq<char>),
>
    decreases names.len(),
{
    if names.len() == 0 || names[0] == n1 {
        Seq::empty()
    } else {
        seq![(n1, names[0])] + pairs_until_self(n1, names.drop_first())
    }
}

/// The links of the structure under `key`.
pub open spec fn key_pairs(d: DocumentView, key: Seq<char>) -> Seq<(Seq<char>, Seq<char>)> {
    pairs_until_self(
        name_of(d, key),
        dependences(d, key)->0.map_values(|k: Seq<char>| name_of(d, k)),
    )
}

/// The links of the structures under `keys`, in order.
pub open spec fn link_pairs(d: DocumentView, keys: Seq<Seq<char>>) -> Seq<(Seq<char>, Seq<char>)>
    decreases keys.len(),
{
    if keys.len() == 0 {
        Seq::empty()
    } else {
        link_pairs(d, keys.drop_last()) + key_pairs(d, keys.last())
    }
}

/// The line of one link; every line but the first starts with a comma.
pub open spec fn pair_line(p: (Seq<char>, Seq<char>), first: bool) -> Seq<char> {
    (if first {
        "\t\t{"@
    } else {
        "\t\t, {"@
    }) + "\"source\": \""@ + p.0 + "\", \"target\":\""@ + p.1 + "\", \"value\": 1}"@ + "\n"@
}

/// The lines of `pairs`, in order.
pub open spec fn pair_lines(pairs: Seq<(Seq<char>, Seq<char>)>) -> Seq<char>
    decreases pairs.len(),
{
    if pairs.len() == 0 {
        Seq::empty()
    } else {
        pair_lines(pairs.drop_last()) + pair_line(pairs.last(), pairs.len() == 1)
    }
}

/// The `links` member of the description.
pub open spec fn links_json_text(d: DocumentView) -> Seq<char> {
    "\t\"links\": ["@ + "\n"@ + pair_lines(link_pairs(d, d.keys)) + "\t]"@ + "\n"@
}

/// The whole description.
pub open spec fn texstruct_json(d: DocumentView) -> Seq<char> {
    "{"@ + "\n"@ + nodes_text(d) + "\t,"@ + "\n"@ + links_json_text(d) + "}"@ + "\n"@
}

fn append_open(out: &mut String, first: bool)
    ensures
        final(out)@ == old(out)@ + if first {
            "\t\t{"@
        } else {
            "\t\t, {"@
        },
{
    if first {
        out.append("\t\t{");
    } else {
        out.append("\t\t, {");
    }
}

/// The `nodes` member: one line per structure, in storage order, with its
/// display name and group.
pub fn export_json_nodes(doc: &Document) -> (r: String)
    requires
        doc.wf(),
    ensures
        r@ == nodes_text(doc@),
{
    let mut out = String::new();
    out.append("\t\"nodes\": [");
    out.append("\n");
    let ghost head = out@;
    let keys = doc.keys();
    let mut i: usize = 0;
    while i < keys.len()
        invariant
            doc.wf(),
            strs_view(keys@) == doc@.keys,
            i <= keys@.len(),
            out@ == head + node_lines(doc@, doc@.keys.subrange(0, i as int)),
        decreases keys@.len() - i,
    {
        let key = &keys[i];
        proof {
            assert(doc@.keys[i as int] == key@);
            assert(doc@.keys.contains(key@));
        }
        let name = doc.get_name_from_key(key).unwrap();
        let group = doc.get_group_from_key(key).unwrap();
        append_open(&mut out, i == 0);
        out.append("\"id\": \"");
        out.append(name.as_str());
        out.append("\", \"group\": ");
        push_i32_decimal(&mut out, group);
        out.append("}");
        out.append("\n");
        proof {
            let ks = doc@.keys.subrange(0, i + 1);
            assert(ks.drop_last() =~= doc@.keys.subrange(0, i as int));
            assert(ks.last() == key@);
            assert(out@ =~= head + node_lines(doc@, ks));
        }
        i = i + 1;
    }
    out.append("\t]");
    out.append("\n");
    proof {
        assert(doc@.keys.subrange(0, i as int) =~= doc@.keys);
        assert(out@ =~= nodes_text(doc@));
    }
    out
}

proof fn lemma_pair_lines_push(pairs: Seq<(Seq<char>, Seq<char>)>, p: (Seq<char>, Seq<char>))
    ensures
        pair_lines(pairs.push(p)) == pair_lines(pairs) + pair_line(p, pairs.len() == 0),
{
    assert(pairs.push(p).drop_last() =~= pairs);
}

/// The `links` member: for each structure, in storage order, a line per
/// structure its proof refers to, up to the first that has the same name.
pub fn export_json_links(doc: &Document) -> (r: String)
    requires
        doc.wf(),
    ensures
        r@ == links_json_text(doc@),
{
    let mut out = String::new();
    out.append("\t\"links\": [");
    out.append("\n");
    let ghost head = out@;
    let keys = doc.keys();
    let mut started = false;
    let mut i: usize = 0;
    while i < keys.len()
        invariant
            doc.wf(),
            strs_view(keys@) == doc@.keys,
            i <= keys@.len(),
            out@ == head + pair_lines(link_pairs(doc@, doc@.keys.subrange(0, i as int))),
            started == (link_pairs(doc@, doc@.keys.subrange(0, i as int)).len() > 0),
        decreases keys@.len() - i,
    {
        let key = &keys[i];
        proof {
            assert(doc@.keys[i as int] == key@);
            assert(doc@.keys.contains(key@));
            lemma_dependences_stored(doc@, key@);
        }
        let vec_dependences = doc.get_vec_dependences(key).unwrap();
        let name1 = doc.get_name_from_key(key).unwrap();
        let ghost done = link_pairs(doc@, doc@.keys.subrange(0, i as int));
        let ghost names = strs_view(vec_dependences@).map_values(|k: Seq<char>| name_of(doc@, k));
        let ghost mut added: Seq<(Seq<char>, Seq<char>)> = Seq::empty();
        let mut j: usize = 0;
        assert(names.skip(0) =~= names);
        assert forall|k: int|
            0 <= k < vec_dependences@.len() implies doc@.structs.dom().contains(
                #[trigger] strs_view(vec_dependences@)[k],
            ) by {
            assert(strs_view(vec_dependences@)[k] == dependences(doc@, key@)->0[k]);
        }
        while j < vec_dependences.len()
            invariant
                doc.wf(),
                names == strs_view(vec_dependences@).map_values(|k: Seq<char>| name_of(doc@, k)),
                forall|k: int|
                    0 <= k < vec_dependences@.len() ==> doc@.structs.dom().contains(
                        #[trigger] strs_view(vec_dependences@)[k],
                    ),
                j <= vec_dependences@.len(),
                pairs_until_self(name1@, names) == added + pairs_until_self(
                    name1@,
                    names.skip(j as int),
                ),
                out@ == head + pair_lines(done + added),
                started == ((done + added).len() > 0),
            ensures
                pairs_until_self(name1@, names) == added,
                out@ == head + pair_lines(done + added),
                started == ((done + added).len() > 0),
            decreases vec_dependences@.len() - j,
        {
            let elem = &vec_dependences[j];
            proof {
                assert(strs_view(vec_dependences@)[j as int] == elem@);
            }
            let name2 = doc.get_name_from_key(elem).unwrap();
            proof {
                assert(names.skip(j as int)[0] == name2@);
                assert(names.skip(j as int).drop_first() =~= names.skip(j + 1));
            }
            if *name1 == *name2 {
                proof {
                    assert(pairs_until_self(name1@, names.skip(j as int)) =~= Seq::<
                        (Seq<char>, Seq<char>),
                    >::empty());
                    assert(added + Seq::<(Seq<char>, Seq<char>)>::empty() =~= added);
                }
                break ;
            }
            append_open(&mut out, !started);
            out.append("\"source\": \"");
            out.append(name1.as_str());
            out.append("\", \"target\":\"");
            out.append(name2.as_str());
            out.append("\", \"value\": 1}");
            out.append("\n");
            proof {
                let p = (name1@, name2@);
                lemma_pair_lines_push(done + added, p);
                assert((done + added).push(p) =~= done + added.push(p));
                assert(pairs_until_self(name1@, names) =~= added.push(p) + pairs_until_self(
                    name1@,
                    names.skip(j + 1),
                ));
                added = added.push(p);
            }
            started = true;
            j = j + 1;
        }
        proof {
            if j == vec_dependences@.len() {
                assert(names.skip(j as int).len() == 0);
                assert(added + Seq::<(Seq<char>, Seq<char>)>::empty() =~= added);
            }
            let ks = doc@.keys.subrange(0, i + 1);
            assert(ks.drop_last() =~= doc@.keys.subrange(0, i as int));
            assert(ks.last() == key@);
            assert(link_pairs(doc@, ks) == done + added);
        }
        i = i + 1;
    }
    out.append("\t]");
    out.append("\n");
    proof {
        assert(doc@.keys.subrange(0, i as int) =~= doc@.keys);
        assert(out@ =~= links_json_text(doc@));
    }
    out
}

/// The JSON description of the graph of `doc`: its nodes, then its links.
pub fn export_to_json(doc: &Document) -> (r: String)
    requires
        doc.wf(),
    ensures
        r@ == texstruct_json(doc@),
{
    let mut out = String::new();
    out.append("{");
    out.append("\n");
    let nodes = export_json_nodes(doc);
    out.append(nodes.as_str());
    out.append("\t,");
    out.append("\n");
    let links = export_json_links(doc);
    out.append(links.as_str());
    out.append("}");
    out.append("\n");
    proof {
        assert(out@ =~= texstruct_json(doc@));
    }
    out
}

} // verus!
