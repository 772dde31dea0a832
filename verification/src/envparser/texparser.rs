//! The environment tracker: it follows `\begin`/`\end`, labels, references
//! and `%!TEX proof` comments, and stores each finished mathematical
//! structure, with its proof, in a [`Document`].
use vstd::prelude::*;
use crate::document::{
    Document, DocumentView, doc_push, doc_set_proof, view_wf, lemma_push_then_get,
};
use crate::strutil::{strs_view, eq_str, contains_str, contains_seq, push_char, push_i32_decimal, int_decimal};
use crate::texstruct::tex_logic::{
    EnumMacroType, TexMacro, MacroView, Theorem, EnumTheoremType, Proof, TheoremView, ProofView,
    fresh_theorem, fresh_proof,
};

verus! {

/// The kind of the innermost open environment.
#[derive(Clone, Copy, Debug, PartialEq, Eq, Structural)]
pub enum EnvEnumState {
    NoEnv,
    Theorem,
    Proof,
    Equation,
    Other,
}

/// Tracks the open environments of a LaTeX source and fills a document.
pub struct EnvParser {
    current_env: EnvEnumState,
    stack_env: Vec<EnvEnumState>,
    stack_env_filtered: Vec<EnvEnumState>,
    stack_theorem: Vec<Theorem>,
    stack_proof: Vec<Proof>,
    struct_names: Vec<String>,
    struct_types: Vec<EnumTheoremType>,
    equation_env_collection: Vec<String>,
    no_label_count: i32,
    doc: Document,
}

/// The mathematical view of an [`EnvParser`].
pub struct EnvView {
    pub current: EnvEnumState,
    pub stack_env: Seq<EnvEnumState>,
    pub filtered: Seq<EnvEnumState>,
    pub theorems: Seq<TheoremView>,
    pub proofs: Seq<ProofView>,
    /// The environment names that open a structure, with the structure's kind.
    pub collection: Seq<(Seq<char>, EnumTheoremType)>,
    pub equations: Seq<Seq<char>>,
    pub no_label_count: i32,
    pub doc: DocumentView,
}

impl View for EnvParser {
    type V = EnvView;

    closed spec fn view(&self) -> EnvView {
        EnvView {
            current: self.current_env,
            stack_env: self.stack_env@,
            filtered: self.stack_env_filtered@,
            theorems: self.stack_theorem@.map_values(|t: Theorem| t@),
            proofs: self.stack_proof@.map_values(|p: Proof| p@),
            collection: Seq::new(
                self.struct_names@.len(),
                |i: int| (self.struct_names@[i]@, self.struct_types@[i]),
            ),
            equations: strs_view(self.equation_env_collection@),
            no_label_count: self.no_label_count,
            doc: self.doc@,
        }
    }
}

/// The kind that `collection` gives to the environment `name` (first entry).
pub open spec fn lookup_kind(c: Seq<(Seq<char>, EnumTheoremType)>, name: Seq<char>) -> Option<
    EnumTheoremType,
>
    decreases c.len(),
{
    if c.len() == 0 {
        None
    } else if c[0].0 == name {
        Some(c[0].1)
    } else {
        lookup_kind(c.drop_first(), name)
    }
}

/// The environments among `s` that are structures or proofs, in order.
pub open spec fn structural(s: Seq<EnvEnumState>) -> Seq<EnvEnumState>
    decreases s.len(),
{
    if s.len() == 0 {
        Seq::empty()
    } else if s.last() == EnvEnumState::Theorem || s.last() == EnvEnumState::Proof {
        structural(s.drop_last()).push(s.last())
    } else {
        structural(s.drop_last())
    }
}

/// How many entries of `s` are `k`.
pub open spec fn count_env(s: Seq<EnvEnumState>, k: EnvEnumState) -> nat
    decreases s.len(),
{
    if s.len() == 0 {
        0
    } else {
        count_env(s.drop_last(), k) + if s.last() == k {
            1nat
        } else {
            0nat
        }
    }
}

/// The invariant of the environment tracker: the structural stack mirrors
/// the open environments, and there is one pending structure (proof) per
/// open structure (proof) environment.
pub open spec fn env_wf(v: EnvView) -> bool {
    &&& v.filtered == structural(v.stack_env.push(v.current))
    &&& v.theorems.len() == count_env(v.filtered, EnvEnumState::Theorem)
    &&& v.proofs.len() == count_env(v.filtered, EnvEnumState::Proof)
}

/// The label given to the `n`-th structure that has no label.
pub open spec fn nolabel_name(n: int) -> Seq<char> {
    "NOLABEL"@ + seq!['-'] + int_decimal(n)
}

/// Entering the environment `name`.
pub open spec fn open_env_spec(v: EnvView, name: Seq<char>) -> EnvView {
    let v1 = EnvView { stack_env: v.stack_env.push(v.current), ..v };
    let v2 = match lookup_kind(v.collection, name) {
        Some(t) => EnvView {
            current: EnvEnumState::Theorem,
            theorems: v1.theorems.push(fresh_theorem("NOLABEL"@, t)),
            ..v1
        },
        None => if name == "proof"@ {
            EnvView {
                current: EnvEnumState::Proof,
                proofs: v1.proofs.push(fresh_proof("NOTH"@)),
                ..v1
            }
        } else if v.equations.contains(name) {
            EnvView { current: EnvEnumState::Equation, ..v1 }
        } else {
            EnvView { current: EnvEnumState::Other, ..v1 }
        },
    };
    if v2.current == EnvEnumState::Theorem || v2.current == EnvEnumState::Proof {
        EnvView { filtered: v2.filtered.push(v2.current), ..v2 }
    } else {
        v2
    }
}

/// A `\label{label}`: it names the open structure, or is added to the
/// equations of the innermost open structure when it stands in an equation.
pub open spec fn add_label_spec(v: EnvView, label: Seq<char>) -> EnvView {
    if v.current == EnvEnumState::Theorem {
        let t = v.theorems.last();
        EnvView {
            theorems: v.theorems.update(v.theorems.len() - 1, TheoremView { label: label, ..t }),
            ..v
        }
    } else if v.current == EnvEnumState::Equation && v.filtered.len() > 0 && v.filtered.last()
        == EnvEnumState::Theorem {
        let t = v.theorems.last();
        EnvView {
            theorems: v.theorems.update(
                v.theorems.len() - 1,
                TheoremView { equation_labels: t.equation_labels.push(label), ..t },
            ),
            ..v
        }
    } else {
        v
    }
}

/// Leaving the innermost environment: a finished structure is stored in
/// the document (under `NOLABEL-n` when it has no label), a finished proof
/// is attached to the structure it names when the document holds it.
pub open spec fn close_env_spec(v: EnvView) -> EnvView {
    let v1 = if v.current == EnvEnumState::Theorem {
        let t = v.theorems.last();
        let unlabelled = t.label == "NOLABEL"@;
        let count = if unlabelled {
            (v.no_label_count + 1) as i32
        } else {
            v.no_label_count
        };
        let label = if unlabelled {
            nolabel_name(count as int)
        } else {
            t.label
        };
        EnvView {
            theorems: v.theorems.drop_last(),
            filtered: v.filtered.drop_last(),
            no_label_count: count,
            doc: doc_push(v.doc, label, TheoremView { label: label, ..t }),
            ..v
        }
    } else if v.current == EnvEnumState::Proof {
        let p = v.proofs.last();
        let label = p.struct_label;
        EnvView {
            proofs: v.proofs.drop_last(),
            filtered: v.filtered.drop_last(),
            doc: if label != "NOTH"@ && v.doc.structs.dom().contains(label) {
                doc_set_proof(v.doc, label, p)
            } else {
                v.doc
            },
            ..v
        }
    } else {
        v
    };
    EnvView { current: v1.stack_env.last(), stack_env: v1.stack_env.drop_last(), ..v1 }
}

/// A reference `\...ref{label}`: added to the links of the innermost open
/// proof when the innermost structural environment is a proof.
pub open spec fn reference_spec(v: EnvView, label: Seq<char>) -> EnvView {
    if v.filtered.len() > 0 && v.filtered.last() == EnvEnumState::Proof {
        let p = v.proofs.last();
        EnvView {
            proofs: v.proofs.update(v.proofs.len() - 1, ProofView { links: p.links.push(label), ..p }),
            ..v
        }
    } else {
        v
    }
}

/// The effect of one macro on the tracker.
pub open spec fn process_spec(v: EnvView, m: MacroView) -> EnvView {
    match m.macro_type {
        EnumMacroType::Tex => {
            if m.name == "newtheorem"@ {
                if lookup_kind(v.collection, m.args[0]) is None {
                    EnvView {
                        collection: v.collection.push((m.args[0], EnumTheoremType::Custom)),
                        ..v
                    }
                } else {
                    v
                }
            } else if m.name == "begin"@ {
                open_env_spec(v, m.args[0])
            } else if m.name == "end"@ {
                close_env_spec(v)
            } else if m.name == "label"@ {
                add_label_spec(v, m.args[0])
            } else if contains_seq(m.name, "ref"@) {
                reference_spec(v, m.args[0])
            } else {
                v
            }
        },
        EnumMacroType::LatexMk => {
            if m.name == "proof"@ && v.current == EnvEnumState::Proof {
                let p = v.proofs.last();
                EnvView {
                    proofs: v.proofs.update(
                        v.proofs.len() - 1,
                        ProofView { struct_label: m.args[0], ..p },
                    ),
                    ..v
                }
            } else {
                v
            }
        },
    }
}

/// The macros that the tracker can take in the state `v`: those it would
/// otherwise fail on are `\newtheorem`, `\begin` and `\label` without an
/// argument, a reference without an argument inside a proof, a `%!TEX proof`
/// comment without an argument inside a proof, an `\end` with no open
/// environment, and an unlabelled structure beyond the counter's range.
pub open spec fn processable(v: EnvView, m: MacroView) -> bool {
    match m.macro_type {
        EnumMacroType::Tex => {
            if m.name == "newtheorem"@ || m.name == "begin"@ {
                m.args.len() > 0
            } else if m.name == "end"@ {
                &&& v.stack_env.len() > 0
                &&& (v.current == EnvEnumState::Theorem && v.theorems.last().label == "NOLABEL"@)
                    ==> v.no_label_count < i32::MAX
            } else if m.name == "label"@ {
                m.args.len() > 0
            } else if contains_seq(m.name, "ref"@) {
                (v.filtered.len() > 0 && v.filtered.last() == EnvEnumState::Proof) ==> m.args.len()
                    > 0
            } else {
                true
            }
        },
        EnumMacroType::LatexMk => {
            (m.name == "proof"@ && v.current == EnvEnumState::Proof) ==> m.args.len() > 0
        },
    }
}

/// The state of a new tracker that fills `d`.
pub open spec fn initial_env(d: DocumentView) -> EnvView {
    EnvView {
        current: EnvEnumState::NoEnv,
        stack_env: Seq::empty(),
        filtered: Seq::empty(),
        theorems: Seq::empty(),
        proofs: Seq::empty(),
        collection: seq![
            ("definition"@, EnumTheoremType::Definition),
            ("theorem"@, EnumTheoremType::Theorem),
            ("proposition"@, EnumTheoremType::Proposition),
            ("lemma"@, EnumTheoremType::Lemma),
            ("corollary"@, EnumTheoremType::Corollary),
        ],
        equations: seq!["equation"@, "align"@, "multlines"@],
        no_label_count: 0,
        doc: d,
    }
}

proof fn lemma_structural_push(s: Seq<EnvEnumState>, e: EnvEnumState)
    ensures
        structural(s.push(e)) == if e == EnvEnumState::Theorem || e == EnvEnumState::Proof {
            structural(s).push(e)
        } else {
            structural(s)
        },
{
    assert(s.push(e).drop_last() =~= s);
}

proof fn lemma_count_push(s: Seq<EnvEnumState>, e: EnvEnumState, k: EnvEnumState)
    ensures
        count_env(s.push(e), k) == count_env(s, k) + if e == k {
            1nat
        } else {
            0nat
        },
{
    assert(s.push(e).drop_last() =~= s);
}

/// A LaTeX macro with one argument.
pub open spec fn tex_call(name: Seq<char>, arg: Seq<char>) -> MacroView {
    MacroView {
        name: name,
        macro_type: EnumMacroType::Tex,
        args: seq![arg],
        option_args: Seq::empty(),
    }
}

/// The latexmk macro of a `%!TEX proof = {label}` comment.
pub open spec fn proof_comment(label: Seq<char>) -> MacroView {
    MacroView {
        name: "proof"@,
        macro_type: EnumMacroType::LatexMk,
        args: seq![label],
        option_args: Seq::empty(),
    }
}

proof fn lemma_macro_names_distinct()
    ensures
        "begin"@ != "newtheorem"@,
        "end"@ != "newtheorem"@,
        "end"@ != "begin"@,
        "label"@ != "newtheorem"@,
        "label"@ != "begin"@,
        "label"@ != "end"@,
        "ref"@ != "newtheorem"@,
        "ref"@ != "begin"@,
        "ref"@ != "end"@,
        "ref"@ != "label"@,
        contains_seq("ref"@, "ref"@),
{
    reveal_strlit("begin");
    reveal_strlit("label");
    reveal_strlit("end");
    reveal_strlit("newtheorem");
    reveal_strlit("ref");
    assert("begin"@.len() == 5);
    assert("newtheorem"@.len() == 10);
    assert("end"@.len() == 3);
    assert("label"@.len() == 5);
    assert("ref"@.len() == 3);
    assert("begin"@[0] != "label"@[0]);
    assert("ref"@[0] != "end"@[0]);
    assert(crate::strutil::occurs_at("ref"@, "ref"@, 0)) by {
        assert("ref"@.subrange(0, 3) =~= "ref"@);
    }
}

/// The document only grows: every structure stored before a macro is
/// still stored after it, the labels keep their order, and the document
/// stays well formed.
pub proof fn lemma_process_keeps_structures(v: EnvView, m: MacroView)
    requires
        env_wf(v),
        view_wf(v.doc),
        processable(v, m),
    ensures
        view_wf(process_spec(v, m).doc),
        v.doc.keys.is_prefix_of(process_spec(v, m).doc.keys),
        forall|k: Seq<char>|
            #[trigger] v.doc.structs.dom().contains(k) ==> process_spec(
                v,
                m,
            ).doc.structs.dom().contains(k),
{
    let w = process_spec(v, m);
    assert(v.doc.keys.subrange(0, v.doc.keys.len() as int) =~= v.doc.keys);
    if m.macro_type == EnumMacroType::Tex && m.name != "newtheorem"@ && m.name != "begin"@
        && m.name == "end"@ {
        if v.current == EnvEnumState::Theorem {
            let t = v.theorems.last();
            let unlabelled = t.label == "NOLABEL"@;
            let count = if unlabelled {
                (v.no_label_count + 1) as i32
            } else {
                v.no_label_count
            };
            let label = if unlabelled {
                nolabel_name(count as int)
            } else {
                t.label
            };
            lemma_push_then_get(v.doc, label, TheoremView { label: label, ..t });
        } else if v.current == EnvEnumState::Proof {
            let p = v.proofs.last();
            if p.struct_label != "NOTH"@ && v.doc.structs.dom().contains(p.struct_label) {
                let d2 = doc_set_proof(v.doc, p.struct_label, p);
                assert(d2.structs.dom() =~= v.doc.structs.dom());
            }
        }
    }
}

/// A labelled structure environment stores its structure: from any state,
/// `\begin{env}` (for a structure kind `env`), `\label{x}` and `\end{env}`
/// store a new structure of that kind under `x` and leave the open
/// environments as they were.
pub proof fn lemma_labelled_structure_stored(
    v: EnvView,
    env: Seq<char>,
    x: Seq<char>,
    t: EnumTheoremType,
)
    requires
        env_wf(v),
        lookup_kind(v.collection, env) == Some(t),
        x != "NOLABEL"@,
    ensures
        ({
            let v1 = process_spec(v, tex_call("begin"@, env));
            let v2 = process_spec(v1, tex_call("label"@, x));
            let v3 = process_spec(v2, tex_call("end"@, env));
            &&& processable(v, tex_call("begin"@, env))
            &&& processable(v1, tex_call("label"@, x))
            &&& processable(v2, tex_call("end"@, env))
            &&& v3.doc == doc_push(v.doc, x, fresh_theorem(x, t))
            &&& v3.current == v.current
            &&& v3.stack_env == v.stack_env
            &&& v3.theorems == v.theorems
            &&& v3.proofs == v.proofs
            &&& v3.no_label_count == v.no_label_count
        }),
{
    lemma_macro_names_distinct();
    let v1 = process_spec(v, tex_call("begin"@, env));
    let v2 = process_spec(v1, tex_call("label"@, x));
    let v3 = process_spec(v2, tex_call("end"@, env));
    assert(v1 == open_env_spec(v, env));
    assert(v2 == add_label_spec(v1, x));
    assert(v2.theorems.last() == fresh_theorem(x, t));
    assert(v3 == close_env_spec(v2));
    assert(TheoremView { label: x, ..v2.theorems.last() } == fresh_theorem(x, t));
    assert(v2.theorems.drop_last() =~= v.theorems);
    assert(v2.stack_env.drop_last() =~= v.stack_env);
}

/// A proof that names the structure it proves is attached to it: from any
/// state where `x` is stored, `\begin{proof}`, `%!TEX proof = {x}`,
/// `\ref{y}` and `\end{proof}` attach to `x` a proof of `x` that refers
/// to `y`, and leave the open environments as they were.
pub proof fn lemma_proof_attached(v: EnvView, x: Seq<char>, y: Seq<char>)
    requires
        env_wf(v),
        lookup_kind(v.collection, "proof"@) is None,
        v.doc.structs.dom().contains(x),
        x != "NOTH"@,
    ensures
        ({
            let v1 = process_spec(v, tex_call("begin"@, "proof"@));
            let v2 = process_spec(v1, proof_comment(x));
            let v3 = process_spec(v2, tex_call("ref"@, y));
            let v4 = process_spec(v3, tex_call("end"@, "proof"@));
            &&& processable(v, tex_call("begin"@, "proof"@))
            &&& processable(v1, proof_comment(x))
            &&& processable(v2, tex_call("ref"@, y))
            &&& processable(v3, tex_call("end"@, "proof"@))
            &&& v4.doc == doc_set_proof(
                v.doc,
                x,
                ProofView { struct_label: x, links: seq![y], title: "Proof"@ },
            )
            &&& v4.current == v.current
            &&& v4.stack_env == v.stack_env
            &&& v4.theorems == v.theorems
            &&& v4.proofs == v.proofs
        }),
{
    lemma_macro_names_distinct();
    let v1 = process_spec(v, tex_call("begin"@, "proof"@));
    let v2 = process_spec(v1, proof_comment(x));
    let v3 = process_spec(v2, tex_call("ref"@, y));
    let v4 = process_spec(v3, tex_call("end"@, "proof"@));
    assert(v1 == open_env_spec(v, "proof"@));
    assert(v1.current == EnvEnumState::Proof);
    assert(v2.proofs.last() == ProofView { struct_label: x, ..fresh_proof("NOTH"@) });
    assert(v3 == reference_spec(v2, y));
    assert(v3.proofs.last() =~= ProofView { struct_label: x, links: seq![y], title: "Proof"@ });
    assert(v4 == close_env_spec(v3));
    assert(v3.proofs.drop_last() =~= v.proofs);
    assert(v3.stack_env.drop_last() =~= v.stack_env);
}

/// A reference inside a proof counts whatever other environment stands
/// between it and the proof: from any state where `x` is stored,
/// `\begin{proof}`, `%!TEX proof = {x}`, `\begin{e}` (for an environment
/// `e` that is neither a structure nor a proof, such as `itemize` or an
/// equation), `\ref{y}`, `\end{e}` and `\end{proof}` attach to `x` a proof
/// of `x` that refers to `y`, and leave the open environments as they were.
pub proof fn lemma_nested_reference_attached(
    v: EnvView,
    x: Seq<char>,
    y: Seq<char>,
    e: Seq<char>,
)
    requires
        env_wf(v),
        lookup_kind(v.collection, "proof"@) is None,
        lookup_kind(v.collection, e) is None,
        e != "proof"@,
        v.doc.structs.dom().contains(x),
        x != "NOTH"@,
    ensures
        ({
            let v1 = process_spec(v, tex_call("begin"@, "proof"@));
            let v2 = process_spec(v1, proof_comment(x));
            let v3 = process_spec(v2, tex_call("begin"@, e));
            let v4 = process_spec(v3, tex_call("ref"@, y));
            let v5 = process_spec(v4, tex_call("end"@, e));
            let v6 = process_spec(v5, tex_call("end"@, "proof"@));
            &&& processable(v, tex_call("begin"@, "proof"@))
            &&& processable(v1, proof_comment(x))
            &&& processable(v2, tex_call("begin"@, e))
            &&& processable(v3, tex_call("ref"@, y))
            &&& processable(v4, tex_call("end"@, e))
            &&& processable(v5, tex_call("end"@, "proof"@))
            &&& v6.doc == doc_set_proof(
                v.doc,
                x,
                ProofView { struct_label: x, links: seq![y], title: "Proof"@ },
            )
            &&& v6.current == v.current
            &&& v6.stack_env == v.stack_env
            &&& v6.theorems == v.theorems
            &&& v6.proofs == v.proofs
        }),
{
    lemma_macro_names_distinct();
    let v1 = process_spec(v, tex_call("begin"@, "proof"@));
    let v2 = process_spec(v1, proof_comment(x));
    let v3 = process_spec(v2, tex_call("begin"@, e));
    let v4 = process_spec(v3, tex_call("ref"@, y));
    let v5 = process_spec(v4, tex_call("end"@, e));
    let v6 = process_spec(v5, tex_call("end"@, "proof"@));
    assert(v1 == open_env_spec(v, "proof"@));
    assert(v1.current == EnvEnumState::Proof);
    assert(v2.proofs.last() == ProofView { struct_label: x, ..fresh_proof("NOTH"@) });
    assert(v3 == open_env_spec(v2, e));
    assert(v3.current == EnvEnumState::Equation || v3.current == EnvEnumState::Other);
    assert(v3.filtered == v2.filtered);
    assert(v3.filtered.last() == EnvEnumState::Proof);
    assert(v4 == reference_spec(v3, y));
    assert(v4.proofs.last() =~= ProofView { struct_label: x, links: seq![y], title: "Proof"@ });
    assert(v5 == close_env_spec(v4));
    assert(v5.current == EnvEnumState::Proof);
    assert(v5.stack_env =~= v2.stack_env);
    assert(v6 == close_env_spec(v5));
    assert(v5.proofs.drop_last() =~= v.proofs);
    assert(v5.stack_env.drop_last() =~= v.stack_env);
}

/// The tracker after taking the macros `ms`, in order, from a new tracker
/// that fills `d`.
pub open spec fn run_env(d: DocumentView, ms: Seq<MacroView>) -> EnvView
    decreases ms.len(),
{
    if ms.len() == 0 {
        initial_env(d)
    } else {
        process_spec(run_env(d, ms.drop_last()), ms.last())
    }
}

/// How many of `ms` are LaTeX macros named `name`.
pub open spec fn count_tex(ms: Seq<MacroView>, name: Seq<char>) -> int
    decreases ms.len(),
{
    if ms.len() == 0 {
        0
    } else {
        count_tex(ms.drop_last(), name) + if ms.last().macro_type == EnumMacroType::Tex
            && ms.last().name == name {
            1int
        } else {
            0int
        }
    }
}

/// The macro has the argument that the tracker reads of it: `\newtheorem`,
/// `\begin`, `\label`, the references and the `%!TEX proof` comments have
/// at least one.
pub open spec fn args_present(m: MacroView) -> bool {
    match m.macro_type {
        EnumMacroType::Tex => (m.name == "newtheorem"@ || m.name == "begin"@ || m.name
            == "label"@ || contains_seq(m.name, "ref"@)) ==> m.args.len() > 0,
        EnumMacroType::LatexMk => m.name == "proof"@ ==> m.args.len() > 0,
    }
}

/// A source that the tracker takes whole: every macro has its argument,
/// no prefix closes more environments than it opens, and there are fewer
/// `\end` than the counter of unlabelled structures can number.
pub open spec fn well_nested(ms: Seq<MacroView>) -> bool {
    &&& forall|i: int| 0 <= i < ms.len() ==> args_present(#[trigger] ms[i])
    &&& forall|k: int|
        0 <= k <= ms.len() ==> count_tex(#[trigger] ms.take(k), "end"@) <= count_tex(
            ms.take(k),
            "begin"@,
        )
    &&& count_tex(ms, "end"@) < i32::MAX
}

/// The tracker after a well nested source has as many open environments as
/// `\begin` not yet closed, the outermost saved environment is the empty
/// one, and every macro of the source could be taken.
proof fn lemma_run_env_shape(d: DocumentView, ms: Seq<MacroView>)
    requires
        well_nested(ms),
    ensures
        run_env(d, ms).stack_env.len() == count_tex(ms, "begin"@) - count_tex(ms, "end"@),
        0 <= run_env(d, ms).no_label_count <= count_tex(ms, "end"@),
        run_env(d, ms).stack_env.len() == 0 ==> run_env(d, ms).current == EnvEnumState::NoEnv,
        run_env(d, ms).stack_env.len() > 0 ==> run_env(d, ms).stack_env[0]
            == EnvEnumState::NoEnv,
        forall|k: int| 0 <= k < ms.len() ==> processable(run_env(d, ms.take(k)), #[trigger] ms[k]),
    decreases ms.len(),
{
    lemma_macro_names_distinct();
    if ms.len() == 0 {
        return;
    }
    let dl = ms.drop_last();
    let n = dl.len() as int;
    let m = ms.last();
    assert forall|k: int| 0 <= k <= dl.len() implies count_tex(#[trigger] dl.take(k), "end"@)
        <= count_tex(dl.take(k), "begin"@) by {
        assert(dl.take(k) =~= ms.take(k));
    }
    assert forall|i: int| 0 <= i < dl.len() implies args_present(#[trigger] dl[i]) by {
        assert(dl[i] == ms[i]);
    }
    assert(ms.take(n) =~= dl);
    assert(ms.take(n + 1) =~= ms);
    assert(ms.drop_last() == dl);
    lemma_run_env_shape(d, dl);
    let v = run_env(d, dl);
    let w = run_env(d, ms);
    assert(w == process_spec(v, m));
    assert(args_present(ms[n]));
    assert(ms[n] == m);
    let is_begin = m.macro_type == EnumMacroType::Tex && m.name == "begin"@;
    let is_end = m.macro_type == EnumMacroType::Tex && m.name == "end"@;
    assert(count_tex(ms, "begin"@) == count_tex(dl, "begin"@) + if is_begin {
        1int
    } else {
        0int
    });
    assert(count_tex(ms, "end"@) == count_tex(dl, "end"@) + if is_end {
        1int
    } else {
        0int
    });
    assert(processable(v, m));
    if is_begin {
        assert(w == open_env_spec(v, m.args[0]));
        assert(w.stack_env == v.stack_env.push(v.current));
        assert(w.current != EnvEnumState::NoEnv);
        if v.stack_env.len() > 0 {
            assert(w.stack_env[0] == v.stack_env[0]);
        }
    } else if is_end {
        assert(w == close_env_spec(v));
        assert(v.stack_env.len() > 0);
        if v.stack_env.len() > 1 {
            assert(w.stack_env[0] == v.stack_env[0]);
        } else {
            assert(w.current == v.stack_env[0]);
        }
    } else if m.macro_type == EnumMacroType::Tex && m.name == "label"@ {
        assert(w == add_label_spec(v, m.args[0]));
    } else if m.macro_type == EnumMacroType::Tex && m.name != "newtheorem"@ && contains_seq(
        m.name,
        "ref"@,
    ) {
        assert(w == reference_spec(v, m.args[0]));
    }
    assert forall|k: int| 0 <= k < ms.len() implies processable(
        run_env(d, ms.take(k)),
        #[trigger] ms[k],
    ) by {
        if k < n {
            assert(ms.take(k) =~= dl.take(k));
            assert(ms[k] == dl[k]);
        }
    }
}

/// The tracker never fails on a well nested source, and fails on an `\end`
/// with no open environment: from a new tracker that took a well nested
/// source `ms`, a macro `m` that has its argument can be taken exactly
/// unless it is an `\end` and every `\begin` of `ms` is closed. Every
/// macro of `ms` could be taken in its turn.
pub proof fn lemma_well_nested_processable(d: DocumentView, ms: Seq<MacroView>, m: MacroView)
    requires
        well_nested(ms),
        args_present(m),
    ensures
        forall|k: int| 0 <= k < ms.len() ==> processable(run_env(d, ms.take(k)), #[trigger] ms[k]),
        processable(run_env(d, ms), m) <==> !(m.macro_type == EnumMacroType::Tex && m.name
            == "end"@ && count_tex(ms, "end"@) == count_tex(ms, "begin"@)),
{
    lemma_macro_names_distinct();
    lemma_run_env_shape(d, ms);
}

/// A proof without a known target is dropped: when, after a well nested
/// source from a new tracker, the innermost environment is a proof that
/// names no structure (`NOTH`) or one that the document does not hold,
/// its `\end` can be taken and leaves the document as it was.
pub proof fn lemma_proof_without_target_dropped(d: DocumentView, ms: Seq<MacroView>, env: Seq<char>)
    requires
        well_nested(ms),
        run_env(d, ms).current == EnvEnumState::Proof,
        run_env(d, ms).proofs.last().struct_label == "NOTH"@ || !run_env(
            d,
            ms,
        ).doc.structs.dom().contains(run_env(d, ms).proofs.last().struct_label),
    ensures
        processable(run_env(d, ms), tex_call("end"@, env)),
        process_spec(run_env(d, ms), tex_call("end"@, env)).doc == run_env(d, ms).doc,
{
    lemma_macro_names_distinct();
    lemma_run_env_shape(d, ms);
    let v = run_env(d, ms);
    assert(process_spec(v, tex_call("end"@, env)) == close_env_spec(v));
}

impl EnvParser {
    /// The tracker's invariant.
    pub open spec fn wf(&self) -> bool {
        &&& self.repr_ok()
        &&& env_wf(self@)
        &&& self.document_wf()
    }

    /// The representation is consistent.
    pub closed spec fn repr_ok(&self) -> bool {
        self.struct_names@.len() == self.struct_types@.len()
    }

    /// The document being filled satisfies its invariant.
    pub closed spec fn document_wf(&self) -> bool {
        self.doc.wf()
    }

    /// A tracker with no open environment that fills `doc_input`.
    pub fn new(doc_input: Document) -> (r: Self)
        requires
            doc_input.wf(),
        ensures
            r.wf(),
            r@ == initial_env(doc_input@),
    {
        let mut names: Vec<String> = Vec::new();
        names.push(String::from_str("definition"));
        names.push(String::from_str("theorem"));
        names.push(String::from_str("proposition"));
        names.push(String::from_str("lemma"));
        names.push(String::from_str("corollary"));
        let mut types: Vec<EnumTheoremType> = Vec::new();
        types.push(EnumTheoremType::Definition);
        types.push(EnumTheoremType::Theorem);
        types.push(EnumTheoremType::Proposition);
        types.push(EnumTheoremType::Lemma);
        types.push(EnumTheoremType::Corollary);
        let mut eqs: Vec<String> = Vec::new();
        eqs.push(String::from_str("equation"));
        eqs.push(String::from_str("align"));
        eqs.push(String::from_str("multlines"));
        let r = EnvParser {
            current_env: EnvEnumState::NoEnv,
            stack_env: Vec::new(),
            stack_env_filtered: Vec::new(),
            stack_theorem: Vec::new(),
            stack_proof: Vec::new(),
            struct_names: names,
            struct_types: types,
            equation_env_collection: eqs,
            no_label_count: 0,
            doc: doc_input,
        };
        proof {
            assert(r@.collection =~= initial_env(doc_input@).collection);
            assert(r@.equations =~= initial_env(doc_input@).equations);
            assert(r@.theorems =~= Seq::<TheoremView>::empty());
            assert(r@.proofs =~= Seq::<ProofView>::empty());
            lemma_structural_push(Seq::<EnvEnumState>::empty(), EnvEnumState::NoEnv);
            assert(structural(Seq::<EnvEnumState>::empty()) =~= Seq::<EnvEnumState>::empty());
        }
        r
    }

    /// The document filled so far.
    pub fn document(&self) -> (r: &Document)
        requires
            self.wf(),
        ensures
            r.wf(),
            r@ == self@.doc,
    {
        &self.doc
    }

    /// The document filled so far, taking the tracker apart.
    pub fn into_document(self) -> (r: Document)
        requires
            self.wf(),
        ensures
            r.wf(),
            r@ == self@.doc,
    {
        self.doc
    }

    /// Whether the innermost environment is a proof that names a structure
    /// (not `NOTH`) that the document does not hold.
    pub fn proof_target_missing(&self) -> (b: bool)
        requires
            self.wf(),
        ensures
            b == (self@.current == EnvEnumState::Proof && self@.proofs.last().struct_label
                != "NOTH"@ && !self@.doc.structs.dom().contains(self@.proofs.last().struct_label)),
    {
        if self.current_env != EnvEnumState::Proof {
            return false;
        }
        proof {
            lemma_structural_push(self@.stack_env, self@.current);
            assert(self@.filtered.drop_last().push(self@.filtered.last()) =~= self@.filtered);
            lemma_count_push(self@.filtered.drop_last(), self@.filtered.last(), EnvEnumState::Proof);
        }
        let n = self.stack_proof.len();
        let label = self.stack_proof[n - 1].get_struct_label();
        !eq_str(&label, "NOTH") && !self.doc.contains_key(&label)
    }

    /// Whether the tracker can take `tex_macro` in its present state.
    pub fn can_process(&self, tex_macro: &TexMacro) -> (b: bool)
        requires
            self.wf(),
        ensures
            b == processable(self@, tex_macro@),
    {
        let name = tex_macro.get_name();
        let nargs = tex_macro.get_nb_args();
        match tex_macro.get_macro_type() {
            EnumMacroType::Tex => {
                if eq_str(&name, "newtheorem") || eq_str(&name, "begin") {
                    nargs > 0
                } else if eq_str(&name, "end") {
                    if self.stack_env.len() == 0 {
                        return false;
                    }
                    if self.current_env == EnvEnumState::Theorem {
                        let n = self.stack_theorem.len();
                        proof { assert(n > 0); }
                        let last = self.stack_theorem[n - 1].clone_label();
                        if eq_str(&last, "NOLABEL") {
                            return self.no_label_count < i32::MAX;
                        }
                    }
                    true
                } else if eq_str(&name, "label") {
                    nargs > 0
                } else if contains_str(name.as_str(), "ref") {
                    let nf = self.stack_env_filtered.len();
                    if nf > 0 && self.stack_env_filtered[nf - 1] == EnvEnumState::Proof {
                        nargs > 0
                    } else {
                        true
                    }
                } else {
                    true
                }
            },
            EnumMacroType::LatexMk => {
                if eq_str(&name, "proof") && self.current_env == EnvEnumState::Proof {
                    nargs > 0
                } else {
                    true
                }
            },
        }
    }

    /// Takes one macro: declares a structure kind (`\newtheorem`), opens
    /// (`\begin`) or closes (`\end`) an environment, labels it (`\label`),
    /// records a reference in a proof (any macro whose name holds `ref`), or
    /// names the structure that a proof proves (`%!TEX proof = {label}`).
    pub fn process_macro(&mut self, tex_macro: &TexMacro)
        requires
            old(self).wf(),
            processable(old(self)@, tex_macro@),
        ensures
            final(self).wf(),
            final(self)@ == process_spec(old(self)@, tex_macro@),
    {
        let name = tex_macro.get_name();
        match tex_macro.get_macro_type() {
            EnumMacroType::Tex => {
                if eq_str(&name, "newtheorem") {
                    let keyword = tex_macro.get_arg(0);
                    if self.find_struct_type(&keyword).is_none() {
                        self.struct_names.push(keyword);
                        self.struct_types.push(EnumTheoremType::Custom);
                        proof {
                            assert(self@.collection =~= old(self)@.collection.push(
                                (tex_macro@.args[0], EnumTheoremType::Custom),
                            ));
                        }
                    }
                } else if eq_str(&name, "begin") {
                    let env_name = tex_macro.get_arg(0);
                    self.open_env(&env_name);
                } else if eq_str(&name, "end") {
                    self.close_env();
                } else if eq_str(&name, "label") {
                    let label = tex_macro.get_arg(0);
                    self.add_label_to_env(label);
                } else if contains_str(name.as_str(), "ref") {
                    self.manage_reference(tex_macro);
                }
            },
            EnumMacroType::LatexMk => {
                if eq_str(&name, "proof") && self.current_env == EnvEnumState::Proof {
                    let label = tex_macro.get_arg(0);
                    let mut proof = self.stack_proof.pop().unwrap();
                    proof.set_struct_label(&label);
                    self.stack_proof.push(proof);
                    proof {
                        assert(self@.proofs =~= old(self)@.proofs.update(
                            old(self)@.proofs.len() - 1,
                            ProofView { struct_label: label@, ..old(self)@.proofs.last() },
                        ));
                    }
                }
            },
        }
    }

    /// The kind that the collection gives to `name`.
    fn find_struct_type(&self, name: &String) -> (r: Option<EnumTheoremType>)
        requires
            self.repr_ok(),
        ensures
            r == lookup_kind(self@.collection, name@),
    {
        let mut i: usize = 0;
        assert(self@.collection.skip(0) =~= self@.collection);
        while i < self.struct_names.len()
            invariant
                self.repr_ok(),
                i <= self.struct_names@.len(),
                lookup_kind(self@.collection, name@) == lookup_kind(
                    self@.collection.skip(i as int),
                    name@,
                ),
            decreases self.struct_names@.len() - i,
        {
            assert(self@.collection.skip(i as int).drop_first() =~= self@.collection.skip(i + 1));
            if self.struct_names[i] == *name {
                return Some(self.struct_types[i]);
            }
            i = i + 1;
        }
        None
    }

    fn open_env(&mut self, env_name: &String)
        requires
            old(self).wf(),
        ensures
            final(self).wf(),
            final(self)@ == open_env_spec(old(self)@, env_name@),
    {
        self.stack_env.push(self.current_env);
        match self.find_struct_type(env_name) {
            Some(tex_type) => {
                self.current_env = EnvEnumState::Theorem;
                let math_struct = Theorem::new(String::from_str("NOLABEL"), tex_type);
                self.stack_theorem.push(math_struct);
                proof {
                    assert(self@.theorems =~= old(self)@.theorems.push(
                        fresh_theorem("NOLABEL"@, tex_type),
                    ));
                }
            },
            None => {
                if eq_str(env_name, "proof") {
                    self.current_env = EnvEnumState::Proof;
                    let proof = Proof::new(String::from_str("NOTH"));
                    self.stack_proof.push(proof);
                    proof {
                        assert(self@.proofs =~= old(self)@.proofs.push(fresh_proof("NOTH"@)));
                    }
                } else if crate::strutil::contains_string(&self.equation_env_collection, env_name) {
                    self.current_env = EnvEnumState::Equation;
                } else {
                    self.current_env = EnvEnumState::Other;
                }
            },
        }
        if self.current_env == EnvEnumState::Theorem || self.current_env == EnvEnumState::Proof {
            self.stack_env_filtered.push(self.current_env);
        }
        proof {
            lemma_structural_push(old(self)@.stack_env.push(old(self)@.current), self@.current);
            lemma_structural_push(old(self)@.stack_env, old(self)@.current);
            lemma_count_push(old(self)@.filtered, self@.current, EnvEnumState::Theorem);
            lemma_count_push(old(self)@.filtered, self@.current, EnvEnumState::Proof);
            assert(self@ =~= open_env_spec(old(self)@, env_name@));
        }
    }

    fn add_label_to_env(&mut self, label: String)
        requires
            old(self).wf(),
        ensures
            final(self).wf(),
            final(self)@ == add_label_spec(old(self)@, label@),
    {
        proof { lemma_structural_push(self@.stack_env, self@.current); }
        if self.current_env == EnvEnumState::Theorem {
            let mut math_struct = self.stack_theorem.pop().unwrap();
            math_struct.set_label(&label);
            self.stack_theorem.push(math_struct);
            proof {
                assert(self@.theorems =~= add_label_spec(old(self)@, label@).theorems);
            }
        } else if self.current_env == EnvEnumState::Equation {
            let nf = self.stack_env_filtered.len();
            if nf > 0 && self.stack_env_filtered[nf - 1] == EnvEnumState::Theorem {
                let mut math_struct = self.stack_theorem.pop().unwrap();
                math_struct.add_equation(label);
                self.stack_theorem.push(math_struct);
                proof {
                    assert(self@.theorems =~= add_label_spec(old(self)@, label@).theorems);
                }
            }
        }
    }

    fn close_env(&mut self)
        requires
            old(self).wf(),
            old(self)@.stack_env.len() > 0,
            (old(self)@.current == EnvEnumState::Theorem && old(self)@.theorems.last().label
                == "NOLABEL"@) ==> old(self)@.no_label_count < i32::MAX,
        ensures
            final(self).wf(),
            final(self)@ == close_env_spec(old(self)@),
    {
        let ghost v = old(self)@;
        proof {
            lemma_structural_push(v.stack_env, v.current);
            if v.current == EnvEnumState::Theorem || v.current == EnvEnumState::Proof {
                assert(v.filtered.drop_last().push(v.filtered.last()) =~= v.filtered);
                lemma_count_push(v.filtered.drop_last(), v.filtered.last(), EnvEnumState::Theorem);
                lemma_count_push(v.filtered.drop_last(), v.filtered.last(), EnvEnumState::Proof);
            }
        }
        if self.current_env == EnvEnumState::Theorem {
            let mut math_struct = self.stack_theorem.pop().unwrap();
            let mut label = math_struct.clone_label();
            if eq_str(&label, "NOLABEL") {
                self.no_label_count = self.no_label_count + 1;
                let mut numbered = String::from_str("NOLABEL");
                push_char(&mut numbered, '-');
                push_i32_decimal(&mut numbered, self.no_label_count);
                proof {
                    assert(numbered@ =~= nolabel_name(self.no_label_count as int));
                }
                label = numbered;
                math_struct.set_label(&label);
            }
            self.doc.push(label, math_struct);
            self.stack_env_filtered.pop();
            proof {
                assert(self@.theorems =~= v.theorems.drop_last());
            }
        } else if self.current_env == EnvEnumState::Proof {
            let proof = self.stack_proof.pop().unwrap();
            let label = proof.get_struct_label();
            if !eq_str(&label, "NOTH") {
                if self.doc.contains_key(&label) {
                    self.doc.set_proof(&label, proof);
                }
            }
            self.stack_env_filtered.pop();
            proof {
                assert(self@.proofs =~= v.proofs.drop_last());
            }
        }
        let ghost mid = self@;
        self.current_env = self.stack_env.pop().unwrap();
        proof {
            assert(v.stack_env =~= v.stack_env.drop_last().push(v.stack_env.last()));
            lemma_structural_push(v.stack_env.drop_last(), v.stack_env.last());
            assert(self@.stack_env =~= close_env_spec(v).stack_env);
            assert(self@.current == close_env_spec(v).current);
            assert(self@.filtered =~= close_env_spec(v).filtered);
            assert(self@.theorems =~= close_env_spec(v).theorems);
            assert(self@.proofs =~= close_env_spec(v).proofs);
            assert(self@.doc == close_env_spec(v).doc);
            assert(self@.no_label_count == close_env_spec(v).no_label_count);
            assert(self@ =~= close_env_spec(v));
            assert(self@.stack_env.push(self@.current) =~= v.stack_env);
            assert(self@.filtered == structural(self@.stack_env.push(self@.current)));
            assert(self.repr_ok());
            assert(self.document_wf());
            assert(env_wf(self@));
        }
    }

    fn manage_reference(&mut self, tex_macro: &TexMacro)
        requires
            old(self).wf(),
            (old(self)@.filtered.len() > 0 && old(self)@.filtered.last() == EnvEnumState::Proof)
                ==> tex_macro@.args.len() > 0,
        ensures
            final(self).wf(),
            final(self)@ == reference_spec(old(self)@, tex_macro@.args[0]),
    {
        let nf = self.stack_env_filtered.len();
        if nf > 0 && self.stack_env_filtered[nf - 1] == EnvEnumState::Proof {
            let label = tex_macro.get_arg(0);
            let mut proof = self.stack_proof.pop().unwrap();
            proof.add_link(label);
            self.stack_proof.push(proof);
            proof {
                assert(self@.proofs =~= reference_spec(old(self)@, tex_macro@.args[0]).proofs);
            }
        }
    }
}

} // verus!
