//! LaTeX macros, mathematical structures (theorems, definitions, ...) and
//! proofs, each with a mathematical view.
use vstd::prelude::*;
use crate::strutil::{
    strs_view, clone_strings, contains_string, push_i32_decimal, int_decimal,
};

verus! {

/* -----------------------------------------

                Tex Macro

----------------------------------------- */

/// Where a macro comes from: LaTeX source, or a `%!TEX` (latexmk) comment.
#[derive(Debug, Clone, Copy, PartialEq, Eq, Structural)]
pub enum EnumMacroType {
    Tex,
    LatexMk,
}

/// A macro call: its name, its mandatory arguments and its optional arguments.
#[derive(Debug)]
pub struct TexMacro {
    name: String,
    macro_type: EnumMacroType,
    args: Vec<String>,
    option_args: Vec<String>,
}

/// The mathematical view of a [`TexMacro`].
pub struct MacroView {
    pub name: Seq<char>,
    pub macro_type: EnumMacroType,
    pub args: Seq<Seq<char>>,
    pub option_args: Seq<Seq<char>>,
}

/// `items` each surrounded by `open` and `close`, concatenated in order.
pub open spec fn bracketed(items: Seq<Seq<char>>, open: char, close: char) -> Seq<char>
    decreases items.len(),
{
    if items.len() == 0 {
        Seq::empty()
    } else {
        bracketed(items.drop_last(), open, close) + seq![open] + items.last() + seq![close]
    }
}

/// The LaTeX source of a macro call: `\name[opt]...{arg}...`.
pub open spec fn tex_code(m: MacroView) -> Seq<char> {
    seq!['\\'] + m.name + bracketed(m.option_args, '[', ']') + bracketed(m.args, '{', '}')
}

impl View for TexMacro {
    type V = MacroView;

    closed spec fn view(&self) -> MacroView {
        MacroView {
            name: self.name@,
            macro_type: self.macro_type,
            args: strs_view(self.args@),
            option_args: strs_view(self.option_args@),
        }
    }
}

fn append_bracketed(out: &mut String, items: &Vec<String>, open: char, close: char)
    ensures
        final(out)@ == old(out)@ + bracketed(strs_view(items@), open, close),
{
    let mut i: usize = 0;
    while i < items.len()
        invariant
            i <= items.len(),
            out@ == old(out)@ + bracketed(strs_view(items@.subrange(0, i as int)), open, close),
        decreases items.len() - i,
    {
        let ghost before = out@;
        crate::strutil::push_char(out, open);
        out.append(items[i].as_str());
        crate::strutil::push_char(out, close);
        let ghost prefix = strs_view(items@.subrange(0, i + 1));
        assert(prefix.drop_last() =~= strs_view(items@.subrange(0, i as int)));
        assert(prefix.last() == items@[i as int]@);
        i = i + 1;
        assert(out@ =~= old(out)@ + bracketed(strs_view(items@.subrange(0, i as int)), open, close));
    }
    assert(items@.subrange(0, i as int) =~= items@);
}

impl TexMacro {
    /// A macro with an empty name and no argument.
    pub fn new(macro_type: EnumMacroType) -> (r: Self)
        ensures
            r@.name == Seq::<char>::empty(),
            r@.macro_type == macro_type,
            r@.args == Seq::<Seq<char>>::empty(),
            r@.option_args == Seq::<Seq<char>>::empty(),
    {
        let r = TexMacro {
            name: String::new(),
            macro_type: macro_type,
            args: Vec::new(),
            option_args: Vec::new(),
        };
        assert(strs_view(r.args@) =~= Seq::<Seq<char>>::empty());
        assert(strs_view(r.option_args@) =~= Seq::<Seq<char>>::empty());
        r
    }

    pub fn get_macro_type(&self) -> (r: EnumMacroType)
        ensures
            r == self@.macro_type,
    {
        self.macro_type
    }

    pub fn get_name(&self) -> (r: String)
        ensures
            r@ == self@.name,
    {
        self.name.clone()
    }

    pub fn get_nb_args(&self) -> (r: usize)
        ensures
            r == self@.args.len(),
    {
        self.args.len()
    }

    pub fn get_nb_opt_args(&self) -> (r: usize)
        ensures
            r == self@.option_args.len(),
    {
        self.option_args.len()
    }

    pub fn get_args(&self) -> (r: Vec<String>)
        ensures
            strs_view(r@) == self@.args,
    {
        clone_strings(&self.args)
    }

    pub fn get_arg(&self, i: usize) -> (r: String)
        requires
            i < self@.args.len(),
        ensures
            r@ == self@.args[i as int],
    {
        self.args[i].clone()
    }

    pub fn get_opt_arg(&self, i: usize) -> (r: String)
        requires
            i < self@.option_args.len(),
        ensures
            r@ == self@.option_args[i as int],
    {
        self.option_args[i].clone()
    }

    /// The LaTeX source of this macro call.
    pub fn get_tex_code(&self) -> (r: String)
        ensures
            r@ == tex_code(self@),
    {
        let mut out = String::new();
        crate::strutil::push_char(&mut out, '\\');
        out.append(self.name.as_str());
        append_bracketed(&mut out, &self.option_args, '[', ']');
        append_bracketed(&mut out, &self.args, '{', '}');
        assert(out@ =~= tex_code(self@));
        out
    }

    pub fn set_name(&mut self, cmd_name: &String)
        ensures
            final(self)@.name == cmd_name@,
            final(self)@.macro_type == old(self)@.macro_type,
            final(self)@.args == old(self)@.args,
            final(self)@.option_args == old(self)@.option_args,
    {
        self.name = cmd_name.clone();
    }

    pub fn add_arg(&mut self, arg: &String)
        ensures
            final(self)@.args == old(self)@.args.push(arg@),
            final(self)@.name == old(self)@.name,
            final(self)@.macro_type == old(self)@.macro_type,
            final(self)@.option_args == old(self)@.option_args,
    {
        self.args.push(arg.clone());
        assert(strs_view(self.args@) =~= strs_view(old(self).args@).push(arg@));
    }

    pub fn add_opt_arg(&mut self, opt_arg: &String)
        ensures
            final(self)@.option_args == old(self)@.option_args.push(opt_arg@),
            final(self)@.name == old(self)@.name,
            final(self)@.macro_type == old(self)@.macro_type,
            final(self)@.args == old(self)@.args,
    {
        self.option_args.push(opt_arg.clone());
        assert(strs_view(self.option_args@) =~= strs_view(old(self).option_args@).push(opt_arg@));
    }
}

/* -----------------------------------------

                Theorem

----------------------------------------- */

/// The kind of a mathematical structure.
#[derive(Debug, Clone, Copy, PartialEq, Eq, Structural)]
pub enum EnumTheoremType {
    Custom,
    Definition,
    Theorem,
    Proposition,
    Lemma,
    Corollary,
}

/// A mathematical structure: its label, display name, kind, proof, the
/// labels of the equations it holds, and its number and page.
pub struct Theorem {
    label: String,
    name: String,
    theorem_type: EnumTheoremType,
    proof: Option<Proof>,
    equation_labels: Vec<String>,
    ilabel: i32,
    page: i32,
}

/// The mathematical view of a [`Proof`].
pub struct ProofView {
    pub struct_label: Seq<char>,
    pub links: Seq<Seq<char>>,
    pub title: Seq<char>,
}

/// The mathematical view of a [`Theorem`].
pub struct TheoremView {
    pub label: Seq<char>,
    pub name: Seq<char>,
    pub theorem_type: EnumTheoremType,
    pub proof: Option<ProofView>,
    pub equation_labels: Seq<Seq<char>>,
    pub ilabel: i32,
    pub page: i32,
}

impl View for Theorem {
    type V = TheoremView;

    closed spec fn view(&self) -> TheoremView {
        TheoremView {
            label: self.label@,
            name: self.name@,
            theorem_type: self.theorem_type,
            proof: match self.proof {
                Some(p) => Some(p@),
                None => None,
            },
            equation_labels: strs_view(self.equation_labels@),
            ilabel: self.ilabel,
            page: self.page,
        }
    }
}

/// The word that `print` writes for each kind.
pub open spec fn type_word(t: EnumTheoremType) -> Seq<char> {
    match t {
        EnumTheoremType::Definition => " - Definition"@,
        EnumTheoremType::Theorem => " - Theorem"@,
        EnumTheoremType::Proposition => " - Proposition"@,
        EnumTheoremType::Lemma => " - Lemma"@,
        EnumTheoremType::Corollary => " - Corollary"@,
        EnumTheoremType::Custom => " - Other"@,
    }
}

/// The abbreviation that precedes the number in a numbered name.
pub open spec fn type_abbrev(t: EnumTheoremType) -> Seq<char> {
    match t {
        EnumTheoremType::Definition => "Def. "@,
        EnumTheoremType::Theorem => " - Th. "@,
        EnumTheoremType::Proposition => "Prop. "@,
        EnumTheoremType::Lemma => "Lem. "@,
        EnumTheoremType::Corollary => "Cor. "@,
        EnumTheoremType::Custom => "Other "@,
    }
}

/// The group number of each kind (its position in the declaration).
pub open spec fn type_group(t: EnumTheoremType) -> i32 {
    match t {
        EnumTheoremType::Custom => 0,
        EnumTheoremType::Definition => 1,
        EnumTheoremType::Theorem => 2,
        EnumTheoremType::Proposition => 3,
        EnumTheoremType::Lemma => 4,
        EnumTheoremType::Corollary => 5,
    }
}

/// The one-line description that `print` gives of a structure.
pub open spec fn print_text(t: TheoremView) -> Seq<char> {
    type_word(t.theorem_type) + ": "@ + t.label + t.name
}

/// The name shown for a structure: its label while its name is `"None"`.
pub open spec fn display_name(t: TheoremView) -> Seq<char> {
    if t.name == "None"@ {
        t.label
    } else {
        t.name
    }
}

fn type_word_str(t: EnumTheoremType) -> (r: &'static str)
    ensures
        r@ == type_word(t),
{
    match t {
        EnumTheoremType::Definition => {
            proof { reveal_strlit(" - Definition"); }
            " - Definition"
        },
        EnumTheoremType::Theorem => {
            proof { reveal_strlit(" - Theorem"); }
            " - Theorem"
        },
        EnumTheoremType::Proposition => {
            proof { reveal_strlit(" - Proposition"); }
            " - Proposition"
        },
        EnumTheoremType::Lemma => {
            proof { reveal_strlit(" - Lemma"); }
            " - Lemma"
        },
        EnumTheoremType::Corollary => {
            proof { reveal_strlit(" - Corollary"); }
            " - Corollary"
        },
        EnumTheoremType::Custom => {
            proof { reveal_strlit(" - Other"); }
            " - Other"
        },
    }
}

fn type_abbrev_str(t: EnumTheoremType) -> (r: &'static str)
    ensures
        r@ == type_abbrev(t),
{
    match t {
        EnumTheoremType::Definition => {
            proof { reveal_strlit("Def. "); }
            "Def. "
        },
        EnumTheoremType::Theorem => {
            proof { reveal_strlit(" - Th. "); }
            " - Th. "
        },
        EnumTheoremType::Proposition => {
            proof { reveal_strlit("Prop. "); }
            "Prop. "
        },
        EnumTheoremType::Lemma => {
            proof { reveal_strlit("Lem. "); }
            "Lem. "
        },
        EnumTheoremType::Corollary => {
            proof { reveal_strlit("Cor. "); }
            "Cor. "
        },
        EnumTheoremType::Custom => {
            proof { reveal_strlit("Other "); }
            "Other "
        },
    }
}

/// The view of a structure just created with [`Theorem::new`].
pub open spec fn fresh_theorem(label: Seq<char>, t: EnumTheoremType) -> TheoremView {
    TheoremView {
        label: label,
        name: "None"@,
        theorem_type: t,
        proof: None,
        equation_labels: Seq::empty(),
        ilabel: 0,
        page: 0,
    }
}

/// The view of a proof just created with [`Proof::new`].
pub open spec fn fresh_proof(label: Seq<char>) -> ProofView {
    ProofView { struct_label: label, links: Seq::empty(), title: "Proof"@ }
}

/// A call that changes a structure: `add_equation` or one of the setters,
/// with its argument.
pub enum TheoremOp {
    AddEquation(Seq<char>),
    SetLabel(Seq<char>),
    SetProof(ProofView),
    SetIlabel(i32),
    SetPage(i32),
    SetName(Seq<char>),
}

/// The structure after one call, as the call's contract states it.
pub open spec fn apply_theorem_op(t: TheoremView, op: TheoremOp) -> TheoremView {
    match op {
        TheoremOp::AddEquation(e) => TheoremView { equation_labels: t.equation_labels.push(e), ..t },
        TheoremOp::SetLabel(l) => TheoremView { label: l, ..t },
        TheoremOp::SetProof(p) => TheoremView { proof: Some(p), ..t },
        TheoremOp::SetIlabel(n) => TheoremView {
            ilabel: n,
            name: type_abbrev(t.theorem_type) + int_decimal(n as int),
            ..t
        },
        TheoremOp::SetPage(n) => TheoremView { page: n, ..t },
        TheoremOp::SetName(n) => TheoremView { name: n, ..t },
    }
}

/// The structure `t` after the calls `ops`, in order.
pub open spec fn run_theorem(t: TheoremView, ops: Seq<TheoremOp>) -> TheoremView
    decreases ops.len(),
{
    if ops.len() == 0 {
        t
    } else {
        apply_theorem_op(run_theorem(t, ops.drop_last()), ops.last())
    }
}

/// `contains_equation` tells the history of a structure: after
/// `Theorem::new` and any sequence of setter and `add_equation` calls, a
/// label is one of its equations exactly when some `add_equation` added it.
pub proof fn lemma_equations_history(
    label: Seq<char>,
    kind: EnumTheoremType,
    ops: Seq<TheoremOp>,
    e: Seq<char>,
)
    ensures
        run_theorem(fresh_theorem(label, kind), ops).equation_labels.contains(e) <==> exists|i: int|
            0 <= i < ops.len() && ops[i] == TheoremOp::AddEquation(e),
    decreases ops.len(),
{
    if ops.len() > 0 {
        let dl = ops.drop_last();
        let n = dl.len() as int;
        lemma_equations_history(label, kind, dl, e);
        let prev = run_theorem(fresh_theorem(label, kind), dl).equation_labels;
        let now = run_theorem(fresh_theorem(label, kind), ops).equation_labels;
        if exists|i: int| 0 <= i < dl.len() && dl[i] == TheoremOp::AddEquation(e) {
            let i = choose|i: int| 0 <= i < dl.len() && dl[i] == TheoremOp::AddEquation(e);
            assert(ops[i] == dl[i]);
        }
        if exists|i: int| 0 <= i < ops.len() && ops[i] == TheoremOp::AddEquation(e) {
            let i = choose|i: int| 0 <= i < ops.len() && ops[i] == TheoremOp::AddEquation(e);
            if i < n {
                assert(dl[i] == ops[i]);
            }
        }
        match ops.last() {
            TheoremOp::AddEquation(x) => {
                assert(now == prev.push(x));
                if prev.contains(e) {
                    let j = choose|j: int| 0 <= j < prev.len() && prev[j] == e;
                    assert(now[j] == e);
                }
                if x == e {
                    assert(now[prev.len() as int] == e);
                    assert(ops[n] == TheoremOp::AddEquation(e));
                }
                if now.contains(e) {
                    let j = choose|j: int| 0 <= j < now.len() && now[j] == e;
                    if j < prev.len() {
                        assert(prev[j] == e);
                    }
                }
            },
            _ => {
                assert(now == prev);
                assert(ops[n] != TheoremOp::AddEquation(e));
            },
        }
    } else {
        assert(fresh_theorem(label, kind).equation_labels =~= Seq::<Seq<char>>::empty());
    }
}

impl Theorem {
    /// A structure of kind `theorem_type` with the given label, the name
    /// `"None"`, no proof, no equation, number and page 0.
    pub fn new(label: String, theorem_type: EnumTheoremType) -> (r: Self)
        ensures
            r@ == fresh_theorem(label@, theorem_type),
    {
        let r = Theorem {
            label: label,
            name: String::from_str("None"),
            theorem_type: theorem_type,
            proof: None,
            equation_labels: Vec::new(),
            ilabel: 0,
            page: 0,
        };
        assert(strs_view(r.equation_labels@) =~= Seq::<Seq<char>>::empty());
        assert(r@ =~= fresh_theorem(label@, theorem_type));
        r
    }

    pub fn add_equation(&mut self, eq_label: String)
        ensures
            final(self)@ == (TheoremView {
                equation_labels: old(self)@.equation_labels.push(eq_label@),
                ..old(self)@
            }),
    {
        self.equation_labels.push(eq_label);
        assert(strs_view(self.equation_labels@) =~= strs_view(old(self).equation_labels@).push(
            eq_label@,
        ));
    }

    pub fn contains_equation(&self, eq_label: &String) -> (b: bool)
        ensures
            b == self@.equation_labels.contains(eq_label@),
    {
        contains_string(&self.equation_labels, eq_label)
    }

    /// A one-line description: the kind, `": "`, the label and the name.
    pub fn print(&self) -> (r: String)
        ensures
            r@ == print_text(self@),
    {
        let mut out = String::from_str(type_word_str(self.theorem_type));
        proof { reveal_strlit(": "); }
        out.append(": ");
        out.append(self.label.as_str());
        out.append(self.name.as_str());
        out
    }

    pub fn set_label(&mut self, new_label: &String)
        ensures
            final(self)@ == (TheoremView { label: new_label@, ..old(self)@ }),
    {
        self.label = new_label.clone();
    }

    pub fn set_proof(&mut self, proof: Proof)
        ensures
            final(self)@ == (TheoremView { proof: Some(proof@), ..old(self)@ }),
    {
        self.proof = Some(proof);
    }

    /// Sets the number, and the name to the kind's abbreviation followed by
    /// the number in decimal.
    pub fn set_ilabel(&mut self, ilabel: i32)
        ensures
            final(self)@ == (TheoremView {
                ilabel: ilabel,
                name: type_abbrev(old(self)@.theorem_type) + int_decimal(ilabel as int),
                ..old(self)@
            }),
    {
        self.ilabel = ilabel;
        let mut name = String::from_str(type_abbrev_str(self.theorem_type));
        push_i32_decimal(&mut name, ilabel);
        self.name = name;
    }

    pub fn set_page(&mut self, page: i32)
        ensures
            final(self)@ == (TheoremView { page: page, ..old(self)@ }),
    {
        self.page = page;
    }

    pub fn set_name(&mut self, name: String)
        ensures
            final(self)@ == (TheoremView { name: name@, ..old(self)@ }),
    {
        self.name = name;
    }

    pub fn get_proof(&self) -> (r: &Option<Proof>)
        ensures
            match *r {
                Some(p) => self@.proof == Some(p@),
                None => self@.proof.is_none(),
            },
    {
        &self.proof
    }

    /// The display name: the label while the name is `"None"`, else the name.
    pub fn get_name(&self) -> (r: &String)
        ensures
            r@ == display_name(self@),
    {
        let none = String::from_str("None");
        proof { reveal_strlit("None"); }
        if self.name == none {
            &self.label
        } else {
            &self.name
        }
    }

    pub fn get_group(&self) -> (r: i32)
        ensures
            r == type_group(self@.theorem_type),
    {
        match self.theorem_type {
            EnumTheoremType::Custom => 0,
            EnumTheoremType::Definition => 1,
            EnumTheoremType::Theorem => 2,
            EnumTheoremType::Proposition => 3,
            EnumTheoremType::Lemma => 4,
            EnumTheoremType::Corollary => 5,
        }
    }

    pub fn clone_label(&self) -> (r: String)
        ensures
            r@ == self@.label,
    {
        self.label.clone()
    }
}

/* -----------------------------------------

                Proof

----------------------------------------- */

/// A proof: the label of the structure it proves, the labels it refers to,
/// and its title.
pub struct Proof {
    struct_label: String,
    links: Vec<String>,
    title: String,
}

impl View for Proof {
    type V = ProofView;

    closed spec fn view(&self) -> ProofView {
        ProofView {
            struct_label: self.struct_label@,
            links: strs_view(self.links@),
            title: self.title@,
        }
    }
}

impl Proof {
    /// A proof of `label` with no link and the title `"Proof"`.
    pub fn new(label: String) -> (r: Self)
        ensures
            r@ == fresh_proof(label@),
    {
        let r = Proof { struct_label: label, links: Vec::new(), title: String::from_str("Proof") };
        assert(strs_view(r.links@) =~= Seq::<Seq<char>>::empty());
        assert(r@ =~= fresh_proof(label@));
        r
    }

    pub fn add_link(&mut self, link: String)
        ensures
            final(self)@ == (ProofView { links: old(self)@.links.push(link@), ..old(self)@ }),
    {
        self.links.push(link);
        assert(strs_view(self.links@) =~= strs_view(old(self).links@).push(link@));
    }

    pub fn get_nblinks(&self) -> (r: usize)
        ensures
            r == self@.links.len(),
    {
        self.links.len()
    }

    pub fn get_link(&self, i: usize) -> (r: &String)
        requires
            i < self@.links.len(),
        ensures
            r@ == self@.links[i as int],
    {
        &self.links[i]
    }

    pub fn get_struct_label(&self) -> (r: String)
        ensures
            r@ == self@.struct_label,
    {
        self.struct_label.clone()
    }

    pub fn get_title(&self) -> (r: &String)
        ensures
            r@ == self@.title,
    {
        &self.title
    }

    pub fn set_struct_label(&mut self, label: &String)
        ensures
            final(self)@ == (ProofView { struct_label: label@, ..old(self)@ }),
    {
        self.struct_label = label.clone();
    }

    pub fn set_title(&mut self, arg: &String)
        ensures
            final(self)@ == (ProofView { title: arg@, ..old(self)@ }),
    {
        self.title = arg.clone();
    }
}

} // verus!
