//! A document: the mathematical structures found in a LaTeX source, each
//! stored under its label.
use vstd::prelude::*;
use crate::strutil::strs_view;
use crate::texstruct::tex_logic::{
    Theorem, Proof, TheoremView, ProofView, print_text, display_name, type_group, type_abbrev,
};
use crate::strutil::int_decimal;

verus! {

/// The structures of a document, in the order in which their labels were
/// first stored; a label is stored at most once.
pub struct Document {
    pub filename: String,
    keys: Vec<String>,
    structs: Vec<Theorem>,
}

/// The mathematical view of a [`Document`]: its file name, its labels in
/// storage order, and the structure stored under each label.
pub struct DocumentView {
    pub filename: Seq<char>,
    pub keys: Seq<Seq<char>>,
    pub structs: Map<Seq<char>, TheoremView>,
}

/// The labels are distinct, and they are exactly the labels that hold a structure.
pub open spec fn view_wf(d: DocumentView) -> bool {
    &&& d.keys.no_duplicates()
    &&& forall|k: Seq<char>| #[trigger] d.structs.dom().contains(k) <==> d.keys.contains(k)
}

/// The structure stored under `k` is `label`, or holds an equation labelled `label`.
pub open spec fn holds_label(d: DocumentView, k: Seq<char>, label: Seq<char>) -> bool {
    k == label || d.structs[k].equation_labels.contains(label)
}

/// The first of `keys` whose structure holds `label`.
pub open spec fn first_holder(d: DocumentView, keys: Seq<Seq<char>>, label: Seq<char>) -> Option<
    Seq<char>,
>
    decreases keys.len(),
{
    if keys.len() == 0 {
        None
    } else if holds_label(d, keys[0], label) {
        Some(keys[0])
    } else {
        first_holder(d, keys.drop_first(), label)
    }
}

/// The label of the first structure, in storage order, that is labelled
/// `label` or holds an equation labelled `label`.
pub open spec fn container_of(d: DocumentView, label: Seq<char>) -> Option<Seq<char>> {
    first_holder(d, d.keys, label)
}

/// The containers of `links`, in order, leaving out the links that no
/// structure holds.
pub open spec fn resolve_links(d: DocumentView, links: Seq<Seq<char>>) -> Seq<Seq<char>>
    decreases links.len(),
{
    if links.len() == 0 {
        Seq::empty()
    } else {
        resolve_links(d, links.drop_last()) + match container_of(d, links.last()) {
            Some(k) => seq![k],
            None => Seq::empty(),
        }
    }
}

/// The structures that the proof of the structure `key` refers to; `None`
/// when no structure is stored under `key`.
pub open spec fn dependences(d: DocumentView, key: Seq<char>) -> Option<Seq<Seq<char>>> {
    if !d.structs.dom().contains(key) {
        None
    } else {
        match d.structs[key].proof {
            Some(p) => Some(resolve_links(d, p.links)),
            None => Some(Seq::empty()),
        }
    }
}

/// An empty document for the file `filename`.
pub open spec fn empty_document(filename: Seq<char>) -> DocumentView {
    DocumentView { filename: filename, keys: Seq::empty(), structs: Map::empty() }
}

/// The document after storing `t` under `k`.
pub open spec fn doc_push(d: DocumentView, k: Seq<char>, t: TheoremView) -> DocumentView {
    DocumentView {
        filename: d.filename,
        keys: if d.keys.contains(k) {
            d.keys
        } else {
            d.keys.push(k)
        },
        structs: d.structs.insert(k, t),
    }
}

/// The document after attaching the proof `p` to the structure under `k`.
pub open spec fn doc_set_proof(d: DocumentView, k: Seq<char>, p: ProofView) -> DocumentView {
    DocumentView {
        structs: d.structs.insert(k, TheoremView { proof: Some(p), ..d.structs[k] }),
        ..d
    }
}

/// The document after numbering the structure under `k` with `n` (which
/// also names it by its kind's abbreviation and the number).
pub open spec fn doc_set_number(d: DocumentView, k: Seq<char>, n: i32) -> DocumentView {
    DocumentView {
        structs: d.structs.insert(
            k,
            TheoremView {
                ilabel: n,
                name: type_abbrev(d.structs[k].theorem_type) + int_decimal(n as int),
                ..d.structs[k]
            },
        ),
        ..d
    }
}

/// The document after setting the page of the structure under `k`.
pub open spec fn doc_set_page(d: DocumentView, k: Seq<char>, page: i32) -> DocumentView {
    DocumentView { structs: d.structs.insert(k, TheoremView { page: page, ..d.structs[k] }), ..d }
}

/// The document after renaming the structure under `k`.
pub open spec fn doc_set_name(d: DocumentView, k: Seq<char>, name: Seq<char>) -> DocumentView {
    DocumentView { structs: d.structs.insert(k, TheoremView { name: name, ..d.structs[k] }), ..d }
}

proof fn lemma_first_holder_in(d: DocumentView, keys: Seq<Seq<char>>, label: Seq<char>)
    ensures
        first_holder(d, keys, label) matches Some(k) ==> keys.contains(k),
    decreases keys.len(),
{
    if keys.len() > 0 && !holds_label(d, keys[0], label) {
        lemma_first_holder_in(d, keys.drop_first(), label);
        if let Some(k) = first_holder(d, keys.drop_first(), label) {
            let i = choose|i: int| 0 <= i < keys.drop_first().len() && keys.drop_first()[i] == k;
            assert(keys[i + 1] == k);
        }
    } else if keys.len() > 0 {
        assert(keys[0] == keys[0]);
    }
}

proof fn lemma_resolve_links_in(d: DocumentView, links: Seq<Seq<char>>)
    requires
        view_wf(d),
    ensures
        forall|i: int|
            0 <= i < resolve_links(d, links).len() ==> d.structs.dom().contains(
                #[trigger] resolve_links(d, links)[i],
            ),
    decreases links.len(),
{
    if links.len() > 0 {
        lemma_resolve_links_in(d, links.drop_last());
        lemma_first_holder_in(d, d.keys, links.last());
        let prev = resolve_links(d, links.drop_last());
        let r = resolve_links(d, links);
        assert forall|i: int| 0 <= i < r.len() implies d.structs.dom().contains(#[trigger] r[i]) by {
            if i < prev.len() {
                assert(r[i] == prev[i]);
            } else {
                assert(container_of(d, links.last()) is Some);
                assert(d.keys.contains(r[i]));
            }
        }
    }
}

/// Every structure that a proof depends on is a structure of the document.
pub proof fn lemma_dependences_stored(d: DocumentView, key: Seq<char>)
    requires
        view_wf(d),
        d.structs.dom().contains(key),
    ensures
        dependences(d, key) is Some,
        forall|i: int|
            0 <= i < dependences(d, key)->0.len() ==> d.structs.dom().contains(
                #[trigger] dependences(d, key)->0[i],
            ),
{
    if let Some(p) = d.structs[key].proof {
        lemma_resolve_links_in(d, p.links);
    }
}

/// What is read back after a write: storing `t` under `k` keeps the
/// document well formed, makes `k` hold exactly `t`, leaves every other
/// label as it was, and lists `k` once, after the labels stored before.
pub proof fn lemma_push_then_get(d: DocumentView, k: Seq<char>, t: TheoremView)
    requires
        view_wf(d),
    ensures
        view_wf(doc_push(d, k, t)),
        doc_push(d, k, t).structs.dom().contains(k),
        doc_push(d, k, t).structs[k] == t,
        forall|k2: Seq<char>|
            k2 != k ==> (doc_push(d, k, t).structs.dom().contains(k2) == d.structs.dom().contains(
                k2,
            ) && (d.structs.dom().contains(k2) ==> doc_push(d, k, t).structs[k2]
                == d.structs[k2])),
        d.keys.is_prefix_of(doc_push(d, k, t).keys),
{
    let e = doc_push(d, k, t);
    if !d.keys.contains(k) {
        assert(e.keys.no_duplicates()) by {
            assert forall|a: int, b: int|
                0 <= a < e.keys.len() && 0 <= b < e.keys.len() && a != b implies e.keys[a]
                != e.keys[b] by {
                if a < d.keys.len() && b < d.keys.len() {
                } else if a < d.keys.len() {
                    assert(d.keys.contains(e.keys[a]));
                } else {
                    assert(d.keys.contains(e.keys[b]));
                }
            }
        }
        assert forall|k2: Seq<char>| #[trigger] e.structs.dom().contains(k2) <==> e.keys.contains(
            k2,
        ) by {
            if e.keys.contains(k2) && k2 != k {
                let j = choose|j: int| 0 <= j < e.keys.len() && e.keys[j] == k2;
                assert(j < d.keys.len());
                assert(d.keys[j] == k2);
            }
            if d.keys.contains(k2) {
                let j = choose|j: int| 0 <= j < d.keys.len() && d.keys[j] == k2;
                assert(e.keys[j] == k2);
            }
            if k2 == k {
                assert(e.keys[e.keys.len() - 1] == k);
            }
        }
        assert(d.keys.is_prefix_of(e.keys)) by {
            assert(e.keys.subrange(0, d.keys.len() as int) =~= d.keys);
        }
    } else {
        assert(d.keys.is_prefix_of(e.keys)) by {
            assert(e.keys.subrange(0, d.keys.len() as int) =~= d.keys);
        }
    }
}

/// The container of a label is the first stored structure that is
/// labelled so or holds an equation so labelled; there is none exactly
/// when no stored structure does.
pub proof fn lemma_container_of(d: DocumentView, label: Seq<char>)
    requires
        view_wf(d),
    ensures
        match container_of(d, label) {
            Some(k) => d.structs.dom().contains(k) && holds_label(d, k, label) && exists|i: int|
                0 <= i < d.keys.len() && d.keys[i] == k && forall|j: int|
                    0 <= j < i ==> !holds_label(d, #[trigger] d.keys[j], label),
            None => forall|k: Seq<char>|
                #[trigger] d.structs.dom().contains(k) ==> !holds_label(d, k, label),
        },
{
    lemma_first_holder_index(d, d.keys, label);
    if container_of(d, label) is None {
        assert forall|k: Seq<char>| #[trigger] d.structs.dom().contains(k) implies !holds_label(
            d,
            k,
            label,
        ) by {
            let j = choose|j: int| 0 <= j < d.keys.len() && d.keys[j] == k;
        }
    }
}

proof fn lemma_first_holder_index(d: DocumentView, keys: Seq<Seq<char>>, label: Seq<char>)
    ensures
        match first_holder(d, keys, label) {
            Some(k) => holds_label(d, k, label) && exists|i: int|
                0 <= i < keys.len() && keys[i] == k && forall|j: int|
                    0 <= j < i ==> !holds_label(d, #[trigger] keys[j], label),
            None => forall|j: int| 0 <= j < keys.len() ==> !holds_label(d, #[trigger] keys[j], label),
        },
    decreases keys.len(),
{
    if keys.len() > 0 {
        if holds_label(d, keys[0], label) {
            assert(keys[0] == keys[0]);
        } else {
            lemma_first_holder_index(d, keys.drop_first(), label);
            match first_holder(d, keys.drop_first(), label) {
                Some(k) => {
                    let i = choose|i: int|
                        0 <= i < keys.drop_first().len() && keys.drop_first()[i] == k && forall|
                            j: int,
                        | 0 <= j < i ==> !holds_label(d, #[trigger] keys.drop_first()[j], label);
                    assert(keys[i + 1] == k);
                    assert forall|j: int| 0 <= j < i + 1 implies !holds_label(
                        d,
                        #[trigger] keys[j],
                        label,
                    ) by {
                        if j > 0 {
                            assert(keys[j] == keys.drop_first()[j - 1]);
                        }
                    }
                },
                None => {
                    assert forall|j: int| 0 <= j < keys.len() implies !holds_label(
                        d,
                        #[trigger] keys[j],
                        label,
                    ) by {
                        if j > 0 {
                            assert(keys[j] == keys.drop_first()[j - 1]);
                        }
                    }
                },
            }
        }
    }
}

/// The text of `print` for the structures under `keys`, one line each.
pub open spec fn print_lines(d: DocumentView, keys: Seq<Seq<char>>) -> Seq<char>
    decreases keys.len(),
{
    if keys.len() == 0 {
        Seq::empty()
    } else {
        print_lines(d, keys.drop_last()) + print_text(d.structs[keys.last()]) + "\n"@
    }
}

/// A call that changes a document: `push` or one of the setters, with the
/// label that it names.
pub enum DocOp {
    Push(Seq<char>, TheoremView),
    SetProof(Seq<char>, ProofView),
    SetNumber(Seq<char>, i32),
    SetPage(Seq<char>, i32),
    SetName(Seq<char>, Seq<char>),
}

/// The label that a call names.
pub open spec fn op_label(op: DocOp) -> Seq<char> {
    match op {
        DocOp::Push(k, _) => k,
        DocOp::SetProof(k, _) => k,
        DocOp::SetNumber(k, _) => k,
        DocOp::SetPage(k, _) => k,
        DocOp::SetName(k, _) => k,
    }
}

/// The document after one call, as the call's contract states it.
pub open spec fn apply_doc_op(d: DocumentView, op: DocOp) -> DocumentView {
    match op {
        DocOp::Push(k, t) => doc_push(d, k, t),
        DocOp::SetProof(k, p) => doc_set_proof(d, k, p),
        DocOp::SetNumber(k, n) => doc_set_number(d, k, n),
        DocOp::SetPage(k, n) => doc_set_page(d, k, n),
        DocOp::SetName(k, n) => doc_set_name(d, k, n),
    }
}

/// The document of the file `f` after `Document::new` and the calls `ops`,
/// in order.
pub open spec fn run_doc(f: Seq<char>, ops: Seq<DocOp>) -> DocumentView
    decreases ops.len(),
{
    if ops.len() == 0 {
        empty_document(f)
    } else {
        apply_doc_op(run_doc(f, ops.drop_last()), ops.last())
    }
}

/// Every setter among `ops` names a label stored when it is called (the
/// setters require it).
pub open spec fn setters_on_stored(f: Seq<char>, ops: Seq<DocOp>) -> bool {
    forall|i: int|
        0 <= i < ops.len() && !(ops[i] is Push) ==> run_doc(f, ops.take(i)).structs.dom().contains(
            op_label(#[trigger] ops[i]),
        )
}

/// `contains_key` tells the history of a document: after `Document::new`
/// and any sequence of `push` and setter calls, a label is held exactly
/// when some `push` stored it (no call removes a label, and a setter never
/// adds one); the document stays well formed throughout.
pub proof fn lemma_contains_key_history(f: Seq<char>, ops: Seq<DocOp>)
    requires
        setters_on_stored(f, ops),
    ensures
        view_wf(run_doc(f, ops)),
        forall|k: Seq<char>|
            run_doc(f, ops).structs.dom().contains(k) <==> exists|i: int|
                0 <= i < ops.len() && ops[i] is Push && op_label(#[trigger] ops[i]) == k,
    decreases ops.len(),
{
    if ops.len() == 0 {
        assert(run_doc(f, ops) == empty_document(f));
        assert(empty_document(f).keys =~= Seq::<Seq<char>>::empty());
    } else {
        let dl = ops.drop_last();
        let op = ops.last();
        let n = dl.len() as int;
        assert forall|i: int| 0 <= i < dl.len() && !(dl[i] is Push) implies run_doc(
            f,
            dl.take(i),
        ).structs.dom().contains(op_label(#[trigger] dl[i])) by {
            assert(dl.take(i) =~= ops.take(i));
            assert(dl[i] == ops[i]);
        }
        lemma_contains_key_history(f, dl);
        let d = run_doc(f, dl);
        assert(ops.take(n) =~= dl);
        assert(ops[n] == op);
        let e = run_doc(f, ops);
        assert(e == apply_doc_op(d, op));
        match op {
            DocOp::Push(k, t) => {
                lemma_push_then_get(d, k, t);
            },
            _ => {
                assert(d.structs.dom().contains(op_label(op)));
                assert(e.structs.dom() =~= d.structs.dom());
                assert(e.keys == d.keys);
            },
        }
        assert forall|k: Seq<char>|
            e.structs.dom().contains(k) <==> exists|i: int|
                0 <= i < ops.len() && ops[i] is Push && op_label(#[trigger] ops[i]) == k by {
            if e.structs.dom().contains(k) {
                if d.structs.dom().contains(k) {
                    let i = choose|i: int|
                        0 <= i < dl.len() && dl[i] is Push && op_label(#[trigger] dl[i]) == k;
                    assert(ops[i] == dl[i]);
                } else {
                    assert(op is Push && op_label(op) == k);
                    assert(ops[n] == op);
                }
            }
            if exists|i: int| 0 <= i < ops.len() && ops[i] is Push && op_label(#[trigger] ops[i]) == k {
                let i = choose|i: int|
                    0 <= i < ops.len() && ops[i] is Push && op_label(#[trigger] ops[i]) == k;
                if i < n {
                    assert(dl[i] == ops[i]);
                    assert(d.structs.dom().contains(k));
                } else {
                    assert(op is Push && op_label(op) == k);
                }
            }
        }
    }
}

impl View for Document {
    type V = DocumentView;

    closed spec fn view(&self) -> DocumentView {
        let ks = strs_view(self.keys@);
        DocumentView {
            filename: self.filename@,
            keys: ks,
            structs: Map::new(
                |k: Seq<char>| ks.contains(k),
                |k: Seq<char>| self.structs@[ks.index_of(k)]@,
            ),
        }
    }
}

proof fn lemma_index_of(ks: Seq<Seq<char>>, i: int)
    requires
        ks.no_duplicates(),
        0 <= i < ks.len(),
    ensures
        ks.index_of(ks[i]) == i,
{
    assert(ks.contains(ks[i]));
}

impl Document {
    /// The representation is consistent: one structure per label.
    pub closed spec fn repr_ok(&self) -> bool {
        &&& self.keys@.len() == self.structs@.len()
        &&& strs_view(self.keys@).no_duplicates()
    }

    /// The invariant of a document.
    pub open spec fn wf(&self) -> bool {
        &&& self.repr_ok()
        &&& view_wf(self@)
    }

    proof fn lemma_structs_at(&self, i: int)
        requires
            self.repr_ok(),
            0 <= i < self.keys@.len(),
        ensures
            self@.keys[i] == self.keys@[i]@,
            self@.structs.dom().contains(self.keys@[i]@),
            self@.structs[self.keys@[i]@] == self.structs@[i]@,
    {
        let ks = strs_view(self.keys@);
        lemma_index_of(ks, i);
        assert(ks.contains(ks[i]));
    }

    /// Position of `key` among the labels.
    fn find_key(&self, key: &String) -> (r: Option<usize>)
        requires
            self.wf(),
        ensures
            match r {
                Some(i) => i < self.keys@.len() && self@.keys[i as int] == key@,
                None => !self@.keys.contains(key@),
            },
    {
        let mut i: usize = 0;
        while i < self.keys.len()
            invariant
                self.wf(),
                i <= self.keys@.len(),
                forall|j: int| 0 <= j < i ==> self@.keys[j] != key@,
            decreases self.keys@.len() - i,
        {
            if self.keys[i] == *key {
                return Some(i);
            }
            i = i + 1;
        }
        None
    }

    /// An empty document for the file `strfilename`.
    pub fn new(strfilename: String) -> (r: Self)
        ensures
            r.wf(),
            r@ == empty_document(strfilename@),
    {
        let r = Document { filename: strfilename, keys: Vec::new(), structs: Vec::new() };
        assert(strs_view(r.keys@) =~= Seq::<Seq<char>>::empty());
        assert(r@.structs =~= Map::<Seq<char>, TheoremView>::empty());
        assert(r@ =~= empty_document(strfilename@));
        r
    }

    /// Stores `tex` under `key`, in place of what was stored there before,
    /// and gives the document back for further calls.
    pub fn push(&mut self, key: String, tex: Theorem) -> (r: &mut Self)
        requires
            old(self).wf(),
        ensures
            r.wf(),
            r@ == doc_push(old(self)@, key@, tex@),
            *final(self) == *final(r),
    {
        self.store(key, tex);
        self
    }

    fn store(&mut self, key: String, tex: Theorem)
        requires
            old(self).wf(),
        ensures
            final(self).wf(),
            final(self)@ == doc_push(old(self)@, key@, tex@),
    {
        let ghost old_view = self@;
        match self.find_key(&key) {
            Some(i) => {
                self.structs.set(i, tex);
                proof {
                    assert(strs_view(self.keys@) == old_view.keys);
                    assert forall|k: Seq<char>| #[trigger] self@.structs.dom().contains(k) implies
                        self@.structs[k] == old_view.structs.insert(key@, tex@)[k] by {
                        let j = self@.keys.index_of(k);
                        lemma_index_of(self@.keys, j);
                        lemma_index_of(self@.keys, i as int);
                    }
                    assert(self@.structs =~= old_view.structs.insert(key@, tex@));
                }
            },
            None => {
                let ghost old_keys = self.keys@;
                self.keys.push(key);
                self.structs.push(tex);
                proof {
                    assert(strs_view(self.keys@) =~= old_view.keys.push(key@));
                    let ks = self@.keys;
                    assert(ks.no_duplicates()) by {
                        assert forall|a: int, b: int|
                            0 <= a < ks.len() && 0 <= b < ks.len() && a != b implies ks[a]
                            != ks[b] by {
                            if a < old_view.keys.len() && b < old_view.keys.len() {
                                assert(ks[a] == old_view.keys[a]);
                                assert(ks[b] == old_view.keys[b]);
                            } else if a < old_view.keys.len() {
                                assert(ks[a] == old_view.keys[a]);
                                assert(old_view.keys.contains(ks[a]));
                            } else {
                                assert(ks[b] == old_view.keys[b]);
                                assert(old_view.keys.contains(ks[b]));
                            }
                        }
                    }
                    assert forall|k: Seq<char>| #[trigger] self@.structs.dom().contains(k) implies
                        self@.structs[k] == old_view.structs.insert(key@, tex@)[k] by {
                        let j = self@.keys.index_of(k);
                        lemma_index_of(self@.keys, j);
                        if k == key@ {
                            lemma_index_of(ks, ks.len() - 1);
                        } else {
                            let j0 = old_view.keys.index_of(k);
                            assert(old_view.keys.contains(k)) by {
                                assert(ks[j] == k);
                                assert(j < old_view.keys.len());
                                assert(old_view.keys[j] == k);
                            }
                            lemma_index_of(old_view.keys, j0);
                            lemma_index_of(ks, j0);
                        }
                    }
                    assert forall|k: Seq<char>|
                        self@.structs.dom().contains(k) <==> old_view.structs.insert(
                            key@,
                            tex@,
                        ).dom().contains(k) by {
                        if ks.contains(k) {
                            let j = choose|j: int| 0 <= j < ks.len() && ks[j] == k;
                            if j < old_view.keys.len() {
                                assert(old_view.keys[j] == k);
                            }
                        }
                        if old_view.keys.contains(k) {
                            let j = choose|j: int|
                                0 <= j < old_view.keys.len() && old_view.keys[j] == k;
                            assert(ks[j] == k);
                        }
                        if k == key@ {
                            assert(ks[ks.len() - 1] == k);
                        }
                    }
                    assert(self@.structs =~= old_view.structs.insert(key@, tex@));
                }
            },
        }
    }

    /// A text listing the structures, one line each, in storage order.
    pub fn print(&self) -> (r: String)
        requires
            self.wf(),
        ensures
            r@ == "Printing tex structures\n"@ + print_lines(self@, self@.keys),
    {
        proof { reveal_strlit("Printing tex structures\n"); reveal_strlit("\n"); }
        let mut output = String::from_str("Printing tex structures\n");
        let mut i: usize = 0;
        while i < self.keys.len()
            invariant
                self.wf(),
                i <= self.keys@.len(),
                output@ == "Printing tex structures\n"@ + print_lines(
                    self@,
                    self@.keys.subrange(0, i as int),
                ),
            decreases self.keys@.len() - i,
        {
            let line = self.structs[i].print();
            output.append(line.as_str());
            output.append("\n");
            proof {
                self.lemma_structs_at(i as int);
                let ks = self@.keys.subrange(0, i + 1);
                assert(ks.drop_last() =~= self@.keys.subrange(0, i as int));
                assert(ks.last() == self@.keys[i as int]);
            }
            i = i + 1;
        }
        assert(self@.keys.subrange(0, i as int) =~= self@.keys);
        output
    }

    /// The labels, in storage order.
    pub fn keys(&self) -> (r: &Vec<String>)
        requires
            self.wf(),
        ensures
            strs_view(r@) == self@.keys,
    {
        &self.keys
    }

    pub fn contains_key(&self, key: &String) -> (b: bool)
        requires
            self.wf(),
        ensures
            b == self@.structs.dom().contains(key@),
    {
        match self.find_key(key) {
            Some(_) => true,
            None => false,
        }
    }

    /// The label of the first structure, in storage order, that is labelled
    /// `key` or holds an equation labelled `key`.
    pub fn structs_contain_label(&self, key: &String) -> (r: Option<String>)
        requires
            self.wf(),
        ensures
            match r {
                Some(s) => container_of(self@, key@) == Some(s@),
                None => container_of(self@, key@).is_none(),
            },
    {
        let mut i: usize = 0;
        assert(self@.keys.skip(0) =~= self@.keys);
        while i < self.keys.len()
            invariant
                self.wf(),
                i <= self.keys@.len(),
                container_of(self@, key@) == first_holder(self@, self@.keys.skip(i as int), key@),
            decreases self.keys@.len() - i,
        {
            proof {
                self.lemma_structs_at(i as int);
                assert(self@.keys.skip(i as int).drop_first() =~= self@.keys.skip(i + 1));
                assert(self@.keys.skip(i as int)[0] == self@.keys[i as int]);
            }
            if self.structs[i].contains_equation(key) || self.keys[i] == *key {
                return Some(self.keys[i].clone());
            }
            i = i + 1;
        }
        None
    }

    /// The structure stored under `key`.
    pub fn get(&self, key: &String) -> (r: &Theorem)
        requires
            self.wf(),
            self@.structs.dom().contains(key@),
        ensures
            r@ == self@.structs[key@],
    {
        let i = self.find_key(key).unwrap();
        proof { self.lemma_structs_at(i as int); }
        &self.structs[i]
    }

    /// The display name of the structure stored under `key`.
    pub fn get_name_from_key(&self, key: &String) -> (r: Option<&String>)
        requires
            self.wf(),
        ensures
            match r {
                Some(s) => self@.structs.dom().contains(key@) && s@ == display_name(
                    self@.structs[key@],
                ),
                None => !self@.structs.dom().contains(key@),
            },
    {
        match self.find_key(key) {
            Some(i) => {
                proof { self.lemma_structs_at(i as int); }
                Some(self.structs[i].get_name())
            },
            None => None,
        }
    }

    /// The group number of the structure stored under `key`.
    pub fn get_group_from_key(&self, key: &String) -> (r: Option<i32>)
        requires
            self.wf(),
        ensures
            match r {
                Some(g) => self@.structs.dom().contains(key@) && g == type_group(
                    self@.structs[key@].theorem_type,
                ),
                None => !self@.structs.dom().contains(key@),
            },
    {
        match self.find_key(key) {
            Some(i) => {
                proof { self.lemma_structs_at(i as int); }
                Some(self.structs[i].get_group())
            },
            None => None,
        }
    }

    /// The labels of the structures that the proof of `key` refers to, in
    /// the order of the references; `None` when nothing is stored under `key`.
    pub fn get_vec_dependences(&self, key: &String) -> (r: Option<Vec<String>>)
        requires
            self.wf(),
        ensures
            match r {
                Some(v) => dependences(self@, key@) == Some(strs_view(v@)),
                None => dependences(self@, key@).is_none(),
            },
    {
        if !self.contains_key(key) {
            return None;
        }
        let mut out: Vec<String> = Vec::new();
        let mystruct = self.get(key);
        let proof = match mystruct.get_proof() {
            Some(expr) => expr,
            None => {
                assert(strs_view(out@) =~= Seq::<Seq<char>>::empty());
                return Some(out);
            },
        };
        let ghost links = proof@.links;
        let mut j: usize = 0;
        assert(strs_view(out@) =~= resolve_links(self@, links.subrange(0, 0)));
        while j < proof.get_nblinks()
            invariant
                self.wf(),
                links == proof@.links,
                j <= links.len(),
                strs_view(out@) == resolve_links(self@, links.subrange(0, j as int)),
            decreases links.len() - j,
        {
            let found = self.structs_contain_label(proof.get_link(j));
            proof {
                let ls = links.subrange(0, j + 1);
                assert(ls.drop_last() =~= links.subrange(0, j as int));
                assert(ls.last() == links[j as int]);
            }
            match found {
                Some(label) => {
                    out.push(label);
                    assert(strs_view(out@) =~= resolve_links(self@, links.subrange(0, j + 1)));
                },
                None => {
                    assert(strs_view(out@) =~= resolve_links(self@, links.subrange(0, j + 1)));
                },
            }
            j = j + 1;
        }
        assert(links.subrange(0, j as int) =~= links);
        Some(out)
    }

    /// A blank structure (empty label, custom kind) that holds a place
    /// while the stored structure is being changed.
    fn placeholder() -> (r: Theorem)
        ensures
            r@ == crate::texstruct::tex_logic::fresh_theorem(
                Seq::empty(),
                crate::texstruct::tex_logic::EnumTheoremType::Custom,
            ),
    {
        let label = String::new();
        proof {
            assert(label@ =~= Seq::<char>::empty());
        }
        Theorem::new(label, crate::texstruct::tex_logic::EnumTheoremType::Custom)
    }

    /// Puts `t` at position `i` and gives back the structure that was there.
    fn swap_at(&mut self, i: usize, t: Theorem) -> (prev: Theorem)
        requires
            old(self).wf(),
            i < old(self).keys@.len(),
        ensures
            final(self).wf(),
            final(self)@.filename == old(self)@.filename,
            final(self)@.keys == old(self)@.keys,
            final(self)@.structs == old(self)@.structs.insert(old(self)@.keys[i as int], t@),
            prev@ == old(self)@.structs[old(self)@.keys[i as int]],
    {
        let ghost old_view = self@;
        let ghost old_structs = self.structs@;
        proof { self.lemma_structs_at(i as int); }
        let prev = self.structs.remove(i);
        self.structs.insert(i, t);
        proof {
            assert(self.structs@ =~= old_structs.update(i as int, t));
            assert(strs_view(self.keys@) == old_view.keys);
            assert forall|k: Seq<char>| #[trigger] self@.structs.dom().contains(k) implies
                self@.structs[k] == old_view.structs.insert(old_view.keys[i as int], t@)[k] by {
                let j = self@.keys.index_of(k);
                lemma_index_of(self@.keys, j);
                lemma_index_of(self@.keys, i as int);
            }
            assert(self@.structs =~= old_view.structs.insert(old_view.keys[i as int], t@));
        }
        prev
    }

    /// Attaches `proof` to the structure stored under `structlabel`.
    pub fn set_proof(&mut self, structlabel: &String, proof: Proof)
        requires
            old(self).wf(),
            old(self)@.structs.dom().contains(structlabel@),
        ensures
            final(self).wf(),
            final(self)@ == doc_set_proof(old(self)@, structlabel@, proof@),
    {
        let i = self.find_key(structlabel).unwrap();
        let mut t = self.swap_at(i, Self::placeholder());
        t.set_proof(proof);
        self.swap_at(i, t);
        assert(self@.structs =~= old(self)@.structs.insert(structlabel@, t@));
    }

    /// Sets the number (and so the numbered name) of the structure stored
    /// under `structlabel`.
    pub fn set_label_number(&mut self, structlabel: &String, int_label: i32)
        requires
            old(self).wf(),
            old(self)@.structs.dom().contains(structlabel@),
        ensures
            final(self).wf(),
            final(self)@ == doc_set_number(old(self)@, structlabel@, int_label),
    {
        let i = self.find_key(structlabel).unwrap();
        let mut t = self.swap_at(i, Self::placeholder());
        t.set_ilabel(int_label);
        self.swap_at(i, t);
        assert(self@.structs =~= old(self)@.structs.insert(structlabel@, t@));
    }

    /// Sets the page of the structure stored under `structlabel`.
    pub fn set_page(&mut self, structlabel: &String, page: i32)
        requires
            old(self).wf(),
            old(self)@.structs.dom().contains(structlabel@),
        ensures
            final(self).wf(),
            final(self)@ == doc_set_page(old(self)@, structlabel@, page),
    {
        let i = self.find_key(structlabel).unwrap();
        let mut t = self.swap_at(i, Self::placeholder());
        t.set_page(page);
        self.swap_at(i, t);
        assert(self@.structs =~= old(self)@.structs.insert(structlabel@, t@));
    }

    /// Sets the name of the structure stored under `structlabel`.
    pub fn set_name(&mut self, structlabel: &String, name: String)
        requires
            old(self).wf(),
            old(self)@.structs.dom().contains(structlabel@),
        ensures
            final(self).wf(),
            final(self)@ == doc_set_name(old(self)@, structlabel@, name@),
    {
        let i = self.find_key(structlabel).unwrap();
        let mut t = self.swap_at(i, Self::placeholder());
        t.set_name(name);
        self.swap_at(i, t);
        assert(self@.structs =~= old(self)@.structs.insert(structlabel@, t@));
    }
}

} // verus!
