//! A second, simpler macro parser: a macro ends at a space or at any other
//! character that is not part of its name or arguments; arguments are read
//! as plain text (no nested macro). Each macro goes to an environment
//! tracker as soon as it ends.
use vstd::prelude::*;
use crate::document::{Document, DocumentView, empty_document};
use crate::envparser::texparser::{
    EnvParser, EnvView, EnvEnumState, process_spec, processable, initial_env,
};
use crate::strutil::{strs_view, push_char, chars_of};
use crate::texparser::texparser::{
    is_alphabetic, is_alphabetic_char, latexmk_macro, latexmk_macro_of, named_macro,
};
use crate::texstruct::tex_logic::{EnumMacroType, TexMacro, MacroView};

verus! {

/// A macro call being read: its name and arguments.
#[derive(Debug)]
pub struct TexCmd {
    name: String,
    args: Vec<String>,
    option_args: Vec<String>,
}

impl View for TexCmd {
    type V = MacroView;

    closed spec fn view(&self) -> MacroView {
        MacroView {
            name: self.name@,
            macro_type: EnumMacroType::Tex,
            args: strs_view(self.args@),
            option_args: strs_view(self.option_args@),
        }
    }
}

impl TexCmd {
    /// A macro call named `cmd_name` with no argument.
    pub fn new(cmd_name: &String) -> (r: Self)
        ensures
            r@ == named_macro(cmd_name@),
    {
        let r = TexCmd { name: cmd_name.clone(), args: Vec::new(), option_args: Vec::new() };
        proof {
            assert(strs_view(r.args@) =~= Seq::<Seq<char>>::empty());
            assert(strs_view(r.option_args@) =~= Seq::<Seq<char>>::empty());
            assert(r@ =~= named_macro(cmd_name@));
        }
        r
    }

    fn set_name(&mut self, cmd_name: &String)
        ensures
            final(self)@ == (MacroView { name: cmd_name@, ..old(self)@ }),
    {
        self.name = cmd_name.clone();
    }

    fn add_arg(&mut self, arg: &String)
        ensures
            final(self)@ == (MacroView { args: old(self)@.args.push(arg@), ..old(self)@ }),
    {
        self.args.push(arg.clone());
        assert(strs_view(self.args@) =~= strs_view(old(self).args@).push(arg@));
    }

    fn add_opt_arg(&mut self, opt_arg: &String)
        ensures
            final(self)@ == (MacroView {
                option_args: old(self)@.option_args.push(opt_arg@),
                ..old(self)@
            }),
    {
        self.option_args.push(opt_arg.clone());
        assert(strs_view(self.option_args@) =~= strs_view(old(self).option_args@).push(opt_arg@));
    }

    /// The same call as a [`TexMacro`].
    fn to_tex_macro(&self) -> (r: TexMacro)
        ensures
            r@ == self@,
    {
        let mut m = TexMacro::new(EnumMacroType::Tex);
        m.set_name(&self.name);
        let mut i: usize = 0;
        while i < self.args.len()
            invariant
                i <= self.args@.len(),
                m@.name == self@.name,
                m@.macro_type == EnumMacroType::Tex,
                m@.option_args == Seq::<Seq<char>>::empty(),
                m@.args == strs_view(self.args@.subrange(0, i as int)),
            decreases self.args@.len() - i,
        {
            m.add_arg(&self.args[i]);
            i = i + 1;
            assert(m@.args =~= strs_view(self.args@.subrange(0, i as int)));
        }
        let mut j: usize = 0;
        while j < self.option_args.len()
            invariant
                j <= self.option_args@.len(),
                m@.name == self@.name,
                m@.macro_type == EnumMacroType::Tex,
                m@.args == strs_view(self.args@.subrange(0, self.args@.len() as int)),
                m@.option_args == strs_view(self.option_args@.subrange(0, j as int)),
            decreases self.option_args@.len() - j,
        {
            m.add_opt_arg(&self.option_args[j]);
            j = j + 1;
            assert(m@.option_args =~= strs_view(self.option_args@.subrange(0, j as int)));
        }
        assert(self.args@.subrange(0, self.args@.len() as int) =~= self.args@);
        assert(self.option_args@.subrange(0, j as int) =~= self.option_args@);
        assert(m@ =~= self@);
        m
    }
}

/// The states of the parser.
#[derive(Debug, Clone, Copy, PartialEq, Eq, Structural)]
pub enum TexParserState {
    Empty,
    InMacro,
    InMacroOptionalArg,
    InMacroArg,
    InComment,
}

/// A character-by-character parser that hands each macro to an
/// environment tracker filling a document.
pub struct TexParser {
    env_parser: EnvParser,
    current_state: TexParserState,
    stack_state: Vec<TexParserState>,
    stack_macro: Vec<TexCmd>,
    bufcmd: String,
    buf_comment: String,
}

/// The mathematical view of a [`TexParser`].
pub struct Parser2View {
    pub state: TexParserState,
    pub stack_state: Seq<TexParserState>,
    pub stack_macro: Seq<MacroView>,
    pub buf: Seq<char>,
    pub comment: Seq<char>,
    pub env: EnvView,
}

impl View for TexParser {
    type V = Parser2View;

    closed spec fn view(&self) -> Parser2View {
        Parser2View {
            state: self.current_state,
            stack_state: self.stack_state@,
            stack_macro: self.stack_macro@.map_values(|m: TexCmd| m@),
            buf: self.bufcmd@,
            comment: self.buf_comment@,
            env: self.env_parser@,
        }
    }
}

/// The states that can be open at once, outermost first: text, then
/// possibly a macro, then possibly one of its arguments, then possibly a
/// comment.
pub open spec fn shape_ok(full: Seq<TexParserState>) -> bool {
    let e = TexParserState::Empty;
    let m = TexParserState::InMacro;
    let o = TexParserState::InMacroOptionalArg;
    let a = TexParserState::InMacroArg;
    let c = TexParserState::InComment;
    ||| full == seq![e]
    ||| full == seq![e, c]
    ||| full == seq![e, m]
    ||| full == seq![e, m, c]
    ||| full == seq![e, m, o]
    ||| full == seq![e, m, a]
    ||| full == seq![e, m, o, c]
    ||| full == seq![e, m, a, c]
}

/// What [`shape_ok`] says of the innermost state.
proof fn lemma_shape(full: Seq<TexParserState>)
    requires
        shape_ok(full),
    ensures
        full.len() >= 1,
        full[0] == TexParserState::Empty,
        full.last() == TexParserState::Empty ==> full =~= seq![TexParserState::Empty],
        full.last() == TexParserState::InMacro ==> full =~= seq![
            TexParserState::Empty,
            TexParserState::InMacro,
        ],
        full.last() == TexParserState::InMacroOptionalArg || full.last()
            == TexParserState::InMacroArg ==> full.len() == 3 && full[1] == TexParserState::InMacro,
        full.last() == TexParserState::InComment ==> full.len() >= 2 && full[full.len() - 2]
            != TexParserState::InComment && shape_ok(full.drop_last()),
{
    let e = TexParserState::Empty;
    let m = TexParserState::InMacro;
    let o = TexParserState::InMacroOptionalArg;
    let a = TexParserState::InMacroArg;
    let c = TexParserState::InComment;
    if full == seq![e, c] {
        assert(full.drop_last() =~= seq![e]);
    } else if full == seq![e, m, c] {
        assert(full.drop_last() =~= seq![e, m]);
    } else if full == seq![e, m, o, c] {
        assert(full.drop_last() =~= seq![e, m, o]);
    } else if full == seq![e, m, a, c] {
        assert(full.drop_last() =~= seq![e, m, a]);
    }
}

/// A macro is being read.
pub open spec fn in_macro(p: Parser2View) -> bool {
    let full = p.stack_state.push(p.state);
    full.len() >= 2 && full[1] == TexParserState::InMacro
}

/// The parser's invariant: the open states have the expected shape,
/// exactly one macro is pending while a macro is read, and the buffer is
/// empty outside a macro.
pub open spec fn parser2_wf(p: Parser2View) -> bool {
    &&& shape_ok(p.stack_state.push(p.state))
    &&& !in_macro(p) ==> p.buf.len() == 0
    &&& p.stack_macro.len() == if in_macro(p) {
        1nat
    } else {
        0nat
    }
}

/// The pending macro, named by the buffer when the buffer is not empty.
pub open spec fn named_if_any(m: MacroView, buf: Seq<char>) -> MacroView {
    if buf.len() > 0 {
        MacroView { name: buf, ..m }
    } else {
        m
    }
}

/// The tracker takes `m` (and, for an `\\end` that closes a proof, the
/// structure that the proof names is stored).
pub open spec fn strict_ok(env: EnvView, m: MacroView) -> bool {
    &&& processable(env, m)
    &&& m.name == "end"@ ==> !(env.current == EnvEnumState::Proof && env.proofs.last().struct_label
        != "NOTH"@ && !env.doc.structs.dom().contains(env.proofs.last().struct_label))
}

/// A `%!TEX` comment read by the tracker.
pub open spec fn check_latexmk(env: EnvView, comment: Seq<char>) -> EnvView {
    match latexmk_macro(comment) {
        Some(m) => process_spec(env, m),
        None => env,
    }
}

/// The macro that a character ends, if any (only in a macro, on a
/// backslash, a space or any other character that is not a letter, a
/// bracket, a brace or `%`).
pub open spec fn ended_macro(p: Parser2View, c: char) -> Option<MacroView> {
    if p.state == TexParserState::InMacro && !is_alphabetic_char(c) {
        if c == '\\' {
            Some(MacroView { name: p.buf, ..p.stack_macro.last() })
        } else if c == '[' || c == '{' || c == '%' {
            None
        } else {
            Some(named_if_any(p.stack_macro.last(), p.buf))
        }
    } else {
        None
    }
}

/// The characters that the parser can read in the state `p`: those that
/// end a macro which the tracker can take.
pub open spec fn step2_ok(p: Parser2View, c: char) -> bool {
    match ended_macro(p, c) {
        Some(m) => strict_ok(p.env, m),
        None => true,
    }
}

/// Returning to the last saved state.
pub open spec fn pop2(p: Parser2View) -> Parser2View {
    Parser2View { state: p.stack_state.last(), stack_state: p.stack_state.drop_last(), ..p }
}

/// One character read by the parser.
pub open spec fn step2(p: Parser2View, c: char) -> Parser2View {
    if p.state == TexParserState::Empty {
        if c == '\\' {
            Parser2View {
                state: TexParserState::InMacro,
                stack_state: p.stack_state.push(p.state),
                stack_macro: p.stack_macro.push(named_macro(Seq::empty())),
                ..p
            }
        } else if c == '%' {
            Parser2View {
                state: TexParserState::InComment,
                stack_state: p.stack_state.push(p.state),
                ..p
            }
        } else {
            p
        }
    } else if p.state == TexParserState::InMacro {
        if is_alphabetic_char(c) {
            Parser2View { buf: p.buf.push(c), ..p }
        } else if c == '\\' {
            Parser2View {
                env: process_spec(p.env, MacroView { name: p.buf, ..p.stack_macro.last() }),
                stack_macro: p.stack_macro.drop_last().push(named_macro(Seq::empty())),
                buf: Seq::empty(),
                ..p
            }
        } else if c == '[' || c == '{' {
            Parser2View {
                state: if c == '[' {
                    TexParserState::InMacroOptionalArg
                } else {
                    TexParserState::InMacroArg
                },
                stack_state: p.stack_state.push(p.state),
                stack_macro: p.stack_macro.drop_last().push(
                    named_if_any(p.stack_macro.last(), p.buf),
                ),
                buf: Seq::empty(),
                ..p
            }
        } else if c == '%' {
            Parser2View {
                state: TexParserState::InComment,
                stack_state: p.stack_state.push(p.state),
                ..p
            }
        } else {
            pop2(
                Parser2View {
                    env: process_spec(p.env, named_if_any(p.stack_macro.last(), p.buf)),
                    stack_macro: p.stack_macro.drop_last(),
                    buf: Seq::empty(),
                    ..p
                },
            )
        }
    } else if p.state == TexParserState::InMacroOptionalArg || p.state
        == TexParserState::InMacroArg {
        let opt = p.state == TexParserState::InMacroOptionalArg;
        let closing = if opt {
            ']'
        } else {
            '}'
        };
        if c == closing {
            let m = p.stack_macro.last();
            let m2 = if opt {
                MacroView { option_args: m.option_args.push(p.buf), ..m }
            } else {
                MacroView { args: m.args.push(p.buf), ..m }
            };
            pop2(
                Parser2View {
                    stack_macro: p.stack_macro.drop_last().push(m2),
                    buf: Seq::empty(),
                    ..p
                },
            )
        } else if c == '%' {
            Parser2View {
                state: TexParserState::InComment,
                stack_state: p.stack_state.push(p.state),
                ..p
            }
        } else {
            Parser2View { buf: p.buf.push(c), ..p }
        }
    } else {
        if c == '\n' {
            pop2(
                Parser2View { env: check_latexmk(p.env, p.comment), comment: Seq::empty(), ..p },
            )
        } else {
            Parser2View { comment: p.comment.push(c), ..p }
        }
    }
}

/// A parser that has read nothing, with a tracker filling `d`.
pub open spec fn initial_parser2(d: DocumentView) -> Parser2View {
    Parser2View {
        state: TexParserState::Empty,
        stack_state: Seq::empty(),
        stack_macro: Seq::empty(),
        buf: Seq::empty(),
        comment: Seq::empty(),
        env: initial_env(d),
    }
}

/// The parser after reading `cs` from the state `p`; `None` once a
/// character came that it cannot read.
pub open spec fn feed2(p: Parser2View, cs: Seq<char>) -> Option<Parser2View>
    decreases cs.len(),
{
    if cs.len() == 0 {
        Some(p)
    } else {
        match feed2(p, cs.drop_last()) {
            None => None,
            Some(q) => if step2_ok(q, cs.last()) {
                Some(step2(q, cs.last()))
            } else {
                None
            },
        }
    }
}

/// The parser after reading `cs` into a document that started as `d`.
pub open spec fn run2(cs: Seq<char>, d: DocumentView) -> Option<Parser2View> {
    feed2(initial_parser2(d), cs)
}

proof fn lemma_feed2_fault_persists(p: Parser2View, cs: Seq<char>, k: int)
    requires
        0 <= k <= cs.len(),
        feed2(p, cs.subrange(0, k)).is_none(),
    ensures
        feed2(p, cs).is_none(),
    decreases cs.len(),
{
    if k < cs.len() {
        assert(cs.drop_last().subrange(0, k) =~= cs.subrange(0, k));
        lemma_feed2_fault_persists(p, cs.drop_last(), k);
    } else {
        assert(cs.subrange(0, k) =~= cs);
    }
}

/// Reading `a` then `b` is reading `a + b`.
proof fn lemma_feed2_append(p: Parser2View, a: Seq<char>, b: Seq<char>)
    ensures
        feed2(p, a + b) == match feed2(p, a) {
            None => None,
            Some(q) => feed2(q, b),
        },
    decreases b.len(),
{
    if b.len() == 0 {
        assert(a + b =~= a);
    } else {
        assert((a + b).drop_last() =~= a + b.drop_last());
        assert((a + b).last() == b.last());
        lemma_feed2_append(p, a, b.drop_last());
    }
}

/// Reading one character.
proof fn lemma_feed2_one(q: Parser2View, x: char)
    ensures
        feed2(q, seq![x]) == if step2_ok(q, x) {
            Some(step2(q, x))
        } else {
            None
        },
{
    assert(seq![x].drop_last() =~= Seq::<char>::empty());
    assert(feed2(q, Seq::<char>::empty()) == Some(q));
}

/// Letters read in a macro name go to the buffer.
proof fn lemma_feed2_name(q: Parser2View, cs: Seq<char>)
    requires
        q.state == TexParserState::InMacro,
        forall|i: int| 0 <= i < cs.len() ==> is_alphabetic_char(#[trigger] cs[i]),
    ensures
        feed2(q, cs) == Some(Parser2View { buf: q.buf + cs, ..q }),
    decreases cs.len(),
{
    if cs.len() == 0 {
        assert(q.buf + cs =~= q.buf);
        assert(Parser2View { buf: q.buf + cs, ..q } == q);
    } else {
        lemma_feed2_name(q, cs.drop_last());
        assert(is_alphabetic_char(cs[cs.len() - 1]));
        assert((q.buf + cs.drop_last()).push(cs.last()) =~= q.buf + cs);
    }
}

/// Characters read in an argument (up to its closing brace) go to the
/// buffer.
proof fn lemma_feed2_arg(q: Parser2View, cs: Seq<char>)
    requires
        q.state == TexParserState::InMacroArg,
        forall|i: int| 0 <= i < cs.len() ==> #[trigger] cs[i] != '}' && cs[i] != '%',
    ensures
        feed2(q, cs) == Some(Parser2View { buf: q.buf + cs, ..q }),
    decreases cs.len(),
{
    if cs.len() == 0 {
        assert(q.buf + cs =~= q.buf);
        assert(Parser2View { buf: q.buf + cs, ..q } == q);
    } else {
        lemma_feed2_arg(q, cs.drop_last());
        assert(cs[cs.len() - 1] != '}');
        assert((q.buf + cs.drop_last()).push(cs.last()) =~= q.buf + cs);
    }
}

/// A macro call is read whole: from outside any macro, reading `\name`,
/// `{arg}` and one more character that ends the macro (not a letter, a
/// backslash, a bracket, a brace or `%`) hands the macro `name` with the
/// single argument `arg` to the tracker, and leaves the parser outside any
/// macro again, with its saved states as they were. The name is made of
/// letters (and `{` is not a letter); the argument holds no `}` or `%`; the
/// tracker can take the macro.
pub proof fn lemma_simple_macro_read2(p: Parser2View, name: Seq<char>, arg: Seq<char>, c: char)
    requires
        parser2_wf(p),
        p.state == TexParserState::Empty,
        forall|i: int| 0 <= i < name.len() ==> is_alphabetic_char(#[trigger] name[i]),
        !is_alphabetic_char('{'),
        forall|i: int| 0 <= i < arg.len() ==> #[trigger] arg[i] != '}' && arg[i] != '%',
        !is_alphabetic_char(c),
        c != '\\' && c != '[' && c != '{' && c != '%',
        strict_ok(
            p.env,
            MacroView { args: seq![arg], ..named_macro(name) },
        ),
    ensures
        feed2(p, seq!['\\'] + name + seq!['{'] + arg + seq!['}', c]) == Some(
            Parser2View {
                env: process_spec(p.env, MacroView { args: seq![arg], ..named_macro(name) }),
                ..p
            },
        ),
{
    let m = MacroView { args: seq![arg], ..named_macro(name) };
    let full = p.stack_state.push(p.state);
    lemma_shape(full);
    assert(full.drop_last() =~= p.stack_state);
    assert(!in_macro(p));
    // The backslash opens a macro.
    lemma_feed2_append(p, seq!['\\'], name);
    lemma_feed2_one(p, '\\');
    let p1 = step2(p, '\\');
    assert(p1.stack_macro =~= seq![named_macro(Seq::empty())]);
    // The name goes to the buffer.
    lemma_feed2_name(p1, name);
    let p2 = Parser2View { buf: p1.buf + name, ..p1 };
    assert(p2.buf =~= name);
    let s1 = seq!['\\'] + name;
    assert(feed2(p, s1) == Some(p2));
    // The brace opens the argument.
    lemma_feed2_append(p, s1, seq!['{']);
    lemma_feed2_one(p2, '{');
    let p3 = step2(p2, '{');
    if name.len() == 0 {
        assert(name =~= Seq::<char>::empty());
    }
    assert(named_if_any(named_macro(Seq::empty()), name) == named_macro(name));
    assert(p3.stack_macro =~= seq![named_macro(name)]);
    let s2 = s1 + seq!['{'];
    assert(feed2(p, s2) == Some(p3));
    // The argument goes to the buffer.
    lemma_feed2_append(p, s2, arg);
    lemma_feed2_arg(p3, arg);
    let p4 = Parser2View { buf: p3.buf + arg, ..p3 };
    assert(p4.buf =~= arg);
    let s3 = s2 + arg;
    assert(feed2(p, s3) == Some(p4));
    // The closing brace stores the argument, the last character ends the
    // macro.
    lemma_feed2_append(p, s3, seq!['}', c]);
    let p5 = step2(p4, '}');
    assert(p5.stack_macro =~= seq![m]);
    assert(p5.state == TexParserState::InMacro);
    assert(p5.buf =~= Seq::<char>::empty());
    assert(ended_macro(p5, c) == Some(m));
    let p6 = step2(p5, c);
    lemma_feed2_one(p4, '}');
    lemma_feed2_one(p5, c);
    lemma_feed2_append(p4, seq!['}'], seq![c]);
    assert(seq!['}'] + seq![c] =~= seq!['}', c]);
    assert(feed2(p4, seq!['}', c]) == Some(p6));
    assert(p6.stack_macro =~= p.stack_macro);
    assert(p6.stack_state =~= p.stack_state);
    assert(p6.buf =~= p.buf);
    assert(s3 + seq!['}', c] =~= seq!['\\'] + name + seq!['{'] + arg + seq!['}', c]);
    assert(p6 == Parser2View { env: process_spec(p.env, m), ..p });
}

impl TexParser {
    /// The parser's invariant.
    pub open spec fn wf(&self) -> bool {
        &&& parser2_wf(self@)
        &&& self.tracker_wf()
    }

    /// The environment tracker satisfies its invariant.
    pub closed spec fn tracker_wf(&self) -> bool {
        self.env_parser.wf()
    }

    /// A parser that has read nothing, filling `doc_input`.
    pub fn new(doc_input: Document) -> (r: Self)
        requires
            doc_input.wf(),
        ensures
            r.wf(),
            r@ == initial_parser2(doc_input@),
    {
        let r = TexParser {
            current_state: TexParserState::Empty,
            stack_state: Vec::new(),
            env_parser: EnvParser::new(doc_input),
            bufcmd: String::new(),
            buf_comment: String::new(),
            stack_macro: Vec::new(),
        };
        proof {
            assert(r@.stack_macro =~= Seq::<MacroView>::empty());
            assert(r@ =~= initial_parser2(doc_input@));
            assert(r@.stack_state.push(r@.state) =~= seq![TexParserState::Empty]);
        }
        r
    }

    /// The document filled so far, taking the parser apart.
    pub fn into_document(self) -> (r: Document)
        requires
            self.wf(),
        ensures
            r.wf(),
            r@ == self@.env.doc,
    {
        self.env_parser.into_document()
    }

    /// Hands a finished macro to the tracker.
    fn send(&mut self, m: TexCmd)
        requires
            old(self).tracker_wf(),
            strict_ok(old(self)@.env, m@),
        ensures
            final(self)@ == (Parser2View { env: process_spec(old(self)@.env, m@), ..old(self)@ }),
            final(self).tracker_wf(),
    {
        let tm = m.to_tex_macro();
        self.env_parser.process_macro(&tm);
    }

    /// Whether the parser can read `c` in its present state.
    pub fn can_add_char(&self, c: char) -> (b: bool)
        requires
            self.wf(),
        ensures
            b == step2_ok(self@, c),
    {
        if self.current_state != TexParserState::InMacro || is_alphabetic(c) {
            return true;
        }
        if c == '[' || c == '{' || c == '%' {
            return true;
        }
        let ghost p = self@;
        proof {
            lemma_shape(p.stack_state.push(p.state));
        }
        let last = self.stack_macro.len() - 1;
        let mut tm = self.stack_macro[last].to_tex_macro();
        if c == '\\' || !self.bufcmd.as_str().is_empty() {
            tm.set_name(&self.bufcmd);
        }
        let ok = self.env_parser.can_process(&tm);
        let is_end = crate::strutil::eq_str(&tm.get_name(), "end");
        if !ok {
            return false;
        }
        if is_end && self.env_parser.proof_target_missing() {
            return false;
        }
        true
    }

    /// Reads one character.
    pub fn add_char(&mut self, c: char)
        requires
            old(self).wf(),
            step2_ok(old(self)@, c),
        ensures
            final(self).wf(),
            final(self)@ == step2(old(self)@, c),
    {
        let ghost p = self@;
        let ghost full = p.stack_state.push(p.state);
        proof {
            lemma_shape(full);
        }
        match self.current_state {
            TexParserState::Empty => {
                if c == '\\' {
                    let texmacro = TexCmd::new(&String::new());
                    self.stack_macro.push(texmacro);
                    self.stack_state.push(self.current_state);
                    self.current_state = TexParserState::InMacro;
                    proof {
                        assert(self@.stack_macro =~= step2(p, c).stack_macro);
                        assert(self@ =~= step2(p, c));
                        assert(self@.stack_state.push(self@.state) =~= seq![
                            TexParserState::Empty,
                            TexParserState::InMacro,
                        ]);
                    }
                } else if c == '%' {
                    self.stack_state.push(self.current_state);
                    self.current_state = TexParserState::InComment;
                    proof {
                        assert(self@ =~= step2(p, c));
                        assert(self@.stack_state.push(self@.state) =~= seq![
                            TexParserState::Empty,
                            TexParserState::InComment,
                        ]);
                    }
                }
            },
            TexParserState::InMacro => {
                proof {
                    assert(full =~= seq![TexParserState::Empty, TexParserState::InMacro]);
                    assert(p.stack_state =~= seq![TexParserState::Empty]);
                }
                if is_alphabetic(c) {
                    push_char(&mut self.bufcmd, c);
                    proof {
                        assert(self@ =~= step2(p, c));
                        assert(self@.stack_state.push(self@.state) =~= full);
                    }
                } else if c == '\\' {
                    self.set_macro_name_from_buf();
                    proof {
                        assert(self.stack_macro@.len() == self@.stack_macro.len());
                        assert(self@.stack_macro.last() == self.stack_macro@.last()@);
                    }
                    let tex_macro = self.stack_macro.pop().unwrap();
                    self.send(tex_macro);
                    let ghost mid = self@;
                    let empty_name = String::new();
                    let texmacro = TexCmd::new(&empty_name);
                    self.stack_macro.push(texmacro);
                    proof {
                        assert(empty_name@ =~= Seq::<char>::empty());
                        assert(self@.stack_macro =~= mid.stack_macro.push(named_macro(Seq::empty())));
                        assert(mid.stack_macro =~= p.stack_macro.drop_last());
                        assert(self@.stack_macro =~= step2(p, c).stack_macro);
                        assert(self@ =~= step2(p, c));
                        assert(self@.stack_state.push(self@.state) =~= full);
                    }
                } else if c == '[' || c == '{' {
                    if !self.bufcmd.as_str().is_empty() {
                        self.set_macro_name_from_buf();
                    }
                    self.stack_state.push(self.current_state);
                    self.current_state = if c == '[' {
                        TexParserState::InMacroOptionalArg
                    } else {
                        TexParserState::InMacroArg
                    };
                    proof {
                        if p.buf.len() == 0 {
                            assert(p.buf =~= Seq::<char>::empty());
                            assert(p.stack_macro.drop_last().push(p.stack_macro.last())
                                =~= p.stack_macro);
                        }
                        assert(self@.stack_macro =~= step2(p, c).stack_macro);
                        assert(self@ =~= step2(p, c));
                        let full2 = self@.stack_state.push(self@.state);
                        if c == '[' {
                            assert(full2 =~= seq![TexParserState::Empty, TexParserState::InMacro, TexParserState::InMacroOptionalArg]);
                        } else {
                            assert(full2 =~= seq![TexParserState::Empty, TexParserState::InMacro, TexParserState::InMacroArg]);
                        }
                    }
                } else if c == '%' {
                    self.stack_state.push(self.current_state);
                    self.current_state = TexParserState::InComment;
                    proof {
                        assert(self@ =~= step2(p, c));
                        assert(self@.stack_state.push(self@.state) =~= seq![TexParserState::Empty, TexParserState::InMacro, TexParserState::InComment]);
                    }
                } else {
                    if !self.bufcmd.as_str().is_empty() {
                        self.set_macro_name_from_buf();
                    }
                    proof {
                        assert(self.stack_macro@.len() == self@.stack_macro.len());
                        assert(self@.stack_macro.last() == self.stack_macro@.last()@);
                    }
                    let tex_macro = self.stack_macro.pop().unwrap();
                    self.send(tex_macro);
                    self.current_state = self.stack_state.pop().unwrap();
                    proof {
                        if p.buf.len() == 0 {
                            assert(p.buf =~= Seq::<char>::empty());
                        }
                        assert(self@.stack_macro =~= step2(p, c).stack_macro);
                        assert(self@ =~= step2(p, c));
                        assert(self@.stack_state.push(self@.state) =~= seq![
                            TexParserState::Empty,
                        ]);
                    }
                }
            },
            TexParserState::InMacroOptionalArg | TexParserState::InMacroArg => {
                let opt = self.current_state == TexParserState::InMacroOptionalArg;
                let closing = if opt {
                    ']'
                } else {
                    '}'
                };
                proof {
                    assert(full[1] == TexParserState::InMacro);
                    assert(full.len() == 3);
                }
                if c == closing {
                    let mut tex_macro = self.stack_macro.pop().unwrap();
                    if opt {
                        tex_macro.add_opt_arg(&self.bufcmd);
                    } else {
                        tex_macro.add_arg(&self.bufcmd);
                    }
                    self.stack_macro.push(tex_macro);
                    self.bufcmd = String::new();
                    self.current_state = self.stack_state.pop().unwrap();
                    proof {
                        assert(self@.stack_macro =~= step2(p, c).stack_macro);
                        assert(self@ =~= step2(p, c));
                        assert(self@.stack_state.push(self@.state) =~= seq![
                            TexParserState::Empty,
                            TexParserState::InMacro,
                        ]);
                    }
                } else if c == '%' {
                    self.stack_state.push(self.current_state);
                    self.current_state = TexParserState::InComment;
                    proof {
                        assert(self@ =~= step2(p, c));
                        if opt {
                            assert(self@.stack_state.push(self@.state) =~= seq![TexParserState::Empty, TexParserState::InMacro, TexParserState::InMacroOptionalArg, TexParserState::InComment]);
                        } else {
                            assert(self@.stack_state.push(self@.state) =~= seq![TexParserState::Empty, TexParserState::InMacro, TexParserState::InMacroArg, TexParserState::InComment]);
                        }
                    }
                } else {
                    push_char(&mut self.bufcmd, c);
                    proof {
                        assert(self@ =~= step2(p, c));
                        assert(self@.stack_state.push(self@.state) =~= full);
                    }
                }
            },
            TexParserState::InComment => {
                if c == '\n' {
                    self.check_latexmk_macro();
                    self.buf_comment = String::new();
                    self.current_state = self.stack_state.pop().unwrap();
                    proof {
                        assert(self@ =~= step2(p, c));
                        assert(full.drop_last() =~= p.stack_state);
                        assert(self@.stack_state.push(self@.state) =~= p.stack_state);
                    }
                } else {
                    push_char(&mut self.buf_comment, c);
                    proof {
                        assert(self@ =~= step2(p, c));
                        assert(self@.stack_state.push(self@.state) =~= full);
                    }
                }
            },
        }
    }

    /// Names the pending macro with the buffer, and empties the buffer.
    fn set_macro_name_from_buf(&mut self)
        requires
            old(self)@.stack_macro.len() > 0,
        ensures
            final(self)@ == (Parser2View {
                stack_macro: old(self)@.stack_macro.drop_last().push(
                    MacroView { name: old(self)@.buf, ..old(self)@.stack_macro.last() },
                ),
                buf: Seq::empty(),
                ..old(self)@
            }),
            final(self).env_parser == old(self).env_parser,
    {
        let ghost p = self@;
        let mut tex_macro = self.stack_macro.pop().unwrap();
        tex_macro.set_name(&self.bufcmd);
        self.bufcmd = String::new();
        self.stack_macro.push(tex_macro);
        proof {
            assert(self@.stack_macro =~= p.stack_macro.drop_last().push(
                MacroView { name: p.buf, ..p.stack_macro.last() },
            ));
        }
    }

    /// Hands the `%!TEX` macro of the comment read so far, if any, to the tracker.
    fn check_latexmk_macro(&mut self)
        requires
            old(self).wf(),
        ensures
            final(self)@ == (Parser2View {
                env: check_latexmk(old(self)@.env, old(self)@.comment),
                ..old(self)@
            }),
            final(self).tracker_wf(),
    {
        let found = latexmk_macro_of(&self.buf_comment);
        match found {
            Some(m) => {
                self.env_parser.process_macro(&m);
            },
            None => {},
        }
    }
}

/// Parses a LaTeX source into the document of the file `main_filename`
/// with this parser. `None` when a macro comes that the tracker cannot take
/// (see [`step2_ok`]).
pub fn parse_tex(text: &str, main_filename: &String) -> (r: Option<Document>)
    ensures
        match r {
            Some(doc) => doc.wf() && run2(text@, empty_document(main_filename@)) is Some && doc@
                == run2(text@, empty_document(main_filename@))->0.env.doc,
            None => run2(text@, empty_document(main_filename@)).is_none(),
        },
{
    let chars = chars_of(text);
    let ghost d0 = empty_document(main_filename@);
    let tex_doc = Document::new(main_filename.clone());
    let mut parser = TexParser::new(tex_doc);
    let mut i: usize = 0;
    proof {
        assert(chars@.subrange(0, 0) =~= Seq::<char>::empty());
    }
    while i < chars.len()
        invariant
            chars@ == text@,
            d0 == empty_document(main_filename@),
            i <= chars@.len(),
            parser.wf(),
            run2(chars@.subrange(0, i as int), d0) == Some(parser@),
        decreases chars@.len() - i,
    {
        proof {
            let pre = chars@.subrange(0, i + 1);
            assert(pre.drop_last() =~= chars@.subrange(0, i as int));
            assert(pre.last() == chars@[i as int]);
        }
        if !parser.can_add_char(chars[i]) {
            proof {
                lemma_feed2_fault_persists(initial_parser2(d0), chars@, i + 1);
            }
            return None;
        }
        parser.add_char(chars[i]);
        i = i + 1;
    }
    proof {
        assert(chars@.subrange(0, i as int) =~= chars@);
    }
    Some(parser.into_document())
}

} // verus!
