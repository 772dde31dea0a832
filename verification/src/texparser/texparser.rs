//! The character-level LaTeX macro parser, and the parsing of a whole
//! source into a [`Document`].
use vstd::prelude::*;
use crate::document::{Document, DocumentView, empty_document};
use crate::envparser::texparser::{EnvParser, EnvView, process_spec, processable, initial_env};
use crate::strutil::{
    strs_view, push_char, chars_of, replace_str, replace_all, split_at_char, split_char, eq_str,
};
use crate::texstruct::tex_logic::{EnumMacroType, TexMacro, MacroView, tex_code, bracketed};

verus! {

/// Whether a character has the Unicode `Alphabetic` property, as
/// `char::is_alphabetic` decides it.
pub uninterp spec fn is_alphabetic_char(c: char) -> bool;

/// `char::is_alphabetic` from std. The contract claims only that the result
/// is the value of the name `is_alphabetic_char` at `c`: which characters
/// are alphabetic (the Unicode tables) is left unsaid.
#[verifier::external_body]
pub(crate) fn is_alphabetic(c: char) -> (b: bool)
    ensures
        b == is_alphabetic_char(c),
{
    c.is_alphabetic()
}

/// The states of the macro parser.
#[derive(Debug, Clone, Copy, PartialEq, Eq, Structural)]
pub enum TexParserState {
    Empty,
    InMacroName,
    InMacro,
    InMacroOptionalArg,
    InMacroArg,
    InComment,
}

/// A character-by-character parser that hands out each macro call once it
/// ends, and each `%!TEX proof = {label}` comment as a latexmk macro.
pub struct TexParser {
    current_state: TexParserState,
    stack_state: Vec<TexParserState>,
    stack_macro: Vec<TexMacro>,
    current_buffer: String,
    stack_buffer: Vec<String>,
    buf_comment: String,
}

/// The mathematical view of a [`TexParser`].
pub struct ParserView {
    pub state: TexParserState,
    pub stack_state: Seq<TexParserState>,
    pub stack_macro: Seq<MacroView>,
    pub buffer: Seq<char>,
    pub stack_buffer: Seq<Seq<char>>,
    pub comment: Seq<char>,
}

impl View for TexParser {
    type V = ParserView;

    closed spec fn view(&self) -> ParserView {
        ParserView {
            state: self.current_state,
            stack_state: self.stack_state@,
            stack_macro: self.stack_macro@.map_values(|m: TexMacro| m@),
            buffer: self.current_buffer@,
            stack_buffer: strs_view(self.stack_buffer@),
            comment: self.buf_comment@,
        }
    }
}

/// States that hold text (outside any macro, or inside an argument).
pub open spec fn is_context(s: TexParserState) -> bool {
    s == TexParserState::Empty || s == TexParserState::InMacroOptionalArg || s
        == TexParserState::InMacroArg
}

/// States inside the arguments of a macro.
pub open spec fn is_arg(s: TexParserState) -> bool {
    s == TexParserState::InMacroOptionalArg || s == TexParserState::InMacroArg
}

/// How many entries of `s` are argument states.
pub open spec fn count_args(s: Seq<TexParserState>) -> nat
    decreases s.len(),
{
    if s.len() == 0 {
        0
    } else {
        count_args(s.drop_last()) + if is_arg(s.last()) {
            1nat
        } else {
            0nat
        }
    }
}

/// The macros under construction: one per enclosing argument, plus the
/// current one while its arguments are read.
pub open spec fn open_macros(p: ParserView) -> nat {
    count_args(p.stack_state) + if is_arg(p.state) || p.state == TexParserState::InMacro {
        1nat
    } else {
        0nat
    }
}

/// The parser's invariant: the saved states are text states, an argument
/// state is never the outermost one, every state but `Empty` has a saved
/// state to return to, there is one macro under construction per open
/// argument, and a saved buffer for each of them (and for a macro name
/// being read).
pub open spec fn parser_wf(p: ParserView) -> bool {
    &&& forall|i: int| 0 <= i < p.stack_state.len() ==> is_context(#[trigger] p.stack_state[i])
    &&& forall|i: int| 0 <= i < p.stack_state.len() && is_arg(#[trigger] p.stack_state[i]) ==> i >= 1
    &&& p.state != TexParserState::Empty ==> p.stack_state.len() >= 1
    &&& p.stack_macro.len() == open_macros(p)
    &&& p.stack_buffer.len() >= p.stack_macro.len() + if p.state == TexParserState::InMacroName {
        1nat
    } else {
        0nat
    }
}

/// A parser that has read nothing.
pub open spec fn initial_parser() -> ParserView {
    ParserView {
        state: TexParserState::Empty,
        stack_state: Seq::empty(),
        stack_macro: Seq::empty(),
        buffer: Seq::empty(),
        stack_buffer: Seq::empty(),
        comment: Seq::empty(),
    }
}

/// A macro name read from the buffer: spaces, tabs and newlines removed.
pub open spec fn clean_name(buf: Seq<char>) -> Seq<char> {
    replace_all(replace_all(replace_all(buf, " "@, Seq::empty()), "\t"@, Seq::empty()), "\n"@, Seq::empty())
}

/// The macro named by the buffer, with no argument yet.
pub open spec fn macro_from_name(buf: Seq<char>) -> MacroView {
    MacroView {
        name: clean_name(buf),
        macro_type: EnumMacroType::Tex,
        args: Seq::empty(),
        option_args: Seq::empty(),
    }
}

/// The latexmk macro that a comment holds: a comment of exactly four
/// space-separated words `!TEX proof = {label}` gives the macro `proof`
/// with the single argument `label` (braces removed).
pub open spec fn latexmk_macro(comment: Seq<char>) -> Option<MacroView> {
    let w = split_char(comment, ' ');
    if w.len() == 4 && w[0] == "!TEX"@ && w[1] == "proof"@ && w[2] == "="@ {
        Some(
            MacroView {
                name: "proof"@,
                macro_type: EnumMacroType::LatexMk,
                args: seq![replace_all(replace_all(w[3], "{"@, Seq::empty()), "}"@, Seq::empty())],
                option_args: Seq::empty(),
            },
        )
    } else {
        None
    }
}

/// Starting a macro: the state and the text read so far are saved.
pub open spec fn start_macro_spec(p: ParserView) -> ParserView {
    ParserView {
        state: TexParserState::InMacroName,
        stack_state: p.stack_state.push(p.state),
        stack_buffer: p.stack_buffer.push(p.buffer),
        buffer: Seq::empty(),
        ..p
    }
}

/// Starting a comment: the state is saved.
pub open spec fn start_comment_spec(p: ParserView) -> ParserView {
    ParserView {
        state: TexParserState::InComment,
        stack_state: p.stack_state.push(p.state),
        ..p
    }
}

/// Returning to the last saved state.
pub open spec fn pop_state(p: ParserView) -> ParserView {
    ParserView { state: p.stack_state.last(), stack_state: p.stack_state.drop_last(), ..p }
}

/// One character read in a text state (outside macros, or in an argument).
pub open spec fn step_text(p: ParserView, c: char) -> ParserView {
    if p.state == TexParserState::Empty {
        if c == '\\' {
            start_macro_spec(p)
        } else if c == '%' {
            start_comment_spec(p)
        } else {
            p
        }
    } else if is_arg(p.state) {
        let closing = if p.state == TexParserState::InMacroOptionalArg {
            ']'
        } else {
            '}'
        };
        if c == closing {
            let m = p.stack_macro.last();
            let m2 = if p.state == TexParserState::InMacroOptionalArg {
                MacroView { option_args: m.option_args.push(p.buffer), ..m }
            } else {
                MacroView { args: m.args.push(p.buffer), ..m }
            };
            ParserView {
                state: TexParserState::InMacro,
                stack_macro: p.stack_macro.update(p.stack_macro.len() - 1, m2),
                buffer: Seq::empty(),
                ..p
            }
        } else if c == '\\' {
            start_macro_spec(p)
        } else if c == '%' {
            start_comment_spec(p)
        } else {
            ParserView { buffer: p.buffer.push(c), ..p }
        }
    } else {
        p
    }
}

/// One character read by the parser: the new state, and the macro that
/// this character ends, if any.
pub open spec fn step(p: ParserView, c: char) -> (ParserView, Option<MacroView>) {
    if is_context(p.state) {
        (step_text(p, c), None)
    } else if p.state == TexParserState::InMacroName {
        if is_alphabetic_char(c) {
            (ParserView { buffer: p.buffer.push(c), ..p }, None)
        } else if c == '\\' {
            if p.buffer.len() == 0 {
                (pop_state(p), None)
            } else {
                (ParserView { buffer: Seq::empty(), ..p }, Some(macro_from_name(p.buffer)))
            }
        } else if c == '[' || c == '{' {
            if p.buffer.len() == 0 {
                (p, None)
            } else {
                (
                    ParserView {
                        state: if c == '[' {
                            TexParserState::InMacroOptionalArg
                        } else {
                            TexParserState::InMacroArg
                        },
                        stack_macro: p.stack_macro.push(macro_from_name(p.buffer)),
                        buffer: Seq::empty(),
                        ..p
                    },
                    None,
                )
            }
        } else {
            if p.buffer.len() == 0 {
                (p, None)
            } else {
                (
                    step_text(pop_state(ParserView { buffer: Seq::empty(), ..p }), c),
                    Some(macro_from_name(p.buffer)),
                )
            }
        }
    } else if p.state == TexParserState::InMacro {
        let m = p.stack_macro.last();
        let p1 = pop_state(ParserView { stack_macro: p.stack_macro.drop_last(), ..p });
        if c == '[' {
            (ParserView { state: TexParserState::InMacroOptionalArg, ..p }, None)
        } else if c == '{' {
            (ParserView { state: TexParserState::InMacroArg, ..p }, None)
        } else if c == '%' {
            (
                ParserView {
                    state: TexParserState::InComment,
                    stack_macro: p.stack_macro.drop_last(),
                    ..p
                },
                Some(m),
            )
        } else if c == '}' || c == ']' {
            (
                step_text(
                    ParserView {
                        buffer: p.stack_buffer.last() + tex_code(m),
                        stack_buffer: p.stack_buffer.drop_last(),
                        ..p1
                    },
                    c,
                ),
                Some(m),
            )
        } else {
            (p1, Some(m))
        }
    } else {
        if c == '\n' {
            (pop_state(ParserView { comment: Seq::empty(), ..p }), latexmk_macro(p.comment))
        } else {
            (ParserView { comment: p.comment.push(c), ..p }, None)
        }
    }
}

proof fn lemma_count_args_push(s: Seq<TexParserState>, e: TexParserState)
    ensures
        count_args(s.push(e)) == count_args(s) + if is_arg(e) {
            1nat
        } else {
            0nat
        },
{
    assert(s.push(e).drop_last() =~= s);
}

/// Popping a saved state keeps the invariant's shape.
proof fn lemma_pop_state(p: ParserView)
    requires
        parser_wf(p),
        p.stack_state.len() >= 1,
    ensures
        count_args(p.stack_state) == count_args(p.stack_state.drop_last()) + if is_arg(
            p.stack_state.last(),
        ) {
            1nat
        } else {
            0nat
        },
        is_context(p.stack_state.last()),
        is_arg(p.stack_state.last()) ==> p.stack_state.len() >= 2,
{
    assert(p.stack_state.drop_last().push(p.stack_state.last()) =~= p.stack_state);
    lemma_count_args_push(p.stack_state.drop_last(), p.stack_state.last());
    assert(is_context(p.stack_state[p.stack_state.len() - 1]));
}

/// The latexmk macro that a comment holds: for `!TEX proof = {label}`,
/// the macro `proof` with the argument `label`.
pub fn latexmk_macro_of(comment: &String) -> (r: Option<TexMacro>)
    ensures
        match r {
            Some(m) => latexmk_macro(comment@) == Some(m@) && m@.args.len() == 1 && m@.macro_type
                == EnumMacroType::LatexMk,
            None => latexmk_macro(comment@).is_none(),
        },
{
    let vec = split_at_char(comment.as_str(), ' ');
    proof {
        assert(strs_view(vec@).len() == vec@.len());
    }
    if vec.len() != 4 {
        None
    } else if !eq_str(&vec[0], "!TEX") {
        None
    } else if !eq_str(&vec[1], "proof") {
        None
    } else if !eq_str(&vec[2], "=") {
        None
    } else {
        proof {
            reveal_strlit("{");
            reveal_strlit("}");
            assert(strs_view(vec@)[3] == vec@[3]@);
        }
        let label = replace_str(vec[3].as_str(), "{", "");
        let label = replace_str(label.as_str(), "}", "");
        let mut mk_macro = TexMacro::new(EnumMacroType::LatexMk);
        mk_macro.set_name(&String::from_str("proof"));
        mk_macro.add_arg(&label);
        proof {
            assert(""@ =~= Seq::<char>::empty()) by { reveal_strlit(""); }
            let expected = latexmk_macro(comment@)->0;
            assert(mk_macro@.args =~= expected.args);
            assert(mk_macro@.option_args =~= expected.option_args);
            assert(mk_macro@ =~= expected);
        }
        Some(mk_macro)
    }
}

impl TexParser {
    /// The parser's invariant.
    pub open spec fn wf(&self) -> bool {
        parser_wf(self@)
    }

    /// A parser that has read nothing.
    pub fn new() -> (r: Self)
        ensures
            r.wf(),
            r@ == initial_parser(),
    {
        let r = TexParser {
            current_state: TexParserState::Empty,
            stack_state: Vec::new(),
            current_buffer: String::new(),
            stack_buffer: Vec::new(),
            buf_comment: String::new(),
            stack_macro: Vec::new(),
        };
        proof {
            assert(r@.stack_macro =~= Seq::<MacroView>::empty());
            assert(r@.stack_buffer =~= Seq::<Seq<char>>::empty());
            assert(r@ =~= initial_parser());
        }
        r
    }

    fn start_new_macro(&mut self)
        requires
            parser_wf(old(self)@),
            is_context(old(self)@.state),
        ensures
            parser_wf(final(self)@),
            final(self)@ == start_macro_spec(old(self)@),
    {
        let ghost p = self@;
        self.stack_state.push(self.current_state);
        let saved = self.current_buffer.clone();
        self.stack_buffer.push(saved);
        self.current_buffer = String::new();
        self.current_state = TexParserState::InMacroName;
        proof {
            lemma_count_args_push(p.stack_state, p.state);
            assert(self@.stack_buffer =~= p.stack_buffer.push(p.buffer));
            assert(self@ =~= start_macro_spec(p));
            let q = self@;
            assert forall|i: int| 0 <= i < q.stack_state.len() implies is_context(
                #[trigger] q.stack_state[i],
            ) by {
                if i < p.stack_state.len() {
                    assert(q.stack_state[i] == p.stack_state[i]);
                }
            }
            assert forall|i: int|
                0 <= i < q.stack_state.len() && is_arg(#[trigger] q.stack_state[i]) implies i
                >= 1 by {
                if i < p.stack_state.len() {
                    assert(q.stack_state[i] == p.stack_state[i]);
                }
            }
        }
    }

    fn start_comment(&mut self)
        requires
            parser_wf(old(self)@),
            is_context(old(self)@.state),
        ensures
            parser_wf(final(self)@),
            final(self)@ == start_comment_spec(old(self)@),
    {
        let ghost p = self@;
        self.stack_state.push(self.current_state);
        self.current_state = TexParserState::InComment;
        proof {
            lemma_count_args_push(p.stack_state, p.state);
            assert(self@ =~= start_comment_spec(p));
            let q = self@;
            assert forall|i: int| 0 <= i < q.stack_state.len() implies is_context(
                #[trigger] q.stack_state[i],
            ) by {
                if i < p.stack_state.len() {
                    assert(q.stack_state[i] == p.stack_state[i]);
                }
            }
            assert forall|i: int|
                0 <= i < q.stack_state.len() && is_arg(#[trigger] q.stack_state[i]) implies i
                >= 1 by {
                if i < p.stack_state.len() {
                    assert(q.stack_state[i] == p.stack_state[i]);
                }
            }
        }
    }

    /// Returns to the last saved state.
    fn restore_state(&mut self)
        requires
            old(self)@.stack_state.len() >= 1,
        ensures
            final(self)@ == pop_state(old(self)@),
    {
        self.current_state = self.stack_state.pop().unwrap();
        proof {
            assert(self@ =~= pop_state(old(self)@));
        }
    }

    /// The macro named by the buffer; the buffer is emptied.
    fn create_macro_from_buf(&mut self) -> (r: TexMacro)
        ensures
            r@ == macro_from_name(old(self)@.buffer),
            final(self)@ == (ParserView { buffer: Seq::empty(), ..old(self)@ }),
    {
        let mut tex_macro = TexMacro::new(EnumMacroType::Tex);
        proof {
            reveal_strlit(" ");
            reveal_strlit("\t");
            reveal_strlit("\n");
        }
        let clean_name = replace_str(self.current_buffer.as_str(), " ", "");
        let clean_name = replace_str(clean_name.as_str(), "\t", "");
        let clean_name = replace_str(clean_name.as_str(), "\n", "");
        tex_macro.set_name(&clean_name);
        self.current_buffer = String::new();
        proof {
            assert(""@ =~= Seq::<char>::empty()) by { reveal_strlit(""); }
            assert(tex_macro@ =~= macro_from_name(old(self)@.buffer));
            assert(self@ =~= ParserView { buffer: Seq::empty(), ..old(self)@ });
        }
        tex_macro
    }

    /// The latexmk macro that the comment read so far holds.
    fn parse_latexmk_macro(&self) -> (r: Option<TexMacro>)
        ensures
            match r {
                Some(m) => latexmk_macro(self@.comment) == Some(m@),
                None => latexmk_macro(self@.comment).is_none(),
            },
    {
        latexmk_macro_of(&self.buf_comment)
    }

    /// Reads one character in a text state.
    fn step_text_exec(&mut self, c: char)
        requires
            parser_wf(old(self)@),
            is_context(old(self)@.state),
        ensures
            parser_wf(final(self)@),
            final(self)@ == step_text(old(self)@, c),
    {
        let ghost p = self@;
        match self.current_state {
            TexParserState::Empty => {
                if c == '\\' {
                    self.start_new_macro();
                } else if c == '%' {
                    self.start_comment();
                }
            },
            TexParserState::InMacroOptionalArg | TexParserState::InMacroArg => {
                let is_opt = self.current_state == TexParserState::InMacroOptionalArg;
                let closing = if is_opt {
                    ']'
                } else {
                    '}'
                };
                if c == closing {
                    proof { assert(self.stack_macro@.len() >= 1); }
                    let mut tex_macro = self.stack_macro.pop().unwrap();
                    if is_opt {
                        tex_macro.add_opt_arg(&self.current_buffer);
                    } else {
                        tex_macro.add_arg(&self.current_buffer);
                    }
                    self.stack_macro.push(tex_macro);
                    self.current_buffer = String::new();
                    self.current_state = TexParserState::InMacro;
                    proof {
                        assert(self@.stack_macro =~= step_text(p, c).stack_macro);
                        assert(self@ =~= step_text(p, c));
                    }
                } else if c == '\\' {
                    self.start_new_macro();
                } else if c == '%' {
                    self.start_comment();
                } else {
                    push_char(&mut self.current_buffer, c);
                    proof {
                        assert(self@ =~= step_text(p, c));
                    }
                }
            },
            _ => {},
        }
    }

    /// Reads one character; gives the macro that this character ends, if any.
    pub fn add_char(&mut self, c: char) -> (r: Option<TexMacro>)
        requires
            old(self).wf(),
        ensures
            final(self).wf(),
            final(self)@ == step(old(self)@, c).0,
            match r {
                Some(m) => step(old(self)@, c).1 == Some(m@),
                None => step(old(self)@, c).1.is_none(),
            },
    {
        let ghost p = self@;
        match self.current_state {
            TexParserState::Empty | TexParserState::InMacroOptionalArg
            | TexParserState::InMacroArg => {
                self.step_text_exec(c);
                None
            },
            TexParserState::InMacroName => {
                if is_alphabetic(c) {
                    push_char(&mut self.current_buffer, c);
                    proof {
                        assert(self@ =~= step(p, c).0);
                    }
                    None
                } else if c == '\\' {
                    if self.current_buffer.as_str().is_empty() {
                        proof { lemma_pop_state(p); }
                        self.restore_state();
                        None
                    } else {
                        let m = self.create_macro_from_buf();
                        Some(m)
                    }
                } else if c == '[' || c == '{' {
                    if self.current_buffer.as_str().is_empty() {
                        None
                    } else {
                        let new_macro = self.create_macro_from_buf();
                        self.stack_macro.push(new_macro);
                        self.current_state = if c == '[' {
                            TexParserState::InMacroOptionalArg
                        } else {
                            TexParserState::InMacroArg
                        };
                        proof {
                            assert(self@.stack_macro =~= p.stack_macro.push(
                                macro_from_name(p.buffer),
                            ));
                            assert(self@ =~= step(p, c).0);
                        }
                        None
                    }
                } else {
                    if self.current_buffer.as_str().is_empty() {
                        None
                    } else {
                        let m = self.create_macro_from_buf();
                        proof { lemma_pop_state(p); }
                        self.restore_state();
                        self.step_text_exec(c);
                        Some(m)
                    }
                }
            },
            TexParserState::InMacro => {
                if c == '[' {
                    self.current_state = TexParserState::InMacroOptionalArg;
                    None
                } else if c == '{' {
                    self.current_state = TexParserState::InMacroArg;
                    None
                } else if c == '%' {
                    let m = self.stack_macro.pop().unwrap();
                    self.current_state = TexParserState::InComment;
                    proof {
                        assert(self@.stack_macro =~= p.stack_macro.drop_last());
                        assert(self@ =~= step(p, c).0);
                    }
                    Some(m)
                } else if c == '}' || c == ']' {
                    let ended_macro = self.stack_macro.pop().unwrap();
                    let mut buffer = self.stack_buffer.pop().unwrap();
                    let code = ended_macro.get_tex_code();
                    buffer.append(code.as_str());
                    self.current_buffer = buffer;
                    proof {
                        lemma_pop_state(p);
                        assert(self@.stack_macro =~= p.stack_macro.drop_last());
                        assert(self@.stack_buffer =~= p.stack_buffer.drop_last());
                    }
                    self.restore_state();
                    self.step_text_exec(c);
                    Some(ended_macro)
                } else {
                    let m = self.stack_macro.pop().unwrap();
                    proof {
                        lemma_pop_state(p);
                        assert(self@.stack_macro =~= p.stack_macro.drop_last());
                    }
                    self.restore_state();
                    Some(m)
                }
            },
            TexParserState::InComment => {
                if c == '\n' {
                    let macro_out = self.parse_latexmk_macro();
                    self.buf_comment = String::new();
                    proof { lemma_pop_state(p); }
                    self.restore_state();
                    macro_out
                } else {
                    push_char(&mut self.buf_comment, c);
                    proof {
                        assert(self@ =~= step(p, c).0);
                    }
                    None
                }
            },
        }
    }
}

/// The macro list of an optional macro.
pub open spec fn opt_seq(o: Option<MacroView>) -> Seq<MacroView> {
    match o {
        Some(m) => seq![m],
        None => Seq::empty(),
    }
}

/// The parser after reading `cs` from `p`, and the macros it gave, in order.
pub open spec fn feed(p: ParserView, cs: Seq<char>) -> (ParserView, Seq<MacroView>)
    decreases cs.len(),
{
    if cs.len() == 0 {
        (p, Seq::empty())
    } else {
        let prev = feed(p, cs.drop_last());
        let (q, o) = step(prev.0, cs.last());
        (q, prev.1 + opt_seq(o))
    }
}

/// Reading `a` then `b` is reading `a + b`.
pub proof fn lemma_feed_append(p: ParserView, a: Seq<char>, b: Seq<char>)
    ensures
        feed(p, a + b) == (feed(feed(p, a).0, b).0, feed(p, a).1 + feed(feed(p, a).0, b).1),
    decreases b.len(),
{
    if b.len() == 0 {
        assert(a + b =~= a);
        assert(feed(p, a).1 + Seq::<MacroView>::empty() =~= feed(p, a).1);
    } else {
        lemma_feed_append(p, a, b.drop_last());
        assert((a + b).drop_last() =~= a + b.drop_last());
        assert((a + b).last() == b.last());
        let q = feed(p, a).0;
        let o1 = feed(p, a).1;
        let r = feed(q, b.drop_last());
        let (t, o) = step(r.0, b.last());
        assert(o1 + r.1 + opt_seq(o) =~= o1 + (r.1 + opt_seq(o)));
    }
}

/// Reading letters while reading a macro name adds them to the name.
proof fn lemma_feed_name(p: ParserView, cs: Seq<char>)
    requires
        p.state == TexParserState::InMacroName,
        forall|i: int| 0 <= i < cs.len() ==> is_alphabetic_char(#[trigger] cs[i]),
    ensures
        feed(p, cs) == (ParserView { buffer: p.buffer + cs, ..p }, Seq::<MacroView>::empty()),
    decreases cs.len(),
{
    if cs.len() == 0 {
        assert(p.buffer + cs =~= p.buffer);
        assert(ParserView { buffer: p.buffer + cs, ..p } == p);
    } else {
        lemma_feed_name(p, cs.drop_last());
        assert(is_alphabetic_char(cs[cs.len() - 1]));
        assert((p.buffer + cs.drop_last()).push(cs.last()) =~= p.buffer + cs);
    }
}

/// The character that closes an argument read in the state `s`.
pub open spec fn closing_of(s: TexParserState) -> char {
    if s == TexParserState::InMacroOptionalArg {
        ']'
    } else {
        '}'
    }
}

/// Reading ordinary characters inside an argument adds them to the argument.
proof fn lemma_feed_arg(p: ParserView, cs: Seq<char>)
    requires
        is_arg(p.state),
        forall|i: int|
            0 <= i < cs.len() ==> #[trigger] cs[i] != closing_of(p.state) && cs[i] != '\\'
                && cs[i] != '%',
    ensures
        feed(p, cs) == (ParserView { buffer: p.buffer + cs, ..p }, Seq::<MacroView>::empty()),
    decreases cs.len(),
{
    if cs.len() == 0 {
        assert(p.buffer + cs =~= p.buffer);
        assert(ParserView { buffer: p.buffer + cs, ..p } == p);
    } else {
        lemma_feed_arg(p, cs.drop_last());
        assert(cs[cs.len() - 1] != closing_of(p.state));
        assert((p.buffer + cs.drop_last()).push(cs.last()) =~= p.buffer + cs);
    }
}

/// A name made of letters, with no space, tab or newline, is its own clean name.
proof fn lemma_clean_name_plain(name: Seq<char>)
    requires
        forall|i: int|
            0 <= i < name.len() ==> #[trigger] name[i] != ' ' && name[i] != '\t' && name[i]
                != '\n',
    ensures
        clean_name(name) == name,
{
    reveal_strlit(" ");
    reveal_strlit("\t");
    reveal_strlit("\n");
    lemma_replace_absent(name, " "@);
    lemma_replace_absent(name, "\t"@);
    lemma_replace_absent(name, "\n"@);
}

/// Removing a one-character text that does not occur changes nothing.
proof fn lemma_replace_absent(s: Seq<char>, pat: Seq<char>)
    requires
        pat.len() == 1,
        forall|i: int| 0 <= i < s.len() ==> #[trigger] s[i] != pat[0],
    ensures
        replace_all(s, pat, Seq::empty()) == s,
    decreases s.len(),
{
    if s.len() > 0 {
        assert(s[0] != pat[0]);
        assert(!crate::strutil::occurs_at(s, pat, 0)) by {
            if crate::strutil::occurs_at(s, pat, 0) {
                assert(s.subrange(0, 1)[0] == s[0]);
            }
        }
        lemma_replace_absent(s.skip(1), pat);
        assert(seq![s[0]] + s.skip(1) =~= s);
    }
}

proof fn lemma_feed_one(p: ParserView, c: char)
    ensures
        feed(p, seq![c]) == (step(p, c).0, opt_seq(step(p, c).1)),
{
    let cs = seq![c];
    assert(cs.drop_last() =~= Seq::<char>::empty());
    assert(feed(p, cs.drop_last()) == (p, Seq::<MacroView>::empty()));
    assert(cs.last() == c);
    assert(cs.len() == 1);
    assert(Seq::<MacroView>::empty() + opt_seq(step(p, c).1) =~= opt_seq(step(p, c).1));
    assert(feed(p, cs) == (step(p, c).0, Seq::<MacroView>::empty() + opt_seq(step(p, c).1)));
}

/// The macro that a plain name starts.
pub open spec fn named_macro(name: Seq<char>) -> MacroView {
    MacroView {
        name: name,
        macro_type: EnumMacroType::Tex,
        args: Seq::empty(),
        option_args: Seq::empty(),
    }
}

/// `m` with `item` added to its optional arguments (`opt`) or to its
/// arguments.
pub open spec fn with_arg(m: MacroView, opt: bool, item: Seq<char>) -> MacroView {
    if opt {
        MacroView { option_args: m.option_args.push(item), ..m }
    } else {
        MacroView { args: m.args.push(item), ..m }
    }
}

/// `m` with `items` added to its optional arguments (`opt`) or to its
/// arguments.
pub open spec fn with_args(m: MacroView, opt: bool, items: Seq<Seq<char>>) -> MacroView {
    if opt {
        MacroView { option_args: m.option_args + items, ..m }
    } else {
        MacroView { args: m.args + items, ..m }
    }
}

/// An argument text that the parser reads as it is: no closing character,
/// backslash or `%`.
pub open spec fn plain_item(item: Seq<char>, close: char) -> bool {
    forall|i: int|
        0 <= i < item.len() ==> #[trigger] item[i] != close && item[i] != '\\' && item[i] != '%'
}

/// The bracket that opens a group (`[` for an optional argument).
pub open spec fn group_open(opt: bool) -> char {
    if opt {
        '['
    } else {
        '{'
    }
}

/// The bracket that closes a group (`]` for an optional argument).
pub open spec fn group_close(opt: bool) -> char {
    if opt {
        ']'
    } else {
        '}'
    }
}

/// Two states that react alike to the first character read the rest alike.
proof fn lemma_feed_same_first(a: ParserView, b: ParserView, s: Seq<char>)
    requires
        s.len() > 0,
        step(a, s[0]) == step(b, s[0]),
    ensures
        feed(a, s) == feed(b, s),
{
    let rest = s.skip(1);
    assert(seq![s[0]] + rest =~= s);
    lemma_feed_append(a, seq![s[0]], rest);
    lemma_feed_append(b, seq![s[0]], rest);
    lemma_feed_one(a, s[0]);
    lemma_feed_one(b, s[0]);
}

/// A non-empty sequence of groups starts with an opening bracket.
proof fn lemma_bracketed_first(items: Seq<Seq<char>>, open: char, close: char)
    requires
        items.len() > 0,
    ensures
        bracketed(items, open, close).len() > 0,
        bracketed(items, open, close)[0] == open,
    decreases items.len(),
{
    let dl = items.drop_last();
    if dl.len() == 0 {
        assert(bracketed(dl, open, close) =~= Seq::<char>::empty());
    } else {
        lemma_bracketed_first(dl, open, close);
    }
}

/// One group `[item]` or `{item}` read after a macro name adds `item` to
/// the macro being built.
proof fn lemma_feed_group(q: ParserView, opt: bool, item: Seq<char>)
    requires
        q.state == TexParserState::InMacro,
        q.buffer.len() == 0,
        q.stack_macro.len() > 0,
        plain_item(item, group_close(opt)),
    ensures
        feed(q, seq![group_open(opt)] + item + seq![group_close(opt)]) == (
            ParserView {
                stack_macro: q.stack_macro.update(
                    q.stack_macro.len() - 1,
                    with_arg(q.stack_macro.last(), opt, item),
                ),
                ..q
            },
            Seq::<MacroView>::empty(),
        ),
{
    let e = Seq::<MacroView>::empty();
    let o = group_open(opt);
    let cl = group_close(opt);
    let st = if opt {
        TexParserState::InMacroOptionalArg
    } else {
        TexParserState::InMacroArg
    };
    let q1 = ParserView { state: st, ..q };
    lemma_feed_one(q, o);
    assert(step(q, o) == (q1, None::<MacroView>));
    lemma_feed_append(q, seq![o], item);
    lemma_feed_arg(q1, item);
    let q2 = ParserView { buffer: q1.buffer + item, ..q1 };
    assert(q1.buffer + item =~= item);
    lemma_feed_append(q, seq![o] + item, seq![cl]);
    lemma_feed_one(q2, cl);
    assert(q.buffer =~= Seq::<char>::empty());
    assert(step(q2, cl).0 == ParserView {
        stack_macro: q.stack_macro.update(
            q.stack_macro.len() - 1,
            with_arg(q.stack_macro.last(), opt, item),
        ),
        ..q
    });
    assert(e + e =~= e);
}

/// Groups read after a macro name add their texts, in order, to the macro
/// being built.
proof fn lemma_feed_groups(q: ParserView, opt: bool, items: Seq<Seq<char>>)
    requires
        q.state == TexParserState::InMacro,
        q.buffer.len() == 0,
        q.stack_macro.len() > 0,
        forall|k: int| 0 <= k < items.len() ==> plain_item(#[trigger] items[k], group_close(opt)),
    ensures
        feed(q, bracketed(items, group_open(opt), group_close(opt))) == (
            ParserView {
                stack_macro: q.stack_macro.update(
                    q.stack_macro.len() - 1,
                    with_args(q.stack_macro.last(), opt, items),
                ),
                ..q
            },
            Seq::<MacroView>::empty(),
        ),
    decreases items.len(),
{
    let m = q.stack_macro.last();
    let o = group_open(opt);
    let cl = group_close(opt);
    if items.len() == 0 {
        assert(bracketed(items, o, cl) =~= Seq::<char>::empty());
        assert(m.option_args + items =~= m.option_args);
        assert(m.args + items =~= m.args);
        assert(with_args(m, opt, items) == m);
        assert(q.stack_macro.update(q.stack_macro.len() - 1, m) =~= q.stack_macro);
    } else {
        let dl = items.drop_last();
        let l = items.last();
        assert forall|k: int| 0 <= k < dl.len() implies plain_item(#[trigger] dl[k], cl) by {
            assert(dl[k] == items[k]);
        }
        lemma_feed_groups(q, opt, dl);
        let q1 = ParserView {
            stack_macro: q.stack_macro.update(q.stack_macro.len() - 1, with_args(m, opt, dl)),
            ..q
        };
        assert(plain_item(items[items.len() - 1], cl));
        lemma_feed_group(q1, opt, l);
        let g = seq![o] + l + seq![cl];
        assert(bracketed(items, o, cl) =~= bracketed(dl, o, cl) + g);
        lemma_feed_append(q, bracketed(dl, o, cl), g);
        assert(m.option_args + dl.push(l) =~= (m.option_args + dl).push(l));
        assert(m.args + dl.push(l) =~= (m.args + dl).push(l));
        assert(dl.push(l) =~= items);
        assert(with_arg(with_args(m, opt, dl), opt, l) == with_args(m, opt, items));
        assert(q1.stack_macro.update(q1.stack_macro.len() - 1, with_args(m, opt, items))
            =~= q.stack_macro.update(q.stack_macro.len() - 1, with_args(m, opt, items)));
        assert(Seq::<MacroView>::empty() + Seq::<MacroView>::empty() =~= Seq::<MacroView>::empty());
    }
}

/// The LaTeX code of a macro reads back as that macro: from outside any
/// macro, reading the code that `get_tex_code` gives of `m`, then one more
/// character that ends the macro (not a bracket, a brace or `%`; for a
/// macro without arguments, not a letter or a backslash either), hands out
/// `m` alone and leaves the parser outside any macro again, with its saved
/// states and pending macros as they were. The name of `m` is made of
/// letters with no space, tab or newline (and `[` and `{` are not letters);
/// its arguments hold no closing bracket, backslash or `%`.
pub proof fn lemma_tex_code_read(p: ParserView, m: MacroView, c: char)
    requires
        p.state == TexParserState::Empty,
        m.macro_type == EnumMacroType::Tex,
        m.name.len() > 0,
        forall|i: int|
            0 <= i < m.name.len() ==> is_alphabetic_char(#[trigger] m.name[i]) && m.name[i] != ' '
                && m.name[i] != '\t' && m.name[i] != '\n',
        !is_alphabetic_char('['),
        !is_alphabetic_char('{'),
        forall|k: int| 0 <= k < m.option_args.len() ==> plain_item(#[trigger] m.option_args[k], ']'),
        forall|k: int| 0 <= k < m.args.len() ==> plain_item(#[trigger] m.args[k], '}'),
        c != '[' && c != '{' && c != '%' && c != '}' && c != ']',
        m.option_args.len() == 0 && m.args.len() == 0 ==> !is_alphabetic_char(c) && c != '\\',
    ensures
        feed(p, tex_code(m) + seq![c]) == (
            ParserView {
                state: TexParserState::Empty,
                buffer: Seq::empty(),
                stack_buffer: p.stack_buffer.push(p.buffer),
                ..p
            },
            seq![m],
        ),
{
    let e = Seq::<MacroView>::empty();
    let name = m.name;
    let bo = bracketed(m.option_args, '[', ']');
    let ba = bracketed(m.args, '{', '}');
    let b = bo + ba + seq![c];
    let fin = ParserView {
        state: TexParserState::Empty,
        buffer: Seq::empty(),
        stack_buffer: p.stack_buffer.push(p.buffer),
        ..p
    };
    // `\name` starts the macro and fills its name.
    let q0 = start_macro_spec(p);
    lemma_feed_one(p, '\\');
    assert(step(p, '\\') == (q0, None::<MacroView>));
    lemma_feed_append(p, seq!['\\'], name);
    lemma_feed_name(q0, name);
    let q1 = ParserView { buffer: q0.buffer + name, ..q0 };
    assert(q0.buffer + name =~= name);
    assert(e + e =~= e);
    lemma_clean_name_plain(name);
    assert(tex_code(m) + seq![c] =~= (seq!['\\'] + name) + b);
    lemma_feed_append(p, seq!['\\'] + name, b);
    if m.option_args.len() == 0 && m.args.len() == 0 {
        assert(bo =~= Seq::<char>::empty());
        assert(ba =~= Seq::<char>::empty());
        assert(b =~= seq![c]);
        lemma_feed_one(q1, c);
        assert(m.args =~= Seq::<Seq<char>>::empty());
        assert(m.option_args =~= Seq::<Seq<char>>::empty());
        assert(m == macro_from_name(name));
        assert(q1.stack_state.drop_last() =~= p.stack_state);
        assert(q1.stack_state.last() == TexParserState::Empty);
        let popped = pop_state(ParserView { buffer: Seq::empty(), ..q1 });
        assert(popped == fin);
        assert(step_text(popped, c) == popped);
        assert(step(q1, c).0 == fin);
        assert(e + seq![m] =~= seq![m]);
    } else {
        let nm = named_macro(name);
        let z0 = ParserView {
            state: TexParserState::InMacro,
            stack_macro: q1.stack_macro.push(nm),
            buffer: Seq::empty(),
            ..q1
        };
        if m.option_args.len() > 0 {
            lemma_bracketed_first(m.option_args, '[', ']');
            assert(b[0] == '[');
        } else {
            assert(bo =~= Seq::<char>::empty());
            lemma_bracketed_first(m.args, '{', '}');
            assert(b[0] == ba[0]);
            assert(b[0] == '{');
        }
        assert(step(q1, b[0]) == step(z0, b[0]));
        lemma_feed_same_first(q1, z0, b);
        // The optional arguments, then the arguments.
        assert(b =~= bo + (ba + seq![c]));
        lemma_feed_append(z0, bo, ba + seq![c]);
        lemma_feed_groups(z0, true, m.option_args);
        let m1 = with_args(nm, true, m.option_args);
        let z1 = ParserView {
            stack_macro: z0.stack_macro.update(z0.stack_macro.len() - 1, m1),
            ..z0
        };
        lemma_feed_append(z1, ba, seq![c]);
        lemma_feed_groups(z1, false, m.args);
        let m2 = with_args(m1, false, m.args);
        assert(Seq::<Seq<char>>::empty() + m.option_args =~= m.option_args);
        assert(Seq::<Seq<char>>::empty() + m.args =~= m.args);
        assert(m2 == m);
        let z2 = ParserView {
            stack_macro: z1.stack_macro.update(z1.stack_macro.len() - 1, m2),
            ..z1
        };
        assert(z2.stack_macro =~= p.stack_macro.push(m));
        lemma_feed_one(z2, c);
        assert(z2.stack_macro.drop_last() =~= p.stack_macro);
        assert(z2.stack_state.drop_last() =~= p.stack_state);
        assert(step(z2, c).0 == fin);
        assert(e + seq![m] =~= seq![m]);
    }
}

/// Reading the LaTeX code of a macro with at least one argument from
/// outside any macro leaves the macro built and waiting for what follows
/// its arguments, with nothing handed out yet.
proof fn lemma_tex_code_open(p: ParserView, m: MacroView)
    requires
        p.state == TexParserState::Empty,
        m.macro_type == EnumMacroType::Tex,
        m.name.len() > 0,
        forall|i: int|
            0 <= i < m.name.len() ==> is_alphabetic_char(#[trigger] m.name[i]) && m.name[i] != ' '
                && m.name[i] != '\t' && m.name[i] != '\n',
        !is_alphabetic_char('['),
        !is_alphabetic_char('{'),
        forall|k: int| 0 <= k < m.option_args.len() ==> plain_item(#[trigger] m.option_args[k], ']'),
        forall|k: int| 0 <= k < m.args.len() ==> plain_item(#[trigger] m.args[k], '}'),
        m.option_args.len() > 0 || m.args.len() > 0,
    ensures
        feed(p, tex_code(m)) == (
            ParserView {
                state: TexParserState::InMacro,
                stack_state: p.stack_state.push(p.state),
                stack_macro: p.stack_macro.push(m),
                buffer: Seq::empty(),
                stack_buffer: p.stack_buffer.push(p.buffer),
                comment: p.comment,
            },
            Seq::<MacroView>::empty(),
        ),
{
    let e = Seq::<MacroView>::empty();
    let name = m.name;
    let bo = bracketed(m.option_args, '[', ']');
    let ba = bracketed(m.args, '{', '}');
    let b = bo + ba;
    let q0 = start_macro_spec(p);
    lemma_feed_one(p, '\\');
    assert(step(p, '\\') == (q0, None::<MacroView>));
    lemma_feed_append(p, seq!['\\'], name);
    lemma_feed_name(q0, name);
    let q1 = ParserView { buffer: q0.buffer + name, ..q0 };
    assert(q0.buffer + name =~= name);
    assert(e + e =~= e);
    lemma_clean_name_plain(name);
    assert(tex_code(m) =~= (seq!['\\'] + name) + b);
    lemma_feed_append(p, seq!['\\'] + name, b);
    let nm = named_macro(name);
    let z0 = ParserView {
        state: TexParserState::InMacro,
        stack_macro: q1.stack_macro.push(nm),
        buffer: Seq::empty(),
        ..q1
    };
    if m.option_args.len() > 0 {
        lemma_bracketed_first(m.option_args, '[', ']');
        assert(b[0] == '[');
    } else {
        assert(bo =~= Seq::<char>::empty());
        lemma_bracketed_first(m.args, '{', '}');
        assert(b[0] == ba[0]);
        assert(b[0] == '{');
    }
    assert(step(q1, b[0]) == step(z0, b[0]));
    lemma_feed_same_first(q1, z0, b);
    lemma_feed_append(z0, bo, ba);
    lemma_feed_groups(z0, true, m.option_args);
    let m1 = with_args(nm, true, m.option_args);
    let z1 = ParserView {
        stack_macro: z0.stack_macro.update(z0.stack_macro.len() - 1, m1),
        ..z0
    };
    lemma_feed_groups(z1, false, m.args);
    let m2 = with_args(m1, false, m.args);
    assert(Seq::<Seq<char>>::empty() + m.option_args =~= m.option_args);
    assert(Seq::<Seq<char>>::empty() + m.args =~= m.args);
    assert(m2 == m);
    let z2 = ParserView {
        stack_macro: z1.stack_macro.update(z1.stack_macro.len() - 1, m2),
        ..z1
    };
    assert(z2.stack_macro =~= p.stack_macro.push(m));
}

/// A macro with arguments is also ended by a comment: from outside any
/// macro, reading the LaTeX code of `m` (with at least one argument) and
/// then `%` hands out `m` alone, as an ordinary ending character does, and
/// leaves the parser in a comment, with its pending macros as they were.
pub proof fn lemma_tex_code_then_comment(p: ParserView, m: MacroView)
    requires
        p.state == TexParserState::Empty,
        m.macro_type == EnumMacroType::Tex,
        m.name.len() > 0,
        forall|i: int|
            0 <= i < m.name.len() ==> is_alphabetic_char(#[trigger] m.name[i]) && m.name[i] != ' '
                && m.name[i] != '\t' && m.name[i] != '\n',
        !is_alphabetic_char('['),
        !is_alphabetic_char('{'),
        forall|k: int| 0 <= k < m.option_args.len() ==> plain_item(#[trigger] m.option_args[k], ']'),
        forall|k: int| 0 <= k < m.args.len() ==> plain_item(#[trigger] m.args[k], '}'),
        m.option_args.len() > 0 || m.args.len() > 0,
    ensures
        feed(p, tex_code(m) + seq!['%']).1 == seq![m],
        feed(p, tex_code(m) + seq!['%']).0.state == TexParserState::InComment,
        feed(p, tex_code(m) + seq!['%']).0.stack_macro == p.stack_macro,
        feed(p, tex_code(m) + seq!['%']).0.stack_state == p.stack_state.push(p.state),
{
    lemma_tex_code_open(p, m);
    let z = feed(p, tex_code(m)).0;
    lemma_feed_append(p, tex_code(m), seq!['%']);
    lemma_feed_one(z, '%');
    assert(z.stack_macro.drop_last() =~= p.stack_macro);
    assert(Seq::<MacroView>::empty() + seq![m] =~= seq![m]);
}

/// Characters of a comment other than a newline are kept in the comment.
proof fn lemma_feed_comment(q: ParserView, cs: Seq<char>)
    requires
        q.state == TexParserState::InComment,
        forall|i: int| 0 <= i < cs.len() ==> #[trigger] cs[i] != '\n',
    ensures
        feed(q, cs) == (ParserView { comment: q.comment + cs, ..q }, Seq::<MacroView>::empty()),
    decreases cs.len(),
{
    if cs.len() == 0 {
        assert(q.comment + cs =~= q.comment);
        assert(ParserView { comment: q.comment + cs, ..q } == q);
    } else {
        lemma_feed_comment(q, cs.drop_last());
        assert(cs[cs.len() - 1] != '\n');
        assert((q.comment + cs.drop_last()).push(cs.last()) =~= q.comment + cs);
    }
}

/// A comment line gives at most its latexmk macro: from outside any macro
/// with no pending comment (a new parser, for one), reading `%`, a text `s`
/// without newline and the newline gives back the same parser and hands
/// out nothing but the latexmk macro of `s` (for `!TEX proof = {x}`, the
/// macro `proof` with the argument `x`; no LaTeX macro ever).
pub proof fn lemma_comment_line_read(p: ParserView, s: Seq<char>)
    requires
        p.state == TexParserState::Empty,
        p.comment.len() == 0,
        forall|i: int| 0 <= i < s.len() ==> #[trigger] s[i] != '\n',
    ensures
        feed(p, seq!['%'] + s + seq!['\n']) == (p, opt_seq(latexmk_macro(s))),
        latexmk_macro(s) matches Some(m) ==> m.macro_type == EnumMacroType::LatexMk,
{
    let e = Seq::<MacroView>::empty();
    let q0 = start_comment_spec(p);
    lemma_feed_one(p, '%');
    assert(step(p, '%') == (q0, None::<MacroView>));
    lemma_feed_append(p, seq!['%'], s);
    lemma_feed_comment(q0, s);
    let q1 = ParserView { comment: q0.comment + s, ..q0 };
    assert(q0.comment + s =~= s);
    lemma_feed_append(p, seq!['%'] + s, seq!['\n']);
    lemma_feed_one(q1, '\n');
    assert(q1.stack_state.drop_last() =~= p.stack_state);
    assert(p.comment =~= Seq::<char>::empty());
    assert(step(q1, '\n').0 == p);
    assert(e + e =~= e);
    assert(e + opt_seq(latexmk_macro(s)) =~= opt_seq(latexmk_macro(s)));
}

/// The state of the parser and of the environment tracker after reading
/// `cs` into a document that started as `d`; the tracker's state is `None`
/// once a macro came that it cannot take.
pub open spec fn run(cs: Seq<char>, d: DocumentView) -> (ParserView, Option<EnvView>)
    decreases cs.len(),
{
    if cs.len() == 0 {
        (initial_parser(), Some(initial_env(d)))
    } else {
        let (tp, ep) = run(cs.drop_last(), d);
        let (tp2, out) = step(tp, cs.last());
        (
            tp2,
            match ep {
                None => None,
                Some(e) => match out {
                    None => Some(e),
                    Some(m) => if processable(e, m) {
                        Some(process_spec(e, m))
                    } else {
                        None
                    },
                },
            },
        )
    }
}

/// Once the tracker has failed, reading more does not bring it back.
pub proof fn lemma_run_fault_persists(cs: Seq<char>, k: int, d: DocumentView)
    requires
        0 <= k <= cs.len(),
        run(cs.subrange(0, k), d).1.is_none(),
    ensures
        run(cs, d).1.is_none(),
    decreases cs.len(),
{
    if k < cs.len() {
        assert(cs.drop_last().subrange(0, k) =~= cs.subrange(0, k));
        lemma_run_fault_persists(cs.drop_last(), k, d);
    } else {
        assert(cs.subrange(0, k) =~= cs);
    }
}

/// Parses a LaTeX source (after preprocessing) into the document of the
/// file `main_filename`: every character goes through the macro parser, and
/// every macro it ends goes to the environment tracker. `None` when a macro
/// comes that the tracker cannot take (see `processable`).
pub fn parse_tex(text: &str, main_filename: &String) -> (r: Option<Document>)
    ensures
        match r {
            Some(doc) => doc.wf() && run(text@, empty_document(main_filename@)).1 == Some(
                EnvView { doc: doc@, ..run(text@, empty_document(main_filename@)).1->0 },
            ),
            None => run(text@, empty_document(main_filename@)).1.is_none(),
        },
{
    let chars = chars_of(text);
    let ghost d0 = empty_document(main_filename@);
    let tex_doc = Document::new(main_filename.clone());
    let mut env_parser = EnvParser::new(tex_doc);
    let mut parser = TexParser::new();
    let mut i: usize = 0;
    proof {
        assert(chars@.subrange(0, 0) =~= Seq::<char>::empty());
    }
    while i < chars.len()
        invariant
            chars@ == text@,
            d0 == empty_document(main_filename@),
            i <= chars@.len(),
            parser.wf(),
            env_parser.wf(),
            run(chars@.subrange(0, i as int), d0) == (parser@, Some(env_parser@)),
        decreases chars@.len() - i,
    {
        proof {
            let pre = chars@.subrange(0, i + 1);
            assert(pre.drop_last() =~= chars@.subrange(0, i as int));
            assert(pre.last() == chars@[i as int]);
        }
        let ghost tp = parser@;
        let ghost ep = env_parser@;
        match parser.add_char(chars[i]) {
            Some(tex_macro) => {
                if !env_parser.can_process(&tex_macro) {
                    proof {
                        let pre = chars@.subrange(0, i + 1);
                        assert(run(pre.drop_last(), d0) == (tp, Some(ep)));
                        assert(step(tp, pre.last()).1 == Some(tex_macro@));
                        assert(!processable(ep, tex_macro@));
                        assert(run(pre, d0).1.is_none());
                        lemma_run_fault_persists(chars@, i + 1, d0);
                    }
                    return None;
                }
                env_parser.process_macro(&tex_macro);
            },
            None => {},
        }
        i = i + 1;
    }
    proof {
        assert(chars@.subrange(0, i as int) =~= chars@);
    }
    let doc = env_parser.into_document();
    proof {
        let e = run(text@, d0).1->0;
        assert(EnvView { doc: doc@, ..e } =~= e);
    }
    Some(doc)
}

} // verus!
