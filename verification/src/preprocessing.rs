//! The cleaning of a LaTeX source before parsing, line by line: comments
//! are removed (but `%!TEX` lines are kept), `comment` environments are
//! skipped, and `\input{file}` and `\include{file}` commands are taken out
//! of the line and named, so that the files they include can be copied in
//! their place.
use vstd::prelude::*;
use crate::strutil::{
    strs_view, contains_seq, contains_str, split_char, split_first, split_second, replace_all,
    replace_str, split_first_str, split_second_str, push_char, chars_of,
    lemma_replace_empty_shrinks,
};
use crate::texregex::{
    input_command, regex_input_captures, lemma_input_command, without_newlines,
    regex_remove_newlines,
};

verus! {

/// A line without its comment: kept whole when it holds `%!TEX`, cut at
/// its first `%` otherwise.
pub open spec fn clean_line_spec(line: Seq<char>) -> Seq<char> {
    if contains_seq(line, "%!TEX"@) {
        line
    } else if contains_seq(line, "%"@) {
        split_char(line, '%')[0]
    } else {
        line
    }
}

/// The text `\begin{comment}`.
pub open spec fn begin_comment() -> Seq<char> {
    "\\begin{comment}"@
}

/// The text `\end{comment}`.
pub open spec fn end_comment() -> Seq<char> {
    "\\end{comment}"@
}

/// One line through the `comment` environment filter: the new state (inside
/// a `comment` environment or not) and what is left of the line (`None`
/// when the whole line is inside the environment).
pub open spec fn comment_step_spec(in_long_comment: bool, line: Seq<char>) -> (bool, Option<
    Seq<char>,
>) {
    if in_long_comment {
        if contains_seq(line, end_comment()) {
            (false, Some(split_second(line, end_comment())))
        } else {
            (true, None)
        }
    } else {
        if contains_seq(line, begin_comment()) {
            (true, Some(split_first(line, begin_comment())))
        } else {
            (false, Some(line))
        }
    }
}

/// A line without its `\input{...}` and `\include{...}` commands, and the
/// included names in the order in which they are found: the first command
/// is found, every copy of it is removed, and the search starts again.
pub open spec fn strip_inputs(line: Seq<char>) -> (Seq<char>, Seq<Seq<char>>)
    decreases line.len(),
{
    match input_command(line) {
        Some((cmd, name)) => {
            proof {
                lemma_input_command(line);
                lemma_replace_empty_shrinks(line, cmd);
            }
            let rest = strip_inputs(replace_all(line, cmd, Seq::empty()));
            (rest.0, seq![name] + rest.1)
        },
        None => (line, Seq::empty()),
    }
}

/// The file that `\input{name}` or `\include{name}` includes, in the
/// folder `folder`.
pub open spec fn input_path(folder: Seq<char>, name: Seq<char>) -> Seq<char> {
    folder + name + ".tex"@
}

/// What becomes of one line of a source: the new `comment` environment
/// state, the line to copy (`None`: nothing, not even a newline) and the
/// files to copy before it, in order.
pub open spec fn line_step_spec(in_long_comment: bool, raw_line: Seq<char>, folder: Seq<char>) -> (
    bool,
    Option<Seq<char>>,
    Seq<Seq<char>>,
) {
    let (state, kept) = comment_step_spec(in_long_comment, clean_line_spec(raw_line));
    match kept {
        None => (state, None, Seq::empty()),
        Some(l) => {
            let stripped = strip_inputs(l);
            (state, Some(stripped.0), stripped.1.map_values(|n: Seq<char>| input_path(folder, n)))
        },
    }
}

/// A cleaned line is a prefix of the line, and holds no `%` unless the line
/// holds `%!TEX` (and is then kept whole).
pub proof fn lemma_clean_line(line: Seq<char>)
    ensures
        clean_line_spec(line).is_prefix_of(line),
        !contains_seq(line, "%!TEX"@) ==> !clean_line_spec(line).contains('%'),
        contains_seq(line, "%!TEX"@) ==> clean_line_spec(line) == line,
{
    crate::strutil::lemma_split_char_first(line, '%');
    assert(line.subrange(0, line.len() as int) =~= line);
    if !contains_seq(line, "%!TEX"@) && !contains_seq(line, "%"@) && line.contains('%') {
        let i = choose|i: int| 0 <= i < line.len() && line[i] == '%';
        reveal_strlit("%");
        assert(line.subrange(i, i + 1) =~= "%"@);
        assert(crate::strutil::occurs_at(line, "%"@, i));
    }
}

/// Every `\input{...}` and `\include{...}` command is taken out: what is
/// left of a line holds none.
pub proof fn lemma_strip_inputs_complete(line: Seq<char>)
    ensures
        input_command(strip_inputs(line).0).is_none(),
    decreases line.len(),
{
    if let Some((cmd, name)) = input_command(line) {
        lemma_input_command(line);
        lemma_replace_empty_shrinks(line, cmd);
        lemma_strip_inputs_complete(replace_all(line, cmd, Seq::empty()));
    }
}

/// A line without its comment (kept whole when it holds `%!TEX`).
pub fn clean_line(line: &String) -> (r: String)
    ensures
        r@ == clean_line_spec(line@),
{
    if contains_str(line.as_str(), "%!TEX") {
        line.clone()
    } else if contains_str(line.as_str(), "%") {
        let pieces = crate::strutil::split_at_char(line.as_str(), '%');
        proof {
            crate::strutil::lemma_split_char_len(line@, '%');
            assert(strs_view(pieces@)[0] == pieces@[0]@);
        }
        pieces[0].clone()
    } else {
        line.clone()
    }
}

/// One line through the `comment` environment filter.
pub fn comment_block_step(in_long_comment: bool, line: &String) -> (r: (bool, Option<String>))
    ensures
        r.0 == comment_step_spec(in_long_comment, line@).0,
        match r.1 {
            Some(l) => comment_step_spec(in_long_comment, line@).1 == Some(l@),
            None => comment_step_spec(in_long_comment, line@).1.is_none(),
        },
{
    if in_long_comment {
        if contains_str(line.as_str(), "\\end{comment}") {
            (false, Some(split_second_str(line.as_str(), "\\end{comment}")))
        } else {
            (true, None)
        }
    } else {
        if contains_str(line.as_str(), "\\begin{comment}") {
            (true, Some(split_first_str(line.as_str(), "\\begin{comment}")))
        } else {
            (false, Some(line.clone()))
        }
    }
}

/// A whole text read line by line without its comments: each line is
/// cleaned of its comment, the lines inside `comment` environments are
/// dropped, and what is left of the lines is joined with nothing between
/// them. Gives the `comment` environment state after the last line too.
pub open spec fn comments_text(lines: Seq<Seq<char>>) -> (bool, Seq<char>)
    decreases lines.len(),
{
    if lines.len() == 0 {
        (false, Seq::empty())
    } else {
        let prev = comments_text(lines.drop_last());
        let step = comment_step_spec(prev.0, clean_line_spec(lines.last()));
        (
            step.0,
            match step.1 {
                Some(kept) => prev.1 + kept,
                None => prev.1,
            },
        )
    }
}

/// How a line moves the `comment` environment filter: inside the
/// environment, a line ends it exactly when it holds `\end{comment}`, and
/// then only what follows that text (up to a second one) is kept; a line
/// without it is dropped whole. Outside, a line starts the environment
/// exactly when it holds `\begin{comment}`, and then only what precedes
/// that text is kept; any other line is kept whole.
pub proof fn lemma_comment_environment(line: Seq<char>)
    ensures
        comment_step_spec(true, line).0 <==> !contains_seq(line, "\\end{comment}"@),
        !contains_seq(line, "\\end{comment}"@) ==> comment_step_spec(true, line).1 is None,
        contains_seq(line, "\\end{comment}"@) ==> comment_step_spec(true, line).1 == Some(
            split_second(line, "\\end{comment}"@),
        ),
        comment_step_spec(false, line).0 <==> contains_seq(line, "\\begin{comment}"@),
        contains_seq(line, "\\begin{comment}"@) ==> comment_step_spec(false, line).1 == Some(
            split_first(line, "\\begin{comment}"@),
        ),
        !contains_seq(line, "\\begin{comment}"@) ==> comment_step_spec(false, line).1 == Some(
            line,
        ),
{
}

/// Lines read inside a `comment` environment add nothing to the text until
/// one holds `\end{comment}`: when the lines `a` leave the filter inside
/// the environment and no line of `b` holds `\end{comment}`, the lines
/// `a` then `b` give the same text as `a`, still inside the environment.
pub proof fn lemma_comment_environment_hides(a: Seq<Seq<char>>, b: Seq<Seq<char>>)
    requires
        comments_text(a).0,
        forall|i: int|
            0 <= i < b.len() ==> !contains_seq(
                clean_line_spec(#[trigger] b[i]),
                "\\end{comment}"@,
            ),
    ensures
        comments_text(a + b) == comments_text(a),
    decreases b.len(),
{
    if b.len() == 0 {
        assert(a + b =~= a);
    } else {
        let bl = b.drop_last();
        assert forall|i: int| 0 <= i < bl.len() implies !contains_seq(
            clean_line_spec(#[trigger] bl[i]),
            "\\end{comment}"@,
        ) by {
            assert(bl[i] == b[i]);
        }
        lemma_comment_environment_hides(a, bl);
        assert((a + b).drop_last() =~= a + bl);
        assert((a + b).last() == b[b.len() - 1]);
        lemma_comment_environment(clean_line_spec(b[b.len() - 1]));
    }
}

/// The lines of a source joined without their comments (see
/// [`comments_text`]).
pub fn remove_comments_text(lines: &Vec<String>) -> (r: String)
    ensures
        r@ == comments_text(strs_view(lines@)).1,
{
    let mut out = String::new();
    let mut in_long_comment = false;
    let mut i: usize = 0;
    proof {
        assert(strs_view(lines@).take(0) =~= Seq::<Seq<char>>::empty());
        assert(out@ =~= Seq::<char>::empty());
    }
    while i < lines.len()
        invariant
            i <= lines@.len(),
            (in_long_comment, out@) == comments_text(strs_view(lines@).take(i as int)),
        decreases lines@.len() - i,
    {
        proof {
            let pre = strs_view(lines@).take(i + 1);
            assert(pre.drop_last() =~= strs_view(lines@).take(i as int));
            assert(pre.last() == lines@[i as int]@);
        }
        let cleaned = clean_line(&lines[i]);
        let (state, kept) = comment_block_step(in_long_comment, &cleaned);
        in_long_comment = state;
        match kept {
            Some(add) => {
                out.append(add.as_str());
            },
            None => {},
        }
        i = i + 1;
    }
    proof {
        assert(strs_view(lines@).take(i as int) =~= strs_view(lines@));
    }
    out
}

/// The first `\input{name}` or `\include{name}` command of a line: the
/// whole command and the name.
pub fn contain_input_file(line: &String) -> (r: Option<(String, String)>)
    ensures
        match r {
            Some((cmd, name)) => input_command(line@) == Some((cmd@, name@)),
            None => input_command(line@).is_none(),
        },
{
    regex_input_captures(line.as_str())
}

/// Takes the `\input{...}` and `\include{...}` commands out of a line;
/// gives what is left and the included names in order.
pub fn strip_input_commands(line: &String) -> (r: (String, Vec<String>))
    ensures
        (r.0@, strs_view(r.1@)) == strip_inputs(line@),
{
    let mut cur = line.clone();
    let mut names: Vec<String> = Vec::new();
    assert(strs_view(names@) + strip_inputs(cur@).1 =~= strip_inputs(line@).1);
    loop
        invariant
            strip_inputs(line@).0 == strip_inputs(cur@).0,
            strip_inputs(line@).1 == strs_view(names@) + strip_inputs(cur@).1,
        ensures
            input_command(cur@).is_none(),
            strip_inputs(line@).0 == strip_inputs(cur@).0,
            strip_inputs(line@).1 == strs_view(names@) + strip_inputs(cur@).1,
        decreases cur@.len(),
    {
        match contain_input_file(&cur) {
            Some((cmd, name)) => {
                proof {
                    lemma_input_command(cur@);
                    lemma_replace_empty_shrinks(cur@, cmd@);
                }
                let ghost before = cur@;
                cur = replace_str(cur.as_str(), cmd.as_str(), "");
                proof {
                    assert(""@ =~= Seq::<char>::empty()) by { reveal_strlit(""); }
                }
                names.push(name);
                proof {
                    assert(strs_view(names@) + strip_inputs(cur@).1 =~= strip_inputs(line@).1) by {
                        assert(strip_inputs(before).1 =~= seq![name@] + strip_inputs(cur@).1);
                        assert(strs_view(names@) =~= strs_view(names@.drop_last()).push(name@));
                    }
                }
            },
            None => {
                break;
            },
        }
    }
    assert(strip_inputs(cur@).1 =~= Seq::<Seq<char>>::empty());
    assert(strs_view(names@) + Seq::<Seq<char>>::empty() =~= strs_view(names@));
    (cur, names)
}

/// What becomes of one line of a source.
pub struct LineStep {
    /// Whether the next line starts inside a `comment` environment.
    pub in_long_comment: bool,
    /// The line to copy, if any.
    pub line: Option<String>,
    /// The names in the line's `\input{...}` and `\include{...}` commands,
    /// in order.
    pub input_names: Vec<String>,
    /// The files to copy before the line, in order: one per name.
    pub input_files: Vec<String>,
}

/// Cleans one line of a source read from the folder `folder`: its comment
/// is removed, the `comment` environment state is followed, and its
/// `\input{name}` and `\include{name}` commands are replaced by the names
/// of the files `folder` + `name` + `.tex` that must be copied before it.
pub fn preprocess_line(in_long_comment: bool, raw_line: &String, folder: &String) -> (r: LineStep)
    ensures
        r.in_long_comment == line_step_spec(in_long_comment, raw_line@, folder@).0,
        match r.line {
            Some(l) => line_step_spec(in_long_comment, raw_line@, folder@).1 == Some(l@),
            None => line_step_spec(in_long_comment, raw_line@, folder@).1.is_none(),
        },
        strs_view(r.input_files@) == line_step_spec(in_long_comment, raw_line@, folder@).2,
        strs_view(r.input_files@) == strs_view(r.input_names@).map_values(
            |n: Seq<char>| input_path(folder@, n),
        ),
{
    let cleaned = clean_line(raw_line);
    let (state, kept) = comment_block_step(in_long_comment, &cleaned);
    match kept {
        None => {
            let files: Vec<String> = Vec::new();
            let names: Vec<String> = Vec::new();
            assert(strs_view(files@) =~= Seq::<Seq<char>>::empty());
            assert(strs_view(names@) =~= Seq::<Seq<char>>::empty());
            LineStep { in_long_comment: state, line: None, input_names: names, input_files: files }
        },
        Some(l) => {
            let (rest, names) = strip_input_commands(&l);
            let mut files: Vec<String> = Vec::new();
            let mut i: usize = 0;
            proof { reveal_strlit(".tex"); }
            while i < names.len()
                invariant
                    i <= names@.len(),
                    files@.len() == i,
                    forall|j: int|
                        0 <= j < i ==> #[trigger] files@[j]@ == input_path(folder@, names@[j]@),
                decreases names@.len() - i,
            {
                let mut path = folder.clone();
                path.append(names[i].as_str());
                path.append(".tex");
                files.push(path);
                i = i + 1;
            }
            proof {
                let expected = strip_inputs(l@).1.map_values(|n: Seq<char>| input_path(folder@, n));
                assert(strs_view(files@) =~= expected) by {
                    assert forall|j: int| 0 <= j < files@.len() implies strs_view(files@)[j]
                        == expected[j] by {
                        assert(strs_view(names@)[j] == names@[j]@);
                    }
                }
                assert(strs_view(files@) =~= strs_view(names@).map_values(
                    |n: Seq<char>| input_path(folder@, n),
                ));
            }
            LineStep { in_long_comment: state, line: Some(rest), input_names: names, input_files: files }
        },
    }
}

/// `folder` followed by `name`.
pub fn assembles_filename(name: &String, folder: &String) -> (r: String)
    ensures
        r@ == folder@ + name@,
{
    let mut out = folder.clone();
    out.append(name.as_str());
    out
}

/// The name of the temporary copy of `main_tex_filename`:
/// `folder` + `rumbaa_` + `main_tex_filename` + `.tex`.
pub fn get_tmp_filename(main_tex_filename: &String, folder: &String) -> (r: String)
    ensures
        r@ == folder@ + "rumbaa_"@ + main_tex_filename@ + ".tex"@,
{
    let mut out = folder.clone();
    out.append("rumbaa_");
    out.append(main_tex_filename.as_str());
    out.append(".tex");
    out
}

/// `dir` with one `/` at its end: `dir` itself when it already ends with
/// `/`, `dir` followed by `/` otherwise.
pub open spec fn dir_name_spec(dir: Seq<char>) -> Seq<char> {
    if dir.len() > 0 && dir.last() == '/' {
        dir
    } else {
        dir.push('/')
    }
}

/// A directory name that ends with `/`, ready to have file names appended.
pub fn format_dir_name(dir: String) -> (r: String)
    ensures
        r@ == dir_name_spec(dir@),
{
    let v = chars_of(dir.as_str());
    if v.len() > 0 && v[v.len() - 1] == '/' {
        return dir;
    }
    let mut out = dir;
    push_char(&mut out, '/');
    out
}

/// The whole text on one line: `content` without its newlines.
pub fn remove_newlines(content: &String) -> (r: String)
    ensures
        r@ == without_newlines(content@),
{
    regex_remove_newlines(content.as_str())
}

} // verus!
