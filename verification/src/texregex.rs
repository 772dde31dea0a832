//! The regular expressions of the project,
//! `(\\input\{|\\include\{)(.*?)(\})`, `\{(.*?)\}` and `\n`, matched by the
//! `regex` crate, with their meaning stated.
use vstd::prelude::*;

verus! {

/// The position of the first `}` at or after `k`, as the lazy `.*?\}`
/// reaches it: `None` when a newline (which `.` does not match) or the end
/// of the text comes first.
pub open spec fn lazy_close(s: Seq<char>, k: int) -> Option<int>
    decreases s.len() + 1 - k,
{
    if k < 0 || k >= s.len() {
        None
    } else if s[k] == '}' {
        Some(k)
    } else if s[k] == '\n' {
        None
    } else {
        lazy_close(s, k + 1)
    }
}

pub proof fn lemma_lazy_close(s: Seq<char>, k: int)
    ensures
        lazy_close(s, k) matches Some(j) ==> k <= j < s.len() && s[j] == '}',
    decreases s.len() + 1 - k,
{
    if 0 <= k < s.len() && s[k] != '}' && s[k] != '\n' {
        lemma_lazy_close(s, k + 1);
    }
}

/// The text `\input{`.
pub open spec fn input_prefix() -> Seq<char> {
    seq!['\\', 'i', 'n', 'p', 'u', 't', '{']
}

/// The text `\include{`.
pub open spec fn include_prefix() -> Seq<char> {
    seq!['\\', 'i', 'n', 'c', 'l', 'u', 'd', 'e', '{']
}

/// The length of the opening text of a command at `i` whose lazy group
/// reaches a `}`: 7 for `\input{`, 9 for `\include{`, `None` when no
/// command matches there.
pub open spec fn command_open_at(s: Seq<char>, i: int) -> Option<int> {
    if 0 <= i && i + 7 <= s.len() && s.subrange(i, i + 7) == input_prefix() && lazy_close(
        s,
        i + 7,
    ) is Some {
        Some(7)
    } else if 0 <= i && i + 9 <= s.len() && s.subrange(i, i + 9) == include_prefix() && lazy_close(
        s,
        i + 9,
    ) is Some {
        Some(9)
    } else {
        None
    }
}

/// The leftmost match of `(\\input\{|\\include\{)(.*?)(\})` that starts at
/// or after `i`: the position of its `\`, the length of its opening text
/// and the position of its closing `}`.
pub open spec fn input_match_from(s: Seq<char>, i: int) -> Option<(int, int, int)>
    decreases s.len() + 1 - i,
{
    if i < 0 || i + 7 > s.len() {
        None
    } else {
        match command_open_at(s, i) {
            Some(n) => Some((i, n, lazy_close(s, i + n)->0)),
            None => input_match_from(s, i + 1),
        }
    }
}

/// The first `\input{name}` or `\include{name}` command of `s`, as the
/// regex crate finds it with `(\\input\{|\\include\{)(.*?)(\})`: the whole
/// command and the name.
pub open spec fn input_command(s: Seq<char>) -> Option<(Seq<char>, Seq<char>)> {
    match input_match_from(s, 0) {
        Some((i, n, j)) => Some((s.subrange(i, j + 1), s.subrange(i + n, j))),
        None => None,
    }
}

proof fn lemma_input_match_from(s: Seq<char>, i: int)
    requires
        0 <= i,
    ensures
        input_match_from(s, i) matches Some((a, n, b)) ==> i <= a && a + n <= b < s.len() && s[b]
            == '}' && ((n == 7 && s.subrange(a, a + 7) == input_prefix()) || (n == 9
            && s.subrange(a, a + 9) == include_prefix())),
    decreases s.len() + 1 - i,
{
    if i + 7 <= s.len() {
        lemma_lazy_close(s, i + 7);
        lemma_lazy_close(s, i + 9);
        if command_open_at(s, i) is None {
            lemma_input_match_from(s, i + 1);
        }
    }
}

/// A command found by `input_command` is a text of at least eight
/// characters that occurs in `s`, made of `\input{` or `\include{`, the
/// name and `}`.
pub proof fn lemma_input_command(s: Seq<char>)
    ensures
        input_command(s) matches Some((cmd, name)) ==> cmd.len() >= 8
            && crate::strutil::contains_seq(s, cmd) && (cmd == input_prefix() + name + seq!['}']
            || cmd == include_prefix() + name + seq!['}']),
{
    lemma_input_match_from(s, 0);
    if let Some((i, n, j)) = input_match_from(s, 0) {
        let cmd = s.subrange(i, j + 1);
        assert(crate::strutil::occurs_at(s, cmd, i));
        if n == 7 {
            assert(cmd =~= input_prefix() + s.subrange(i + 7, j) + seq!['}']);
        } else {
            assert(cmd =~= include_prefix() + s.subrange(i + 9, j) + seq!['}']);
        }
    }
}

/// `Regex::captures` of the `regex` crate with the pattern
/// `(\\input\{|\\include\{)(.*?)(\})`, giving the whole match and the
/// second group. The contract claims that the regex crate returns the
/// leftmost match (the two alternatives cannot start at one position), with
/// the lazy group as short as it can be and `.` matching every character
/// but a newline, which is what the crate documents for this syntax.
#[verifier::external_body]
pub(crate) fn regex_input_captures(line: &str) -> (r: Option<(String, String)>)
    ensures
        match r {
            Some((cmd, name)) => input_command(line@) == Some((cmd@, name@)),
            None => input_command(line@).is_none(),
        },
{
    let re = regex::Regex::new(r"(\\input\{|\\include\{)(.*?)(\})").unwrap();
    re.captures(line).map(|cap| (cap[0].to_string(), cap[2].to_string()))
}

/// The groups of every match of `\{(.*?)\}` in `s` at or after `p`, in
/// order: each `{` whose lazy group reaches a `}` opens a match, and the
/// search goes on after that `}`.
pub open spec fn brace_groups_from(s: Seq<char>, p: int) -> Seq<Seq<char>>
    decreases s.len() + 1 - p,
{
    if p < 0 || p >= s.len() {
        Seq::empty()
    } else if s[p] == '{' && lazy_close(s, p + 1) is Some {
        let j = lazy_close(s, p + 1)->0;
        proof {
            lemma_lazy_close(s, p + 1);
        }
        seq![s.subrange(p + 1, j)] + brace_groups_from(s, j + 1)
    } else {
        brace_groups_from(s, p + 1)
    }
}

/// The groups of all matches of `\{(.*?)\}` in `s`.
pub open spec fn brace_groups(s: Seq<char>) -> Seq<Seq<char>> {
    brace_groups_from(s, 0)
}

/// `Regex::captures_iter` of the `regex` crate with the pattern
/// `\{(.*?)\}`, giving the first group of each match. The contract claims
/// that the crate returns the successive non-overlapping leftmost matches,
/// each group as short as it can be and `.` matching every character but a
/// newline, which is what the crate documents for this syntax.
#[verifier::external_body]
pub(crate) fn regex_brace_groups(line: &str) -> (r: Vec<String>)
    ensures
        crate::strutil::strs_view(r@) == brace_groups(line@),
{
    let re = regex::Regex::new(r"\{(.*?)\}").unwrap();
    re.captures_iter(line).map(|cap| cap[1].to_string()).collect()
}

/// `s` without its newline characters.
pub open spec fn without_newlines(s: Seq<char>) -> Seq<char> {
    s.filter(|c: char| c != '\n')
}

/// `Regex::replace_all` of the `regex` crate with the pattern `\n` and an
/// empty replacement. The contract claims that every newline of the text is
/// removed and every other character kept in order, which is what the crate
/// documents for a literal pattern replaced by an empty string.
#[verifier::external_body]
pub(crate) fn regex_remove_newlines(text: &str) -> (r: String)
    ensures
        r@ == without_newlines(text@),
{
    let re = regex::Regex::new(r"\n").unwrap();
    re.replace_all(text, "").into_owned()
}

} // verus!
