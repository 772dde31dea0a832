//! Character-level string operations with their specifications.
use vstd::prelude::*;

verus! {

/// Appends one character: `String::push` from std.
/// The contract claims that the string's characters are the old ones
/// followed by `c`, which is what std documents for `String::push`.
#[verifier::external_body]
pub(crate) fn push_char(s: &mut String, c: char)
    ensures
        final(s)@ == old(s)@.push(c),
{
    s.push(c)
}

/// The characters of a string slice, in order.
pub(crate) fn chars_of(s: &str) -> (v: Vec<char>)
    ensures
        v@ == s@,
{
    broadcast use vstd::string::axiom_spec_iter;
    let mut v: Vec<char> = Vec::new();
    for c in it: s.chars()
        invariant
            it.seq() == s@,
            v@ == it.seq().take(it.index() as int),
    {
        v.push(c);
    }
    v
}

/// Whether `s` is the text `lit`.
pub fn eq_str(s: &String, lit: &str) -> (b: bool)
    ensures
        b == (s@ == lit@),
{
    let t = String::from_str(lit);
    *s == t
}

/// Builds a `String` from the characters of `v`.
pub fn string_from_chars(v: &Vec<char>) -> (s: String)
    ensures
        s@ == v@,
{
    let mut s = String::new();
    let mut i: usize = 0;
    while i < v.len()
        invariant
            i <= v.len(),
            s@ == v@.subrange(0, i as int),
        decreases v.len() - i,
    {
        push_char(&mut s, v[i]);
        i = i + 1;
        assert(s@ =~= v@.subrange(0, i as int));
    }
    assert(s@ =~= v@);
    s
}

/// Builds a `String` from a slice of characters `v[from..to]`.
pub fn string_from_range(v: &Vec<char>, from: usize, to: usize) -> (s: String)
    requires
        from <= to <= v.len(),
    ensures
        s@ == v@.subrange(from as int, to as int),
{
    let mut s = String::new();
    let mut i: usize = from;
    while i < to
        invariant
            from <= i <= to <= v.len(),
            s@ == v@.subrange(from as int, i as int),
        decreases to - i,
    {
        push_char(&mut s, v[i]);
        i = i + 1;
        assert(s@ =~= v@.subrange(from as int, i as int));
    }
    s
}

/// `pat` occurs in `s` at position `i`.
pub open spec fn occurs_at(s: Seq<char>, pat: Seq<char>, i: int) -> bool {
    0 <= i && i + pat.len() <= s.len() && s.subrange(i, i + pat.len()) == pat
}

/// `pat` occurs somewhere in `s`.
pub open spec fn contains_seq(s: Seq<char>, pat: Seq<char>) -> bool {
    exists|i: int| occurs_at(s, pat, i)
}

/// Every non-overlapping occurrence of `pat` in `s`, taken from left to
/// right, replaced by `rep` (the meaning of `str::replace` for a non-empty
/// pattern).
pub open spec fn replace_all(s: Seq<char>, pat: Seq<char>, rep: Seq<char>) -> Seq<char>
    decreases s.len(),
{
    if s.len() == 0 || pat.len() == 0 {
        s
    } else if occurs_at(s, pat, 0) {
        rep + replace_all(s.skip(pat.len() as int), pat, rep)
    } else {
        seq![s[0]] + replace_all(s.skip(1), pat, rep)
    }
}

/// The first position, at or after `k`, where `pat` occurs in `s`.
pub open spec fn first_occurrence_from(s: Seq<char>, pat: Seq<char>, k: int) -> Option<int>
    decreases s.len() + 1 - k,
{
    if k < 0 || k + pat.len() > s.len() {
        None
    } else if occurs_at(s, pat, k) {
        Some(k)
    } else {
        first_occurrence_from(s, pat, k + 1)
    }
}

/// The first position where `pat` occurs in `s`.
pub open spec fn first_occurrence(s: Seq<char>, pat: Seq<char>) -> Option<int> {
    first_occurrence_from(s, pat, 0)
}

/// The text before the first occurrence of `pat` (all of `s` if none):
/// the first piece that `str::split` gives.
pub open spec fn split_first(s: Seq<char>, pat: Seq<char>) -> Seq<char> {
    match first_occurrence(s, pat) {
        Some(i) => s.subrange(0, i),
        None => s,
    }
}

/// The text between the first and the second occurrence of `pat` (to the
/// end if there is no second one): the second piece that `str::split` gives.
pub open spec fn split_second(s: Seq<char>, pat: Seq<char>) -> Seq<char> {
    match first_occurrence(s, pat) {
        Some(i) => split_first(s.skip(i + pat.len()), pat),
        None => Seq::empty(),
    }
}

/// `s` begins with `pat`.
pub open spec fn starts_with_seq(s: Seq<char>, pat: Seq<char>) -> bool {
    occurs_at(s, pat, 0)
}

proof fn lemma_first_occurrence_from(s: Seq<char>, pat: Seq<char>, k: int)
    requires
        0 <= k,
    ensures
        match first_occurrence_from(s, pat, k) {
            Some(i) => k <= i && occurs_at(s, pat, i) && forall|j: int|
                k <= j < i ==> !occurs_at(s, pat, j),
            None => forall|j: int| k <= j ==> !occurs_at(s, pat, j),
        },
    decreases s.len() + 1 - k,
{
    if k + pat.len() <= s.len() && !occurs_at(s, pat, k) {
        lemma_first_occurrence_from(s, pat, k + 1);
    }
}

/// `first_occurrence` is the least position of an occurrence.
pub proof fn lemma_first_occurrence(s: Seq<char>, pat: Seq<char>)
    ensures
        match first_occurrence(s, pat) {
            Some(i) => occurs_at(s, pat, i) && forall|j: int| 0 <= j < i ==> !occurs_at(s, pat, j),
            None => !contains_seq(s, pat),
        },
        first_occurrence(s, pat).is_some() == contains_seq(s, pat),
{
    lemma_first_occurrence_from(s, pat, 0);
    if let Some(i) = first_occurrence(s, pat) {
        assert(occurs_at(s, pat, i));
    } else {
        assert forall|j: int| !occurs_at(s, pat, j) by {
            if j >= 0 {
            }
        }
    }
}

/// Removing the occurrences of a non-empty pattern never lengthens a text,
/// and shortens it when there is one.
pub proof fn lemma_replace_empty_shrinks(s: Seq<char>, pat: Seq<char>)
    requires
        pat.len() > 0,
    ensures
        replace_all(s, pat, Seq::empty()).len() <= s.len(),
        contains_seq(s, pat) ==> replace_all(s, pat, Seq::empty()).len() < s.len(),
    decreases s.len(),
{
    if s.len() == 0 {
        if contains_seq(s, pat) {
            let i = choose|i: int| occurs_at(s, pat, i);
        }
    } else if occurs_at(s, pat, 0) {
        lemma_replace_empty_shrinks(s.skip(pat.len() as int), pat);
        assert(Seq::<char>::empty() + replace_all(s.skip(pat.len() as int), pat, Seq::empty())
            =~= replace_all(s.skip(pat.len() as int), pat, Seq::empty()));
    } else {
        lemma_replace_empty_shrinks(s.skip(1), pat);
        if contains_seq(s, pat) {
            let i = choose|i: int| occurs_at(s, pat, i);
            assert(i != 0);
            assert(s.skip(1).subrange(i - 1, i - 1 + pat.len()) =~= s.subrange(i, i + pat.len()));
            assert(occurs_at(s.skip(1), pat, i - 1));
        }
    }
}

/// Whether `pat` occurs in `v` at position `i`.
pub fn matches_at(v: &Vec<char>, pat: &Vec<char>, i: usize) -> (b: bool)
    ensures
        b == occurs_at(v@, pat@, i as int),
{
    if i > v.len() || pat.len() > v.len() - i {
        return false;
    }
    let mut k: usize = 0;
    while k < pat.len()
        invariant
            i + pat.len() <= v.len(),
            k <= pat.len(),
            forall|j: int| 0 <= j < k ==> v@[i + j] == pat@[j],
        decreases pat.len() - k,
    {
        if v[i + k] != pat[k] {
            assert(v@.subrange(i as int, i + pat@.len())[k as int] != pat@[k as int]);
            return false;
        }
        k = k + 1;
    }
    assert(v@.subrange(i as int, i + pat@.len()) =~= pat@);
    true
}

/// Whether `pat` occurs anywhere in `s`: `str::contains` on a string pattern.
pub fn contains_str(s: &str, pat: &str) -> (b: bool)
    ensures
        b == contains_seq(s@, pat@),
{
    let v = chars_of(s);
    let p = chars_of(pat);
    if p.len() == 0 {
        assert(s@.subrange(0, 0) =~= pat@);
        assert(occurs_at(s@, pat@, 0));
        return true;
    }
    let mut i: usize = 0;
    while i < v.len()
        invariant
            v@ == s@,
            p@ == pat@,
            p@.len() > 0,
            i <= v.len(),
            forall|j: int| 0 <= j < i ==> !occurs_at(s@, pat@, j),
        decreases v.len() - i,
    {
        if matches_at(&v, &p, i) {
            return true;
        }
        i = i + 1;
    }
    assert forall|j: int| !occurs_at(s@, pat@, j) by {
        if 0 <= j && j < i {
        }
    }
    false
}

/// The first position at or after `from` where `p` occurs in `v`.
pub fn find_from(v: &Vec<char>, p: &Vec<char>, from: usize) -> (r: Option<usize>)
    ensures
        match r {
            Some(i) => first_occurrence_from(v@, p@, from as int) == Some(i as int) && from <= i
                && i + p@.len() <= v@.len(),
            None => first_occurrence_from(v@, p@, from as int).is_none(),
        },
{
    let mut k: usize = from;
    if k > v.len() || p.len() > v.len() - k {
        return None;
    }
    let last: usize = v.len() - p.len();
    loop
        invariant
            from <= k <= last,
            last + p@.len() == v@.len(),
            first_occurrence_from(v@, p@, from as int) == first_occurrence_from(v@, p@, k as int),
        decreases last - k,
    {
        if matches_at(v, p, k) {
            return Some(k);
        }
        if k == last {
            assert(first_occurrence_from(v@, p@, k + 1).is_none());
            return None;
        }
        k = k + 1;
    }
}

/// The first piece of `s` split at `pat`: the text before its first occurrence.
pub fn split_first_str(s: &str, pat: &str) -> (r: String)
    ensures
        r@ == split_first(s@, pat@),
{
    let v = chars_of(s);
    let p = chars_of(pat);
    match find_from(&v, &p, 0) {
        Some(i) => string_from_range(&v, 0, i),
        None => string_from_chars(&v),
    }
}

/// The second piece of `s` split at `pat`: the text between its first and
/// second occurrences.
pub fn split_second_str(s: &str, pat: &str) -> (r: String)
    ensures
        r@ == split_second(s@, pat@),
{
    let v = chars_of(s);
    let p = chars_of(pat);
    match find_from(&v, &p, 0) {
        Some(i) => {
            proof { lemma_first_occurrence(s@, pat@); }
            let vl = v.len();
            let pl = p.len();
            assert(i + pl <= vl);
            let start = i + pl;
            match find_from(&v, &p, start) {
                Some(j) => {
                    proof {
                        lemma_first_occurrence_from(v@, p@, start as int);
                        let rest = v@.skip(start as int);
                        lemma_first_occurrence(rest, p@);
                        assert forall|k: int| 0 <= k implies occurs_at(rest, p@, k)
                            == occurs_at(v@, p@, k + start) by {
                            if k + p@.len() <= rest.len() {
                                assert(rest.subrange(k, k + p@.len()) =~= v@.subrange(
                                    k + start,
                                    k + start + p@.len(),
                                ));
                            }
                        }
                        if let Some(q) = first_occurrence(rest, p@) {
                            assert(occurs_at(v@, p@, q + start));
                            if q + start > j {
                                assert(occurs_at(rest, p@, j - start));
                            }
                            if q + start < j {
                            }
                        } else {
                            assert(occurs_at(rest, p@, j - start));
                        }
                        assert(rest.subrange(0, j - start) =~= v@.subrange(start as int, j as int));
                    }
                    string_from_range(&v, start, j)
                },
                None => {
                    proof {
                        lemma_first_occurrence_from(v@, p@, start as int);
                        let rest = v@.skip(start as int);
                        lemma_first_occurrence(rest, p@);
                        if let Some(q) = first_occurrence(rest, p@) {
                            assert(rest.subrange(q, q + p@.len()) =~= v@.subrange(
                                q + start,
                                q + start + p@.len(),
                            ));
                            assert(occurs_at(v@, p@, q + start));
                        }
                        assert(rest =~= v@.subrange(start as int, v@.len() as int));
                    }
                    string_from_range(&v, start, v.len())
                },
            }
        },
        None => String::new(),
    }
}

/// Whether `s` begins with `pat`: `str::starts_with`.
pub fn starts_with_str(s: &str, pat: &str) -> (b: bool)
    ensures
        b == starts_with_seq(s@, pat@),
{
    let v = chars_of(s);
    let p = chars_of(pat);
    matches_at(&v, &p, 0)
}

/// Replaces every non-overlapping occurrence of a non-empty `pat` in `s`
/// by `rep`, from left to right: `str::replace`.
pub fn replace_str(s: &str, pat: &str, rep: &str) -> (r: String)
    requires
        pat@.len() > 0,
    ensures
        r@ == replace_all(s@, pat@, rep@),
{
    let v = chars_of(s);
    let p = chars_of(pat);
    let mut out = String::new();
    let mut i: usize = 0;
    assert(v@.skip(0) =~= v@);
    while i < v.len()
        invariant
            v@ == s@,
            p@ == pat@,
            p@.len() > 0,
            i <= v.len(),
            replace_all(s@, pat@, rep@) == out@ + replace_all(v@.skip(i as int), pat@, rep@),
        decreases v.len() - i,
    {
        let ghost rest = v@.skip(i as int);
        if matches_at(&v, &p, i) {
            assert(rest.subrange(0, pat@.len() as int) =~= v@.subrange(i as int, i + pat@.len()));
            assert(occurs_at(rest, pat@, 0));
            assert(rest.skip(pat@.len() as int) =~= v@.skip(i + pat@.len()));
            out.append(rep);
            i = i + p.len();
            assert(replace_all(s@, pat@, rep@) =~= out@ + replace_all(v@.skip(i as int), pat@, rep@));
        } else {
            assert(rest.len() >= pat@.len() ==> rest.subrange(0, pat@.len() as int) =~= v@.subrange(i as int, i + pat@.len()));
            assert(!occurs_at(rest, pat@, 0));
            assert(rest.skip(1) =~= v@.skip(i + 1));
            push_char(&mut out, v[i]);
            i = i + 1;
            assert(replace_all(s@, pat@, rep@) =~= out@ + replace_all(v@.skip(i as int), pat@, rep@));
        }
    }
    assert(v@.skip(i as int) =~= Seq::<char>::empty());
    assert(out@ + Seq::<char>::empty() =~= out@);
    out
}

/// The pieces of `s` between the occurrences of `sep`, in order
/// (`str::split` on a one-character pattern): one more piece than there are
/// separators, some of them possibly empty.
pub open spec fn split_char(s: Seq<char>, sep: char) -> Seq<Seq<char>>
    decreases s.len(),
{
    if s.len() == 0 {
        seq![Seq::empty()]
    } else {
        let rest = split_char(s.drop_last(), sep);
        if s.last() == sep {
            rest.push(Seq::empty())
        } else {
            rest.update(rest.len() - 1, rest.last().push(s.last()))
        }
    }
}

/// `split_char` gives at least one piece.
pub proof fn lemma_split_char_len(s: Seq<char>, sep: char)
    ensures
        split_char(s, sep).len() >= 1,
{
    lemma_split_char_nonempty(s, sep);
}

proof fn lemma_split_char_nonempty(s: Seq<char>, sep: char)
    ensures
        split_char(s, sep).len() >= 1,
    decreases s.len(),
{
    if s.len() > 0 {
        lemma_split_char_nonempty(s.drop_last(), sep);
    }
}

/// The first piece of a split is the part of `s` before its first `sep`:
/// a prefix of `s` that holds no `sep`.
pub proof fn lemma_split_char_first(s: Seq<char>, sep: char)
    ensures
        split_char(s, sep)[0].is_prefix_of(s),
        !split_char(s, sep)[0].contains(sep),
        split_char(s, sep).len() == 1 ==> split_char(s, sep)[0] == s,
    decreases s.len(),
{
    lemma_split_char_nonempty(s, sep);
    if s.len() > 0 {
        let p = s.drop_last();
        lemma_split_char_first(p, sep);
        lemma_split_char_nonempty(p, sep);
        let rest = split_char(p, sep);
        let first = split_char(s, sep)[0];
        if s.last() == sep {
            assert(first == rest[0]);
        } else if rest.len() == 1 {
            assert(first =~= rest[0].push(s.last()));
            assert(rest[0] == p);
            assert(first =~= s);
        } else {
            assert(first == rest[0]);
        }
        assert(first.is_prefix_of(s)) by {
            assert(rest[0].is_prefix_of(p));
            if s.last() != sep && rest.len() == 1 {
                assert(first.len() <= s.len());
                assert forall|i: int| 0 <= i < first.len() implies first[i] == s[i] by {
                    if i < first.len() - 1 {
                        assert(first[i] == rest[0][i]);
                    }
                }
            }
        }
        assert(!first.contains(sep)) by {
            if first.contains(sep) {
                let i = choose|i: int| 0 <= i < first.len() && first[i] == sep;
                if s.last() != sep && rest.len() == 1 && i == first.len() - 1 {
                } else {
                    assert(rest[0][i] == sep);
                }
            }
        }
    } else {
        assert(split_char(s, sep)[0] =~= Seq::<char>::empty());
    }
}

/// Splits `s` at every occurrence of the character `sep`.
pub fn split_at_char(s: &str, sep: char) -> (r: Vec<String>)
    ensures
        strs_view(r@) == split_char(s@, sep),
{
    let v = chars_of(s);
    let mut pieces: Vec<String> = Vec::new();
    let mut cur = String::new();
    let mut i: usize = 0;
    while i < v.len()
        invariant
            v@ == s@,
            i <= v.len(),
            strs_view(pieces@).push(cur@) == split_char(v@.subrange(0, i as int), sep),
        decreases v.len() - i,
    {
        let ghost pre = v@.subrange(0, i + 1);
        assert(pre.drop_last() =~= v@.subrange(0, i as int));
        proof { lemma_split_char_nonempty(v@.subrange(0, i as int), sep); }
        if v[i] == sep {
            let done = cur;
            pieces.push(done);
            cur = String::new();
            assert(strs_view(pieces@).push(cur@) =~= split_char(pre, sep));
        } else {
            push_char(&mut cur, v[i]);
            assert(strs_view(pieces@).push(cur@) =~= split_char(pre, sep));
        }
        i = i + 1;
    }
    pieces.push(cur);
    assert(v@.subrange(0, i as int) =~= s@);
    assert(strs_view(pieces@) =~= split_char(s@, sep));
    pieces
}

/// The character sequences of a sequence of strings.
pub open spec fn strs_view(v: Seq<String>) -> Seq<Seq<char>> {
    v.map_values(|s: String| s@)
}

/// A copy of a vector of strings.
pub fn clone_strings(v: &Vec<String>) -> (r: Vec<String>)
    ensures
        strs_view(r@) == strs_view(v@),
{
    let mut r: Vec<String> = Vec::new();
    let mut i: usize = 0;
    while i < v.len()
        invariant
            i <= v.len(),
            r@.len() == i,
            forall|j: int| 0 <= j < i ==> r@[j]@ == v@[j]@,
        decreases v.len() - i,
    {
        let c = v[i].clone();
        r.push(c);
        i = i + 1;
    }
    assert(strs_view(r@) =~= strs_view(v@));
    r
}

/// Whether one of the strings of `v` equals `s`: `Vec::contains`.
pub fn contains_string(v: &Vec<String>, s: &String) -> (b: bool)
    ensures
        b == strs_view(v@).contains(s@),
{
    let mut i: usize = 0;
    while i < v.len()
        invariant
            i <= v.len(),
            forall|j: int| 0 <= j < i ==> v@[j]@ != s@,
        decreases v.len() - i,
    {
        if v[i] == *s {
            assert(strs_view(v@)[i as int] == s@);
            return true;
        }
        i = i + 1;
    }
    assert forall|j: int| 0 <= j < strs_view(v@).len() implies strs_view(v@)[j] != s@ by {
        assert(v@[j]@ != s@);
    }
    false
}

/// The decimal digit character of `d` (for `d < 10`).
pub open spec fn digit_char(d: nat) -> char {
    (d + 48) as char
}

/// Decimal notation of a natural number, without leading zeros.
pub open spec fn nat_decimal(n: nat) -> Seq<char>
    decreases n,
{
    if n < 10 {
        seq![digit_char(n)]
    } else {
        nat_decimal(n / 10).push(digit_char(n % 10))
    }
}

/// Decimal notation of an integer, with a leading `-` when negative
/// (what `to_string` gives for a Rust integer).
pub open spec fn int_decimal(n: int) -> Seq<char> {
    if n < 0 {
        seq!['-'] + nat_decimal((-n) as nat)
    } else {
        nat_decimal(n as nat)
    }
}

/// An ASCII decimal digit.
pub open spec fn is_digit(c: char) -> bool {
    '0' <= c <= '9'
}

/// Every character of `s` is a decimal digit.
pub open spec fn all_digits(s: Seq<char>) -> bool {
    forall|i: int| 0 <= i < s.len() ==> is_digit(#[trigger] s[i])
}

/// The value of a sequence of decimal digits.
pub open spec fn digits_value(s: Seq<char>) -> int
    decreases s.len(),
{
    if s.len() == 0 {
        0
    } else {
        digits_value(s.drop_last()) * 10 + (s.last() as int - 48)
    }
}

/// What `str::parse::<i32>` gives: an optional `+` or `-` sign followed by
/// one or more decimal digits, whose value fits in an `i32`; `None` for any
/// other text.
pub open spec fn parse_i32_spec(s: Seq<char>) -> Option<i32> {
    let signed = s.len() > 0 && (s[0] == '-' || s[0] == '+');
    let body = if signed {
        s.skip(1)
    } else {
        s
    };
    if body.len() == 0 || !all_digits(body) {
        None
    } else {
        let v = if s[0] == '-' {
            -digits_value(body)
        } else {
            digits_value(body)
        };
        if i32::MIN <= v <= i32::MAX {
            Some(v as i32)
        } else {
            None
        }
    }
}

proof fn lemma_digits_value_prefix(s: Seq<char>, k: int)
    requires
        all_digits(s),
        0 <= k <= s.len(),
    ensures
        0 <= digits_value(s.subrange(0, k)) <= digits_value(s),
    decreases s.len(),
{
    if k == s.len() {
        assert(s.subrange(0, k) =~= s);
        if s.len() > 0 {
            lemma_digits_value_prefix(s.drop_last(), k - 1);
        }
    } else {
        assert(all_digits(s.drop_last()));
        lemma_digits_value_prefix(s.drop_last(), k);
        assert(s.drop_last().subrange(0, k) =~= s.subrange(0, k));
        lemma_digits_value_prefix(s.drop_last(), s.len() - 1);
        assert(s.drop_last().subrange(0, s.len() - 1) =~= s.drop_last());
        assert(is_digit(s[s.len() - 1]));
    }
}

/// Parses a decimal integer: `str::parse::<i32>`.
#[verifier::loop_isolation(false)]
pub fn parse_i32(s: &str) -> (r: Option<i32>)
    ensures
        r == parse_i32_spec(s@),
{
    let v = chars_of(s);
    let n = v.len();
    if n == 0 {
        return None;
    }
    let neg = v[0] == '-';
    let start: usize = if v[0] == '-' || v[0] == '+' {
        1
    } else {
        0
    };
    let ghost body = if start == 1 {
        s@.skip(1)
    } else {
        s@
    };
    proof {
        assert(body =~= v@.subrange(start as int, n as int));
    }
    if start == n {
        return None;
    }
    let mut acc: i64 = 0;
    let mut k: usize = start;
    while k < n
        invariant
            v@ == s@,
            n == v@.len(),
            start <= k <= n,
            body == v@.subrange(start as int, n as int),
            all_digits(v@.subrange(start as int, k as int)),
            acc == digits_value(v@.subrange(start as int, k as int)),
            0 <= acc <= 2147483648,
        decreases n - k,
    {
        let c = v[k];
        if !('0' <= c && c <= '9') {
            proof {
                assert(body[k - start] == c);
                assert(!is_digit(body[k - start]));
            }
            return None;
        }
        let d: i64 = (c as u32 - 48) as i64;
        proof {
            let pre = v@.subrange(start as int, k + 1);
            assert(pre.drop_last() =~= v@.subrange(start as int, k as int));
            assert(all_digits(pre));
        }
        acc = acc * 10 + d;
        k = k + 1;
        proof {
            let pre = v@.subrange(start as int, k as int);
            assert(pre.last() == c);
            assert(acc == digits_value(pre));
        }
        if acc > 2147483648 {
            proof {
                if all_digits(body) {
                    lemma_digits_value_prefix(body, k - start);
                    assert(body.subrange(0, k - start) =~= v@.subrange(start as int, k as int));
                }
            }
            return None;
        }
    }
    proof {
        assert(v@.subrange(start as int, n as int) == body);
    }
    if neg {
        let r: i32 = (-acc) as i32;
        Some(r)
    } else {
        if acc > 2147483647 {
            None
        } else {
            Some(acc as i32)
        }
    }
}

proof fn lemma_nat_decimal_digits(m: nat)
    ensures
        nat_decimal(m).len() > 0,
        all_digits(nat_decimal(m)),
        digits_value(nat_decimal(m)) == m,
    decreases m,
{
    if m < 10 {
        let s = nat_decimal(m);
        assert(digit_char(m) as int == m + 48);
        assert(s.drop_last() =~= Seq::<char>::empty());
        assert(digits_value(s) == digits_value(s.drop_last()) * 10 + (s.last() as int - 48));
    } else {
        lemma_nat_decimal_digits(m / 10);
        let s = nat_decimal(m);
        assert(s.drop_last() =~= nat_decimal(m / 10));
        let d: nat = m % 10;
        assert(s.last() == digit_char(d));
        assert(digit_char(d) as int == d + 48);
        assert((m / 10) * 10 + d == m);
        assert(digits_value(s) == digits_value(s.drop_last()) * 10 + (s.last() as int - 48));
        assert(all_digits(s)) by {
            assert forall|i: int| 0 <= i < s.len() implies is_digit(#[trigger] s[i]) by {
                if i < s.len() - 1 {
                    assert(s[i] == nat_decimal(m / 10)[i]);
                }
            }
        }
    }
}

/// Reading back the decimal notation of an `i32` gives the same number.
pub proof fn lemma_parse_decimal_roundtrip(n: i32)
    ensures
        parse_i32_spec(int_decimal(n as int)) == Some(n),
{
    if n < 0 {
        let m: nat = (-n) as nat;
        lemma_nat_decimal_digits(m);
        let s = int_decimal(n as int);
        assert(s.skip(1) =~= nat_decimal(m));
    } else {
        lemma_nat_decimal_digits(n as nat);
        let s = nat_decimal(n as nat);
        assert(is_digit(s[0]));
    }
}

fn push_nat_decimal(s: &mut String, n: u32)
    ensures
        final(s)@ == old(s)@ + nat_decimal(n as nat),
    decreases n,
{
    if n >= 10 {
        push_nat_decimal(s, n / 10);
    }
    let d: u32 = n % 10;
    let c: char = ((d + 48) as u8) as char;
    assert(c == digit_char(d as nat));
    push_char(s, c);
    assert(final(s)@ =~= old(s)@ + nat_decimal(n as nat));
}

/// Appends the decimal notation of `n` to `s`.
pub fn push_i32_decimal(s: &mut String, n: i32)
    ensures
        final(s)@ == old(s)@ + int_decimal(n as int),
{
    if n < 0 {
        push_char(s, '-');
        let m: i64 = -(n as i64);
        push_nat_decimal(s, m as u32);
        assert(final(s)@ =~= old(s)@ + int_decimal(n as int));
    } else {
        push_nat_decimal(s, n as u32);
    }
}

} // verus!
