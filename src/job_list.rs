//! The job list format: one job per line, a source locator and a destination
//! name separated by whitespace. Lines with fewer than two words are skipped;
//! words after the second are ignored.

use crate::jobs::Job;
use vstd::prelude::*;

verus! {

/// Relies on `String::push`: appends one character to the end of the string.
pub assume_specification[ String::push ](s: &mut String, ch: char)
    ensures
        final(s)@ == old(s)@.push(ch),
;

pub open spec fn is_separator(c: char) -> bool {
    c == ' ' || c == '\t' || c == '\r' || c == '\n'
}

/// Length of the run of non-separator characters that starts `s`.
pub open spec fn word_len(s: Seq<char>) -> nat
    decreases s.len(),
{
    if s.len() == 0 || is_separator(s[0]) {
        0
    } else {
        1 + word_len(s.drop_first())
    }
}

/// The words of `s`: its maximal runs of non-separator characters, in order.
pub open spec fn words(s: Seq<char>) -> Seq<Seq<char>>
    decreases s.len(),
    via words_decreases
{
    if s.len() == 0 {
        Seq::empty()
    } else if is_separator(s[0]) {
        words(s.drop_first())
    } else {
        seq![s.take(word_len(s) as int)] + words(s.skip(word_len(s) as int))
    }
}

proof fn lemma_word_len_bound(s: Seq<char>)
    ensures
        word_len(s) <= s.len(),
        s.len() > 0 && !is_separator(s[0]) ==> word_len(s) > 0,
    decreases s.len(),
{
    if s.len() > 0 && !is_separator(s[0]) {
        lemma_word_len_bound(s.drop_first());
    }
}

#[via_fn]
proof fn words_decreases(s: Seq<char>) {
    lemma_word_len_bound(s);
}

/// Position of the first line break in `s`, or its length if it has none.
pub open spec fn line_len(s: Seq<char>) -> nat
    decreases s.len(),
{
    if s.len() == 0 || s[0] == '\n' {
        0
    } else {
        1 + line_len(s.drop_first())
    }
}

/// The lines of `s`, split at each line break.
pub open spec fn lines(s: Seq<char>) -> Seq<Seq<char>>
    decreases s.len(),
{
    let n = line_len(s);
    if n >= s.len() {
        seq![s]
    } else {
        seq![s.take(n as int)] + lines(s.skip(n + 1 as int))
    }
}

/// The job a line describes: its first two words, if it has two.
pub open spec fn line_entry(line: Seq<char>) -> Option<(Seq<char>, Seq<char>)> {
    let w = words(line);
    if w.len() >= 2 {
        Some((w[0], w[1]))
    } else {
        None
    }
}

/// The jobs that a sequence of lines describes, in order.
pub open spec fn entries(lines: Seq<Seq<char>>) -> Seq<(Seq<char>, Seq<char>)>
    decreases lines.len(),
{
    if lines.len() == 0 {
        Seq::empty()
    } else {
        match line_entry(lines[0]) {
            Some(e) => seq![e] + entries(lines.drop_first()),
            None => entries(lines.drop_first()),
        }
    }
}

/// The jobs that a job list text describes, in order.
pub open spec fn job_list(text: Seq<char>) -> Seq<(Seq<char>, Seq<char>)> {
    entries(lines(text))
}

proof fn lemma_word_len(s: Seq<char>, k: int)
    requires
        0 <= k <= s.len(),
        forall|i: int| 0 <= i < k ==> !is_separator(#[trigger] s[i]),
        k == s.len() || is_separator(s[k]),
    ensures
        word_len(s) == k,
    decreases k,
{
    if k > 0 {
        lemma_word_len(s.drop_first(), k - 1);
    }
}

proof fn lemma_line_len(s: Seq<char>, k: int)
    requires
        0 <= k <= s.len(),
        forall|i: int| 0 <= i < k ==> #[trigger] s[i] != '\n',
        k == s.len() || s[k] == '\n',
    ensures
        line_len(s) == k,
    decreases k,
{
    if k > 0 {
        lemma_line_len(s.drop_first(), k - 1);
    }
}

fn collect_chars(text: &str) -> (r: Vec<char>)
    ensures
        r@ == text@,
{
    let mut chars: Vec<char> = Vec::new();
    for c in it: text.chars()
        invariant
            chars@ == it.seq().take(it.index() as int),
    {
        chars.push(c);
    }
    chars
}

fn is_separator_char(c: char) -> (r: bool)
    ensures
        r == is_separator(c),
{
    c == ' ' || c == '\t' || c == '\r' || c == '\n'
}

/// The string made of `chars[from..to]`.
fn string_of(chars: &Vec<char>, from: usize, to: usize) -> (r: String)
    requires
        from <= to <= chars.len(),
    ensures
        r@ == chars@.subrange(from as int, to as int),
{
    let mut s = String::new();
    let mut i = from;
    while i < to
        invariant
            from <= i <= to <= chars.len(),
            s@ == chars@.subrange(from as int, i as int),
        decreases to - i,
    {
        s.push(chars[i]);
        assert(chars@.subrange(from as int, i + 1) == chars@.subrange(from as int, i as int).push(
            chars@[i as int],
        ));
        i = i + 1;
    }
    s
}

/// Skips the separators of `chars[from..to]`: the words from the returned
/// position on are those from `from` on.
fn skip_separators(chars: &Vec<char>, from: usize, to: usize) -> (r: usize)
    requires
        from <= to <= chars.len(),
    ensures
        from <= r <= to,
        r == to || !is_separator(chars@[r as int]),
        words(chars@.subrange(r as int, to as int)) == words(chars@.subrange(from as int, to as int)),
{
    let mut i = from;
    while i < to && is_separator_char(chars[i])
        invariant
            from <= i <= to <= chars.len(),
            words(chars@.subrange(i as int, to as int)) == words(
                chars@.subrange(from as int, to as int),
            ),
        decreases to - i,
    {
        assert(chars@.subrange(i as int, to as int).drop_first() == chars@.subrange(
            i + 1,
            to as int,
        ));
        i = i + 1;
    }
    i
}

/// Finds the end of the word that starts `chars[from..to]`.
fn word_end(chars: &Vec<char>, from: usize, to: usize) -> (r: usize)
    requires
        from < to <= chars.len(),
        !is_separator(chars@[from as int]),
    ensures
        from < r <= to,
        words(chars@.subrange(from as int, to as int)) == seq![chars@.subrange(from as int, r as int)]
            + words(chars@.subrange(r as int, to as int)),
{
    let mut i = from;
    while i < to && !is_separator_char(chars[i])
        invariant
            from <= i <= to <= chars.len(),
            forall|k: int| from <= k < i ==> !is_separator(#[trigger] chars@[k]),
        decreases to - i,
    {
        i = i + 1;
    }
    let ghost s = chars@.subrange(from as int, to as int);
    proof {
        assert(i > from);
        assert forall|k: int| 0 <= k < i - from implies !is_separator(#[trigger] s[k]) by {
            assert(s[k] == chars@[from + k]);
        }
        lemma_word_len(s, i - from);
        assert(s.take(i - from) == chars@.subrange(from as int, i as int));
        assert(s.skip(i - from) == chars@.subrange(i as int, to as int));
    }
    i
}

/// The job that the line `chars[from..to]` describes, if it has two words.
fn parse_line(chars: &Vec<char>, from: usize, to: usize) -> (r: Option<Job>)
    requires
        from <= to <= chars.len(),
    ensures
        match r {
            Some(job) => line_entry(chars@.subrange(from as int, to as int)) == Some(job@),
            None => line_entry(chars@.subrange(from as int, to as int)) is None,
        },
{
    let a = skip_separators(chars, from, to);
    if a == to {
        return None;
    }
    let b = word_end(chars, a, to);
    let c = skip_separators(chars, b, to);
    if c == to {
        assert(words(chars@.subrange(c as int, to as int)) == Seq::<Seq<char>>::empty());
        return None;
    }
    let d = word_end(chars, c, to);
    let source = string_of(chars, a, b);
    let destination = string_of(chars, c, d);
    Some(Job::new(source, destination))
}

/// Position of the first line break in `chars[from..]`, or the length of
/// `chars` if there is none.
fn line_end(chars: &Vec<char>, from: usize) -> (r: usize)
    requires
        from <= chars.len(),
    ensures
        from <= r <= chars.len(),
        line_len(chars@.skip(from as int)) == r - from,
{
    let mut i = from;
    while i < chars.len() && chars[i] != '\n'
        invariant
            from <= i <= chars.len(),
            forall|k: int| from <= k < i ==> #[trigger] chars@[k] != '\n',
        decreases chars.len() - i,
    {
        i = i + 1;
    }
    let ghost s = chars@.skip(from as int);
    proof {
        assert forall|k: int| 0 <= k < i - from implies #[trigger] s[k] != '\n' by {
            assert(s[k] == chars@[from + k]);
        }
        lemma_line_len(s, i - from);
    }
    i
}

/// Parses a job list: for each line with at least two words, a job whose
/// source is the first word and whose destination is the second. Words are
/// separated by spaces, tabs and carriage returns; lines by line feeds.
pub fn parse_job_list(text: &str) -> (r: Vec<Job>)
    ensures
        r@.map_values(|j: Job| j@) == job_list(text@),
{
    let chars = collect_chars(text);
    let n = chars.len();
    let mut jobs: Vec<Job> = Vec::new();
    let mut p: usize = 0;
    assert(chars@.skip(0) == chars@);
    loop
        invariant
            p <= n == chars.len(),
            chars@ == text@,
            jobs@.map_values(|j: Job| j@) + entries(lines(chars@.skip(p as int))) == job_list(
                text@,
            ),
        decreases n - p,
    {
        let e = line_end(&chars, p);
        let ghost rest = chars@.skip(p as int);
        let ghost line = chars@.subrange(p as int, e as int);
        assert(rest.take(e - p) == line);
        let ghost before = jobs@.map_values(|j: Job| j@);
        assert(seq![line].drop_first() == Seq::<Seq<char>>::empty());
        assert(entries(Seq::<Seq<char>>::empty()) == Seq::<(Seq<char>, Seq<char>)>::empty());
        match parse_line(&chars, p, e) {
            Some(job) => {
                jobs.push(job);
                assert(jobs@.map_values(|j: Job| j@) == before.push(job@));
                assert(entries(seq![line]) == seq![job@]);
                assert(before.push(job@) == before + seq![job@]);
            },
            None => {
                assert(entries(seq![line]) == Seq::<(Seq<char>, Seq<char>)>::empty());
                assert(before + Seq::<(Seq<char>, Seq<char>)>::empty() == before);
            },
        }
        assert(jobs@.map_values(|j: Job| j@) == before + entries(seq![line]));
        if e == n {
            assert(rest == line);
            assert(lines(rest) == seq![line]);
            return jobs;
        }
        let ghost next = chars@.skip(e + 1);
        assert(rest.skip(e - p + 1) == next);
        assert(lines(rest) == seq![line] + lines(next));
        assert((seq![line] + lines(next)).drop_first() == lines(next));
        assert(jobs@.map_values(|j: Job| j@) + entries(lines(next)) == before + entries(lines(rest)));
        p = e + 1;
    }
}

} // verus!
