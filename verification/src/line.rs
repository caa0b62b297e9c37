//! The command name that one line of a shell history stands for.
//!
//! A line is either a plain command, or a command behind a prefix that ends
//! in `;` (`: 1600000000:0;git status`). The name is the first word of the
//! command, or the word after a leading `sudo`.

use crate::chars::{is_space, is_whitespace, string_of, text_of};
use crate::run::{lemma_run_len_bounds, lemma_run_len_is, run_len};
use vstd::prelude::*;

verus! {

/// The characters other than `c`.
pub open spec fn other_than(c: char) -> spec_fn(char) -> bool {
    |x: char| x != c
}

/// Length of the longest prefix of `s` without the character `c`: the index
/// of the first `c`, or `s.len()` where `s` holds none.
pub open spec fn until(s: Seq<char>, c: char) -> int {
    run_len(s, other_than(c)) as int
}

/// Length of the white space that `s` starts with.
pub open spec fn space_len(s: Seq<char>) -> int {
    run_len(s, |x: char| is_space(x)) as int
}

/// Length of the word that `s` starts with: its longest prefix without white
/// space.
pub open spec fn word_len(s: Seq<char>) -> int {
    run_len(s, |x: char| !is_space(x)) as int
}

/// The words of `s`: its maximal runs of characters that are not white space,
/// in order.
pub open spec fn tokens(s: Seq<char>) -> Seq<Seq<char>>
    decreases s.len(),
    via tokens_decreases
{
    if s.len() == 0 {
        Seq::empty()
    } else if is_space(s[0]) {
        tokens(s.drop_first())
    } else {
        seq![s.take(word_len(s))] + tokens(s.skip(word_len(s)))
    }
}

#[via_fn]
proof fn tokens_decreases(s: Seq<char>) {
    if s.len() > 0 && !is_space(s[0]) {
        lemma_run_len_bounds(s, |x: char| !is_space(x));
    }
}

/// The word that stands for the command users prefix to run another one as
/// the superuser.
pub open spec fn sudo() -> Seq<char> {
    seq!['s', 'u', 'd', 'o']
}

/// The part of a history line that holds the command: what follows the first
/// `;`, or the whole line where it holds none.
pub open spec fn command_text(line: Seq<char>) -> Seq<char> {
    if until(line, ';') < line.len() {
        line.skip(until(line, ';') + 1)
    } else {
        line
    }
}

/// The name a list of words stands for: the first word, or the second one
/// where the first is `sudo` and a second one exists. No words, no name.
pub open spec fn name_of_words(words: Seq<Seq<char>>) -> Option<Seq<char>> {
    if words.len() == 0 {
        None
    } else if words[0] == sudo() && words.len() >= 2 {
        Some(words[1])
    } else {
        Some(words[0])
    }
}

/// The command name that a history line contributes, if any.
///
/// White space around the command separates no words, so a line that is empty
/// or blank behind its prefix contributes nothing.
pub open spec fn command_name(line: Seq<char>) -> Option<Seq<char>> {
    name_of_words(tokens(command_text(line)))
}

/// The lines of `text`: the pieces between line feeds. A line feed at the very
/// end opens no further line.
///
/// A carriage return before the line feed stays in the line; it is white
/// space, which never reaches a name.
pub open spec fn lines(text: Seq<char>) -> Seq<Seq<char>>
    decreases text.len(),
{
    if text.len() == 0 {
        Seq::empty()
    } else if until(text, '\n') < text.len() {
        seq![text.take(until(text, '\n'))] + lines(text.skip(until(text, '\n') + 1))
    } else {
        seq![text]
    }
}

/// The command names that the given lines contribute, in the order of the
/// lines.
pub open spec fn names_of_lines(ls: Seq<Seq<char>>) -> Seq<Seq<char>>
    decreases ls.len(),
{
    if ls.len() == 0 {
        Seq::empty()
    } else {
        match command_name(ls[0]) {
            Some(name) => seq![name] + names_of_lines(ls.drop_first()),
            None => names_of_lines(ls.drop_first()),
        }
    }
}

/// The command names of a whole history text, one for each line that
/// contributes one, in order.
pub open spec fn commands(text: Seq<char>) -> Seq<Seq<char>> {
    names_of_lines(lines(text))
}

/// The words of `s` start behind its leading white space: with the first
/// word, where anything is left, and go on with the words behind it.
pub proof fn lemma_tokens_head(s: Seq<char>)
    ensures
        0 <= space_len(s) <= s.len(),
        space_len(s) == s.len() ==> tokens(s) == Seq::<Seq<char>>::empty(),
        space_len(s) < s.len() ==> {
            let t = s.skip(space_len(s));
            &&& 1 <= word_len(t) <= t.len()
            &&& tokens(s) == seq![t.take(word_len(t))] + tokens(t.skip(word_len(t)))
        },
    decreases s.len(),
{
    if s.len() == 0 {
    } else if is_space(s[0]) {
        let rest = s.drop_first();
        lemma_tokens_head(rest);
        assert(s.skip(space_len(s)) =~= rest.skip(space_len(rest)));
    } else {
        lemma_run_len_bounds(s, |x: char| !is_space(x));
        assert(s.skip(0) =~= s);
    }
}

/// A text of white space alone holds no word.
pub proof fn lemma_tokens_blank(s: Seq<char>)
    requires
        forall|i: int| 0 <= i < s.len() ==> is_space(#[trigger] s[i]),
    ensures
        tokens(s).len() == 0,
    decreases s.len(),
{
    if s.len() > 0 {
        let rest = s.drop_first();
        assert forall|i: int| 0 <= i < rest.len() implies is_space(#[trigger] rest[i]) by {
            assert(rest[i] == s[i + 1]);
        }
        lemma_tokens_blank(rest);
    }
}

/// A line that is empty, or made of white space alone, contributes no
/// command.
pub proof fn lemma_blank_line(line: Seq<char>)
    requires
        forall|i: int| 0 <= i < line.len() ==> is_space(#[trigger] line[i]),
    ensures
        command_name(line) is None,
{
    assert forall|i: int| 0 <= i < line.len() implies other_than(';')(#[trigger] line[i]) by {
        assert(is_space(line[i]));
    }
    lemma_run_len_is(line, other_than(';'), line.len() as int);
    lemma_tokens_blank(line);
}

/// Every word holds a character, and none that is white space.
pub proof fn lemma_tokens_are_words(s: Seq<char>, k: int)
    requires
        0 <= k < tokens(s).len(),
    ensures
        tokens(s)[k].len() > 0,
        forall|i: int| 0 <= i < tokens(s)[k].len() ==> !is_space(#[trigger] tokens(s)[k][i]),
    decreases s.len(),
{
    if s.len() == 0 {
    } else if is_space(s[0]) {
        lemma_tokens_are_words(s.drop_first(), k);
    } else {
        lemma_run_len_bounds(s, |x: char| !is_space(x));
        if k > 0 {
            lemma_tokens_are_words(s.skip(word_len(s)), k - 1);
        }
    }
}

/// A contributed command name holds a character, and none that is white
/// space.
pub proof fn lemma_command_name_is_word(line: Seq<char>)
    requires
        command_name(line) is Some,
    ensures
        command_name(line)->0.len() > 0,
        forall|i: int|
            0 <= i < command_name(line)->0.len() ==> !is_space(#[trigger] command_name(line)->0[i]),
{
    let words = tokens(command_text(line));
    lemma_tokens_are_words(command_text(line), 0);
    if words.len() >= 2 {
        lemma_tokens_are_words(command_text(line), 1);
    }
}

/// White space at the end of a text changes none of its words.
pub proof fn lemma_tokens_trailing_space(s: Seq<char>, c: char)
    requires
        is_space(c),
    ensures
        tokens(s.push(c)) == tokens(s),
    decreases s.len(),
{
    let longer = s.push(c);
    if s.len() == 0 {
        assert(longer.drop_first() =~= s);
    } else if is_space(s[0]) {
        assert(longer.drop_first() =~= s.drop_first().push(c));
        lemma_tokens_trailing_space(s.drop_first(), c);
    } else {
        let w = word_len(s);
        lemma_run_len_bounds(s, |x: char| !is_space(x));
        lemma_run_len_is(longer, |x: char| !is_space(x), w);
        assert(longer.take(w) =~= s.take(w));
        assert(longer.skip(w) =~= s.skip(w).push(c));
        lemma_tokens_trailing_space(s.skip(w), c);
    }
}

/// White space at the end of a text changes none of its words, however much
/// there is of it.
pub proof fn lemma_tokens_trailing_spaces(s: Seq<char>, n: int)
    requires
        0 <= n <= s.len(),
        forall|i: int| s.len() - n <= i < s.len() ==> is_space(#[trigger] s[i]),
    ensures
        tokens(s.take(s.len() - n)) == tokens(s),
    decreases n,
{
    if n == 0 {
        assert(s.take(s.len() - n) =~= s);
    } else {
        let shorter = s.drop_last();
        lemma_tokens_trailing_spaces(shorter, n - 1);
        lemma_tokens_trailing_space(shorter, s.last());
        assert(shorter.push(s.last()) =~= s);
        assert(shorter.take(shorter.len() - (n - 1)) =~= s.take(s.len() - n));
    }
}

/// `s` without the white space at its start and at its end.
pub open spec fn trimmed(s: Seq<char>) -> Seq<char> {
    let rest = s.skip(space_len(s));
    rest.take(rest.len() - space_len(rest.reverse()))
}

/// Trimming a text changes none of its words, and what is left is empty
/// exactly where the text holds no word.
pub proof fn lemma_tokens_trimmed(s: Seq<char>)
    ensures
        tokens(trimmed(s)) == tokens(s),
        trimmed(s).len() == 0 <==> tokens(s).len() == 0,
{
    let rest = s.skip(space_len(s));
    let n = space_len(rest.reverse());
    lemma_tokens_head(s);
    lemma_run_len_bounds(s, |x: char| is_space(x));
    lemma_run_len_bounds(rest.reverse(), |x: char| is_space(x));
    assert forall|i: int| rest.len() - n <= i < rest.len() implies is_space(#[trigger] rest[i]) by {
        assert(rest[i] == rest.reverse()[rest.len() - 1 - i]);
    }
    lemma_tokens_trailing_spaces(rest, n);
    if space_len(s) < s.len() {
        assert(rest[0] == s[space_len(s)]);
        assert(!is_space(rest[0]));
        lemma_run_len_bounds(rest, |x: char| !is_space(x));
        assert(tokens(rest) == tokens(s));
        if n == rest.len() {
            assert(rest[0] == rest.reverse()[rest.len() - 1]);
        }
    } else {
        assert(rest.len() == 0);
    }
}

/// A carriage return at the end of a line, as a history written with
/// two-character line ends has it, changes nothing about the command that
/// the line contributes.
pub proof fn lemma_carriage_return(line: Seq<char>)
    ensures
        command_name(line.push('\r')) == command_name(line),
{
    let longer = line.push('\r');
    let n = until(line, ';');
    lemma_run_len_bounds(line, other_than(';'));
    if n < line.len() {
        lemma_run_len_is(longer, other_than(';'), n);
        assert(longer.skip(n + 1) =~= line.skip(n + 1).push('\r'));
    } else {
        lemma_run_len_is(longer, other_than(';'), n + 1);
    }
    lemma_tokens_trailing_space(command_text(line), '\r');
}

/// What an optional string holds, as characters.
pub open spec fn opt_view(s: Option<String>) -> Option<Seq<char>> {
    match s {
        Some(s) => Some(s@),
        None => None,
    }
}

/// The index of the first `c` in `text[from..to]`, or `to` where it holds
/// none.
pub fn find_char(text: &[char], from: usize, to: usize, c: char) -> (at: usize)
    requires
        from <= to <= text.len(),
    ensures
        from <= at <= to,
        at - from == until(text@.subrange(from as int, to as int), c),
{
    let mut at: usize = from;
    while at < to && text[at] != c
        invariant
            from <= at <= to <= text.len(),
            forall|i: int| from <= i < at ==> text@[i] != c,
        decreases to - at,
    {
        at += 1;
    }
    proof {
        let s = text@.subrange(from as int, to as int);
        lemma_run_len_is(s, other_than(c), at - from);
    }
    at
}

/// The index behind the white space that `text[from..to]` starts with.
pub fn skip_spaces(text: &[char], from: usize, to: usize) -> (at: usize)
    requires
        from <= to <= text.len(),
    ensures
        from <= at <= to,
        at - from == space_len(text@.subrange(from as int, to as int)),
{
    let mut at: usize = from;
    while at < to && is_whitespace(text[at])
        invariant
            from <= at <= to <= text.len(),
            forall|i: int| from <= i < at ==> is_space(text@[i]),
        decreases to - at,
    {
        at += 1;
    }
    proof {
        let s = text@.subrange(from as int, to as int);
        lemma_run_len_is(s, |x: char| is_space(x), at - from);
    }
    at
}

/// The index behind the word that `text[from..to]` starts with.
pub fn skip_word(text: &[char], from: usize, to: usize) -> (at: usize)
    requires
        from <= to <= text.len(),
    ensures
        from <= at <= to,
        at - from == word_len(text@.subrange(from as int, to as int)),
{
    let mut at: usize = from;
    while at < to && !is_whitespace(text[at])
        invariant
            from <= at <= to <= text.len(),
            forall|i: int| from <= i < at ==> !is_space(text@[i]),
        decreases to - at,
    {
        at += 1;
    }
    proof {
        let s = text@.subrange(from as int, to as int);
        lemma_run_len_is(s, |x: char| !is_space(x), at - from);
    }
    at
}

/// The bounds of the first word of `text[from..to]`; two equal bounds where
/// it holds no word.
pub fn next_word(text: &[char], from: usize, to: usize) -> (word: (usize, usize))
    requires
        from <= to <= text.len(),
    ensures
        from <= word.0 <= word.1 <= to,
        word.0 == word.1 <==> tokens(text@.subrange(from as int, to as int)).len() == 0,
        word.0 < word.1 ==> tokens(text@.subrange(from as int, to as int)) == seq![
            text@.subrange(word.0 as int, word.1 as int),
        ] + tokens(text@.subrange(word.1 as int, to as int)),
{
    let start = skip_spaces(text, from, to);
    let end = skip_word(text, start, to);
    proof {
        let s = text@.subrange(from as int, to as int);
        let t = text@.subrange(start as int, to as int);
        lemma_tokens_head(s);
        assert(s.skip(space_len(s)) =~= t);
        assert(t.take(word_len(t)) =~= text@.subrange(start as int, end as int));
        assert(t.skip(word_len(t)) =~= text@.subrange(end as int, to as int));
    }
    (start, end)
}

/// Whether `text[from..to]` is the word `sudo`.
pub fn is_sudo(text: &[char], from: usize, to: usize) -> (yes: bool)
    requires
        from <= to <= text.len(),
    ensures
        yes == (text@.subrange(from as int, to as int) == sudo()),
{
    let yes = to - from == 4 && text[from] == 's' && text[from + 1] == 'u' && text[from + 2] == 'd'
        && text[from + 3] == 'o';
    proof {
        let s = text@.subrange(from as int, to as int);
        if yes {
            assert(s =~= sudo());
        } else if s == sudo() {
            assert(s.len() == 4);
            assert(s[0] == 's' && s[1] == 'u' && s[2] == 'd' && s[3] == 'o');
        }
    }
    yes
}

/// The command name that the line `text[from..to]` contributes, if any.
pub fn command_in(text: &[char], from: usize, to: usize) -> (name: Option<String>)
    requires
        from <= to <= text.len(),
    ensures
        opt_view(name) == command_name(text@.subrange(from as int, to as int)),
{
    let semi = find_char(text, from, to, ';');
    let start = if semi < to { semi + 1 } else { from };
    proof {
        let line = text@.subrange(from as int, to as int);
        assert(command_text(line) =~= text@.subrange(start as int, to as int));
    }
    let (a, b) = next_word(text, start, to);
    if a == b {
        None
    } else if is_sudo(text, a, b) {
        let (c, d) = next_word(text, b, to);
        if c == d {
            Some(string_of(text, a, b))
        } else {
            Some(string_of(text, c, d))
        }
    } else {
        Some(string_of(text, a, b))
    }
}

/// The command name that a history line contributes, if any.
pub fn command_of_line(line: &str) -> (name: Option<String>)
    ensures
        opt_view(name) == command_name(line@),
{
    let text = text_of(line);
    assert(text@.subrange(0, text@.len() as int) =~= text@);
    command_in(text.as_slice(), 0, text.len())
}

} // verus!
