//! Counting the commands of a whole history text.

use crate::chars::{decode, lossy_text};
use crate::line::{
    command_in, command_name, commands, find_char, lines, names_of_lines, other_than, until,
};
use crate::run::lemma_run_len_bounds;
use crate::tally::{count_of, lemma_tally_total, tally, Tally};
use vstd::prelude::*;
use vstd::utf8::{decode_utf8, valid_utf8};

verus! {

/// The lines of a text are its first line and the lines of what follows the
/// first line feed.
pub proof fn lemma_commands_step(text: Seq<char>)
    requires
        text.len() > 0,
    ensures
        0 <= until(text, '\n') <= text.len(),
        commands(text) == (match command_name(text.take(until(text, '\n'))) {
            Some(name) => seq![name],
            None => Seq::empty(),
        }) + (if until(text, '\n') < text.len() {
            commands(text.skip(until(text, '\n') + 1))
        } else {
            Seq::empty()
        }),
{
    let n = until(text, '\n');
    lemma_run_len_bounds(text, other_than('\n'));
    let ls = lines(text);
    let tail = if n < text.len() {
        commands(text.skip(n + 1))
    } else {
        Seq::empty()
    };
    if n < text.len() {
        assert(ls.drop_first() =~= lines(text.skip(n + 1)));
    } else {
        assert(text.take(n) =~= text);
        assert(ls.drop_first() =~= Seq::<Seq<char>>::empty());
    }
    assert(ls[0] == text.take(n));
    assert(names_of_lines(ls.drop_first()) == tail);
    match command_name(ls[0]) {
        Some(name) => {
            assert(commands(text) == seq![name] + tail);
        },
        None => {
            assert(commands(text) =~= Seq::<Seq<char>>::empty() + tail);
        },
    }
}

/// Counts the command names of a history text, line by line.
pub fn count_commands(text: &[char]) -> (counts: Tally)
    ensures
        counts.wf(),
        counts@ == tally(commands(text@)),
{
    let mut counts = Tally::new();
    let mut pos: usize = 0;
    let ghost mut done: Seq<Seq<char>> = Seq::empty();
    assert(text@.skip(0) =~= text@);
    while pos < text.len()
        invariant
            pos <= text.len(),
            counts.wf(),
            counts@ == tally(done),
            done + commands(text@.skip(pos as int)) == commands(text@),
            done.len() <= pos,
            forall|name: Seq<char>| count_of(counts@, name) <= done.len(),
        decreases text.len() - pos,
    {
        let end = find_char(text, pos, text.len(), '\n');
        let name = command_in(text, pos, end);
        let next = if end < text.len() { end + 1 } else { end };
        proof {
            let rest = text@.skip(pos as int);
            lemma_commands_step(rest);
            assert(rest =~= text@.subrange(pos as int, text.len() as int));
            assert(rest.take(end - pos) =~= text@.subrange(pos as int, end as int));
            if end < text.len() {
                assert(rest.skip(end - pos + 1) =~= text@.skip(next as int));
            } else {
                assert(commands(text@.skip(next as int)) =~= Seq::<Seq<char>>::empty());
            }
        }
        match name {
            Some(name) => {
                proof {
                    assert(done.push(name@).drop_last() =~= done);
                    assert(done.push(name@) + commands(text@.skip(next as int)) =~= done
                        + commands(text@.skip(pos as int)));
                    done = done.push(name@);
                    lemma_tally_total(done);
                }
                counts.record(name);
            },
            None => {},
        }
        pos = next;
    }
    assert(done + Seq::<Seq<char>>::empty() =~= done);
    counts
}

/// Counts the command names of the history that `bytes` holds, read as UTF-8
/// with its invalid parts replaced.
pub fn count_commands_in(bytes: &[u8]) -> (counts: Tally)
    ensures
        counts.wf(),
        counts@ == tally(commands(lossy_text(bytes@))),
        valid_utf8(bytes@) ==> counts@ == tally(commands(decode_utf8(bytes@))),
{
    let text = decode(bytes);
    count_commands(text.as_slice())
}

} // verus!
