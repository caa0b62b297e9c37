//! The ranking of a user's shell history, file by file.
//!
//! The history lies in one of two files below the home directory. A `Ranker`
//! says which file to read next and takes what came of reading it; it never
//! reads anything itself. The first file that yields a command decides the
//! ranking, and no later file is asked for.

use crate::chars::{decimal, decode, lossy_text, push_decimal, texts};
use crate::history::count_commands;
use crate::line::{commands, opt_view};
use crate::rank::{
    descending, lemma_ranked_permutation, lemma_top_is_prefix, ranked, top, top_counts,
};
use crate::tally::{
    distinct_names, lemma_tally_len, lemma_tally_wf, positive_counts, tally, views, CommandCount,
    Tally,
};
use vstd::prelude::*;
use vstd::string::StringExecFns;
use vstd::utf8::{decode_utf8, valid_utf8};

verus! {

/// How many commands a ranking holds at most.
pub const TOP: usize = 20;

/// The history files below the home directory `home`, in the order in which
/// they are tried.
pub open spec fn candidates_in(home: Seq<char>) -> Seq<Seq<char>> {
    seq![home + "/.zsh_history"@, home + "/.bash_history"@]
}

/// The log entry for a home directory that is not known.
pub open spec fn no_home_message() -> Seq<char> {
    "ENV: HOME not set"@
}

/// The log entry for a file of `size` bytes that was read from `path`.
pub open spec fn read_message(size: nat, path: Seq<char>) -> Seq<char> {
    "Read "@ + decimal(size) + " bytes from "@ + path
}

/// The log entry for a file at `path` that could not be read, with the
/// reason.
pub open spec fn failure_message(path: Seq<char>, error: Seq<char>) -> Seq<char> {
    "Failed to read "@ + path + ": "@ + error
}

/// The log entry for a run in which no file yielded a command.
pub open spec fn nothing_message() -> Seq<char> {
    "No history commands parsed from any candidate file."@
}

/// How far a ranking has come: the files to try, how many of them were tried,
/// the counts so far, and the log.
pub struct Progress {
    pub candidates: Seq<Seq<char>>,
    pub tried: nat,
    pub counts: Seq<(Seq<char>, nat)>,
    pub log: Seq<Seq<char>>,
}

/// The state before any file is tried. Without a home directory there is no
/// file to try, and the log says so.
pub open spec fn start(home: Option<Seq<char>>) -> Progress {
    match home {
        Some(home) => Progress {
            candidates: candidates_in(home),
            tried: 0,
            counts: Seq::empty(),
            log: Seq::empty(),
        },
        None => Progress {
            candidates: Seq::empty(),
            tried: 0,
            counts: Seq::empty(),
            log: seq![no_home_message()],
        },
    }
}

/// The file to read next: the first one not tried yet, as long as no command
/// was counted.
pub open spec fn pending(p: Progress) -> Option<Seq<char>> {
    if p.counts.len() == 0 && p.tried < p.candidates.len() {
        Some(p.candidates[p.tried as int])
    } else {
        None
    }
}

/// The state after the pending file was read: it had `size` bytes, which
/// decode to `text`. The commands of the text are counted and the size is
/// logged. Where no file is pending, nothing changes.
pub open spec fn after_text(p: Progress, size: nat, text: Seq<char>) -> Progress {
    match pending(p) {
        Some(path) => Progress {
            candidates: p.candidates,
            tried: p.tried + 1,
            counts: tally(commands(text)),
            log: p.log.push(read_message(size, path)),
        },
        None => p,
    }
}

/// The state after the pending file was read and held `bytes`, which are
/// decoded as UTF-8 with their invalid parts replaced.
pub open spec fn after_read(p: Progress, bytes: Seq<u8>) -> Progress {
    after_text(p, bytes.len(), lossy_text(bytes))
}

/// The state after the pending file could not be read, for the reason
/// `error`: the failure is logged, and the next file is pending. Where no
/// file is pending, nothing changes.
pub open spec fn after_failure(p: Progress, error: Seq<char>) -> Progress {
    match pending(p) {
        Some(path) => Progress {
            candidates: p.candidates,
            tried: p.tried + 1,
            counts: p.counts,
            log: p.log.push(failure_message(path, error)),
        },
        None => p,
    }
}

/// What came of reading a file: its bytes, or the reason for which it could
/// not be read.
pub open spec fn outcome_view(outcome: Result<Vec<u8>, String>) -> Result<Seq<u8>, Seq<char>> {
    match outcome {
        Ok(bytes) => Ok(bytes@),
        Err(error) => Err(error@),
    }
}

/// The state after the pending file was tried, with what came of it.
pub open spec fn after(p: Progress, outcome: Result<Seq<u8>, Seq<char>>) -> Progress {
    match outcome {
        Ok(bytes) => after_read(p, bytes),
        Err(error) => after_failure(p, error),
    }
}

/// The state after a whole run: `zsh` and `bash` are what reading the first
/// and the second history file gives. Each counts only if its file is pending
/// when its turn comes.
pub open spec fn run(
    home: Option<Seq<char>>,
    zsh: Result<Seq<u8>, Seq<char>>,
    bash: Result<Seq<u8>, Seq<char>>,
) -> Progress {
    after(after(start(home), zsh), bash)
}

/// The ranking that a state stands for: its `TOP` most frequent commands,
/// the most frequent first.
pub open spec fn ranking(p: Progress) -> Seq<(Seq<char>, nat)> {
    top(p.counts, TOP as nat)
}

/// The log that a state ends with: where no command was counted, a last
/// entry says so.
pub open spec fn closing_log(p: Progress) -> Seq<Seq<char>> {
    if p.counts.len() == 0 {
        p.log.push(nothing_message())
    } else {
        p.log
    }
}

/// Ranks the commands of a shell history, driven from outside: ask for the
/// `pending` file, read it, report what came of it with `read` or `failed`,
/// and go on until nothing is pending; then `finish`.
pub struct Ranker {
    candidates: Vec<String>,
    tried: usize,
    counts: Tally,
    log: Vec<String>,
}

impl View for Ranker {
    type V = Progress;

    closed spec fn view(&self) -> Progress {
        Progress {
            candidates: texts(self.candidates@),
            tried: self.tried as nat,
            counts: self.counts@,
            log: texts(self.log@),
        }
    }
}

impl Ranker {
    /// A ranker for the history below `home`, the user's home directory if it
    /// is known.
    pub fn new(home: Option<&str>) -> (r: Ranker)
        ensures
            r@ == start(opt_str_view(home)),
    {
        let mut candidates: Vec<String> = Vec::new();
        let mut log: Vec<String> = Vec::new();
        match home {
            Some(home) => {
                candidates.push(String::from_str(home).concat("/.zsh_history"));
                candidates.push(String::from_str(home).concat("/.bash_history"));
                assert(texts(candidates@) =~= candidates_in(home@));
                assert(texts(log@) =~= Seq::<Seq<char>>::empty());
            },
            None => {
                log.push(String::from_str("ENV: HOME not set"));
                assert(texts(candidates@) =~= Seq::<Seq<char>>::empty());
                assert(texts(log@) =~= seq![no_home_message()]);
            },
        }
        Ranker { candidates, tried: 0, counts: Tally::new(), log }
    }

    /// The path of the file to read next, or `None` when the ranking is
    /// settled.
    pub fn pending(&self) -> (path: Option<String>)
        ensures
            opt_view(path) == pending(self@),
    {
        if self.counts.is_empty() && self.tried < self.candidates.len() {
            Some(self.candidates[self.tried].clone())
        } else {
            None
        }
    }

    /// Takes the pending file as decoded text, with the number of bytes that
    /// the file had.
    pub fn read_text(&mut self, size: usize, text: &[char])
        ensures
            final(self)@ == after_text(old(self)@, size as nat, text@),
    {
        if self.counts.is_empty() && self.tried < self.candidates.len() {
            let mut entry = String::from_str("Read ");
            push_decimal(&mut entry, size);
            entry.append(" bytes from ");
            entry.append(self.candidates[self.tried].as_str());
            self.log.push(entry);
            self.counts = count_commands(text);
            self.tried = self.tried + 1;
            assert(self@.log =~= after_text(old(self)@, size as nat, text@).log);
        }
    }

    /// Takes the contents of the pending file.
    pub fn read(&mut self, bytes: &[u8])
        ensures
            final(self)@ == after_read(old(self)@, bytes@),
            valid_utf8(bytes@) ==> final(self)@ == after_text(
                old(self)@,
                bytes@.len(),
                decode_utf8(bytes@),
            ),
    {
        let text = decode(bytes);
        self.read_text(bytes.len(), text.as_slice());
    }

    /// Takes the reason for which the pending file could not be read.
    pub fn failed(&mut self, error: &str)
        ensures
            final(self)@ == after_failure(old(self)@, error@),
    {
        if self.counts.is_empty() && self.tried < self.candidates.len() {
            let mut entry = String::from_str("Failed to read ");
            entry.append(self.candidates[self.tried].as_str());
            entry.append(": ");
            entry.append(error);
            self.log.push(entry);
            self.tried = self.tried + 1;
            assert(self@.log =~= after_failure(old(self)@, error@).log);
        }
    }

    /// Takes what came of reading the pending file.
    pub fn take(&mut self, outcome: &Result<Vec<u8>, String>)
        ensures
            final(self)@ == after(old(self)@, outcome_view(*outcome)),
    {
        match outcome {
            Ok(bytes) => self.read(bytes.as_slice()),
            Err(error) => self.failed(error.as_str()),
        }
    }

    /// The log so far.
    pub fn log(&self) -> (log: &Vec<String>)
        ensures
            texts(log@) == self@.log,
    {
        &self.log
    }

    /// The ranking and the log: at most `TOP` commands, the most frequent
    /// first.
    pub fn finish(self) -> (result: (Vec<CommandCount>, Vec<String>))
        ensures
            views(result.0@) == ranking(self@),
            texts(result.1@) == closing_log(self@),
            result.0.len() <= TOP,
            descending(views(result.0@)),
    {
        let ranked_counts = top_counts(self.counts.entries(), TOP);
        proof {
            lemma_top_is_prefix(self@.counts, TOP as nat);
            assert(views(ranked_counts@).len() == ranked_counts@.len());
        }
        let nothing = self.counts.is_empty();
        let mut log = self.log;
        if nothing {
            log.push(String::from_str("No history commands parsed from any candidate file."));
            assert(texts(log@) =~= closing_log(self@));
        }
        (ranked_counts, log)
    }
}

/// Ranks the commands of the shell history below `home`, the user's home
/// directory if it is known. `zsh` and `bash` are what reading
/// `.zsh_history` and `.bash_history` there gave. Returns the ranking, at most
/// `TOP` commands with the most frequent first, and the log.
///
/// The second file counts only where the first one yields no command.
pub fn rank_top_commands(
    home: Option<&str>,
    zsh: &Result<Vec<u8>, String>,
    bash: &Result<Vec<u8>, String>,
) -> (result: (Vec<CommandCount>, Vec<String>))
    ensures
        views(result.0@) == ranking(
            run(opt_str_view(home), outcome_view(*zsh), outcome_view(*bash)),
        ),
        texts(result.1@) == closing_log(
            run(opt_str_view(home), outcome_view(*zsh), outcome_view(*bash)),
        ),
        result.0.len() <= TOP,
        descending(views(result.0@)),
{
    let mut ranker = Ranker::new(home);
    ranker.take(zsh);
    ranker.take(bash);
    ranker.finish()
}

/// Whatever was read, a ranking holds at most `TOP` commands, and none
/// before one that was seen more often.
pub proof fn lemma_ranking_bounded(p: Progress)
    ensures
        ranking(p).len() <= TOP,
        descending(ranking(p)),
{
    lemma_top_is_prefix(p.counts, TOP as nat);
}

/// No command stands twice in the ranking of a run, and none with a count
/// of zero.
pub proof fn lemma_ranking_names_distinct(
    home: Option<Seq<char>>,
    zsh: Result<Seq<u8>, Seq<char>>,
    bash: Result<Seq<u8>, Seq<char>>,
)
    ensures
        distinct_names(ranking(run(home, zsh, bash))),
        positive_counts(ranking(run(home, zsh, bash))),
{
    let end = run(home, zsh, bash);
    if let Ok(bytes) = zsh {
        lemma_tally_wf(commands(lossy_text(bytes)));
    }
    if let Ok(bytes) = bash {
        lemma_tally_wf(commands(lossy_text(bytes)));
    }
    assert(distinct_names(end.counts) && positive_counts(end.counts));
    lemma_top_is_prefix(end.counts, TOP as nat);
    lemma_ranked_permutation(end.counts);
    let r = ranked(end.counts);
    assert forall|i: int| 0 <= i < ranking(end).len() implies (#[trigger] ranking(end)[i]).1
        >= 1 by {
        assert(ranking(end)[i] == r[i]);
        vstd::seq_lib::to_multiset_contains(r, r[i]);
        vstd::seq_lib::to_multiset_contains(end.counts, r[i]);
        assert(r.contains(r[i]));
        let k = choose|k: int| 0 <= k < end.counts.len() && end.counts[k] == r[i];
        assert(end.counts[k].1 >= 1);
    }
}

/// Without a home directory no file is asked for, whatever the files hold:
/// the ranking is empty, and the log says that the directory is not known
/// and that nothing was found.
pub proof fn lemma_no_home(zsh: Result<Seq<u8>, Seq<char>>, bash: Result<Seq<u8>, Seq<char>>)
    ensures
        pending(start(None)) is None,
        ranking(run(None, zsh, bash)).len() == 0,
        closing_log(run(None, zsh, bash)) == seq![no_home_message(), nothing_message()],
{
    assert(run(None, zsh, bash) == start(None));
    lemma_top_is_prefix(start(None).counts, TOP as nat);
    assert(closing_log(start(None)) =~= seq![no_home_message(), nothing_message()]);
}

/// Where neither history file can be read, the ranking is empty, and the log
/// holds both failures and says that nothing was found.
pub proof fn lemma_no_file(home: Option<Seq<char>>, first: Seq<char>, second: Seq<char>)
    ensures
        ranking(run(home, Err(first), Err(second))).len() == 0,
        home matches Some(dir) ==> closing_log(run(home, Err(first), Err(second))) == seq![
            failure_message(candidates_in(dir)[0], first),
            failure_message(candidates_in(dir)[1], second),
            nothing_message(),
        ],
{
    let end = run(home, Err(first), Err(second));
    assert(end.counts.len() == 0);
    lemma_top_is_prefix(end.counts, TOP as nat);
    if let Some(dir) = home {
        assert(closing_log(end) =~= seq![
            failure_message(candidates_in(dir)[0], first),
            failure_message(candidates_in(dir)[1], second),
            nothing_message(),
        ]);
    }
}

/// The first history file decides where it yields a command: the second one
/// is not asked for, and nothing that it holds reaches the ranking or the
/// log.
pub proof fn lemma_first_file_decides(
    home: Seq<char>,
    zsh: Seq<u8>,
    bash: Result<Seq<u8>, Seq<char>>,
)
    requires
        commands(lossy_text(zsh)).len() > 0,
    ensures
        pending(after_read(start(Some(home)), zsh)) is None,
        run(Some(home), Ok(zsh), bash) == after_read(start(Some(home)), zsh),
        ranking(run(Some(home), Ok(zsh), bash)) == top(
            tally(commands(lossy_text(zsh))),
            TOP as nat,
        ),
        closing_log(run(Some(home), Ok(zsh), bash)) == seq![
            read_message(zsh.len(), candidates_in(home)[0]),
        ],
{
    lemma_tally_len(commands(lossy_text(zsh)));
    let end = after_read(start(Some(home)), zsh);
    assert(closing_log(end) =~= seq![read_message(zsh.len(), candidates_in(home)[0])]);
}

/// The second history file decides where the first one yields no command,
/// because it cannot be read or because it holds none.
pub proof fn lemma_second_file_decides(
    home: Seq<char>,
    zsh: Result<Seq<u8>, Seq<char>>,
    bash: Seq<u8>,
)
    requires
        zsh matches Ok(bytes) ==> commands(lossy_text(bytes)).len() == 0,
    ensures
        pending(after(start(Some(home)), zsh)) == Some(candidates_in(home)[1]),
        ranking(run(Some(home), zsh, Ok(bash))) == top(
            tally(commands(lossy_text(bash))),
            TOP as nat,
        ),
{
}

/// What an optional string slice holds, as characters.
pub open spec fn opt_str_view(s: Option<&str>) -> Option<Seq<char>> {
    match s {
        Some(s) => Some(s@),
        None => None,
    }
}

} // verus!
