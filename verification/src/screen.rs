//! What the terminal shows: the messages so far and the line being typed.

use crate::chars::{decimal, push_decimal, texts};
use crate::tally::{views, CommandCount};
use vstd::prelude::*;
use vstd::string::{StrSliceExecFns, StringExecFns};

verus! {

/// Whether `c` is a control character: one of the general category `Cc`.
pub open spec fn is_control_char(c: char) -> bool {
    let u = c as u32;
    u <= 0x1F || 0x7F <= u <= 0x9F
}

/// Whether `c` is a control character: the same characters as for
/// `char::is_control`.
pub fn is_control(c: char) -> (r: bool)
    ensures
        r == is_control_char(c),
{
    let u: u32 = c as u32;
    u <= 0x1F || (0x7F <= u && u <= 0x9F)
}

/// A run of `n` spaces.
pub open spec fn spaces(n: nat) -> Seq<char> {
    Seq::new(n, |i: int| ' ')
}

/// `s` with spaces before it, as many as it lacks to `width` characters.
pub open spec fn padded_left(s: Seq<char>, width: nat) -> Seq<char> {
    if s.len() < width {
        spaces((width - s.len()) as nat) + s
    } else {
        s
    }
}

/// `s` with spaces behind it, as many as it lacks to `width` characters.
pub open spec fn padded_right(s: Seq<char>, width: nat) -> Seq<char> {
    if s.len() < width {
        s + spaces((width - s.len()) as nat)
    } else {
        s
    }
}

/// How wide the column of ranks is.
pub const RANK_WIDTH: usize = 2;

/// How wide the column of names is.
pub const NAME_WIDTH: usize = 25;

/// The row for the command at place `rank` of a ranking: the rank, the name
/// and the count, in columns.
pub open spec fn row(rank: nat, entry: (Seq<char>, nat)) -> Seq<char> {
    "  "@ + padded_left(decimal(rank), RANK_WIDTH as nat) + ". "@ + padded_right(
        entry.0,
        NAME_WIDTH as nat,
    ) + " "@ + decimal(entry.1)
}

/// The rows of a ranking, which counts its places from one.
pub open spec fn rows(ranking: Seq<(Seq<char>, nat)>) -> Seq<Seq<char>> {
    Seq::new(ranking.len(), |i: int| row((i + 1) as nat, ranking[i]))
}

/// The messages that present a ranking: a heading, one row for each command,
/// and an empty line. An empty ranking is not presented at all.
pub open spec fn presentation(ranking: Seq<(Seq<char>, nat)>) -> Seq<Seq<char>> {
    if ranking.len() == 0 {
        Seq::empty()
    } else {
        seq!["Top commands:"@] + rows(ranking) + seq![Seq::<char>::empty()]
    }
}

/// The messages joined to one text, a line feed between each two.
pub open spec fn joined(messages: Seq<Seq<char>>) -> Seq<char>
    decreases messages.len(),
{
    if messages.len() == 0 {
        Seq::empty()
    } else if messages.len() == 1 {
        messages[0]
    } else {
        joined(messages.drop_last()) + "\n"@ + messages.last()
    }
}

/// The text of the message area: the messages, or a placeholder where there
/// are none.
pub open spec fn message_text(messages: Seq<Seq<char>>) -> Seq<char> {
    if messages.len() == 0 {
        "No messages yet"@
    } else {
        joined(messages)
    }
}

/// A ranking without commands leaves the message area with its placeholder.
pub proof fn lemma_nothing_to_present(ranking: Seq<(Seq<char>, nat)>)
    requires
        ranking.len() == 0,
    ensures
        presentation(ranking).len() == 0,
        message_text(presentation(ranking)) == "No messages yet"@,
{
}

/// Appends `n` spaces to `s`.
pub fn push_spaces(s: &mut String, n: usize)
    ensures
        final(s)@ == old(s)@ + spaces(n as nat),
{
    let mut i: usize = 0;
    assert(s@ =~= old(s)@ + spaces(0));
    while i < n
        invariant
            i <= n,
            s@ == old(s)@ + spaces(i as nat),
        decreases n - i,
    {
        s.push(' ');
        i += 1;
        assert(s@ =~= old(s)@ + spaces(i as nat));
    }
}

/// The row for the command at place `rank` of a ranking.
pub fn format_row(rank: usize, entry: &CommandCount) -> (line: String)
    ensures
        line@ == row(rank as nat, entry@),
{
    let mut numeral = String::new();
    push_decimal(&mut numeral, rank);
    assert(numeral@ =~= decimal(rank as nat));
    let digits = numeral.as_str().unicode_len();
    let mut line = String::from_str("  ");
    if digits < RANK_WIDTH {
        push_spaces(&mut line, RANK_WIDTH - digits);
    }
    line.append(numeral.as_str());
    line.append(". ");
    line.append(entry.name.as_str());
    let width = entry.name.as_str().unicode_len();
    if width < NAME_WIDTH {
        push_spaces(&mut line, NAME_WIDTH - width);
    }
    line.append(" ");
    push_decimal(&mut line, entry.count);
    assert(line@ =~= row(rank as nat, entry@));
    line
}

/// The messages that present a ranking.
pub fn present(ranking: &Vec<CommandCount>) -> (messages: Vec<String>)
    ensures
        texts(messages@) == presentation(views(ranking@)),
{
    let mut messages: Vec<String> = Vec::new();
    if ranking.len() > 0 {
        messages.push(String::from_str("Top commands:"));
        let mut i: usize = 0;
        while i < ranking.len()
            invariant
                i <= ranking.len(),
                texts(messages@) == seq!["Top commands:"@] + rows(views(ranking@)).take(i as int),
            decreases ranking.len() - i,
        {
            let ghost before = texts(messages@);
            let line = format_row(i + 1, &ranking[i]);
            assert(line@ == rows(views(ranking@))[i as int]);
            messages.push(line);
            assert(texts(messages@) =~= before.push(rows(views(ranking@))[i as int]));
            i += 1;
            assert(rows(views(ranking@)).take(i as int) =~= rows(views(ranking@)).take(i - 1).push(
                rows(views(ranking@))[i - 1],
            ));
        }
        let ghost before = texts(messages@);
        messages.push(String::new());
        assert(texts(messages@) =~= before.push(Seq::<char>::empty()));
        assert(rows(views(ranking@)).take(i as int) =~= rows(views(ranking@)));
    }
    messages
}

/// What a screen holds: the line being typed and the messages, oldest first.
pub struct Shown {
    pub input: Seq<char>,
    pub messages: Seq<Seq<char>>,
}

/// The state of the screen: the line being typed and the messages so far.
pub struct Screen {
    input: String,
    messages: Vec<String>,
}

impl View for Screen {
    type V = Shown;

    closed spec fn view(&self) -> Shown {
        Shown { input: self.input@, messages: texts(self.messages@) }
    }
}

impl Screen {
    /// A screen with nothing typed, which shows the given messages.
    pub fn new(messages: Vec<String>) -> (screen: Screen)
        ensures
            screen@ == (Shown { input: Seq::empty(), messages: texts(messages@) }),
    {
        Screen { input: String::new(), messages }
    }

    /// Takes a typed character: it is added to the line, unless it is a
    /// control character.
    pub fn type_char(&mut self, c: char)
        ensures
            final(self)@.messages == old(self)@.messages,
            final(self)@.input == if is_control_char(c) {
                old(self)@.input
            } else {
                old(self)@.input.push(c)
            },
    {
        if !is_control(c) {
            self.input.push(c);
        }
    }

    /// Takes back the last character of the line, if there is one.
    pub fn backspace(&mut self)
        ensures
            final(self)@.messages == old(self)@.messages,
            final(self)@.input == if old(self)@.input.len() > 0 {
                old(self)@.input.drop_last()
            } else {
                old(self)@.input
            },
    {
        self.input.pop();
    }

    /// Sends the line: it becomes the newest message, and the line is empty
    /// again. An empty line is not sent. Returns whether a message was added.
    pub fn submit(&mut self) -> (sent: bool)
        ensures
            sent == (old(self)@.input.len() > 0),
            sent ==> final(self)@ == (Shown {
                input: Seq::empty(),
                messages: old(self)@.messages.push(old(self)@.input),
            }),
            !sent ==> final(self)@ == old(self)@,
    {
        if self.input.as_str().is_empty() {
            false
        } else {
            let line = self.input.clone();
            self.messages.push(line);
            self.input = String::new();
            assert(self@.messages =~= old(self)@.messages.push(old(self)@.input));
            true
        }
    }

    /// The line being typed.
    pub fn input(&self) -> (line: &str)
        ensures
            line@ == self@.input,
    {
        self.input.as_str()
    }

    /// The text of the message area: the messages, one on each line, or a
    /// placeholder where there are none.
    pub fn message_text(&self) -> (text: String)
        ensures
            text@ == message_text(self@.messages),
    {
        if self.messages.len() == 0 {
            String::from_str("No messages yet")
        } else {
            let mut text = self.messages[0].clone();
            let mut i: usize = 1;
            assert(texts(self.messages@).take(1) =~= seq![self.messages@[0]@]);
            while i < self.messages.len()
                invariant
                    1 <= i <= self.messages.len(),
                    text@ == joined(texts(self.messages@).take(i as int)),
                decreases self.messages.len() - i,
            {
                text.append("\n");
                text.append(self.messages[i].as_str());
                proof {
                    let shown = texts(self.messages@);
                    assert(shown.take(i + 1).drop_last() =~= shown.take(i as int));
                }
                i += 1;
            }
            assert(texts(self.messages@).take(i as int) =~= texts(self.messages@));
            text
        }
    }
}

} // verus!
