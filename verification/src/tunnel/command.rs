//! The commands the client has the operating system run.
use crate::text;
use vstd::prelude::*;
use vstd::string::*;

verus! {

/// A program and what it is called with.
pub struct Command {
    pub program: String,
    pub args: Vec<String>,
}

/// What a command is, apart from how it is held.
#[verifier::ext_equal]
pub struct Line {
    pub program: Seq<char>,
    pub args: Seq<Seq<char>>,
}

impl View for Command {
    type V = Line;

    open spec fn view(&self) -> Line {
        Line { program: self.program@, args: text::texts(self.args@) }
    }
}

/// The commands behind a list.
pub open spec fn lines(v: Seq<Command>) -> Seq<Line> {
    Seq::new(v.len(), |i: int| v[i]@)
}

/// The texts behind a list of string slices.
pub open spec fn slices(v: Seq<&str>) -> Seq<Seq<char>> {
    Seq::new(v.len(), |i: int| v[i]@)
}

impl Command {
    /// The command that calls `program` with `args`.
    pub fn new(program: &str, args: &[&str]) -> (r: Command)
        ensures
            r@ == (Line { program: program@, args: slices(args@) }),
    {
        let mut words: Vec<String> = Vec::new();
        let mut i: usize = 0;
        while i < args.len()
            invariant
                i <= args@.len(),
                words@.len() == i,
                forall|j: int| 0 <= j < i ==> (#[trigger] words@[j])@ == args@[j]@,
            decreases args@.len() - i,
        {
            words.push(args[i].to_owned());
            i += 1;
        }
        let r = Command { program: program.to_owned(), args: words };
        assert(text::texts(r.args@) =~= slices(args@));
        r
    }

    /// The same command once more.
    pub fn copy(&self) -> (r: Command)
        ensures
            r@ == self@,
    {
        let mut args: Vec<String> = Vec::new();
        let mut i: usize = 0;
        while i < self.args.len()
            invariant
                i <= self.args@.len(),
                args@.len() == i,
                forall|j: int| 0 <= j < i ==> (#[trigger] args@[j])@ == self.args@[j]@,
            decreases self.args@.len() - i,
        {
            args.push(self.args[i].clone());
            i += 1;
        }
        assert(text::texts(args@) =~= text::texts(self.args@));
        Command { program: self.program.clone(), args }
    }

    /// What to report when the command fails: the last thing it had to say, or
    /// the command itself when it said nothing.
    pub fn failure(&self, stderr: &[u8]) -> (r: String)
        ensures
            r@ == failure_of(self@, text::lossy(stderr@)),
    {
        let said = text::from_utf8_lossy(stderr);
        let detail = match last_solid(said.as_str()) {
            Some(line) => text::trim(line.as_str()),
            None => String::new(),
        };
        proof {
            lemma_solid(text::lines_of(said@));
        }
        if detail.as_str().is_empty() {
            let mut r = self.program.clone();
            r.append(" ");
            r.append(text::join(&self.args, " ").as_str());
            r.append(" failed");
            r
        } else {
            detail
        }
    }
}

/// The last line that is not blank.
pub open spec fn solid(lines: Seq<Seq<char>>) -> Option<Seq<char>>
    decreases lines.len(),
{
    if lines.len() == 0 {
        None
    } else if text::trimmed(lines.last()).len() > 0 {
        Some(lines.last())
    } else {
        solid(lines.drop_last())
    }
}

/// The last line that is not blank is not blank.
pub proof fn lemma_solid(lines: Seq<Seq<char>>)
    ensures
        solid(lines) matches Some(line) ==> text::trimmed(line).len() > 0 && lines.contains(line),
    decreases lines.len(),
{
    if lines.len() > 0 {
        if text::trimmed(lines.last()).len() > 0 {
            assert(lines[lines.len() - 1] == lines.last());
        } else {
            lemma_solid(lines.drop_last());
            if solid(lines) is Some {
                let line = solid(lines)->0;
                let i = choose|i: int|
                    0 <= i < lines.drop_last().len() && lines.drop_last()[i] == line;
                assert(lines[i] == line);
            }
        }
    }
}

/// What is reported of a command that failed, given what it said.
pub open spec fn failure_of(line: Line, said: Seq<char>) -> Seq<char> {
    match solid(text::lines_of(said)) {
        Some(last) => text::trimmed(last),
        None => line.program + " "@ + text::joined(line.args, " "@) + " failed"@,
    }
}

/// The last line of `said` that is not blank.
pub fn last_solid(said: &str) -> (r: Option<String>)
    ensures
        text::maybe(r) == solid(text::lines_of(said@)),
{
    let all = text::lines(said);
    let ghost rows = text::lines_of(said@);
    let mut i: usize = all.len();
    assert(text::texts(all@).len() == all@.len());
    assert(rows.take(i as int) =~= rows);
    while i > 0
        invariant
            i <= all@.len(),
            rows == text::lines_of(said@),
            rows == text::texts(all@),
            solid(rows) == solid(rows.take(i as int)),
        decreases i,
    {
        assert(rows.take(i as int).last() == all@[i - 1]@);
        assert(rows.take(i as int).drop_last() =~= rows.take(i as int - 1));
        if !text::trim(all[i - 1].as_str()).as_str().is_empty() {
            return Some(all[i - 1].clone());
        }
        i -= 1;
    }
    None
}

/// The last line of what a program said that is not blank, or `fallback`.
pub open spec fn last_said(said: Seq<char>, fallback: Seq<char>) -> Seq<char> {
    match solid(text::lines_of(said)) {
        Some(line) => line,
        None => fallback,
    }
}

/// The last line a program wrote that is not blank, or `fallback` when it wrote
/// none.
pub fn last_line(stderr: &[u8], fallback: &str) -> (r: String)
    ensures
        r@ == last_said(text::lossy(stderr@), fallback@),
{
    let said = text::from_utf8_lossy(stderr);
    match last_solid(said.as_str()) {
        Some(line) => line,
        None => fallback.to_owned(),
    }
}

/// What is reported is the last line that says anything: the one after which every line
/// is blank. There is none when all of them are.
pub proof fn lemma_the_last_that_says_anything(lines: Seq<Seq<char>>, at: int)
    requires
        -1 <= at < lines.len(),
        at >= 0 ==> text::trimmed(lines[at]).len() > 0,
        forall|i: int| at < i < lines.len() ==> text::trimmed(#[trigger] lines[i]).len() == 0,
    ensures
        solid(lines) == (if at >= 0 {
            Some(lines[at])
        } else {
            None
        }),
    decreases lines.len(),
{
    if lines.len() > 0 && at < lines.len() - 1 {
        let fewer = lines.drop_last();
        assert(text::trimmed(lines[lines.len() - 1]).len() == 0);
        assert forall|i: int| at < i < fewer.len() implies text::trimmed(#[trigger] fewer[i]).len()
            == 0 by {
            assert(fewer[i] == lines[i]);
        }
        lemma_the_last_that_says_anything(fewer, at);
    }
}

/// A command that failed is reported by the last thing it said, trimmed, and by name
/// with what it was called with when it said nothing.
pub proof fn lemma_what_a_failure_says(line: Line, said: Seq<char>, at: int)
    requires
        -1 <= at < text::lines_of(said).len(),
        at >= 0 ==> text::trimmed(text::lines_of(said)[at]).len() > 0,
        forall|i: int|
            at < i < text::lines_of(said).len() ==> text::trimmed(
                #[trigger] text::lines_of(said)[i],
            ).len() == 0,
    ensures
        at >= 0 ==> failure_of(line, said) == text::trimmed(text::lines_of(said)[at]),
        at < 0 ==> failure_of(line, said) == line.program + " "@ + text::joined(line.args, " "@)
            + " failed"@,
        at >= 0 ==> last_said(said, line.program) == text::lines_of(said)[at],
        at < 0 ==> last_said(said, line.program) == line.program,
{
    lemma_the_last_that_says_anything(text::lines_of(said), at);
}

} // verus!
