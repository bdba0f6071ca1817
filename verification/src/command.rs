//! The workload's command line: a task string cut at single spaces.

use crate::text::{join, lemma_join_split, lemma_split_nonempty, lemma_split_pieces_clean, split, split_text, Delimiter};
use vstd::prelude::*;
use vstd::string::*;

verus! {

/// An executable and its literal arguments.
#[derive(Debug, PartialEq, Eq)]
pub struct CommandLine {
    pub program: String,
    pub args: Vec<String>,
}

/// A command line as text: the executable, then the arguments in order.
pub struct CommandLineView {
    pub program: Seq<char>,
    pub args: Seq<Seq<char>>,
}

impl View for CommandLine {
    type V = CommandLineView;

    open spec fn view(&self) -> CommandLineView {
        CommandLineView { program: self.program@, args: self.args.deep_view() }
    }
}

impl CommandLineView {
    /// The executable followed by the arguments.
    pub open spec fn words(self) -> Seq<Seq<char>> {
        seq![self.program] + self.args
    }
}

/// The command line that a task string stands for: the text up to the first
/// space names the executable, and every further space starts a new argument.
/// There is no quoting: two spaces in a row enclose an empty argument.
pub open spec fn command_of(task: Seq<char>) -> CommandLineView {
    let words = split(task, Delimiter::Space);
    CommandLineView { program: words[0], args: words.subrange(1, words.len() as int) }
}

/// The words of a parsed task are the pieces of the task string.
pub proof fn lemma_command_words(task: Seq<char>)
    ensures
        command_of(task).words() == split(task, Delimiter::Space),
{
    lemma_split_nonempty(task, Delimiter::Space);
    assert(command_of(task).words() =~= split(task, Delimiter::Space));
}

/// Parsing keeps the whole task: the executable and the arguments, written
/// with single spaces between them, spell the task string again, and no word
/// holds a space.
pub proof fn lemma_command_spells_task(task: Seq<char>)
    ensures
        join(command_of(task).words(), ' ') == task,
        forall|i: int, j: int|
            0 <= i < command_of(task).words().len() && 0 <= j < command_of(task).words()[i].len()
                ==> #[trigger] command_of(task).words()[i][j] != ' ',
{
    lemma_command_words(task);
    lemma_join_split(task);
    lemma_split_pieces_clean(task, Delimiter::Space);
}

/// Cuts a task string into the executable and its arguments.
pub fn parse_task(task: &str) -> (command: CommandLine)
    ensures
        command@ == command_of(task@),
{
    let mut words: Vec<String> = split_text(task, Delimiter::Space);
    proof {
        lemma_split_nonempty(task@, Delimiter::Space);
    }
    let ghost all = words.deep_view();
    let ghost raw = words@;
    let program: String = words.remove(0);
    assert(words@ == raw.subrange(1, raw.len() as int));
    assert(words.deep_view() =~= all.subrange(1, all.len() as int));
    assert(program@ == all[0]);
    CommandLine { program, args: words }
}

impl CommandLine {
    /// Writes the command line out: the executable and the arguments with
    /// single spaces between them. For a parsed task that is the task
    /// string.
    pub fn spell(&self) -> (task: String)
        ensures
            task@ == join(self@.words(), ' '),
    {
        let ghost words = self@.words();
        let mut task: String = self.program.clone();
        let mut i: usize = 0;
        assert(words.take(1) == seq![self.program@]);
        while i < self.args.len()
            invariant
                i <= self.args.len(),
                words == self@.words(),
                task@ == join(words.take(i as int + 1), ' '),
            decreases self.args.len() - i,
        {
            proof {
                reveal_strlit(" ");
            }
            let ghost before = words.take(i as int + 1);
            let ghost grown = words.take(i as int + 2);
            assert(grown.drop_last() == before);
            assert(grown.last() == self.args@[i as int]@);
            assert(" "@ =~= seq![' ']);
            task.append(" ");
            task.append(self.args[i].as_str());
            assert(task@ =~= join(before, ' ').push(' ') + grown.last());
            i = i + 1;
        }
        assert(words.take(self.args.len() as int + 1) == words);
        task
    }
}

} // verus!
