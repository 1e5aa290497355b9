//! The command line that opens a file at a line in the user's editor.
//!
//! The editor is configured as one string: a program, possibly followed by
//! arguments, separated by single spaces. The path and the line are added
//! behind them, the line as `+N` with the one-based number, which is how
//! vi and its descendants take it.

use crate::text::{decimal, lemma_span_before, push_decimal, span_before};
use vstd::prelude::*;
use vstd::string::{StrSliceExecFns, StringExecFns};

verus! {

/// A program and the arguments to start it with.
#[derive(Debug, PartialEq, Eq)]
pub struct Invocation {
    pub program: String,
    pub arguments: Vec<String>,
}

/// The pieces of `s` between its spaces. There is one piece more than
/// there are spaces, and a piece is empty where two spaces meet or a space
/// stands at an end.
pub open spec fn split_spaces(s: Seq<char>) -> Seq<Seq<char>>
    decreases s.len(),
{
    let end = span_before(s, ' ');
    if 0 <= end < s.len() {
        seq![s.take(end)] + split_spaces(s.skip(end + 1))
    } else {
        seq![s]
    }
}

/// The argument that sends an editor to the line with the zero-based
/// number `line_number`: a plus sign and the one-based number.
pub open spec fn line_argument(line_number: nat) -> Seq<char> {
    seq!['+'] + decimal(line_number + 1)
}

/// The words of the command line that opens `path` at `line_number` in the
/// editor configured as `editor`: the words of `editor`, the path, and the
/// line argument. The first word is the program.
pub open spec fn editor_words(editor: Seq<char>, path: Seq<char>, line_number: nat) -> Seq<
    Seq<char>,
> {
    split_spaces(editor).push(path).push(line_argument(line_number))
}

/// Views of the strings of a sequence, one for one.
pub open spec fn texts(strings: Seq<String>) -> Seq<Seq<char>> {
    strings.map_values(|s: String| s@)
}

fn split_at_spaces(s: &str) -> (words: Vec<String>)
    ensures
        texts(words@) == split_spaces(s@),
{
    let n = s.unicode_len();
    let mut words: Vec<String> = Vec::new();
    let mut start: usize = 0;
    let mut i: usize = 0;
    proof {
        assert(s@.skip(0) =~= s@);
        assert(texts(words@) + split_spaces(s@) =~= split_spaces(s@));
    }
    for c in it: s.chars()
        invariant
            it.seq() == s@,
            n == s@.len(),
            i == it.index(),
            start <= i,
            forall|j: int| start <= j < i ==> s@[j] != ' ',
            texts(words@) + split_spaces(s@.skip(start as int)) == split_spaces(s@),
    {
        if c == ' ' {
            let word = s.substring_char(start, i);
            let ghost before = texts(words@);
            let ghost rest = s@.skip(start as int);
            words.push(String::from_str(word));
            proof {
                assert forall|j: int| 0 <= j < i - start implies rest[j] != ' ' by {
                    assert(rest[j] == s@[start + j]);
                }
                lemma_span_before(rest, ' ', i - start);
                assert(rest.take(i - start) =~= s@.subrange(start as int, i as int));
                assert(rest.skip(i - start + 1) =~= s@.skip(i + 1));
                assert(texts(words@) =~= before.push(word@));
                assert(before.push(word@) + split_spaces(s@.skip(i + 1)) =~= before
                    + split_spaces(rest));
            }
            start = i + 1;
        }
        i = i + 1;
    }
    let word = s.substring_char(start, n);
    let ghost before = texts(words@);
    let ghost rest = s@.skip(start as int);
    words.push(String::from_str(word));
    proof {
        assert forall|j: int| 0 <= j < n - start implies rest[j] != ' ' by {
            assert(rest[j] == s@[start + j]);
        }
        lemma_span_before(rest, ' ', n - start);
        assert(word@ =~= rest);
        assert(texts(words@) =~= before.push(word@));
        assert(before.push(word@) =~= before + split_spaces(rest));
    }
    words
}

impl Invocation {
    /// The program and its arguments in one sequence.
    pub open spec fn words(self) -> Seq<Seq<char>> {
        seq![self.program@] + texts(self.arguments@)
    }
}

/// Builds the command line that opens `path` at the line with the
/// zero-based number `line_number` in the editor that `editor` configures:
/// a program, possibly followed by arguments, separated by single spaces.
pub fn editor_invocation(editor: &str, path: &str, line_number: usize) -> (call: Invocation)
    ensures
        call.words() == editor_words(editor@, path@, line_number as nat),
{
    proof {
        reveal_strlit("+");
    }
    let mut words = split_at_spaces(editor);
    let ghost split = texts(words@);
    proof {
        lemma_split_spaces_len(editor@);
    }
    let program = words.remove(0);
    proof {
        assert(texts(words@) =~= split.drop_first());
    }
    let mut line = String::from_str("+");
    push_decimal(&mut line, line_number as u128 + 1);
    let ghost before = texts(words@);
    words.push(String::from_str(path));
    words.push(line);
    proof {
        assert(program@ == split[0]);
        assert(line@ =~= line_argument(line_number as nat));
        assert(texts(words@) =~= before.push(path@).push(line@));
        assert(seq![program@] + texts(words@) =~= split.push(path@).push(line@));
    }
    Invocation { program, arguments: words }
}

/// Splitting always yields at least one piece.
pub proof fn lemma_split_spaces_len(s: Seq<char>)
    ensures
        split_spaces(s).len() >= 1,
{
}

/// Why no editor could be called.
#[derive(Clone, Copy, Debug, PartialEq, Eq)]
pub enum EditorError {
    /// The environment names an editor in something that is not Unicode.
    NotUnicode,
}

impl EditorError {
    /// The error in words.
    pub open spec fn text(self) -> Seq<char> {
        "The editor named by the environment is not valid Unicode."@
    }

    /// Says in words what went wrong.
    pub fn message(&self) -> (s: String)
        ensures
            s@ == self.text(),
    {
        String::from_str("The editor named by the environment is not valid Unicode.")
    }
}

/// The editor that the environment of the process configures, or `None`
/// where it names one in something that is not Unicode.
///
/// Trusted: the body is `default_editor::get`, which takes the value of
/// `VISUAL`, else that of `EDITOR`, else `vi`. What comes back depends on
/// the environment, so nothing is claimed of it.
#[verifier::external_body]
fn configured_editor() -> Option<String> {
    match default_editor::get() {
        Ok(editor) => Some(editor),
        Err(_) => None,
    }
}

/// Builds the command line that opens `path` at the line with the
/// zero-based number `line_number` in the editor of the environment.
/// Whatever editor the environment names, the command line is the one
/// that [`editor_invocation`] builds for it.
pub fn editor_call(path: &str, line_number: usize) -> (r: Result<Invocation, EditorError>)
    ensures
        r matches Ok(call) ==> exists|editor: Seq<char>|
            call.words() == #[trigger] editor_words(editor, path@, line_number as nat),
{
    match configured_editor() {
        Some(editor) => {
            let call = editor_invocation(editor.as_str(), path, line_number);
            assert(call.words() == editor_words(editor@, path@, line_number as nat));
            Ok(call)
        },
        None => Err(EditorError::NotUnicode),
    }
}

} // verus!
