//! What a run reports to the outside: the text of its output, the diagnostic
//! of a failed read, and the exit status.

use crate::text::{lemma_texts_push, texts};
use vstd::prelude::*;
use vstd::string::StringExecFns;

verus! {

/// The exit status of a run that read its input to the end.
pub const EXIT_SUCCESS: i32 = 0;

/// The exit status of a run that a failed read cut short.
pub const EXIT_READ_ERROR: i32 = 1;

/// What every diagnostic of a failed read begins with.
pub open spec fn read_error_prefix() -> Seq<char> {
    "read error: "@
}

/// The diagnostic for a failed read: the prefix, then the description of the
/// failure as it was given.
pub open spec fn read_error_text(description: Seq<char>) -> Seq<char> {
    read_error_prefix() + description
}

/// A line as it is written out: the line, then a newline.
pub open spec fn terminated(line: Seq<char>) -> Seq<char> {
    line.push('\n')
}

/// The text that writing `lines` one after the other produces: each line
/// followed by a newline, in order.
pub open spec fn rendered(lines: Seq<Seq<char>>) -> Seq<char> {
    lines.map_values(|line: Seq<char>| terminated(line)).flatten()
}

/// Writing one more line appends that line and a newline to the text.
pub proof fn lemma_rendered_push(lines: Seq<Seq<char>>, line: Seq<char>)
    ensures
        rendered(lines.push(line)) == rendered(lines) + terminated(line),
{
    let each = |l: Seq<char>| terminated(l);
    assert(lines.push(line).map_values(each) =~= lines.map_values(each).push(terminated(line)));
    lines.map_values(each).lemma_flatten_push(terminated(line));
}

/// Builds the diagnostic for a failed read from the description of the failure.
pub fn read_error_message(description: &str) -> (message: String)
    ensures
        message@ == read_error_text(description@),
{
    String::from_str("read error: ").concat(description)
}

/// Builds the text that writing `lines` one after the other produces.
pub fn render_lines(lines: &[String]) -> (text: String)
    ensures
        text@ == rendered(texts(lines@)),
{
    let mut text = String::new();
    let mut i: usize = 0;
    while i < lines.len()
        invariant
            i <= lines.len(),
            text@ == rendered(texts(lines@.take(i as int))),
        decreases lines.len() - i,
    {
        text.append(lines[i].as_str());
        text.append("\n");
        proof {
            reveal_strlit("\n");
            let done = lines@.take(i as int);
            assert(lines@.take(i + 1) == done.push(lines[i as int]));
            lemma_texts_push(done, lines[i as int]);
            lemma_rendered_push(texts(done), lines[i as int]@);
        }
        i += 1;
    }
    assert(lines@.take(i as int) == lines@);
    text
}

} // verus!
