use vstd::prelude::*;

use crate::text::push_str;

verus! {

/// A string-editing command.
pub enum Command {
    Uppercase,
    Trim,
    Append(usize),
}

/// The uppercase form of a sequence of characters, as `str::to_uppercase`
/// produces it; it depends on the characters alone.
pub uninterp spec fn upper_of(s: Seq<char>) -> Seq<char>;

/// A sequence of characters with its leading and trailing whitespace
/// removed, as `str::trim` produces it; it depends on the characters
/// alone.
pub uninterp spec fn trim_of(s: Seq<char>) -> Seq<char>;

/// The characters of `"bar"` repeated `n` times.
pub open spec fn bar_chars(n: int) -> Seq<char>
    decreases n,
{
    if n <= 0 {
        Seq::empty()
    } else {
        bar_chars(n - 1) + "bar"@
    }
}

/// What a command turns a string into: its uppercase form, its trimmed
/// form, or the string with `"bar"` appended the given number of times.
pub open spec fn apply_command(s: Seq<char>, c: Command) -> Seq<char> {
    match c {
        Command::Uppercase => upper_of(s),
        Command::Trim => trim_of(s),
        Command::Append(n) => s + bar_chars(n as int),
    }
}

/// Relies on str::to_uppercase: the uppercase equivalent of the string.
#[verifier::external_body]
fn uppercase(s: &str) -> (r: String)
    ensures
        r@ == upper_of(s@),
{
    s.to_uppercase()
}

/// Relies on str::trim: the string with leading and trailing whitespace
/// removed.
#[verifier::external_body]
fn trim_spaces(s: &str) -> (r: &str)
    ensures
        r@ == trim_of(s@),
{
    s.trim()
}

/// The trimmed form of `s`, as an owned string.
fn trim(s: &str) -> (r: String)
    ensures
        r@ == trim_of(s@),
{
    trim_spaces(s).to_owned()
}

/// `s` with `"bar"` appended `times` times.
fn append(s: &str, times: usize) -> (r: String)
    ensures
        r@ == s@ + bar_chars(times as int),
{
    let mut result = s.to_owned();
    proof {
        assert(result@ =~= s@ + bar_chars(0));
    }
    let mut i: usize = 0;
    while i < times
        invariant
            i <= times,
            result@ == s@ + bar_chars(i as int),
        decreases times - i,
    {
        push_str(&mut result, "bar");
        i = i + 1;
        proof {
            assert(result@ =~= s@ + bar_chars(i as int));
        }
    }
    result
}

/// Applies each command to the string beside it, in order: `Uppercase`
/// yields the uppercase form, `Trim` the trimmed form, and `Append(n)` the
/// string with `"bar"` appended `n` times.
pub fn transformer(input: Vec<(String, Command)>) -> (output: Vec<String>)
    ensures
        output@.len() == input@.len(),
        forall|i: int|
            0 <= i < input@.len() ==> (#[trigger] output@[i])@ == apply_command(
                input@[i].0@,
                input@[i].1,
            ),
{
    let mut output: Vec<String> = Vec::new();
    let mut idx: usize = 0;
    while idx < input.len()
        invariant
            idx <= input@.len(),
            output@.len() == idx,
            forall|i: int|
                0 <= i < idx ==> (#[trigger] output@[i])@ == apply_command(
                    input@[i].0@,
                    input@[i].1,
                ),
        decreases input@.len() - idx,
    {
        let pair = &input[idx];
        let transformed = match &pair.1 {
            Command::Uppercase => uppercase(pair.0.as_str()),
            Command::Trim => trim(pair.0.as_str()),
            Command::Append(n) => append(pair.0.as_str(), *n),
        };
        output.push(transformed);
        idx = idx + 1;
    }
    output
}

} // verus!
