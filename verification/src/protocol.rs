//! The external invocation protocol's decisions: how a module handle's
//! command line is built for one identification step, and how the module's
//! standard output is parsed into record paths.
//!
//! Launching the subprocess, capturing its output and reading the record
//! files it names are unverified I/O; everything the protocol decides — the
//! launcher indirection for archive command paths, the argument order, the
//! step number's text form, and the line-by-line reading of standard output —
//! is verified here.

use vstd::prelude::*;

verus! {

/// Whether a command path carries the managed-runtime archive extension
/// `jar`: it ends in `.jar`, and the dot is neither the first character of
/// the path's final component nor a directory separator's neighbour in a way
/// that would leave an empty stem.
pub open spec fn is_jar_command(path: Seq<char>) -> bool {
    &&& path.len() >= 5
    &&& path[path.len() - 4] == '.'
    &&& path[path.len() - 3] == 'j'
    &&& path[path.len() - 2] == 'a'
    &&& path[path.len() - 1] == 'r'
    &&& path[path.len() - 5] != '/'
}

/// Decides the launch strategy: archive command paths are launched through
/// the runtime's launcher, anything else is executed directly.
pub fn is_jar_path(path: &str) -> (r: bool)
    ensures
        r == is_jar_command(path@),
{
    let n = path.unicode_len();
    if n < 5 {
        return false;
    }
    let dot = path.get_char(n - 4);
    let j = path.get_char(n - 3);
    let a = path.get_char(n - 2);
    let rr = path.get_char(n - 1);
    let before = path.get_char(n - 5);
    dot == '.' && j == 'j' && a == 'a' && rr == 'r' && before != '/'
}

/// The decimal digit characters.
pub open spec fn dec_digit(d: nat) -> char {
    if d == 0 {
        '0'
    } else if d == 1 {
        '1'
    } else if d == 2 {
        '2'
    } else if d == 3 {
        '3'
    } else if d == 4 {
        '4'
    } else if d == 5 {
        '5'
    } else if d == 6 {
        '6'
    } else if d == 7 {
        '7'
    } else if d == 8 {
        '8'
    } else {
        '9'
    }
}

/// The decimal digit string of a non-negative number, most significant digit
/// first, without leading zeroes (a single `0` for zero).
pub open spec fn dec_digits(n: nat) -> Seq<char>
    decreases n,
{
    if n < 10 {
        seq![dec_digit(n)]
    } else {
        dec_digits(n / 10).push(dec_digit(n % 10))
    }
}

/// The text form of a step number: its decimal digits, with a leading minus
/// sign when it is negative.
pub open spec fn step_number_text(v: int) -> Seq<char> {
    if v < 0 {
        seq!['-'] + dec_digits((-v) as nat)
    } else {
        dec_digits(v as nat)
    }
}

fn digit_str(d: u64) -> (r: &'static str)
    requires
        d < 10,
    ensures
        r@ == seq![dec_digit(d as nat)],
{
    if d == 0 {
        proof {
            reveal_strlit("0");
        }
        "0"
    } else if d == 1 {
        proof {
            reveal_strlit("1");
        }
        "1"
    } else if d == 2 {
        proof {
            reveal_strlit("2");
        }
        "2"
    } else if d == 3 {
        proof {
            reveal_strlit("3");
        }
        "3"
    } else if d == 4 {
        proof {
            reveal_strlit("4");
        }
        "4"
    } else if d == 5 {
        proof {
            reveal_strlit("5");
        }
        "5"
    } else if d == 6 {
        proof {
            reveal_strlit("6");
        }
        "6"
    } else if d == 7 {
        proof {
            reveal_strlit("7");
        }
        "7"
    } else if d == 8 {
        proof {
            reveal_strlit("8");
        }
        "8"
    } else {
        proof {
            reveal_strlit("9");
        }
        "9"
    }
}

fn push_decimal(s: &mut String, n: u64)
    ensures
        final(s)@ == old(s)@ + dec_digits(n as nat),
    decreases n,
{
    if n >= 10 {
        push_decimal(s, n / 10);
    }
    let d = digit_str(n % 10);
    s.append(d);
    proof {
        if n >= 10 {
            assert(final(s)@ =~= old(s)@ + dec_digits(n as nat));
        } else {
            assert(final(s)@ =~= old(s)@ + dec_digits(n as nat));
        }
    }
}

/// Renders the step number as the text argument the module receives.
pub fn format_step_number(step: i32) -> (r: String)
    ensures
        r@ == step_number_text(step as int),
{
    let mut s = String::new();
    if step >= 0 {
        push_decimal(&mut s, step as u64);
    } else {
        proof {
            reveal_strlit("-");
        }
        s.append("-");
        let wide: i64 = step as i64;
        let magnitude: u64 = (-wide) as u64;
        push_decimal(&mut s, magnitude);
        proof {
            assert(s@ =~= step_number_text(step as int));
        }
    }
    s
}

/// One module invocation's command line: the program to launch and its
/// arguments, in order.
pub struct InvocationCommand {
    pub program: String,
    pub arguments: Vec<String>,
}

/// Builds the command line for one identification step of the module at
/// `command_path`, bound to `run_path`. Archive command paths run through
/// the `java` launcher with the archive as its first argument; all modules
/// receive the batch-mode flag, the run path, and the step number as text.
pub fn invocation_command(command_path: &str, run_path: &str, step: i32) -> (r: InvocationCommand)
    ensures
        is_jar_command(command_path@) ==> {
            &&& r.program@ == "java"@
            &&& r.arguments@.len() == 5
            &&& r.arguments@[0]@ == "-jar"@
            &&& r.arguments@[1]@ == command_path@
            &&& r.arguments@[2]@ == "--no-integration"@
            &&& r.arguments@[3]@ == run_path@
            &&& r.arguments@[4]@ == step_number_text(step as int)
        },
        !is_jar_command(command_path@) ==> {
            &&& r.program@ == command_path@
            &&& r.arguments@.len() == 3
            &&& r.arguments@[0]@ == "--no-integration"@
            &&& r.arguments@[1]@ == run_path@
            &&& r.arguments@[2]@ == step_number_text(step as int)
        },
{
    let step_text = format_step_number(step);
    let mut arguments: Vec<String> = Vec::new();
    if is_jar_path(command_path) {
        let program = "java".to_owned();
        arguments.push("-jar".to_owned());
        arguments.push(command_path.to_owned());
        arguments.push("--no-integration".to_owned());
        arguments.push(run_path.to_owned());
        arguments.push(step_text);
        InvocationCommand { program, arguments }
    } else {
        let program = command_path.to_owned();
        arguments.push("--no-integration".to_owned());
        arguments.push(run_path.to_owned());
        arguments.push(step_text);
        InvocationCommand { program, arguments }
    }
}

/// The index of the first line break in `s`, or its length if none.
pub open spec fn first_newline(s: Seq<char>) -> nat
    decreases s.len(),
{
    if s.len() == 0 {
        0
    } else if s[0] == '\n' {
        0
    } else {
        1 + first_newline(s.subrange(1, s.len() as int))
    }
}

/// A line with a trailing carriage return loses it, as the line-based
/// reading of module output does.
pub open spec fn strip_cr(l: Seq<char>) -> Seq<char> {
    if l.len() > 0 && l[l.len() - 1] == '\r' {
        l.subrange(0, l.len() - 1)
    } else {
        l
    }
}

/// The lines of a module's standard output: split at every line break, each
/// line stripped of a trailing carriage return, with no empty final line for
/// output that ends in a line break.
pub open spec fn output_lines(s: Seq<char>) -> Seq<Seq<char>>
    decreases s.len(),
{
    if s.len() == 0 {
        Seq::empty()
    } else {
        let i = first_newline(s) as int;
        if i >= s.len() {
            seq![strip_cr(s)]
        } else {
            seq![strip_cr(s.subrange(0, i))] + output_lines(s.subrange(i + 1, s.len() as int))
        }
    }
}

proof fn lemma_first_newline_at(s: Seq<char>, i: int)
    requires
        0 <= i <= s.len(),
        forall|j: int| 0 <= j < i ==> s[j] != '\n',
        i < s.len() ==> s[i] == '\n',
    ensures
        first_newline(s) == i,
    decreases s.len(),
{
    if s.len() == 0 {
    } else if s[0] == '\n' {
        assert(i == 0);
    } else {
        assert(i > 0) by {
            if i == 0 {
                assert(s[0] == '\n');
            }
        }
        let rest = s.subrange(1, s.len() as int);
        assert forall|j: int| 0 <= j < i - 1 implies rest[j] != '\n' by {
            assert(rest[j] == s[j + 1]);
        }
        assert(i - 1 < rest.len() ==> rest[i - 1] == '\n');
        lemma_first_newline_at(rest, i - 1);
    }
}

fn strip_trailing_cr(line: &str) -> (r: String)
    ensures
        r@ == strip_cr(line@),
{
    let n = line.unicode_len();
    if n > 0 && line.get_char(n - 1) == '\r' {
        line.substring_char(0, n - 1).to_owned()
    } else {
        line.to_owned()
    }
}

/// Splits a module's captured standard output into lines, one candidate
/// record path per line, exactly as the engine reads it.
pub fn split_output_lines(output: &str) -> (r: Vec<String>)
    ensures
        r@.len() == output_lines(output@).len(),
        forall|i: int| 0 <= i < r@.len() ==> r@[i]@ == output_lines(output@)[i],
    decreases output@.len(),
{
    let n = output.unicode_len();
    if n == 0 {
        let r: Vec<String> = Vec::new();
        return r;
    }
    let mut i: usize = 0;
    while i < n && output.get_char(i) != '\n'
        invariant
            i <= n,
            n == output@.len(),
            forall|j: int| 0 <= j < i ==> output@[j] != '\n',
        decreases n - i,
    {
        i += 1;
    }
    proof {
        lemma_first_newline_at(output@, i as int);
    }
    if i == n {
        let line = strip_trailing_cr(output);
        let mut r: Vec<String> = Vec::new();
        r.push(line);
        r
    } else {
        let head = output.substring_char(0, i);
        let line = strip_trailing_cr(head);
        let tail = output.substring_char(i + 1, n);
        let mut rest = split_output_lines(tail);
        let ghost rest_snapshot = rest@;
        let mut r: Vec<String> = Vec::new();
        r.push(line);
        r.append(&mut rest);
        proof {
            let spec_lines = output_lines(output@);
            assert(tail@ == output@.subrange(i + 1, output@.len() as int));
            assert(head@ == output@.subrange(0, i as int));
            assert(spec_lines == seq![strip_cr(output@.subrange(0, i as int))] + output_lines(
                output@.subrange(i + 1, output@.len() as int),
            ));
            assert forall|k: int| 0 <= k < r@.len() implies r@[k]@ == spec_lines[k] by {
                if k == 0 {
                    assert(spec_lines[0] == strip_cr(output@.subrange(0, i as int)));
                } else {
                    assert(r@[k] == rest_snapshot[k - 1]);
                    assert(spec_lines[k] == output_lines(
                        output@.subrange(i + 1, output@.len() as int),
                    )[k - 1]);
                }
            }
        }
        r
    }
}

} // verus!
