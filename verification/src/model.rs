//! The mathematical model of the transducer: a character-level state machine
//! over a sequence of open scopes, defined as spec functions. The executable
//! transducer is proved to emit exactly what this model describes.

use vstd::prelude::*;
use crate::chars::{spec_indent_char, spec_whitespace};
use crate::scope::{Scope, Sugar};

verus! {

/// `n` space characters: the indentation the transducer re-emits after a
/// newline.
pub open spec fn spec_spaces(n: nat) -> Seq<char> {
    Seq::new(n, |k: int| ' ')
}

/// The number of indentation characters in `s` starting at `i`: the length of
/// the run of whitespace, non-control characters that begins there.
pub open spec fn spec_skip_indent(s: Seq<char>, i: int) -> nat
    decreases s.len() - i,
{
    if 0 <= i && i < s.len() && spec_indent_char(s[i]) {
        (1 + spec_skip_indent(s, i + 1)) as nat
    } else {
        0
    }
}

/// The indentation run never extends past the end of the input.
pub proof fn lemma_skip_indent_le(s: Seq<char>, i: int)
    requires
        0 <= i <= s.len(),
    ensures
        spec_skip_indent(s, i) <= s.len() - i,
    decreases s.len() - i,
{
    if i < s.len() && spec_indent_char(s[i]) {
        lemma_skip_indent_le(s, i + 1);
    }
}

/// Every character inside the indentation run is an indentation character.
pub proof fn lemma_skip_indent_run(s: Seq<char>, i: int)
    requires
        0 <= i <= s.len(),
    ensures
        forall|m: int|
            i <= m < i + spec_skip_indent(s, i) ==> spec_indent_char(#[trigger] s[m]),
    decreases s.len() - i,
{
    if i < s.len() && spec_indent_char(s[i]) {
        lemma_skip_indent_run(s, i + 1);
    }
}

/// What a newline does while the innermost open scope is a multiline block,
/// given the indentation `indent` of the next line. Blocks whose captured
/// indentation exceeds `indent` are closed innermost-first, each with a space
/// and its close character. The first remaining level then decides the rest of
/// the output: a block at exactly `indent` receives a sibling separator `, `
/// after the newline and the re-emitted indentation, anything else just the
/// newline and the indentation. Returns the new stack and the emitted text.
pub open spec fn spec_multiline_close(stack: Seq<Scope>, indent: nat) -> (Seq<Scope>, Seq<char>)
    decreases stack.len(),
{
    if stack.len() > 0 {
        match stack.last() {
            Scope::Multiline(kind, cur) => {
                if indent < cur {
                    let r = spec_multiline_close(stack.drop_last(), indent);
                    (r.0, seq![' ', kind.spec_end_char()] + r.1)
                } else if indent == cur {
                    (stack, seq!['\n'] + spec_spaces(indent) + seq![',', ' '])
                } else {
                    (stack, seq!['\n'] + spec_spaces(indent))
                }
            },
            _ => (stack, seq!['\n'] + spec_spaces(indent)),
        }
    } else {
        (stack, seq!['\n'] + spec_spaces(indent))
    }
}

/// What a `)` does: every open sugar scope above the nearest explicit bracket
/// group is closed with a space and its close character; a bracket group is
/// then popped and `)` emitted. When the bottom `Plain` level is reached
/// before any bracket group, the `)` itself is dropped and nothing more is
/// emitted. Returns the new stack and the emitted text.
pub open spec fn spec_close_paren(stack: Seq<Scope>) -> (Seq<Scope>, Seq<char>)
    decreases stack.len(),
{
    if stack.len() > 0 {
        match stack.last() {
            Scope::Bracket => (stack.drop_last(), seq![')']),
            Scope::Pending(kind) => {
                let r = spec_close_paren(stack.drop_last());
                (r.0, seq![' ', kind.spec_end_char()] + r.1)
            },
            Scope::Inline(kind) => {
                let r = spec_close_paren(stack.drop_last());
                (r.0, seq![' ', kind.spec_end_char()] + r.1)
            },
            Scope::Multiline(kind, _) => {
                let r = spec_close_paren(stack.drop_last());
                (r.0, seq![' ', kind.spec_end_char()] + r.1)
            },
            Scope::Plain => (stack, Seq::empty()),
        }
    } else {
        (stack, Seq::empty())
    }
}

/// What a trigger does when the innermost scope is not inline: a pending
/// scope is pushed, and one immediately following indentation character (a
/// separator between the trigger and its content) is swallowed.
pub open spec fn spec_trigger_push(input: Seq<char>, i: int, stack: Seq<Scope>, kind: Sugar) -> (
    Seq<Scope>,
    Seq<char>,
    int,
) {
    if i + 1 < input.len() && spec_indent_char(input[i + 1]) {
        (stack.push(Scope::Pending(kind)), Seq::empty(), i + 2)
    } else {
        (stack.push(Scope::Pending(kind)), Seq::empty(), i + 1)
    }
}

/// What an ordinary character does to a pending scope: the first
/// non-whitespace character after a trigger resolves it to an inline scope
/// and emits the open character and a space; whitespace leaves it pending.
pub open spec fn spec_inline_open(stack: Seq<Scope>, c: char) -> (Seq<Scope>, Seq<char>) {
    if stack.len() > 0 {
        match stack.last() {
            Scope::Pending(kind) => {
                if !spec_whitespace(c) {
                    (stack.drop_last().push(Scope::Inline(kind)), seq![kind.spec_start_char(), ' '])
                } else {
                    (stack, Seq::<char>::empty())
                }
            },
            _ => (stack, Seq::<char>::empty()),
        }
    } else {
        (stack, Seq::<char>::empty())
    }
}

/// One step of the transducer at position `i` of `input` with scope stack
/// `stack`: the new stack, the characters emitted, and the next position.
/// A carriage return is discarded. A trigger either closes an inline scope it
/// directly follows (emitting that scope's close character before the new
/// pending scope), or pushes a pending scope and swallows one separator. A
/// newline first consumes the following indentation run, then resolves a
/// pending scope to a multiline block, closes an inline scope, or runs the
/// multiline close procedure. A `)` unwinds to the nearest bracket group. Any
/// other character may resolve a pending scope to inline, opens a bracket
/// group if it is `(`, and is echoed.
pub open spec fn spec_step(input: Seq<char>, i: int, stack: Seq<Scope>) -> (
    Seq<Scope>,
    Seq<char>,
    int,
)
    recommends
        0 <= i < input.len(),
{
    let c = input[i];
    if c == '\r' {
        (stack, Seq::<char>::empty(), i + 1)
    } else if c == '@' || c == '#' {
        let kind = Sugar::spec_from_char(c);
        if stack.len() > 0 && (stack.last() matches Scope::Inline(_)) {
            match stack.last() {
                Scope::Inline(open_kind) => (
                    stack.drop_last().push(Scope::Pending(kind)),
                    seq![open_kind.spec_end_char()],
                    i + 1,
                ),
                _ => spec_trigger_push(input, i, stack, kind),
            }
        } else {
            spec_trigger_push(input, i, stack, kind)
        }
    } else if c == '\n' {
        let ind = spec_skip_indent(input, i + 1);
        let j = i + 1 + ind;
        if stack.len() > 0 {
            match stack.last() {
                Scope::Multiline(_, _) => {
                    let r = spec_multiline_close(stack, ind);
                    (r.0, r.1, j)
                },
                Scope::Pending(kind) => (
                    stack.drop_last().push(Scope::Multiline(kind, ind as usize)),
                    seq!['\n'] + spec_spaces(ind) + seq![kind.spec_start_char(), ' '],
                    j,
                ),
                Scope::Inline(kind) => {
                    let popped = stack.drop_last();
                    let closed = seq![' ', kind.spec_end_char()];
                    if popped.len() > 0 && (popped.last() matches Scope::Multiline(_, _)) {
                        let r = spec_multiline_close(popped, ind);
                        (r.0, closed + r.1, j)
                    } else {
                        (popped, closed + seq!['\n'] + spec_spaces(ind), j)
                    }
                },
                _ => (stack, seq!['\n'] + spec_spaces(ind), j),
            }
        } else {
            (stack, seq!['\n'] + spec_spaces(ind), j)
        }
    } else if c == ')' {
        let r = spec_close_paren(stack);
        (r.0, r.1, i + 1)
    } else {
        let opened = spec_inline_open(stack, c);
        let pushed = if c == '(' {
            opened.0.push(Scope::Bracket)
        } else {
            opened.0
        };
        (pushed, opened.1 + seq![c], i + 1)
    }
}

/// The characters the transducer emits while consuming `input` from position
/// `i` to the end, starting with scope stack `stack`.
pub open spec fn spec_run_from(input: Seq<char>, i: int, stack: Seq<Scope>) -> Seq<char>
    decreases input.len() - i,
    via spec_run_from_decreases
{
    if 0 <= i && i < input.len() {
        let r = spec_step(input, i, stack);
        r.1 + spec_run_from(input, r.2, r.0)
    } else {
        Seq::<char>::empty()
    }
}

#[via_fn]
proof fn spec_run_from_decreases(input: Seq<char>, i: int, stack: Seq<Scope>) {
    if 0 <= i && i < input.len() {
        lemma_skip_indent_le(input, i + 1);
    }
}

/// The full output of the transducer on `input`, starting from the single
/// top-level `Plain` scope.
pub open spec fn spec_run(input: Seq<char>) -> Seq<char> {
    spec_run_from(input, 0, seq![Scope::Plain])
}

} // verus!
