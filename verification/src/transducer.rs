//! The executable transducer, verified against the model in `model`: `run`
//! emits exactly the characters that `spec_run` describes.

use vstd::prelude::*;
use crate::chars::{is_indent_char, is_whitespace_char};
use crate::model::{
    spec_close_paren, spec_multiline_close, spec_run, spec_run_from, spec_skip_indent, spec_spaces,
    spec_step,
};
use crate::scope::{Scope, StateStack, Sugar};

verus! {

/// Counts the indentation characters in `input` starting at `start`: the
/// length of the run of whitespace, non-control characters that begins there.
pub fn skip_indent(input: &Vec<char>, start: usize) -> (count: usize)
    requires
        start <= input@.len(),
    ensures
        count == spec_skip_indent(input@, start as int),
        start + count <= input@.len(),
{
    let mut i: usize = start;
    while i < input.len() && is_indent_char(input[i])
        invariant
            start <= i <= input@.len(),
            spec_skip_indent(input@, start as int) == i - start + spec_skip_indent(
                input@,
                i as int,
            ),
        decreases input@.len() - i,
    {
        i = i + 1;
    }
    i - start
}

/// Appends `indent` space characters to the output.
pub fn write_indent(out_file: &mut Vec<char>, indent: usize)
    ensures
        final(out_file)@ == old(out_file)@ + spec_spaces(indent as nat),
{
    let mut k: usize = 0;
    proof {
        assert(out_file@ =~= old(out_file)@ + spec_spaces(0));
    }
    while k < indent
        invariant
            k <= indent,
            out_file@ == old(out_file)@ + spec_spaces(k as nat),
        decreases indent - k,
    {
        out_file.push(' ');
        k = k + 1;
        proof {
            assert(out_file@ =~= old(out_file)@ + spec_spaces(k as nat));
        }
    }
}

/// Runs the multiline close procedure after a newline, given the indentation
/// `indent` of the line that follows: closes every multiline block whose
/// captured indentation exceeds `indent`, then emits the newline, the
/// re-emitted indentation, and a sibling separator when the innermost
/// remaining block sits at exactly `indent`.
///
/// The bottom of the stack is never a multiline block, so the procedure
/// always stops before the stack empties.
pub fn process_multiline_newline(
    state_stack: &mut StateStack,
    out_file: &mut Vec<char>,
    indent: usize,
)
    requires
        old(state_stack)@.len() >= 1,
        !(old(state_stack)@[0] is Multiline),
    ensures
        final(state_stack)@ == spec_multiline_close(old(state_stack)@, indent as nat).0,
        final(out_file)@ == old(out_file)@ + spec_multiline_close(
            old(state_stack)@,
            indent as nat,
        ).1,
        final(state_stack)@.len() >= 1,
        final(state_stack)@[0] == old(state_stack)@[0],
{
    let ghost orig_stack = state_stack@;
    let ghost orig_out = out_file@;
    loop
        invariant_except_break
            orig_out + spec_multiline_close(orig_stack, indent as nat).1 == out_file@
                + spec_multiline_close(state_stack@, indent as nat).1,
        invariant
            state_stack@.len() >= 1,
            state_stack@[0] == orig_stack[0],
            !(state_stack@[0] is Multiline),
            orig_stack[0] == old(state_stack)@[0],
            orig_out == old(out_file)@,
            spec_multiline_close(orig_stack, indent as nat).0 == spec_multiline_close(
                state_stack@,
                indent as nat,
            ).0,
        ensures
            state_stack@ == spec_multiline_close(orig_stack, indent as nat).0,
            out_file@ == orig_out + spec_multiline_close(orig_stack, indent as nat).1,
            state_stack@.len() >= 1,
            state_stack@[0] == orig_stack[0],
        decreases state_stack@.len(),
    {
        let ghost cur = state_stack@;
        let ghost out_was = out_file@;
        let state = state_stack.top();
        match state {
            Scope::Multiline(sugar, cur_indent) => {
                if indent < cur_indent {
                    out_file.push(' ');
                    out_file.push(sugar.end_char());
                    state_stack.pop();
                    proof {
                        let r = spec_multiline_close(cur.drop_last(), indent as nat);
                        assert(spec_multiline_close(cur, indent as nat).1 == seq![
                            ' ',
                            sugar.spec_end_char(),
                        ] + r.1);
                        assert(out_file@ + r.1 =~= out_was + spec_multiline_close(
                            cur,
                            indent as nat,
                        ).1);
                    }
                } else {
                    out_file.push('\n');
                    write_indent(out_file, indent);
                    if indent == cur_indent {
                        out_file.push(',');
                        out_file.push(' ');
                        proof {
                            assert(out_file@ =~= out_was + (seq!['\n'] + spec_spaces(indent as nat)
                                + seq![',', ' ']));
                        }
                    } else {
                        proof {
                            assert(out_file@ =~= out_was + (seq!['\n'] + spec_spaces(
                                indent as nat,
                            )));
                        }
                    }
                    break;
                }
            },
            _ => {
                out_file.push('\n');
                write_indent(out_file, indent);
                proof {
                    assert(out_file@ =~= out_was + (seq!['\n'] + spec_spaces(indent as nat)));
                }
                break;
            },
        }
    }
}

/// Consumes `input` once, from start to end, and returns the transduced
/// output: the sugar notation expanded to explicit brackets, exactly as the
/// model `spec_run` describes.
pub fn run(input: &Vec<char>) -> (out: Vec<char>)
    ensures
        out@ == spec_run(input@),
{
    let mut out_file: Vec<char> = Vec::new();
    let mut state_stack = StateStack::new();
    state_stack.push(Scope::Plain);
    let mut i: usize = 0;
    proof {
        assert(state_stack@ =~= seq![Scope::Plain]);
        assert(out_file@ + spec_run_from(input@, 0, state_stack@) =~= spec_run(input@));
    }
    while i < input.len()
        invariant
            i <= input@.len(),
            state_stack@.len() >= 1,
            state_stack@[0] == Scope::Plain,
            spec_run(input@) == out_file@ + spec_run_from(input@, i as int, state_stack@),
        decreases input@.len() - i,
    {
        let ghost stack0 = state_stack@;
        let ghost out0 = out_file@;
        let ghost i0 = i as int;
        let state = state_stack.top();
        let c = input[i];
        if c == '\r' {
            i = i + 1;
        } else if c == '@' || c == '#' {
            let new_sugar = Sugar::from_char(c);
            match state {
                Scope::Inline(sugar) => {
                    out_file.push(sugar.end_char());
                    state_stack.pop();
                    state_stack.push(Scope::Pending(new_sugar));
                    i = i + 1;
                },
                _ => {
                    state_stack.push(Scope::Pending(new_sugar));
                    i = i + 1;
                    if i < input.len() && is_indent_char(input[i]) {
                        i = i + 1;
                    }
                },
            }
        } else if c == '\n' {
            let indent = skip_indent(input, i + 1);
            i = i + 1 + indent;
            match state {
                Scope::Multiline(_, _) => {
                    process_multiline_newline(&mut state_stack, &mut out_file, indent);
                },
                Scope::Pending(sugar) => {
                    state_stack.pop();
                    state_stack.push(Scope::Multiline(sugar, indent));
                    out_file.push('\n');
                    write_indent(&mut out_file, indent);
                    out_file.push(sugar.start_char());
                    out_file.push(' ');
                },
                Scope::Inline(sugar) => {
                    out_file.push(' ');
                    out_file.push(sugar.end_char());
                    state_stack.pop();
                    let below = state_stack.top();
                    match below {
                        Scope::Multiline(_, _) => {
                            process_multiline_newline(&mut state_stack, &mut out_file, indent);
                        },
                        _ => {
                            out_file.push('\n');
                            write_indent(&mut out_file, indent);
                        },
                    }
                },
                _ => {
                    out_file.push('\n');
                    write_indent(&mut out_file, indent);
                },
            }
        } else if c == ')' {
            i = i + 1;
            loop
                invariant_except_break
                    spec_close_paren(stack0).0 == spec_close_paren(state_stack@).0,
                    out0 + spec_close_paren(stack0).1 == out_file@ + spec_close_paren(
                        state_stack@,
                    ).1,
                invariant
                    state_stack@.len() >= 1,
                    state_stack@[0] == Scope::Plain,
                ensures
                    state_stack@ == spec_close_paren(stack0).0,
                    out_file@ == out0 + spec_close_paren(stack0).1,
                    state_stack@.len() >= 1,
                    state_stack@[0] == Scope::Plain,
                decreases state_stack@.len(),
            {
                let ghost cur = state_stack@;
                let ghost out_was = out_file@;
                let t = state_stack.top();
                match t {
                    Scope::Bracket => {
                        state_stack.pop();
                        out_file.push(')');
                        proof {
                            assert(out_file@ =~= out_was + seq![')']);
                        }
                        break;
                    },
                    Scope::Plain => {
                        proof {
                            assert(out_file@ =~= out_was + Seq::<char>::empty());
                        }
                        break;
                    },
                    Scope::Pending(sugar) => {
                        out_file.push(' ');
                        out_file.push(sugar.end_char());
                        state_stack.pop();
                        proof {
                            let r = spec_close_paren(cur.drop_last());
                            assert(out_file@ + r.1 =~= out_was + spec_close_paren(cur).1);
                        }
                    },
                    Scope::Inline(sugar) => {
                        out_file.push(' ');
                        out_file.push(sugar.end_char());
                        state_stack.pop();
                        proof {
                            let r = spec_close_paren(cur.drop_last());
                            assert(out_file@ + r.1 =~= out_was + spec_close_paren(cur).1);
                        }
                    },
                    Scope::Multiline(sugar, _) => {
                        out_file.push(' ');
                        out_file.push(sugar.end_char());
                        state_stack.pop();
                        proof {
                            let r = spec_close_paren(cur.drop_last());
                            assert(out_file@ + r.1 =~= out_was + spec_close_paren(cur).1);
                        }
                    },
                }
            }
        } else {
            match state {
                Scope::Pending(sugar) => {
                    if !is_whitespace_char(c) {
                        state_stack.pop();
                        state_stack.push(Scope::Inline(sugar));
                        out_file.push(sugar.start_char());
                        out_file.push(' ');
                    }
                },
                _ => {},
            }
            if c == '(' {
                state_stack.push(Scope::Bracket);
            }
            out_file.push(c);
            i = i + 1;
        }
        proof {
            let step = spec_step(input@, i0, stack0);
            assert(state_stack@ == step.0);
            assert(out_file@ =~= out0 + step.1);
            assert(i as int == step.2);
            assert(spec_run_from(input@, i0, stack0) == step.1 + spec_run_from(
                input@,
                step.2,
                step.0,
            ));
            assert(out_file@ + spec_run_from(input@, i as int, state_stack@) =~= out0
                + spec_run_from(input@, i0, stack0));
        }
    }
    proof {
        assert(out_file@ + spec_run_from(input@, i as int, state_stack@) =~= out_file@);
    }
    out_file
}

} // verus!
