//! General properties of the transducer, stated over the model and proved.

use vstd::prelude::*;
use crate::chars::{spec_indent_char, spec_whitespace};
use crate::model::{
    lemma_skip_indent_le, lemma_skip_indent_run, spec_close_paren, spec_multiline_close, spec_run,
    spec_inline_open, spec_run_from, spec_skip_indent, spec_spaces, spec_step,
};
use crate::scope::{Scope, Sugar};

verus! {

/// The input with every carriage return removed and nothing else changed.
pub open spec fn without_cr(s: Seq<char>) -> Seq<char>
    decreases s.len(),
{
    if s.len() == 0 {
        Seq::<char>::empty()
    } else if s[0] == '\r' {
        without_cr(s.drop_first())
    } else {
        seq![s[0]] + without_cr(s.drop_first())
    }
}

/// A character that engages none of the transducer's machinery: not a
/// trigger, not a bracket, and — when it counts as indentation — a plain
/// space, so that re-emitting indentation as spaces reproduces it.
pub open spec fn plain_char(c: char) -> bool {
    c != '@' && c != '#' && c != '(' && c != ')' && (spec_indent_char(c) ==> c == ' ')
}

/// On input made of plain characters the transducer is an echo: the output
/// is the input verbatim, except that carriage returns are removed.
pub proof fn lemma_plain_passthrough(input: Seq<char>)
    requires
        forall|k: int| 0 <= k < input.len() ==> plain_char(#[trigger] input[k]),
    ensures
        spec_run(input) == without_cr(input),
{
    lemma_plain_from(input, 0);
    assert(input.subrange(0, input.len() as int) =~= input);
}

/// The induction behind `lemma_plain_passthrough`: from any position on, over
/// the top-level `Plain` scope alone, the rest of the output echoes the rest
/// of the input without its carriage returns.
proof fn lemma_plain_from(input: Seq<char>, i: int)
    requires
        0 <= i <= input.len(),
        forall|k: int| 0 <= k < input.len() ==> plain_char(#[trigger] input[k]),
    ensures
        spec_run_from(input, i, seq![Scope::Plain]) == without_cr(
            input.subrange(i, input.len() as int),
        ),
    decreases input.len() - i,
{
    let stack = seq![Scope::Plain];
    let n = input.len() as int;
    if i == n {
        assert(input.subrange(n, n) =~= Seq::<char>::empty());
    } else {
        let c = input[i];
        assert(plain_char(c));
        let step = spec_step(input, i, stack);
        assert(input.subrange(i, n).len() == n - i);
        assert(input.subrange(i, n)[0] == c);
        assert(input.subrange(i, n).drop_first() =~= input.subrange(i + 1, n));
        if c == '\r' {
            lemma_plain_from(input, i + 1);
            assert(spec_run_from(input, i, stack) =~= spec_run_from(input, i + 1, stack));
        } else if c == '\n' {
            let ind = spec_skip_indent(input, i + 1);
            let j = i + 1 + ind;
            lemma_skip_indent_le(input, i + 1);
            lemma_skip_indent_run(input, i + 1);
            lemma_plain_from(input, j);
            assert(step.0 == stack && step.2 == j);
            assert(step.1 == seq!['\n'] + spec_spaces(ind));
            assert forall|m: int| i + 1 <= m < j implies input[m] == ' ' by {
                assert(spec_indent_char(input[m]));
                assert(plain_char(input[m]));
            }
            lemma_without_cr_spaces(input, i + 1, j);
            assert(without_cr(input.subrange(i, n)) == seq!['\n'] + without_cr(
                input.subrange(i + 1, n),
            ));
            assert(spec_run_from(input, i, stack) == (seq!['\n'] + spec_spaces(ind))
                + without_cr(input.subrange(j, n)));
            assert(spec_run_from(input, i, stack) =~= without_cr(input.subrange(i, n)));
        } else {
            lemma_plain_from(input, i + 1);
            assert(step.0 == stack && step.2 == i + 1);
            assert(step.1 =~= seq![c]);
            assert(without_cr(input.subrange(i, n)) == seq![c] + without_cr(
                input.subrange(i + 1, n),
            ));
            assert(spec_run_from(input, i, stack) =~= without_cr(input.subrange(i, n)));
        }
    }
}

/// A run of spaces passes through `without_cr` unchanged.
proof fn lemma_without_cr_spaces(s: Seq<char>, a: int, b: int)
    requires
        0 <= a <= b <= s.len(),
        forall|m: int| a <= m < b ==> #[trigger] s[m] == ' ',
    ensures
        without_cr(s.subrange(a, s.len() as int)) == spec_spaces((b - a) as nat) + without_cr(
            s.subrange(b, s.len() as int),
        ),
    decreases b - a,
{
    let n = s.len() as int;
    if a == b {
        assert(spec_spaces(0) + without_cr(s.subrange(b, n)) =~= without_cr(s.subrange(b, n)));
    } else {
        lemma_without_cr_spaces(s, a + 1, b);
        assert(s.subrange(a, n).drop_first() =~= s.subrange(a + 1, n));
        assert(s.subrange(a, n)[0] == s[a]);
        assert(s[a] == ' ');
        assert(without_cr(s.subrange(a, n)) == seq![' '] + without_cr(s.subrange(a + 1, n)));
        assert(seq![' '] + (spec_spaces((b - a - 1) as nat) + without_cr(s.subrange(b, n)))
            =~= spec_spaces((b - a) as nat) + without_cr(s.subrange(b, n)));
    }
}

/// A trigger whose line ends with nothing after it opens an indentation
/// block: on a newline, a pending scope becomes a multiline block that
/// captures the indentation of the following line, and the block's open
/// character is emitted after the newline and the indentation.
pub proof fn lemma_pending_newline_opens_block(
    input: Seq<char>,
    i: int,
    stack: Seq<Scope>,
    kind: Sugar,
)
    requires
        0 <= i < input.len(),
        input[i] == '\n',
        stack.len() > 0,
        stack.last() == Scope::Pending(kind),
    ensures
        spec_step(input, i, stack).0 == stack.drop_last().push(
            Scope::Multiline(kind, spec_skip_indent(input, i + 1) as usize),
        ),
        spec_step(input, i, stack).1 == seq!['\n'] + spec_spaces(spec_skip_indent(input, i + 1))
            + seq![kind.spec_start_char(), ' '],
        spec_step(input, i, stack).2 == i + 1 + spec_skip_indent(input, i + 1),
{
}

/// A line whose indentation drops below the innermost multiline block's
/// captured indentation closes that block: its close character is emitted
/// (after a space), the block is popped, and the procedure continues on the
/// rest of the stack.
pub proof fn lemma_dedent_closes_block(stack: Seq<Scope>, kind: Sugar, cur: usize, indent: nat)
    requires
        stack.len() > 0,
        stack.last() == Scope::Multiline(kind, cur),
        indent < cur,
    ensures
        spec_multiline_close(stack, indent).0 == spec_multiline_close(
            stack.drop_last(),
            indent,
        ).0,
        spec_multiline_close(stack, indent).1 == seq![' ', kind.spec_end_char()]
            + spec_multiline_close(stack.drop_last(), indent).1,
{
}

/// A line at exactly the captured indentation of the innermost multiline
/// block is a sibling entry: the stack is unchanged — in particular no second
/// open character is emitted — and the entry is introduced by the separator
/// `, ` after the newline and the indentation.
pub proof fn lemma_sibling_separator(stack: Seq<Scope>, kind: Sugar, indent: usize)
    requires
        stack.len() > 0,
        stack.last() == Scope::Multiline(kind, indent),
    ensures
        spec_multiline_close(stack, indent as nat).0 == stack,
        spec_multiline_close(stack, indent as nat).1 == seq!['\n'] + spec_spaces(indent as nat)
            + seq![',', ' '],
{
}

/// An inline scope closes at the end of its line: on a newline, the scope's
/// close character is emitted after a space and the scope is popped. When no
/// multiline block lies directly beneath it, the newline and the next line's
/// indentation follow.
pub proof fn lemma_inline_closes_at_line_end(
    input: Seq<char>,
    i: int,
    stack: Seq<Scope>,
    kind: Sugar,
)
    requires
        0 <= i < input.len(),
        input[i] == '\n',
        stack.len() > 0,
        stack.last() == Scope::Inline(kind),
        stack.len() > 1 ==> !(stack[stack.len() - 2] is Multiline),
    ensures
        spec_step(input, i, stack).0 == stack.drop_last(),
        spec_step(input, i, stack).1 == seq![' ', kind.spec_end_char()] + seq!['\n']
            + spec_spaces(spec_skip_indent(input, i + 1)),
        spec_step(input, i, stack).2 == i + 1 + spec_skip_indent(input, i + 1),
{
    let popped = stack.drop_last();
    if popped.len() > 0 {
        assert(popped.last() == stack[stack.len() - 2]);
    }
    assert(seq![' ', kind.spec_end_char()] + (seq!['\n'] + spec_spaces(
        spec_skip_indent(input, i + 1),
    )) =~= seq![' ', kind.spec_end_char()] + seq!['\n'] + spec_spaces(
        spec_skip_indent(input, i + 1),
    ));
}

/// A trigger followed by non-whitespace content on its own line becomes an
/// inline scope: the step emits the scope's open character, a space, and the
/// content character itself, and the pending scope resolves to inline.
pub proof fn lemma_trigger_content_opens_inline(
    input: Seq<char>,
    i: int,
    stack: Seq<Scope>,
    kind: Sugar,
)
    requires
        0 <= i < input.len(),
        input[i] != '\r' && input[i] != '\n' && input[i] != '@' && input[i] != '#' && input[i]
            != '(' && input[i] != ')',
        !spec_whitespace(input[i]),
        stack.len() > 0,
        stack.last() == Scope::Pending(kind),
    ensures
        spec_step(input, i, stack).0 == stack.drop_last().push(Scope::Inline(kind)),
        spec_step(input, i, stack).1 == seq![kind.spec_start_char(), ' ', input[i]],
        spec_step(input, i, stack).2 == i + 1,
{
    assert(seq![kind.spec_start_char(), ' '] + seq![input[i]] =~= seq![
        kind.spec_start_char(),
        ' ',
        input[i],
    ]);
}

/// A `)` read while the innermost open scope is an explicit bracket group
/// closes exactly that group: the group is popped and `)` emitted.
pub proof fn lemma_paren_closes_bracket_group(stack: Seq<Scope>)
    requires
        stack.len() > 0,
        stack.last() == Scope::Bracket,
    ensures
        spec_close_paren(stack).0 == stack.drop_last(),
        spec_close_paren(stack).1 == seq![')'],
{
}

/// A `)` read while no explicit bracket group is open anywhere on the stack
/// emits no `)`: the unmatched closer is dropped from the output.
pub proof fn lemma_unmatched_paren_dropped(stack: Seq<Scope>)
    requires
        forall|k: int| 0 <= k < stack.len() ==> !(#[trigger] stack[k] is Bracket),
    ensures
        forall|m: int|
            0 <= m < spec_close_paren(stack).1.len() ==> #[trigger] spec_close_paren(
                stack,
            ).1[m] != ')',
    decreases stack.len(), 1int,
{
    if stack.len() > 0 {
        match stack.last() {
            Scope::Bracket => {
                assert(stack[stack.len() - 1] is Bracket);
            },
            Scope::Plain => {
            },
            Scope::Pending(kind) => {
                lemma_unmatched_paren_recurse(stack);
                lemma_close_paren_emit(stack, kind);
            },
            Scope::Inline(kind) => {
                lemma_unmatched_paren_recurse(stack);
                lemma_close_paren_emit(stack, kind);
            },
            Scope::Multiline(kind, _) => {
                lemma_unmatched_paren_recurse(stack);
                lemma_close_paren_emit(stack, kind);
            },
        }
    }
}

/// Applies the induction hypothesis of `lemma_unmatched_paren_dropped` to the
/// stack with its top scope removed.
proof fn lemma_unmatched_paren_recurse(stack: Seq<Scope>)
    requires
        forall|k: int| 0 <= k < stack.len() ==> !(#[trigger] stack[k] is Bracket),
        stack.len() > 0,
    ensures
        forall|m: int|
            0 <= m < spec_close_paren(stack.drop_last()).1.len() ==> #[trigger] spec_close_paren(
                stack.drop_last(),
            ).1[m] != ')',
    decreases stack.len(), 0int,
{
    let rest = stack.drop_last();
    assert(forall|k: int| 0 <= k < rest.len() ==> !(#[trigger] rest[k] is Bracket)) by {
        assert(forall|k: int| 0 <= k < rest.len() ==> #[trigger] rest[k] == stack[k]);
    }
    lemma_unmatched_paren_dropped(rest);
}

/// Strengthens `lemma_unmatched_paren_dropped` to whole runs: when the input
/// holds no `(` at all, no explicit bracket group ever opens, so no `)` ever
/// reaches the output — every closer in the input is dropped.
pub proof fn lemma_no_paren_in_output(input: Seq<char>)
    requires
        forall|k: int| 0 <= k < input.len() ==> #[trigger] input[k] != '(',
    ensures
        forall|m: int| 0 <= m < spec_run(input).len() ==> #[trigger] spec_run(input)[m] != ')',
{
    let stack = seq![Scope::Plain];
    assert(forall|k: int| 0 <= k < stack.len() ==> !(#[trigger] stack[k] is Bracket));
    lemma_no_paren_from(input, 0, stack);
}

/// The induction behind `lemma_no_paren_in_output`: from any position and any
/// bracket-free stack, the rest of the output holds no `)`.
proof fn lemma_no_paren_from(input: Seq<char>, i: int, stack: Seq<Scope>)
    requires
        0 <= i <= input.len(),
        forall|k: int| 0 <= k < input.len() ==> #[trigger] input[k] != '(',
        forall|k: int| 0 <= k < stack.len() ==> !(#[trigger] stack[k] is Bracket),
    ensures
        forall|m: int|
            0 <= m < spec_run_from(input, i, stack).len() ==> #[trigger] spec_run_from(
                input,
                i,
                stack,
            )[m] != ')',
    decreases input.len() - i,
{
    if i < input.len() {
        lemma_step_props(input, i, stack);
        let step = spec_step(input, i, stack);
        lemma_no_paren_from(input, step.2, step.0);
        let out = spec_run_from(input, i, stack);
        assert(out == step.1 + spec_run_from(input, step.2, step.0));
        assert forall|m: int| 0 <= m < out.len() implies out[m] != ')' by {
            if m < step.1.len() {
                assert(out[m] == step.1[m]);
            } else {
                assert(out[m] == spec_run_from(input, step.2, step.0)[m - step.1.len()]);
            }
        }
    }
}

/// One step on input without `(` and a bracket-free stack makes progress,
/// keeps the stack bracket-free, and emits no `)`.
proof fn lemma_step_props(input: Seq<char>, i: int, stack: Seq<Scope>)
    requires
        0 <= i < input.len(),
        forall|k: int| 0 <= k < input.len() ==> #[trigger] input[k] != '(',
        forall|k: int| 0 <= k < stack.len() ==> !(#[trigger] stack[k] is Bracket),
    ensures
        i < spec_step(input, i, stack).2 <= input.len(),
        forall|k: int|
            0 <= k < spec_step(input, i, stack).0.len() ==> !(#[trigger] spec_step(
                input,
                i,
                stack,
            ).0[k] is Bracket),
        forall|m: int|
            0 <= m < spec_step(input, i, stack).1.len() ==> #[trigger] spec_step(
                input,
                i,
                stack,
            ).1[m] != ')',
{
    let c = input[i];
    let step = spec_step(input, i, stack);
    lemma_skip_indent_le(input, i + 1);
    if c == '\r' {
    } else if c == '@' || c == '#' {
        let kind = Sugar::spec_from_char(c);
        if stack.len() > 0 && (stack.last() matches Scope::Inline(_)) {
            assert(step.0 == stack.drop_last().push(Scope::Pending(kind)));
            assert forall|k: int| 0 <= k < step.0.len() implies !(step.0[k] is Bracket) by {
                if k < stack.len() - 1 {
                    assert(step.0[k] == stack[k]);
                }
            }
        } else {
            assert(step.0 == stack.push(Scope::Pending(kind)));
            assert forall|k: int| 0 <= k < step.0.len() implies !(step.0[k] is Bracket) by {
                if k < stack.len() {
                    assert(step.0[k] == stack[k]);
                }
            }
        }
    } else if c == '\n' {
        let ind = spec_skip_indent(input, i + 1);
        if stack.len() > 0 && (stack.last() matches Scope::Multiline(_, _)) {
            lemma_multiline_close_props(stack, ind);
            let r = spec_multiline_close(stack, ind);
            assert forall|k: int| 0 <= k < step.0.len() implies !(step.0[k] is Bracket) by {
                assert(step.0[k] == r.0[k] && r.0[k] == stack[k]);
            }
        } else if stack.len() > 0 && (stack.last() matches Scope::Pending(_)) {
            assert forall|k: int| 0 <= k < step.0.len() implies !(step.0[k] is Bracket) by {
                if k < stack.len() - 1 {
                    assert(step.0[k] == stack[k]);
                }
            }
            assert forall|m: int| 0 <= m < step.1.len() implies step.1[m] != ')' by {
                if 1 <= m < 1 + ind {
                    assert(step.1[m] == spec_spaces(ind)[m - 1]);
                }
            }
        } else if stack.len() > 0 && (stack.last() matches Scope::Inline(_)) {
            let popped = stack.drop_last();
            assert(forall|k: int| 0 <= k < popped.len() ==> #[trigger] popped[k] == stack[k]);
            if popped.len() > 0 && (popped.last() matches Scope::Multiline(_, _)) {
                lemma_multiline_close_props(popped, ind);
                let r = spec_multiline_close(popped, ind);
                assert(step.0 == r.0);
                assert forall|k: int| 0 <= k < step.0.len() implies !(step.0[k] is Bracket) by {
                    assert(r.0[k] == popped[k]);
                }
                assert forall|m: int| 0 <= m < step.1.len() implies step.1[m] != ')' by {
                    if m >= 2 {
                        assert(step.1[m] == r.1[m - 2]);
                    }
                }
            } else {
                assert forall|m: int| 0 <= m < step.1.len() implies step.1[m] != ')' by {
                    if 3 <= m {
                        assert(step.1[m] == spec_spaces(ind)[m - 3]);
                    }
                }
            }
        } else {
            assert forall|m: int| 0 <= m < step.1.len() implies step.1[m] != ')' by {
                if 1 <= m {
                    assert(step.1[m] == spec_spaces(ind)[m - 1]);
                }
            }
        }
    } else if c == ')' {
        lemma_unmatched_paren_dropped(stack);
        lemma_close_paren_prefix(stack);
        let r = spec_close_paren(stack);
        assert forall|k: int| 0 <= k < step.0.len() implies !(step.0[k] is Bracket) by {
            assert(r.0[k] == stack[k]);
        }
    } else {
        assert(c != '(');
        let opened = spec_inline_open(stack, c);
        assert(step.0 == opened.0);
        if stack.len() > 0 && (stack.last() matches Scope::Pending(_)) && !spec_whitespace(c) {
            assert forall|k: int| 0 <= k < step.0.len() implies !(step.0[k] is Bracket) by {
                if k < stack.len() - 1 {
                    assert(step.0[k] == stack[k]);
                }
            }
        } else {
            assert(opened.0 == stack);
        }
        assert forall|m: int| 0 <= m < step.1.len() implies step.1[m] != ')' by {
            if m == step.1.len() - 1 {
                assert(step.1[m] == c);
            } else {
                assert(step.1[m] == opened.1[m]);
            }
        }
    }
}

/// The multiline close procedure leaves a prefix of the stack in place and
/// emits only close characters, newlines, spaces and separators — never `)`.
proof fn lemma_multiline_close_props(stack: Seq<Scope>, indent: nat)
    ensures
        spec_multiline_close(stack, indent).0.len() <= stack.len(),
        forall|k: int|
            0 <= k < spec_multiline_close(stack, indent).0.len() ==> #[trigger] spec_multiline_close(
                stack,
                indent,
            ).0[k] == stack[k],
        forall|m: int|
            0 <= m < spec_multiline_close(stack, indent).1.len() ==> #[trigger] spec_multiline_close(
                stack,
                indent,
            ).1[m] != ')',
    decreases stack.len(),
{
    let r = spec_multiline_close(stack, indent);
    if stack.len() > 0 && (stack.last() matches Scope::Multiline(_, _)) {
        match stack.last() {
            Scope::Multiline(kind, cur) => {
                if indent < cur {
                    lemma_multiline_close_props(stack.drop_last(), indent);
                    let rr = spec_multiline_close(stack.drop_last(), indent);
                    assert forall|k: int| 0 <= k < r.0.len() implies r.0[k] == stack[k] by {
                        assert(r.0[k] == rr.0[k] && rr.0[k] == stack.drop_last()[k]);
                    }
                    assert forall|m: int| 0 <= m < r.1.len() implies r.1[m] != ')' by {
                        if m >= 2 {
                            assert(r.1[m] == rr.1[m - 2]);
                        }
                    }
                } else {
                    assert forall|m: int| 0 <= m < r.1.len() implies r.1[m] != ')' by {
                        if 1 <= m < 1 + indent {
                            assert(r.1[m] == spec_spaces(indent)[m - 1]);
                        }
                    }
                }
            },
            _ => {
            },
        }
    } else {
        assert forall|m: int| 0 <= m < r.1.len() implies r.1[m] != ')' by {
            if 1 <= m {
                assert(r.1[m] == spec_spaces(indent)[m - 1]);
            }
        }
    }
}

/// The `)` procedure leaves a prefix of the stack in place.
proof fn lemma_close_paren_prefix(stack: Seq<Scope>)
    ensures
        spec_close_paren(stack).0.len() <= stack.len(),
        forall|k: int|
            0 <= k < spec_close_paren(stack).0.len() ==> #[trigger] spec_close_paren(
                stack,
            ).0[k] == stack[k],
    decreases stack.len(),
{
    if stack.len() > 0 {
        match stack.last() {
            Scope::Bracket => {
            },
            Scope::Plain => {
            },
            _ => {
                lemma_close_paren_prefix(stack.drop_last());
                let r = spec_close_paren(stack);
                let rr = spec_close_paren(stack.drop_last());
                assert forall|k: int| 0 <= k < r.0.len() implies r.0[k] == stack[k] by {
                    assert(r.0[k] == rr.0[k] && rr.0[k] == stack.drop_last()[k]);
                }
            },
        }
    }
}

/// A sugar scope on top of the stack is closed with a space and its close
/// character, neither of which is `)`; the rest of the emitted text comes
/// from the shortened stack.
proof fn lemma_close_paren_emit(stack: Seq<Scope>, kind: Sugar)
    requires
        stack.len() > 0,
        stack.last() == Scope::Pending(kind) || stack.last() == Scope::Inline(kind)
            || (stack.last() matches Scope::Multiline(k, _) && k == kind),
        forall|m: int|
            0 <= m < spec_close_paren(stack.drop_last()).1.len() ==> #[trigger] spec_close_paren(
                stack.drop_last(),
            ).1[m] != ')',
    ensures
        forall|m: int|
            0 <= m < spec_close_paren(stack).1.len() ==> #[trigger] spec_close_paren(
                stack,
            ).1[m] != ')',
{
    let r = spec_close_paren(stack.drop_last());
    let out = spec_close_paren(stack).1;
    assert(out == seq![' ', kind.spec_end_char()] + r.1);
    assert forall|m: int| 0 <= m < out.len() implies out[m] != ')' by {
        if m >= 2 {
            assert(out[m] == r.1[m - 2]);
        }
    }
}

} // verus!

