//! What holds of every text and of every program.

use crate::ast::{BlockView, ExprView, StatementView};
use crate::decimal::{canonical, is_canonical, is_literal, lemma_canonical, lemma_literal_parts};
use crate::parse::{column_of, line_breaks, line_of, line_start};
use crate::eval::{
    body, eval, is_main, lookup, main_test, mains, perform, perform_from, run, Bindings,
    EvalFault, TreeView,
};
use crate::grammar;
use crate::extension::{extends, lemma_blanks_kept, lemma_blocks_kept};
use crate::grammar::{
    blank_end, block, lemma_blocks_stay, program, var, word_end, Expected, Fault, Outcome,
};
use crate::lex::{is_blank, is_identifier, lemma_run, lemma_run_is, CharClass};
use crate::render::rendering;
use vstd::prelude::*;

verus! {

/// The name that a statement binds.
pub open spec fn bound_name(statement: StatementView) -> Seq<char> {
    match statement {
        StatementView::Assign(_, name, _) => name,
    }
}

/// Whether a statement may bind a name that is bound already.
pub open spec fn may_rebind(statement: StatementView) -> bool {
    match statement {
        StatementView::Assign(mutable, _, _) => mutable,
    }
}

/// The expression whose value a statement binds.
pub open spec fn bound_value(statement: StatementView) -> ExprView {
    match statement {
        StatementView::Assign(_, _, value) => value,
    }
}

/// A name has a value exactly where a binding of it stands among the bindings.
pub proof fn lemma_lookup(env: Bindings, name: Seq<char>)
    ensures
        lookup(env, name) is Some <==> exists|i: int| 0 <= i < env.len() && (#[trigger] env[i]).0
            == name,
    decreases env.len(),
{
    if env.len() > 0 {
        let front = env.drop_last();
        lemma_lookup(front, name);
        if env.last().0 == name {
            assert(env[env.len() - 1].0 == name);
        } else if lookup(front, name) is Some {
            let i = choose|i: int| 0 <= i < front.len() && (#[trigger] front[i]).0 == name;
            assert(env[i].0 == name);
        } else {
            assert forall|i: int| 0 <= i < env.len() implies (#[trigger] env[i]).0 != name by {
                if i < front.len() {
                    assert(front[i].0 == name ==> false);
                }
            }
        }
    }
}

/// Statements that are performed without error add one binding each, of
/// their names in their order, after the bindings that were there.
pub proof fn lemma_perform_binds(list: Seq<StatementView>, from: int, env: Bindings)
    requires
        0 <= from <= list.len(),
        perform_from(list, from, env) is Ok,
    ensures
        ({
            let after = perform_from(list, from, env)->Ok_0;
            &&& after.len() == env.len() + list.len() - from
            &&& forall|i: int| 0 <= i < env.len() ==> after[i] == env[i]
            &&& forall|k: int|
                env.len() <= k < after.len() ==> (#[trigger] after[k]).0 == bound_name(
                    list[from + k - env.len()],
                )
        }),
    decreases list.len() - from,
{
    if from < list.len() {
        let tree = eval(env, bound_value(list[from]))->Ok_0;
        let next = env.push((bound_name(list[from]), tree));
        lemma_perform_binds(list, from + 1, next);
        let after = perform_from(list, from, env)->Ok_0;
        assert forall|i: int| 0 <= i < env.len() implies after[i] == env[i] by {
            assert(next[i] == env[i]);
        }
        assert forall|k: int| env.len() <= k < after.len() implies (#[trigger] after[k]).0
            == bound_name(list[from + k - env.len()]) by {
            if k == env.len() {
                assert(after[k] == next[k]);
            }
        }
    }
}

/// To perform statements is to perform the first `at` of them and then, from
/// the bindings that these have made, the rest; an error among the first `at`
/// is the error of them all.
pub proof fn lemma_perform_split(list: Seq<StatementView>, from: int, at: int, env: Bindings)
    requires
        0 <= from <= at <= list.len(),
    ensures
        perform_from(list, from, env) == match perform_from(list.take(at), from, env) {
            Ok(made) => perform_from(list, at, made),
            Err(fault) => Err(fault),
        },
    decreases at - from,
{
    if from < at {
        assert(list.take(at)[from] == list[from]);
        match list[from] {
            StatementView::Assign(mutable, name, value) => {
                if !(!mutable && lookup(env, name) is Some) {
                    match eval(env, value) {
                        Ok(tree) => {
                            lemma_perform_split(list, from + 1, at, env.push((name, tree)));
                        },
                        Err(_) => {},
                    }
                }
            },
        }
    }
}

/// A name is bound once. Where the statements before the one at `at` are
/// performed without error, and one of them binds the name that the statement
/// at `at` binds, which may not rebind: then the statements fail, and the error
/// names that name, whatever it is bound to and whatever was to be bound.
pub proof fn law_redefinition_is_rejected(list: Seq<StatementView>, earlier: int, at: int)
    requires
        0 <= earlier < at < list.len(),
        perform(list.take(at)) is Ok,
        bound_name(list[earlier]) == bound_name(list[at]),
        !may_rebind(list[at]),
    ensures
        perform(list) == Err::<Bindings, EvalFault>(EvalFault::Redefinition(bound_name(list[at]))),
{
    let first = list.take(at);
    let env = perform(first)->Ok_0;
    lemma_perform_split(list, 0, at, Seq::empty());
    lemma_perform_binds(first, 0, Seq::empty());
    assert(env[earlier].0 == bound_name(first[earlier]));
    lemma_lookup(env, bound_name(list[at]));
}

/// A variable is bound before it is referred to. Where the statements
/// before the one at `at` are performed without error and none of them binds
/// `x`, and the statement at `at` binds the value of the variable `x` to a name
/// that it may bind: then the statements fail, and the error names `x`.
pub proof fn law_reference_before_definition_is_rejected(
    list: Seq<StatementView>,
    at: int,
    x: Seq<char>,
)
    requires
        0 <= at < list.len(),
        perform(list.take(at)) is Ok,
        forall|j: int| 0 <= j < at ==> bound_name(#[trigger] list[j]) != x,
        bound_value(list[at]) == ExprView::Var(x),
        may_rebind(list[at]) || forall|j: int|
            0 <= j < at ==> bound_name(#[trigger] list[j]) != bound_name(list[at]),
    ensures
        perform(list) == Err::<Bindings, EvalFault>(EvalFault::UndefinedVariable(x)),
{
    let first = list.take(at);
    let env = perform(first)->Ok_0;
    lemma_perform_split(list, 0, at, Seq::empty());
    lemma_perform_binds(first, 0, Seq::empty());
    lemma_lookup(env, x);
    lemma_lookup(env, bound_name(list[at]));
    assert forall|i: int| 0 <= i < env.len() implies (#[trigger] env[i]).0 != x by {
        assert(env[i].0 == bound_name(first[i]));
        assert(first[i] == list[i]);
    }
    if !may_rebind(list[at]) {
        assert forall|i: int| 0 <= i < env.len() implies (#[trigger] env[i]).0 != bound_name(
            list[at],
        ) by {
            assert(env[i].0 == bound_name(first[i]));
            assert(first[i] == list[i]);
        }
    }
}

/// Whether no two bindings are of the same name.
pub open spec fn names_differ(env: Bindings) -> bool {
    forall|i: int, j: int|
        0 <= i < j < env.len() ==> (#[trigger] env[i]).0 != (#[trigger] env[j]).0
}

/// Statements that may not rebind, performed from bindings of different
/// names, leave bindings of different names.
pub proof fn lemma_names_stay_different(list: Seq<StatementView>, from: int, env: Bindings)
    requires
        0 <= from <= list.len(),
        names_differ(env),
        forall|k: int| from <= k < list.len() ==> !may_rebind(#[trigger] list[k]),
        perform_from(list, from, env) is Ok,
    ensures
        names_differ(perform_from(list, from, env)->Ok_0),
    decreases list.len() - from,
{
    if from < list.len() {
        assert(!may_rebind(list[from]));
        let name = bound_name(list[from]);
        let tree = eval(env, bound_value(list[from]))->Ok_0;
        let next = env.push((name, tree));
        lemma_lookup(env, name);
        assert(names_differ(next)) by {
            assert forall|i: int, j: int| 0 <= i < j < next.len() implies (#[trigger] next[i]).0
                != (#[trigger] next[j]).0 by {
                assert(next[i] == env[i]);
                if j < env.len() {
                    assert(next[j] == env[j]);
                }
            }
        }
        lemma_names_stay_different(list, from + 1, next);
    }
}

/// Bindings are made once and in order. The bindings that statements make
/// which may not rebind are one for each statement, in the order of the
/// statements, and no two of them are of the same name.
pub proof fn law_names_are_bound_once(list: Seq<StatementView>)
    requires
        forall|k: int| 0 <= k < list.len() ==> !may_rebind(#[trigger] list[k]),
        perform(list) is Ok,
    ensures
        perform(list)->Ok_0.len() == list.len(),
        forall|k: int|
            0 <= k < list.len() ==> (#[trigger] perform(list)->Ok_0[k]).0 == bound_name(list[k]),
        names_differ(perform(list)->Ok_0),
{
    lemma_perform_binds(list, 0, Seq::empty());
    lemma_names_stay_different(list, 0, Seq::empty());
}

/// The entry points among the first `upto` blocks are as many as the blocks
/// among them that are entry points, counted one by one.
pub open spec fn count_mains(blocks: Seq<BlockView>, upto: int) -> nat
    decreases upto,
{
    if upto <= 0 {
        0
    } else if is_main(blocks[upto - 1]) {
        count_mains(blocks, upto - 1) + 1
    } else {
        count_mains(blocks, upto - 1)
    }
}

/// The entry points among the first `upto` blocks are `count_mains` many.
proof fn lemma_count_mains(blocks: Seq<BlockView>, upto: int)
    requires
        0 <= upto <= blocks.len(),
    ensures
        mains(blocks.take(upto)).len() == count_mains(blocks, upto),
    decreases upto,
{
    reveal(Seq::filter);
    if upto > 0 {
        lemma_count_mains(blocks, upto - 1);
        assert(blocks.take(upto) == blocks.take(upto - 1).push(blocks[upto - 1]));
        blocks.take(upto - 1).lemma_filter_push(blocks[upto - 1], main_test());
    }
}

/// The count of entry points does not fall as more blocks are counted.
proof fn lemma_count_grows(blocks: Seq<BlockView>, lower: int, upper: int)
    requires
        0 <= lower <= upper <= blocks.len(),
    ensures
        count_mains(blocks, lower) <= count_mains(blocks, upper),
    decreases upper - lower,
{
    if lower < upper {
        lemma_count_grows(blocks, lower, upper - 1);
    }
}

/// A program with two entry points has no value: the error is that it has
/// more than one, whatever the statements of any block are.
pub proof fn law_two_mains_are_rejected(blocks: Seq<BlockView>, i: int, j: int)
    requires
        0 <= i < j < blocks.len(),
        is_main(blocks[i]),
        is_main(blocks[j]),
    ensures
        run(blocks) == Err::<Bindings, EvalFault>(EvalFault::MultipleMain),
{
    lemma_count_mains(blocks, blocks.len() as int);
    assert(blocks.take(blocks.len() as int) == blocks);
    lemma_count_grows(blocks, 0, i);
    lemma_count_grows(blocks, i + 1, j);
    lemma_count_grows(blocks, j + 1, blocks.len() as int);
}

/// A program without an entry point has no value: the error is that it has
/// none, whatever the statements of any block are.
pub proof fn law_no_main_is_rejected(blocks: Seq<BlockView>)
    requires
        forall|i: int| 0 <= i < blocks.len() ==> !is_main(#[trigger] blocks[i]),
    ensures
        run(blocks) == Err::<Bindings, EvalFault>(EvalFault::MissingMain),
{
    lemma_count_mains(blocks, blocks.len() as int);
    assert(blocks.take(blocks.len() as int) == blocks);
    lemma_count_zero(blocks, blocks.len() as int);
}

/// Where no block is an entry point, none is counted.
proof fn lemma_count_zero(blocks: Seq<BlockView>, upto: int)
    requires
        0 <= upto <= blocks.len(),
        forall|i: int| 0 <= i < blocks.len() ==> !is_main(#[trigger] blocks[i]),
    ensures
        count_mains(blocks, upto) == 0,
    decreases upto,
{
    if upto > 0 {
        lemma_count_zero(blocks, upto - 1);
    }
}

/// A program with exactly one entry point has the value of that block's statements.
pub proof fn law_one_main_is_performed(blocks: Seq<BlockView>, i: int)
    requires
        0 <= i < blocks.len(),
        is_main(blocks[i]),
        forall|j: int| 0 <= j < blocks.len() && j != i ==> !is_main(#[trigger] blocks[j]),
    ensures
        run(blocks) == perform(body(blocks[i])),
{
    lemma_only_main(blocks, i, blocks.len() as int);
    assert(blocks.take(blocks.len() as int) == blocks);
}

/// Where the block at `i` is the only entry point, it is the one that the filter keeps.
proof fn lemma_only_main(blocks: Seq<BlockView>, i: int, upto: int)
    requires
        0 <= i < blocks.len(),
        0 <= upto <= blocks.len(),
        is_main(blocks[i]),
        forall|j: int| 0 <= j < blocks.len() && j != i ==> !is_main(#[trigger] blocks[j]),
    ensures
        mains(blocks.take(upto)) == if upto <= i {
            Seq::<BlockView>::empty()
        } else {
            seq![blocks[i]]
        },
    decreases upto,
{
    reveal(Seq::filter);
    if upto > 0 {
        lemma_only_main(blocks, i, upto - 1);
        assert(blocks.take(upto) == blocks.take(upto - 1).push(blocks[upto - 1]));
        blocks.take(upto - 1).lemma_filter_push(blocks[upto - 1], main_test());
    }
}

/// A decimal literal comes back as its canonical form. A text that is one
/// decimal literal is an expression, the number of its canonical form; the
/// value of that number, whatever is bound, is the number; and it is written
/// as the canonical form, which is a literal that reads as the same number.
pub proof fn law_literal_round_trip(d: Seq<char>, env: Bindings)
    requires
        is_literal(d),
    ensures
        grammar::expr(d, 0) == Outcome::Parsed(ExprView::Num(canonical(d)), d.len() as int),
        eval(env, ExprView::Num(canonical(d))) == Ok::<TreeView, EvalFault>(
            TreeView::Num(canonical(d)),
        ),
        rendering(TreeView::Num(canonical(d))) == canonical(d),
        is_canonical(canonical(d)),
{
    lemma_canonical(d);
    let end = d.len() as int;
    assert(d.subrange(0, end) == d);
    lemma_run_is(d, end, end, CharClass::Blank);
    assert(grammar::var(d, 0) is Miss) by {
        lemma_literal_parts(d);
    }
    assert(grammar::call(d, 0) is Miss);
    assert(grammar::number(d, 0) == Outcome::Parsed(ExprView::Num(canonical(d)), end));
    assert(grammar::atom(d, 0) == Outcome::Parsed(ExprView::Num(canonical(d)), end));
    assert(grammar::sym(d, end, '+') is Miss);
}

/// Nothing may follow the last block. Where a text is a program, and what is
/// written after it begins with no blank and with no block, the longer text is
/// no program: it fails where the first text ends, for nothing more was to come.
pub proof fn law_text_after_the_last_block_is_rejected(s: Seq<char>, rest: Seq<char>)
    requires
        program(s) is Parsed,
        rest.len() > 0,
        !is_blank(rest[0]),
        block(s + rest, s.len() as int) is Miss,
    ensures
        program(s + rest) == Outcome::<Seq<BlockView>>::Fail(
            Fault { at: s.len() as int, expected: Expected::EndOfInput },
        ),
{
    let t = s + rest;
    assert(extends(t, s)) by {
        assert(t[s.len() as int] == rest[0]);
    }
    lemma_run(s, 0, CharClass::Blank);
    lemma_blanks_kept(t, s, 0);
    lemma_blocks_kept(t, s, blank_end(s, 0), Seq::empty());
}

/// A symbolic atom comes back as it is written. The atom of an identifier
/// is written as an apostrophe and the identifier; that text is an expression,
/// the same atom; and its value, whatever is bound, is the atom.
pub proof fn law_atom_round_trip(x: Seq<char>, env: Bindings)
    requires
        is_identifier(x),
    ensures
        rendering(TreeView::FreeVar(x)) == seq!['\''] + x,
        grammar::expr(rendering(TreeView::FreeVar(x)), 0) == Outcome::Parsed(
            ExprView::FreeVar(x),
            x.len() as int + 1,
        ),
        eval(env, ExprView::FreeVar(x)) == Ok::<TreeView, EvalFault>(TreeView::FreeVar(x)),
{
    let t = seq!['\''] + x;
    let end = t.len() as int;
    assert forall|k: int| 2 <= k < end implies CharClass::Word.holds(#[trigger] t[k]) by {
        assert(t[k] == x[k - 1]);
    }
    assert(t[1] == x[0]);
    lemma_run_is(t, 2, end, CharClass::Word);
    lemma_run_is(t, end, end, CharClass::Blank);
    assert(t.subrange(1, end) == x);
    assert(grammar::var(t, 1) == Outcome::Parsed(x, end));
    assert(grammar::var(t, 0) is Miss);
    assert(grammar::call(t, 0) is Miss);
    assert(grammar::number(t, 0) is Miss);
    assert(grammar::free_var(t, 0) == Outcome::Parsed(ExprView::FreeVar(x), end));
    assert(grammar::atom(t, 0) == Outcome::Parsed(ExprView::FreeVar(x), end));
    assert(grammar::sym(t, end, '+') is Miss);
}

/// A literal that begins with no zero, or with a zero that a point or the end
/// follows, is canonical as it stands.
pub proof fn law_literal_without_spare_zeros_stays(t: Seq<char>)
    requires
        is_literal(t),
        t[0] != '0' || t.len() == 1 || t[1] == '.',
    ensures
        canonical(t) == t,
{
}

/// What is read as a name is an identifier, and the longest one that
/// begins there.
pub proof fn law_names_are_identifiers(s: Seq<char>, pos: int)
    requires
        var(s, pos) is Parsed,
    ensures
        is_identifier(var(s, pos)->Parsed_0),
        var(s, pos)->Parsed_0 == s.subrange(pos, word_end(s, pos)),
        word_end(s, pos) < s.len() ==> !CharClass::Word.holds(s[word_end(s, pos)]),
{
    lemma_run(s, pos + 1, CharClass::Word);
    let name = var(s, pos)->Parsed_0;
    assert forall|k: int| 0 <= k < name.len() implies CharClass::Word.holds(#[trigger] name[k]) by {
        assert(name[k] == s[pos + k]);
    }
}

/// A text is a program, with all of it read, or fails at a place within it.
pub proof fn law_program_is_read_to_its_end(s: Seq<char>)
    ensures
        !(program(s) is Miss),
        program(s) matches Outcome::Parsed(_, end) ==> end == s.len(),
        program(s) matches Outcome::Fail(fault) ==> 0 <= fault.at <= s.len(),
{
    lemma_run(s, 0, CharClass::Blank);
    lemma_blocks_stay(s, blank_end(s, 0), Seq::empty());
}

/// A line begins at the start of the text or after a line feed, and holds
/// no line feed before `at`; lines and columns count from 1.
pub proof fn law_lines_and_columns(s: Seq<char>, at: int)
    requires
        0 <= at <= s.len(),
    ensures
        0 <= line_start(s, at) <= at,
        line_start(s, at) == 0 || s[line_start(s, at) - 1] == '\n',
        forall|k: int| line_start(s, at) <= k < at ==> #[trigger] s[k] != '\n',
        line_breaks(s, at) <= at,
        1 <= line_of(s, at) <= at + 1,
        1 <= column_of(s, at) <= at + 1,
    decreases at,
{
    if at > 0 {
        law_lines_and_columns(s, at - 1);
    }
}

} // verus!
