//! What a text keeps when more is written after it.
//!
//! A construct that ends before the end of a text looks at nothing beyond the
//! character that follows it. So it stands unchanged in every longer text that
//! begins with the same characters, as long as that following character tells
//! that the construct is complete: no `+` after a sum, no point after a number,
//! the closing bracket after a list.

use crate::ast::{BlockView, ExprView, StatementView, Type};
use crate::decimal::literal_end;
use crate::grammar::{
    arg, args, assign, atom, blank_end, block, blocks, call, decimal, expr, fun, keyword,
    lemma_arg_advances, lemma_args_stay, lemma_atom_advances, lemma_block_advances,
    lemma_call_advances, lemma_blocks_stay, lemma_decimal_advances, lemma_expr_advances,
    lemma_more_args_stay, lemma_more_params_stay, lemma_more_terms_stay, lemma_params_stay,
    lemma_statement_advances, lemma_statements_stay, lemma_sym_advances, lemma_var_advances,
    more_args, more_params, more_terms, number, params, statement, statements, sym, var,
    variable, word_end, Outcome,
};
use crate::lex::{is_blank, is_digit, lemma_run, lemma_run_is, run_end, starts_word, CharClass};
use vstd::prelude::*;

verus! {

/// Whether `t` is `s` with more written after it, the first of which, if
/// there is any, is no blank.
pub open spec fn extends(t: Seq<char>, s: Seq<char>) -> bool {
    &&& s.len() <= t.len()
    &&& forall|i: int| 0 <= i < s.len() ==> #[trigger] t[i] == s[i]
    &&& s.len() < t.len() ==> !is_blank(t[s.len() as int])
}

/// A run that ends before the end of `s` is the same run in `t`.
pub proof fn lemma_run_kept(t: Seq<char>, s: Seq<char>, from: int, class: CharClass)
    requires
        extends(t, s),
        0 <= from <= s.len(),
        run_end(s, from, class) < s.len(),
    ensures
        run_end(t, from, class) == run_end(s, from, class),
{
    lemma_run(s, from, class);
    let end = run_end(s, from, class);
    assert forall|k: int| from <= k < end implies class.holds(#[trigger] t[k]) by {
        assert(t[k] == s[k]);
    }
    assert(t[end] == s[end]);
    lemma_run_is(t, from, end, class);
}

/// Blanks are the same blanks in `t`, also where they reach the end of `s`.
pub proof fn lemma_blanks_kept(t: Seq<char>, s: Seq<char>, from: int)
    requires
        extends(t, s),
        0 <= from <= s.len(),
    ensures
        blank_end(t, from) == blank_end(s, from),
{
    lemma_run(s, from, CharClass::Blank);
    let end = blank_end(s, from);
    if end < s.len() {
        lemma_run_kept(t, s, from, CharClass::Blank);
    } else {
        assert forall|k: int| from <= k < end implies CharClass::Blank.holds(#[trigger] t[k]) by {
            assert(t[k] == s[k]);
        }
        lemma_run_is(t, from, end, CharClass::Blank);
    }
}

/// A punctuation mark within `s`, or its absence there, is the same in `t`.
pub proof fn lemma_sym_kept(t: Seq<char>, s: Seq<char>, pos: int, c: char)
    requires
        extends(t, s),
        0 <= pos < s.len(),
    ensures
        sym(t, pos, c) == sym(s, pos, c),
{
    assert(t[pos] == s[pos]);
    lemma_blanks_kept(t, s, pos + 1);
}

/// An identifier that ends before the end of `s`, or the absence of one
/// within `s`, is the same in `t`.
pub proof fn lemma_var_kept(t: Seq<char>, s: Seq<char>, pos: int)
    requires
        extends(t, s),
        0 <= pos < s.len(),
        word_end(s, pos) < s.len(),
    ensures
        var(t, pos) == var(s, pos),
        word_end(t, pos) == word_end(s, pos),
        forall|word: Seq<char>| keyword(t, pos, word) == keyword(s, pos, word),
{
    assert(t[pos] == s[pos]);
    if var(s, pos) is Parsed {
        lemma_run_kept(t, s, pos + 1, CharClass::Word);
        let end = word_end(s, pos);
        lemma_blanks_kept(t, s, end);
        assert(t.subrange(pos, end) =~= s.subrange(pos, end)) by {
            assert forall|k: int| 0 <= k < end - pos implies t.subrange(pos, end)[k]
                == s.subrange(pos, end)[k] by {
                assert(t[pos + k] == s[pos + k]);
            }
        }
    }
}

/// A literal that ends before the end of `s` and that no point follows, or
/// the absence of one within `s`, is the same in `t`.
pub proof fn lemma_number_kept(t: Seq<char>, s: Seq<char>, pos: int)
    requires
        extends(t, s),
        0 <= pos < s.len(),
        literal_end(s, pos) < s.len(),
        s[literal_end(s, pos)] != '.',
    ensures
        literal_end(t, pos) == literal_end(s, pos),
        decimal(t, pos) == decimal(s, pos),
        number(t, pos) == number(s, pos),
{
    assert(t[pos] == s[pos]);
    lemma_run(s, pos, CharClass::Digit);
    let point = run_end(s, pos, CharClass::Digit);
    let end = literal_end(s, pos);
    lemma_run_kept(t, s, pos, CharClass::Digit);
    assert(t[point] == s[point]);
    if pos < point && s[point] == '.' {
        lemma_run(s, point + 1, CharClass::Digit);
        lemma_run_kept(t, s, point + 1, CharClass::Digit);
    }
    if pos < end {
        lemma_blanks_kept(t, s, end);
        assert(t.subrange(pos, end) =~= s.subrange(pos, end)) by {
            assert forall|k: int| 0 <= k < end - pos implies t.subrange(pos, end)[k]
                == s.subrange(pos, end)[k] by {
                assert(t[pos + k] == s[pos + k]);
            }
        }
    }
}

/// Where a character stands that begins no identifier, nothing stands that
/// begins with one; and where it begins no number and is no apostrophe either,
/// no expression stands.
pub proof fn lemma_nothing_begins(t: Seq<char>, pos: int)
    requires
        0 <= pos < t.len(),
        !starts_word(t[pos]),
    ensures
        var(t, pos) is Miss,
        call(t, pos) is Miss,
        variable(t, pos) is Miss,
        assign(t, pos) is Miss,
        statement(t, pos) is Miss,
        arg(t, pos) is Miss,
        block(t, pos) is Miss,
        !is_digit(t[pos]) && t[pos] != '\'' ==> atom(t, pos) is Miss && expr(t, pos)
            is Miss,
{
}

/// A call that ends before the end of `s` is the same call in `t`.
pub proof fn lemma_call_kept(t: Seq<char>, s: Seq<char>, pos: int)
    requires
        extends(t, s),
        0 <= pos <= s.len(),
        call(s, pos) matches Outcome::Parsed(_, next) && next < s.len(),
    ensures
        call(t, pos) == call(s, pos),
    decreases s.len() - pos, 0int,
{
    lemma_var_advances(s, pos);
    let after_name = var(s, pos)->Parsed_1;
    lemma_sym_advances(s, after_name, '(');
    lemma_run(s, word_end(s, pos), CharClass::Blank);
    lemma_var_kept(t, s, pos);
    lemma_sym_kept(t, s, after_name, '(');
    let after_open = sym(s, after_name, '(')->Parsed_1;
    lemma_args_stay(s, after_open);
    let after_list = args(s, after_open)->Parsed_1;
    lemma_sym_advances(s, after_list, ')');
    lemma_args_kept(t, s, after_open);
    lemma_sym_kept(t, s, after_list, ')');
}

/// An atom that ends before the end of `s`, and that no point follows, is
/// the same atom in `t`.
pub proof fn lemma_atom_kept(t: Seq<char>, s: Seq<char>, pos: int)
    requires
        extends(t, s),
        0 <= pos <= s.len(),
        atom(s, pos) matches Outcome::Parsed(_, next) && next < s.len() && s[next] != '.',
    ensures
        atom(t, pos) == atom(s, pos),
    decreases s.len() - pos, 1int,
{
    lemma_atom_advances(s, pos);
    lemma_call_advances(s, pos);
    lemma_var_advances(s, pos);
    lemma_decimal_advances(s, pos);
    assert(t[pos] == s[pos]);
    if call(s, pos) is Parsed {
        lemma_call_kept(t, s, pos);
    } else {
        // No call stands in `s`: either no identifier does, or no bracket follows it.
        if var(s, pos) is Parsed {
            let after_name = var(s, pos)->Parsed_1;
            if let Outcome::Parsed(_, after_open) = sym(s, after_name, '(') {
                lemma_sym_advances(s, after_name, '(');
                lemma_args_stay(s, after_open);
                assert(!(call(s, pos) is Miss));
            }
            assert(number(s, pos) is Miss) by {
                lemma_run(s, pos, CharClass::Digit);
            }
            assert(atom(s, pos) == variable(s, pos));
            lemma_run(s, word_end(s, pos), CharClass::Blank);
            lemma_var_kept(t, s, pos);
            lemma_sym_kept(t, s, after_name, '(');
            assert(call(t, pos) is Miss);
            assert(number(s, pos) is Miss) by {
                lemma_run(s, pos, CharClass::Digit);
            }
            assert(number(t, pos) is Miss) by {
                lemma_run(t, pos, CharClass::Digit);
            }
        } else {
            assert(var(t, pos) is Miss);
            assert(call(t, pos) is Miss);
            if number(s, pos) is Parsed {
                lemma_run(s, literal_end(s, pos), CharClass::Blank);
                let end = literal_end(s, pos);
                assert(s[end] != '.') by {
                    if s[end] == '.' {
                        // A point is no blank: the number would end at it.
                        assert(blank_end(s, end) == end);
                    }
                }
                lemma_number_kept(t, s, pos);
            } else {
                assert(number(t, pos) is Miss) by {
                    lemma_run(s, pos, CharClass::Digit);
                    lemma_run(t, pos, CharClass::Digit);
                }
                // What is left is a symbolic atom.
                lemma_var_advances(s, pos + 1);
                lemma_run(s, word_end(s, pos + 1), CharClass::Blank);
                lemma_var_kept(t, s, pos + 1);
            }
        }
    }
}

/// An expression that ends before the end of `s`, and that neither a `+`
/// nor a point follows, is the same expression in `t`.
pub proof fn lemma_expr_kept(t: Seq<char>, s: Seq<char>, pos: int)
    requires
        extends(t, s),
        0 <= pos <= s.len(),
        expr(s, pos) matches Outcome::Parsed(_, next) && next < s.len() && s[next] != '+'
            && s[next] != '.',
    ensures
        expr(t, pos) == expr(s, pos),
    decreases s.len() - pos, 2int,
{
    lemma_atom_advances(s, pos);
    let first = atom(s, pos)->Parsed_0;
    let after = atom(s, pos)->Parsed_1;
    lemma_more_terms_stay(s, after, first);
    lemma_atom_kept(t, s, pos);
    lemma_more_terms_kept(t, s, after, first);
}

/// The rest of a sum that ends before the end of `s`, and that neither a
/// `+` nor a point follows, is the same in `t`.
pub proof fn lemma_more_terms_kept(t: Seq<char>, s: Seq<char>, pos: int, left: ExprView)
    requires
        extends(t, s),
        0 <= pos <= s.len(),
        more_terms(s, pos, left) matches Outcome::Parsed(_, next) && next < s.len() && s[next]
            != '+' && s[next] != '.',
    ensures
        more_terms(t, pos, left) == more_terms(s, pos, left),
    decreases s.len() - pos, 0int,
{
    lemma_more_terms_stay(s, pos, left);
    lemma_sym_advances(s, pos, '+');
    lemma_sym_kept(t, s, pos, '+');
    if let Outcome::Parsed(_, after_plus) = sym(s, pos, '+') {
        lemma_atom_advances(s, after_plus);
        let right = atom(s, after_plus)->Parsed_0;
        let after = atom(s, after_plus)->Parsed_1;
        let sum = ExprView::Plus(Box::new(left), Box::new(right));
        lemma_more_terms_stay(s, after, sum);
        lemma_atom_kept(t, s, after_plus);
        lemma_more_terms_kept(t, s, after, sum);
    }
}

/// The arguments of a call that end before the end of `s`, at a closing
/// bracket, are the same in `t`.
pub proof fn lemma_args_kept(t: Seq<char>, s: Seq<char>, pos: int)
    requires
        extends(t, s),
        0 <= pos <= s.len(),
        args(s, pos) matches Outcome::Parsed(_, next) && next < s.len() && s[next] == ')',
    ensures
        args(t, pos) == args(s, pos),
    decreases s.len() - pos, 3int,
{
    lemma_args_stay(s, pos);
    lemma_expr_advances(s, pos);
    assert(t[pos] == s[pos]);
    if let Outcome::Parsed(first, after) = expr(s, pos) {
        lemma_more_args_stay(s, after, seq![first]);
        lemma_expr_kept(t, s, pos);
        lemma_more_args_kept(t, s, after, seq![first]);
    } else {
        lemma_nothing_begins(t, pos);
    }
}

/// The rest of a list of arguments that ends before the end of `s`, at a
/// closing bracket, is the same in `t`.
pub proof fn lemma_more_args_kept(t: Seq<char>, s: Seq<char>, pos: int, found: Seq<ExprView>)
    requires
        extends(t, s),
        0 <= pos <= s.len(),
        more_args(s, pos, found) matches Outcome::Parsed(_, next) && next < s.len() && s[next]
            == ')',
    ensures
        more_args(t, pos, found) == more_args(s, pos, found),
    decreases s.len() - pos, 0int,
{
    lemma_more_args_stay(s, pos, found);
    lemma_sym_advances(s, pos, ',');
    lemma_sym_kept(t, s, pos, ',');
    if let Outcome::Parsed(_, after_comma) = sym(s, pos, ',') {
        lemma_expr_advances(s, after_comma);
        let item = expr(s, after_comma)->Parsed_0;
        let after = expr(s, after_comma)->Parsed_1;
        lemma_more_args_stay(s, after, found.push(item));
        lemma_expr_kept(t, s, after_comma);
        lemma_more_args_kept(t, s, after, found.push(item));
    }
}

/// A statement within `s` is the same statement in `t`.
pub proof fn lemma_statement_kept(t: Seq<char>, s: Seq<char>, pos: int)
    requires
        extends(t, s),
        0 <= pos <= s.len(),
        statement(s, pos) is Parsed,
    ensures
        statement(t, pos) == statement(s, pos),
{
    lemma_var_advances(s, pos);
    let after_name = var(s, pos)->Parsed_1;
    lemma_sym_advances(s, after_name, '=');
    lemma_run(s, word_end(s, pos), CharClass::Blank);
    lemma_var_kept(t, s, pos);
    lemma_sym_kept(t, s, after_name, '=');
    let after_eq = sym(s, after_name, '=')->Parsed_1;
    lemma_expr_advances(s, after_eq);
    let after = expr(s, after_eq)->Parsed_1;
    lemma_sym_advances(s, after, ';');
    lemma_expr_kept(t, s, after_eq);
    lemma_sym_kept(t, s, after, ';');
}

/// Statements that end before the end of `s`, at a closing brace, are the
/// same in `t`.
pub proof fn lemma_statements_kept(
    t: Seq<char>,
    s: Seq<char>,
    pos: int,
    found: Seq<StatementView>,
)
    requires
        extends(t, s),
        0 <= pos <= s.len(),
        statements(s, pos, found) matches Outcome::Parsed(_, next) && next < s.len() && s[next]
            == '}',
    ensures
        statements(t, pos, found) == statements(s, pos, found),
    decreases s.len() - pos,
{
    lemma_statements_stay(s, pos, found);
    lemma_statement_advances(s, pos);
    assert(t[pos] == s[pos]);
    if let Outcome::Parsed(bound, after) = statement(s, pos) {
        lemma_statements_stay(s, after, found.push(bound));
        lemma_statement_kept(t, s, pos);
        lemma_statements_kept(t, s, after, found.push(bound));
    } else {
        lemma_nothing_begins(t, pos);
    }
}

/// A parameter that ends before the end of `s` is the same in `t`.
pub proof fn lemma_arg_kept(t: Seq<char>, s: Seq<char>, pos: int)
    requires
        extends(t, s),
        0 <= pos <= s.len(),
        arg(s, pos) matches Outcome::Parsed(_, next) && next < s.len(),
    ensures
        arg(t, pos) == arg(s, pos),
{
    lemma_var_advances(s, pos);
    let after_name = var(s, pos)->Parsed_1;
    lemma_sym_advances(s, after_name, ':');
    lemma_run(s, word_end(s, pos), CharClass::Blank);
    lemma_var_kept(t, s, pos);
    lemma_sym_kept(t, s, after_name, ':');
    let after_colon = sym(s, after_name, ':')->Parsed_1;
    lemma_var_advances(s, after_colon);
    lemma_run(s, word_end(s, after_colon), CharClass::Blank);
    lemma_var_kept(t, s, after_colon);
}

/// Parameters that end before the end of `s`, at a closing bracket, are the
/// same in `t`.
pub proof fn lemma_params_kept(t: Seq<char>, s: Seq<char>, pos: int)
    requires
        extends(t, s),
        0 <= pos <= s.len(),
        params(s, pos) matches Outcome::Parsed(_, next) && next < s.len() && s[next] == ')',
    ensures
        params(t, pos) == params(s, pos),
{
    lemma_params_stay(s, pos);
    lemma_arg_advances(s, pos);
    lemma_arg_advances(t, pos);
    assert(t[pos] == s[pos]);
    if let Outcome::Parsed(first, after) = arg(s, pos) {
        lemma_more_params_stay(s, after, seq![first]);
        lemma_arg_kept(t, s, pos);
        lemma_more_params_kept(t, s, after, seq![first]);
    } else {
        lemma_nothing_begins(t, pos);
    }
}

/// The rest of a list of parameters that ends before the end of `s`, at a
/// closing bracket, is the same in `t`.
pub proof fn lemma_more_params_kept(
    t: Seq<char>,
    s: Seq<char>,
    pos: int,
    found: Seq<(Seq<char>, Type)>,
)
    requires
        extends(t, s),
        0 <= pos <= s.len(),
        more_params(s, pos, found) matches Outcome::Parsed(_, next) && next < s.len() && s[next]
            == ')',
    ensures
        more_params(t, pos, found) == more_params(s, pos, found),
    decreases s.len() - pos,
{
    lemma_more_params_stay(s, pos, found);
    lemma_sym_advances(s, pos, ',');
    lemma_sym_kept(t, s, pos, ',');
    if let Outcome::Parsed(_, after_comma) = sym(s, pos, ',') {
        lemma_arg_advances(s, after_comma);
        let item = arg(s, after_comma)->Parsed_0;
        let after = arg(s, after_comma)->Parsed_1;
        lemma_more_params_stay(s, after, found.push(item));
        lemma_arg_kept(t, s, after_comma);
        lemma_more_params_kept(t, s, after, found.push(item));
    }
}

/// What `fn` owes, where all of it stands in `s`, is the same in `t`.
pub proof fn lemma_fun_kept(t: Seq<char>, s: Seq<char>, pos: int)
    requires
        extends(t, s),
        0 <= pos <= s.len(),
        fun(s, pos) is Parsed,
    ensures
        fun(t, pos) == fun(s, pos),
{
    lemma_var_advances(s, pos);
    let at_open = var(s, pos)->Parsed_1;
    lemma_sym_advances(s, at_open, '(');
    lemma_run(s, word_end(s, pos), CharClass::Blank);
    lemma_var_kept(t, s, pos);
    lemma_sym_kept(t, s, at_open, '(');
    let at_params = sym(s, at_open, '(')->Parsed_1;
    lemma_params_stay(s, at_params);
    let at_close = params(s, at_params)->Parsed_1;
    lemma_sym_advances(s, at_close, ')');
    lemma_params_kept(t, s, at_params);
    lemma_sym_kept(t, s, at_close, ')');
    let at_brace = sym(s, at_close, ')')->Parsed_1;
    lemma_sym_advances(s, at_brace, '{');
    lemma_sym_kept(t, s, at_brace, '{');
    let at_body = sym(s, at_brace, '{')->Parsed_1;
    lemma_statements_stay(s, at_body, Seq::empty());
    let at_end = statements(s, at_body, Seq::empty())->Parsed_1;
    lemma_sym_advances(s, at_end, '}');
    lemma_statements_kept(t, s, at_body, Seq::empty());
    lemma_sym_kept(t, s, at_end, '}');
}

/// A block within `s` is the same block in `t`.
pub proof fn lemma_block_kept(t: Seq<char>, s: Seq<char>, pos: int)
    requires
        extends(t, s),
        0 <= pos <= s.len(),
        block(s, pos) is Parsed,
    ensures
        block(t, pos) == block(s, pos),
{
    lemma_var_advances(s, pos);
    let after_fn = var(s, pos)->Parsed_1;
    lemma_var_advances(s, after_fn);
    lemma_run(s, word_end(s, pos), CharClass::Blank);
    lemma_var_kept(t, s, pos);
    lemma_fun_kept(t, s, after_fn);
}

/// Blocks that take all of `s` are the blocks of `t` up to the end of `s`,
/// where no block begins there in `t`.
pub proof fn lemma_blocks_kept(t: Seq<char>, s: Seq<char>, pos: int, found: Seq<BlockView>)
    requires
        extends(t, s),
        0 <= pos <= s.len(),
        blocks(s, pos, found) matches Outcome::Parsed(_, next) && next == s.len(),
        block(t, s.len() as int) is Miss,
    ensures
        blocks(t, pos, found) == blocks(s, pos, found),
    decreases s.len() - pos,
{
    lemma_block_advances(s, pos);
    if let Outcome::Parsed(scope, after) = block(s, pos) {
        lemma_blocks_stay(s, after, found.push(scope));
        lemma_block_kept(t, s, pos);
        lemma_blocks_kept(t, s, after, found.push(scope));
    }
}

} // verus!
