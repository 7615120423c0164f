//! Trees as text.

use crate::eval::{Tree, TreeView};
use crate::lex::push_char;
use vstd::prelude::*;
use vstd::string::{StrSliceExecFns, StringExecFns};

verus! {

/// Whether Unicode gives `c` the property Alphabetic.
pub uninterp spec fn alphabetic(c: char) -> bool;

/// `char::is_alphabetic`: whether the character has the Unicode property Alphabetic.
#[verifier::external_body]
fn is_alphabetic(c: char) -> (b: bool)
    ensures
        b == alphabetic(c),
{
    c.is_alphabetic()
}

/// Whether a call of `name` with two arguments is written between them: the
/// name begins with a character that is not alphabetic.
pub open spec fn is_operator(name: Seq<char>) -> bool {
    name.len() > 0 && !alphabetic(name[0])
}

/// The text of a tree. A symbolic atom is written with its apostrophe and a
/// number with its digits. A call of an operator with two arguments is written
/// `(left name right)`; any other call is written `name(first, second)`.
pub open spec fn rendering(tree: TreeView) -> Seq<char>
    decreases tree, 0int,
{
    match tree {
        TreeView::FreeVar(x) => seq!['\''] + x,
        TreeView::Num(d) => d,
        TreeView::Call(f, args) => if is_operator(f) && args.len() == 2 {
            seq!['('] + rendering(args[0]) + seq![' '] + f + seq![' '] + rendering(args[1])
                + seq![')']
        } else {
            f + seq!['('] + joined(args, args.len() as int) + seq![')']
        },
    }
}

/// The texts of the first `upto` trees of `list`, with a comma and a space
/// between one and the next.
pub open spec fn joined(list: Seq<TreeView>, upto: int) -> Seq<char>
    decreases list, upto,
{
    if upto <= 0 || upto > list.len() {
        Seq::empty()
    } else if upto == 1 {
        rendering(list[0])
    } else {
        joined(list, upto - 1) + seq![',', ' '] + rendering(list[upto - 1])
    }
}

/// Tells whether a call of `name` with two arguments is written between them.
pub fn written_infix(name: &str) -> (b: bool)
    ensures
        b == is_operator(name@),
{
    if name.is_empty() {
        false
    } else {
        !is_alphabetic(name.get_char(0))
    }
}

impl Tree {
    /// Writes the tree as text.
    pub fn render(&self) -> (text: String)
        ensures
            text@ == rendering(self@),
        decreases self,
    {
        let mut text = String::new();
        match self {
            Tree::FreeVar(x) => {
                push_char(&mut text, '\'');
                text.append(x.as_str());
                assert(text@ =~= rendering(self@));
            },
            Tree::Num(d) => {
                text.append(d.text());
                assert(text@ =~= rendering(self@));
            },
            Tree::Call(f, args) => {
                proof {
                    assert(decreases_to!(*self => self->Call_1));
                }
                if args.len() == 2 && written_infix(f.as_str()) {
                    proof {
                        assert(decreases_to!(self->Call_1 => self->Call_1[0]));
                        assert(decreases_to!(self->Call_1 => self->Call_1[1]));
                    }
                    let left = args[0].render();
                    let right = args[1].render();
                    push_char(&mut text, '(');
                    text.append(left.as_str());
                    push_char(&mut text, ' ');
                    text.append(f.as_str());
                    push_char(&mut text, ' ');
                    text.append(right.as_str());
                    push_char(&mut text, ')');
                    assert(text@ =~= rendering(self@));
                } else {
                    text.append(f.as_str());
                    push_char(&mut text, '(');
                    let ghost list = Tree::views(args@);
                    let mut i: usize = 0;
                    while i < args.len()
                        invariant
                            *self == Tree::Call(*f, *args),
                            list == Tree::views(args@),
                            i <= args.len(),
                            text@ == f@ + seq!['('] + joined(list, i as int),
                        decreases args.len() - i,
                    {
                        proof {
                            assert(decreases_to!(*self => self->Call_1));
                            assert(decreases_to!(self->Call_1 => self->Call_1[i as int]));
                        }
                        let item = args[i].render();
                        if i > 0 {
                            push_char(&mut text, ',');
                            push_char(&mut text, ' ');
                        }
                        text.append(item.as_str());
                        i += 1;
                        assert(text@ =~= f@ + seq!['('] + joined(list, i as int));
                    }
                    push_char(&mut text, ')');
                    assert(text@ =~= rendering(self@));
                }
            },
        }
        text
    }
}

} // verus!
