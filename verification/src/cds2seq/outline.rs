//! The loop tree as text, one node to a line.

use vstd::prelude::*;
use vstd::string::StringExecFns;
use crate::text::{decimal, hex_byte, push_digits, push_hex_byte, push_tabs, tabs};
use super::lexeme::{lemma_loop_view, trees, Lexeme, Tree};

verus! {

/// Whether every data node of the tree holds a byte at least.
pub open spec fn has_bytes(t: Tree) -> bool
    decreases t,
{
    match t {
        Tree::Data(bytes) => bytes.len() > 0,
        Tree::Loop(_, body) => forall|k: int| 0 <= k < body.len() ==> has_bytes(#[trigger] body[k]),
    }
}

/// How deep the loops of the tree are nested.
pub open spec fn nesting(t: Tree) -> nat
    decreases t,
{
    match t {
        Tree::Data(_) => 0,
        Tree::Loop(_, body) => 1 + nesting_of_list(body),
    }
}

/// How deep the loops of the trees of a list are nested at most.
pub open spec fn nesting_of_list(list: Seq<Tree>) -> nat
    decreases list,
{
    if list.len() == 0 {
        0
    } else if nesting_of_list(list.drop_last()) >= nesting(list.last()) {
        nesting_of_list(list.drop_last())
    } else {
        nesting(list.last())
    }
}

/// The lines of a tree that stands `depth` levels deep: behind a tab for
/// each level, a loop with its count and below it the lines of its body; a
/// data node with its first and its last byte.
pub open spec fn outline(t: Tree, depth: nat) -> Seq<char>
    decreases t,
{
    match t {
        Tree::Data(bytes) => tabs(depth) + "Data: "@ + hex_byte(bytes[0]) + " .. "@ + hex_byte(
            bytes.last(),
        ) + "\n"@,
        Tree::Loop(count, body) => tabs(depth) + "Loop: "@ + decimal(count as int) + "x\n"@
            + outline_of_list(body, depth + 1),
    }
}

/// The lines of a list of trees.
pub open spec fn outline_of_list(list: Seq<Tree>, depth: nat) -> Seq<char>
    decreases list,
{
    if list.len() == 0 {
        Seq::empty()
    } else {
        outline_of_list(list.drop_last(), depth) + outline(list.last(), depth)
    }
}

proof fn lemma_nesting_of_member(list: Seq<Tree>, k: int)
    requires
        0 <= k < list.len(),
    ensures
        nesting(list[k]) <= nesting_of_list(list),
    decreases list.len(),
{
    if k < list.len() - 1 {
        lemma_nesting_of_member(list.drop_last(), k);
    }
}

/// Whether the lines of the tree can be written at `depth`: every data node
/// holds a byte, and the deepest level can still be counted.
pub open spec fn printable(t: Tree, depth: usize) -> bool {
    has_bytes(t) && depth + nesting(t) <= usize::MAX
}

impl Lexeme {
    /// Appends the lines of the node to `text`, and tells whether it could:
    /// when it could not, what was appended counts for nothing.
    pub fn outline_into(&self, text: &mut String, depth: usize) -> (done: bool)
        ensures
            done == printable(self@, depth),
            done ==> final(text)@ == old(text)@ + outline(self@, depth as nat),
        decreases self,
    {
        match self {
            Lexeme::Loop(count, body) => {
                proof {
                    lemma_loop_view(*count, *body);
                }
                let ghost list = trees(body@);
                if depth == usize::MAX {
                    return false;
                }
                push_tabs(text, depth);
                text.append("Loop: ");
                push_digits(text, *count as u64);
                text.append("x\n");
                let ghost head = text@;
                let mut k: usize = 0;
                assert(list.subrange(0, 0) =~= Seq::empty());
                assert(head + outline_of_list(list.subrange(0, 0), (depth + 1) as nat) =~= head);
                while k < body.len()
                    invariant
                        k <= body@.len(),
                        depth < usize::MAX,
                        list == trees(body@),
                        *self == Lexeme::Loop(*count, *body),
                        self@ == Tree::Loop(*count, list),
                        forall|j: int| 0 <= j < k ==> printable(#[trigger] list[j], (depth + 1) as usize),
                        text@ == head + outline_of_list(
                            list.subrange(0, k as int),
                            (depth + 1) as nat,
                        ),
                    decreases body@.len() - k,
                {
                    proof {
                        assert(decreases_to!(*self => self->Loop_1));
                        vstd::std_specs::vec::axiom_vec_index_decreases(*body, k as int);
                        lemma_nesting_of_member(list, k as int);
                    }
                    if !body[k].outline_into(text, depth + 1) {
                        assert(!printable(list[k as int], (depth + 1) as usize));
                        return false;
                    }
                    k = k + 1;
                    proof {
                        assert(list.subrange(0, k as int).drop_last() =~= list.subrange(0, k - 1));
                        assert(text@ =~= head + outline_of_list(
                            list.subrange(0, k as int),
                            (depth + 1) as nat,
                        ));
                    }
                }
                proof {
                    assert(list.subrange(0, k as int) =~= list);
                    lemma_nesting_of_list(list, (usize::MAX - depth - 1) as nat);
                }
                true
            },
            Lexeme::Data(data) => {
                if data.len() == 0 {
                    return false;
                }
                push_tabs(text, depth);
                text.append("Data: ");
                push_hex_byte(text, data[0]);
                text.append(" .. ");
                push_hex_byte(text, data[data.len() - 1]);
                text.append("\n");
                true
            },
        }
    }

    /// The lines of the node, or nothing when they cannot be written.
    pub fn visualise(&self, depth: usize) -> (res: Option<String>)
        ensures
            match res {
                Some(text) => printable(self@, depth) && text@ == outline(self@, depth as nat),
                None => !printable(self@, depth),
            },
    {
        let mut text = String::new();
        if self.outline_into(&mut text, depth) {
            assert(Seq::<char>::empty() + outline(self@, depth as nat) =~= outline(
                self@,
                depth as nat,
            ));
            Some(text)
        } else {
            None
        }
    }
}

proof fn lemma_nesting_of_list(list: Seq<Tree>, bound: nat)
    requires
        forall|k: int| 0 <= k < list.len() ==> nesting(#[trigger] list[k]) <= bound,
    ensures
        nesting_of_list(list) <= bound,
    decreases list.len(),
{
    if list.len() > 0 {
        assert forall|k: int| 0 <= k < list.drop_last().len() implies nesting(
            #[trigger] list.drop_last()[k],
        ) <= bound by {
            assert(list.drop_last()[k] == list[k]);
        }
        lemma_nesting_of_list(list.drop_last(), bound);
        assert(list.last() == list[list.len() - 1]);
    }
}

} // verus!
