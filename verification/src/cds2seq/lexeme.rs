//! The loop tree: how it is built from tokens and how it is written out.

use vstd::prelude::*;
use vstd::slice::slice_to_vec;
use super::dictionary::terminator;
use super::error::ConvertError;
use super::laws::{lemma_trees_keep_tokens, list_tokens, plain_tokens};
use super::token::{count_finishes, count_starts, token_views, Token, TokenView};

verus! {

/// A node of the loop tree: a run of event bytes, or a loop with its repeat
/// count and body.  A count of zero stands for a loop that never ends.
#[derive(Debug)]
pub enum Lexeme {
    Loop(u8, Vec<Lexeme>),
    Data(Vec<u8>),
}

/// The mathematical loop tree that a [`Lexeme`] stands for.
pub enum Tree {
    Loop(u8, Seq<Tree>),
    Data(Seq<u8>),
}

impl View for Lexeme {
    type V = Tree;

    open spec fn view(&self) -> Tree {
        tree_of(*self)
    }
}

/// The tree of one node.
pub open spec fn tree_of(node: Lexeme) -> Tree
    decreases node,
{
    match node {
        Lexeme::Loop(count, body) => Tree::Loop(count, trees_of(body@)),
        Lexeme::Data(bytes) => Tree::Data(bytes@),
    }
}

/// The trees of a list of nodes, built up from the left.
pub open spec fn trees_of(list: Seq<Lexeme>) -> Seq<Tree>
    decreases list,
{
    if list.len() == 0 {
        Seq::empty()
    } else {
        trees_of(list.drop_last()).push(tree_of(list.last()))
    }
}

/// The trees of a list of nodes, in order.
pub open spec fn trees(list: Seq<Lexeme>) -> Seq<Tree> {
    Seq::new(list.len(), |i: int| list[i]@)
}

/// Both ways of writing the trees of a list agree.
pub proof fn lemma_trees_of(list: Seq<Lexeme>)
    ensures
        trees_of(list) == trees(list),
    decreases list.len(),
{
    if list.len() > 0 {
        lemma_trees_of(list.drop_last());
    }
    assert(trees_of(list) =~= trees(list));
}

/// The tree of a loop node holds the trees of its body.
pub proof fn lemma_loop_view(count: u8, body: Vec<Lexeme>)
    ensures
        Lexeme::Loop(count, body)@ == Tree::Loop(count, trees(body@)),
{
    lemma_trees_of(body@);
}

/// The three bytes that stand for a global ending inside the tree.
pub open spec fn ending_bytes() -> Seq<u8> {
    seq![0xffu8, 0x44u8, 0x00u8]
}

/// A loop that is open while the builder runs: the nodes that came before
/// its start on the same level, and its repeat count.
pub struct Frame {
    pub before: Seq<Tree>,
    pub count: u8,
}

/// The builder between two tokens: the open loops, outermost first, and the
/// nodes of the innermost level so far.
pub struct LexState {
    pub open: Seq<Frame>,
    pub current: Seq<Tree>,
}

/// What one token does to the builder.  Data joins the innermost level, a
/// global ending does so as three data bytes, a loop start opens a level,
/// and a loop finish closes the innermost open loop.  `None` when a loop
/// finish finds no loop open.
pub open spec fn lex_step(state: LexState, token: TokenView) -> Option<LexState> {
    match token {
        TokenView::Data(bytes) => Some(
            LexState { open: state.open, current: state.current.push(Tree::Data(bytes)) },
        ),
        TokenView::GlobalEnding => Some(
            LexState { open: state.open, current: state.current.push(Tree::Data(ending_bytes())) },
        ),
        TokenView::LoopStart(count) => Some(
            LexState {
                open: state.open.push(Frame { before: state.current, count: count }),
                current: Seq::empty(),
            },
        ),
        TokenView::LoopFinish => if state.open.len() == 0 {
            None
        } else {
            Some(
                LexState {
                    open: state.open.drop_last(),
                    current: state.open.last().before.push(
                        Tree::Loop(state.open.last().count, state.current),
                    ),
                },
            )
        },
    }
}

/// The builder after all of `tokens`, read left to right.
pub open spec fn lex_state(tokens: Seq<TokenView>) -> Option<LexState>
    decreases tokens.len(),
{
    if tokens.len() == 0 {
        Some(LexState { open: Seq::empty(), current: Seq::empty() })
    } else {
        match lex_state(tokens.drop_last()) {
            Some(state) => lex_step(state, tokens.last()),
            None => None,
        }
    }
}

/// Whether some loop finish in `tokens` has no loop start to pair with.
pub open spec fn has_unpaired_finish(tokens: Seq<TokenView>) -> bool {
    lex_state(tokens) is None
}

/// The loop trees of a token list in which every loop start is closed.
pub open spec fn lexed(tokens: Seq<TokenView>) -> Option<Seq<Tree>> {
    match lex_state(tokens) {
        Some(state) => if state.open.len() == 0 {
            Some(state.current)
        } else {
            None
        },
        None => None,
    }
}

/// Event bytes of a tree with every loop body written once and no markers.
pub open spec fn plain_bytes(t: Tree) -> Seq<u8>
    decreases t,
{
    match t {
        Tree::Data(bytes) => bytes,
        Tree::Loop(_, body) => plain_bytes_list(body),
    }
}

/// Event bytes of a list of trees, each loop body written once.
pub open spec fn plain_bytes_list(list: Seq<Tree>) -> Seq<u8>
    decreases list,
{
    if list.len() == 0 {
        Seq::empty()
    } else {
        plain_bytes_list(list.drop_last()) + plain_bytes(list.last())
    }
}

/// `times` copies of `s`, one after the other.
pub open spec fn repeated(s: Seq<u8>, times: nat) -> Seq<u8>
    decreases times,
{
    if times == 0 {
        Seq::empty()
    } else {
        repeated(s, (times - 1) as nat) + s
    }
}

/// How often a loop body is written: its count, and once for an endless loop.
pub open spec fn passes(count: u8) -> nat {
    if count == 0 {
        1
    } else {
        count as nat
    }
}

/// The flat stream of a tree: data as it is, a loop as its body and the
/// terminator triplet, written once for each pass.
pub open spec fn unrolled(t: Tree) -> Seq<u8>
    decreases t,
{
    match t {
        Tree::Data(bytes) => bytes,
        Tree::Loop(count, body) => repeated(unrolled_list(body) + terminator(), passes(count)),
    }
}

/// The flat stream of a list of trees.
pub open spec fn unrolled_list(list: Seq<Tree>) -> Seq<u8>
    decreases list,
{
    if list.len() == 0 {
        Seq::empty()
    } else {
        unrolled_list(list.drop_last()) + unrolled(list.last())
    }
}

/// Whether the tree holds a loop with count zero.
pub open spec fn endless(t: Tree) -> bool
    decreases t,
{
    match t {
        Tree::Data(_) => false,
        Tree::Loop(count, body) => count == 0 || endless_list(body),
    }
}

/// Whether some tree of the list holds a loop with count zero.
pub open spec fn endless_list(list: Seq<Tree>) -> bool
    decreases list,
{
    if list.len() == 0 {
        false
    } else {
        endless_list(list.drop_last()) || endless(list.last())
    }
}

struct Suspended {
    before: Vec<Lexeme>,
    count: u8,
}

spec fn frames(stack: Seq<Suspended>) -> Seq<Frame> {
    Seq::new(stack.len(), |k: int| Frame { before: trees(stack[k].before@), count: stack[k].count })
}

/// While the builder runs, the loops still open are the loop starts read
/// less the loop finishes read.
pub proof fn lemma_open_loops(tokens: Seq<TokenView>)
    ensures
        match lex_state(tokens) {
            Some(state) => state.open.len() + count_finishes(tokens) == count_starts(tokens),
            None => true,
        },
    decreases tokens.len(),
{
    if tokens.len() > 0 {
        lemma_open_loops(tokens.drop_last());
    }
}

/// Once a loop finish has found no loop open, no later token mends it.
pub proof fn lemma_unpaired_stays(tokens: Seq<TokenView>, n: int)
    requires
        0 <= n <= tokens.len(),
        lex_state(tokens.subrange(0, n)) is None,
    ensures
        lex_state(tokens) is None,
    decreases tokens.len() - n,
{
    if n < tokens.len() {
        assert(tokens.subrange(0, n + 1).drop_last() =~= tokens.subrange(0, n));
        lemma_unpaired_stays(tokens, n + 1);
    } else {
        assert(tokens.subrange(0, n) =~= tokens);
    }
}

/// Builds the loop trees of a balanced token list.  Each loop finish closes
/// the nearest loop start still open to its left, innermost first.  A loop
/// finish with no loop start open is refused.
pub fn lex_file(tokens: &[Token]) -> (res: Result<Vec<Lexeme>, ConvertError>)
    requires
        count_starts(token_views(tokens@)) == count_finishes(token_views(tokens@)),
    ensures
        match res {
            Ok(lexemes) => {
                &&& lexed(token_views(tokens@)) == Some(trees(lexemes@))
                &&& list_tokens(trees(lexemes@)) == plain_tokens(token_views(tokens@))
            },
            Err(e) => e == ConvertError::UnpairedLoopTerminator && has_unpaired_finish(
                token_views(tokens@),
            ),
        },
{
    let ghost views = token_views(tokens@);
    proof {
        lemma_trees_keep_tokens(views);
    }
    let mut stack: Vec<Suspended> = Vec::new();
    let mut current: Vec<Lexeme> = Vec::new();
    let mut i: usize = 0;
    let len = tokens.len();
    proof {
        assert(views.subrange(0, 0) =~= Seq::empty());
        assert(frames(stack@) =~= Seq::empty());
        assert(trees(current@) =~= Seq::empty());
    }
    while i < len
        invariant
            len == tokens@.len(),
            views == token_views(tokens@),
            i <= len,
            lex_state(views.subrange(0, i as int)) == Some(
                LexState { open: frames(stack@), current: trees(current@) },
            ),
        decreases len - i,
    {
        let ghost state = LexState { open: frames(stack@), current: trees(current@) };
        let ghost before = trees(current@);
        proof {
            assert(views.subrange(0, i + 1).drop_last() =~= views.subrange(0, i as int));
            assert(views.subrange(0, i + 1).last() == tokens@[i as int]@);
        }
        match tokens[i] {
            Token::Data(bytes) => {
                let node = Lexeme::Data(slice_to_vec(bytes));
                current.push(node);
                assert(trees(current@) =~= before.push(Tree::Data(bytes@)));
            },
            Token::GlobalEnding => {
                let mut bytes: Vec<u8> = Vec::new();
                bytes.push(0xff);
                bytes.push(0x44);
                bytes.push(0x00);
                assert(bytes@ =~= ending_bytes());
                current.push(Lexeme::Data(bytes));
                assert(trees(current@) =~= before.push(Tree::Data(ending_bytes())));
            },
            Token::LoopStart(count) => {
                let ghost open = frames(stack@);
                stack.push(Suspended { before: current, count });
                current = Vec::new();
                proof {
                    assert(frames(stack@) =~= open.push(Frame { before: before, count: count }));
                    assert(trees(current@) =~= Seq::empty());
                }
            },
            Token::LoopFinish => {
                let ghost open = frames(stack@);
                match stack.pop() {
                    None => {
                        proof {
                            assert(lex_state(views.subrange(0, i + 1)) is None);
                            lemma_unpaired_stays(views, i + 1);
                        }
                        return Err(ConvertError::UnpairedLoopTerminator);
                    },
                    Some(frame) => {
                        let Suspended { before: mut parent, count } = frame;
                        let ghost outer = trees(parent@);
                        proof {
                            lemma_loop_view(count, current);
                            assert(frames(stack@) =~= open.drop_last());
                            assert(open.last().before == outer);
                        }
                        parent.push(Lexeme::Loop(count, current));
                        current = parent;
                        assert(trees(current@) =~= outer.push(Tree::Loop(count, before)));
                    },
                }
            },
        }
        i = i + 1;
    }
    proof {
        assert(views.subrange(0, len as int) =~= views);
        lemma_open_loops(views);
    }
    Ok(current)
}

/// Writes the flat stream of one node behind what `file` holds, and tells
/// whether the node holds an endless loop.  A loop is written as its body
/// followed by the terminator triplet, once for each pass; an endless loop
/// is written once.
pub fn write_lexeme(file: &mut Vec<u8>, lexeme: &Lexeme) -> (infinite: bool)
    ensures
        final(file)@ == old(file)@ + unrolled(lexeme@),
        infinite == endless(lexeme@),
    decreases lexeme,
{
    match lexeme {
        Lexeme::Data(data) => {
            let mut k: usize = 0;
            assert(file@ + data@.subrange(0, 0) =~= file@);
            while k < data.len()
                invariant
                    k <= data@.len(),
                    file@ == old(file)@ + data@.subrange(0, k as int),
                decreases data@.len() - k,
            {
                file.push(data[k]);
                k = k + 1;
                assert(file@ =~= old(file)@ + data@.subrange(0, k as int));
            }
            assert(data@.subrange(0, k as int) =~= data@);
            false
        },
        Lexeme::Loop(count, body) => {
            let ghost list = trees(body@);
            let ghost pass = unrolled_list(list) + terminator();
            proof {
                lemma_loop_view(*count, *body);
            }
            let times: u8 = if *count == 0 { 1 } else { *count };
            let mut infinite = *count == 0;
            let mut round: u8 = 0;
            assert(file@ + repeated(pass, 0) =~= file@);
            while round < times
                invariant
                    round <= times,
                    list == trees(body@),
                    pass == unrolled_list(list) + terminator(),
                    lexeme == Lexeme::Loop(*count, *body),
                    file@ == old(file)@ + repeated(pass, round as nat),
                    infinite == (*count == 0 || (round > 0 && endless_list(list))),
                decreases times - round,
            {
                let ghost start = file@;
                let mut k: usize = 0;
                let mut found = false;
                assert(list.subrange(0, 0) =~= Seq::empty());
                assert(start + unrolled_list(list.subrange(0, 0)) =~= start);
                while k < body.len()
                    invariant
                        k <= body@.len(),
                        list == trees(body@),
                        lexeme == Lexeme::Loop(*count, *body),
                        file@ == start + unrolled_list(list.subrange(0, k as int)),
                        found == endless_list(list.subrange(0, k as int)),
                    decreases body@.len() - k,
                {
                    proof {
                        assert(decreases_to!(*lexeme => lexeme->Loop_1));
                        vstd::std_specs::vec::axiom_vec_index_decreases(*body, k as int);
                    }
                    let inner = write_lexeme(file, &body[k]);
                    found = found || inner;
                    k = k + 1;
                    proof {
                        assert(list.subrange(0, k as int).drop_last() =~= list.subrange(0, k - 1));
                        assert(file@ =~= start + unrolled_list(list.subrange(0, k as int)));
                    }
                }
                assert(list.subrange(0, k as int) =~= list);
                file.push(0xff);
                file.push(0x2f);
                file.push(0x00);
                infinite = infinite || found;
                round = round + 1;
                assert(file@ =~= old(file)@ + repeated(pass, round as nat));
            }
            infinite
        },
    }
}

} // verus!
