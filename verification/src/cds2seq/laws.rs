//! What holds of the tokenizer and the loop-tree builder taken together.

use vstd::prelude::*;
use super::dictionary::terminator;
use super::lexeme::{
    ending_bytes, has_unpaired_finish, lemma_open_loops, lemma_unpaired_stays, lex_state, lex_step,
    lexed, plain_bytes, plain_bytes_list, unrolled, unrolled_list, Frame, Tree,
};
use super::token::{
    count_finishes, count_starts, marker_at, run_then, tokenized, tokens_from, Marker, TokenView,
};

verus! {

/// The bytes that a token was cut from.
pub open spec fn token_bytes(token: TokenView) -> Seq<u8> {
    match token {
        TokenView::LoopStart(count) => seq![0xffu8, 0x2eu8, 0x01u8, count],
        TokenView::Data(bytes) => bytes,
        TokenView::LoopFinish => terminator(),
        TokenView::GlobalEnding => ending_bytes(),
    }
}

/// The bytes that a list of tokens was cut from.
pub open spec fn tokens_bytes(tokens: Seq<TokenView>) -> Seq<u8>
    decreases tokens.len(),
{
    if tokens.len() == 0 {
        Seq::empty()
    } else {
        tokens_bytes(tokens.drop_last()) + token_bytes(tokens.last())
    }
}

/// Whether a token list holds data and global endings only.
pub open spec fn marker_free(tokens: Seq<TokenView>) -> bool {
    forall|k: int| 0 <= k < tokens.len() ==> tokens[k] is Data || tokens[k] is GlobalEnding
}

/// Whether a list of trees holds no loop.
pub open spec fn loop_free(list: Seq<Tree>) -> bool {
    forall|k: int| 0 <= k < list.len() ==> list[k] is Data
}

proof fn lemma_bytes_after_first(first: TokenView, rest: Seq<TokenView>)
    ensures
        tokens_bytes(seq![first] + rest) == token_bytes(first) + tokens_bytes(rest),
    decreases rest.len(),
{
    let whole = seq![first] + rest;
    if rest.len() == 0 {
        assert(whole.drop_last() =~= Seq::<TokenView>::empty());
        assert(whole.last() == first);
        assert(tokens_bytes(whole.drop_last()) =~= Seq::<u8>::empty());
        assert(tokens_bytes(whole) =~= token_bytes(first) + tokens_bytes(rest));
    } else {
        lemma_bytes_after_first(first, rest.drop_last());
        assert(whole.drop_last() =~= seq![first] + rest.drop_last());
        assert(tokens_bytes(whole) =~= token_bytes(first) + tokens_bytes(rest));
    }
}

proof fn lemma_bytes_after_run(run: Seq<u8>, rest: Seq<TokenView>)
    ensures
        tokens_bytes(run_then(run, rest)) == run + tokens_bytes(rest),
{
    if run.len() == 0 {
        assert(run + tokens_bytes(rest) =~= tokens_bytes(rest));
    } else if rest.len() > 0 {
        assert(rest =~= seq![rest[0]] + rest.skip(1));
        lemma_bytes_after_first(rest[0], rest.skip(1));
        match rest[0] {
            TokenView::Data(bytes) => {
                lemma_bytes_after_first(TokenView::Data(run + bytes), rest.skip(1));
                assert((run + bytes) + tokens_bytes(rest.skip(1)) =~= run + (bytes + tokens_bytes(
                    rest.skip(1),
                )));
            },
            _ => {
                lemma_bytes_after_first(TokenView::Data(run), rest);
            },
        }
    } else {
        lemma_bytes_after_first(TokenView::Data(run), rest);
        assert(seq![TokenView::Data(run)] + rest =~= seq![TokenView::Data(run)]);
    }
}

/// The tokens cover the body without gap or overlap: written out again one
/// after the other, they give back the bytes they were cut from.
pub proof fn lemma_tokens_cover(s: Seq<u8>, i: int)
    requires
        0 <= i <= s.len(),
    ensures
        match tokens_from(s, i) {
            Some(tokens) => tokens_bytes(tokens) == s.skip(i),
            None => true,
        },
    decreases s.len() - i,
{
    if i < s.len() {
        match marker_at(s, i) {
            Marker::Truncated => {},
            Marker::Byte => {
                lemma_tokens_cover(s, i + 1);
                match tokens_from(s, i + 1) {
                    Some(rest) => {
                        lemma_bytes_after_run(seq![s[i]], rest);
                        assert(seq![s[i]] + s.skip(i + 1) =~= s.skip(i));
                    },
                    None => {},
                }
            },
            Marker::LoopStart(count) => {
                lemma_tokens_cover(s, i + 4);
                match tokens_from(s, i + 4) {
                    Some(rest) => {
                        lemma_bytes_after_first(TokenView::LoopStart(count), rest);
                        assert(seq![0xffu8, 0x2eu8, 0x01u8, count] + s.skip(i + 4) =~= s.skip(i));
                    },
                    None => {},
                }
            },
            Marker::LoopFinish => {
                lemma_tokens_cover(s, i + 3);
                match tokens_from(s, i + 3) {
                    Some(rest) => {
                        lemma_bytes_after_first(TokenView::LoopFinish, rest);
                        assert(terminator() + s.skip(i + 3) =~= s.skip(i));
                    },
                    None => {},
                }
            },
            Marker::GlobalEnding => {
                lemma_tokens_cover(s, i + 3);
                match tokens_from(s, i + 3) {
                    Some(rest) => {
                        lemma_bytes_after_first(TokenView::GlobalEnding, rest);
                        assert(ending_bytes() + s.skip(i + 3) =~= s.skip(i));
                    },
                    None => {},
                }
            },
        }
    } else {
        assert(s.skip(i) =~= Seq::<u8>::empty());
    }
}

proof fn lemma_lex_without_markers(tokens: Seq<TokenView>)
    requires
        marker_free(tokens),
    ensures
        match lex_state(tokens) {
            Some(state) => state.open.len() == 0 && plain_bytes_list(state.current) == tokens_bytes(
                tokens,
            ),
            None => false,
        },
    decreases tokens.len(),
{
    if tokens.len() > 0 {
        let front = tokens.drop_last();
        assert(marker_free(front)) by {
            assert forall|k: int| 0 <= k < front.len() implies front[k] is Data
                || front[k] is GlobalEnding by {
                assert(front[k] == tokens[k]);
            }
        }
        lemma_lex_without_markers(front);
        assert(tokens.last() == tokens[tokens.len() - 1]);
        let state = lex_state(front).unwrap();
        let next = lex_step(state, tokens.last()).unwrap();
        assert(next.current.drop_last() =~= state.current);
        assert(plain_bytes(next.current.last()) == token_bytes(tokens.last()));
    }
}

proof fn lemma_unrolled_without_loops(list: Seq<Tree>)
    requires
        loop_free(list),
    ensures
        unrolled_list(list) == plain_bytes_list(list),
    decreases list.len(),
{
    if list.len() > 0 {
        let front = list.drop_last();
        assert(loop_free(front)) by {
            assert forall|k: int| 0 <= k < front.len() implies front[k] is Data by {
                assert(front[k] == list[k]);
            }
        }
        lemma_unrolled_without_loops(front);
        assert(list.last() == list[list.len() - 1]);
        assert(unrolled(list.last()) == plain_bytes(list.last()));
    }
}

/// Round trip.  Take trees without loops, write them out, and let the bytes
/// hold no loop marker, so that the tokenizer cuts them into data and global
/// endings only.  Building trees from those tokens then succeeds, and the
/// new trees hold the same event bytes as the old ones.
pub proof fn lemma_round_trip(list: Seq<Tree>, tokens: Seq<TokenView>)
    requires
        loop_free(list),
        tokenized(unrolled_list(list)) == Some(tokens),
        marker_free(tokens),
    ensures
        lexed(tokens) is Some,
        plain_bytes_list(lexed(tokens).unwrap()) == plain_bytes_list(list),
{
    let s = unrolled_list(list);
    lemma_tokens_cover(s, 0);
    assert(s.skip(0) =~= s);
    lemma_lex_without_markers(tokens);
    lemma_unrolled_without_loops(list);
}

/// A token as the loop-tree builder takes it: a global ending is data.
pub open spec fn plain_token(token: TokenView) -> TokenView {
    match token {
        TokenView::GlobalEnding => TokenView::Data(ending_bytes()),
        _ => token,
    }
}

/// The tokens of a list as the loop-tree builder takes them.
pub open spec fn plain_tokens(tokens: Seq<TokenView>) -> Seq<TokenView> {
    Seq::new(tokens.len(), |k: int| plain_token(tokens[k]))
}

/// The tokens that a tree is built from: a data token for data, and for a
/// loop its start, the tokens of its body and its finish.
pub open spec fn tree_tokens(t: Tree) -> Seq<TokenView>
    decreases t,
{
    match t {
        Tree::Data(bytes) => seq![TokenView::Data(bytes)],
        Tree::Loop(count, body) => seq![TokenView::LoopStart(count)] + list_tokens(body) + seq![
            TokenView::LoopFinish,
        ],
    }
}

/// The tokens that a list of trees is built from.
pub open spec fn list_tokens(list: Seq<Tree>) -> Seq<TokenView>
    decreases list,
{
    if list.len() == 0 {
        Seq::empty()
    } else {
        list_tokens(list.drop_last()) + tree_tokens(list.last())
    }
}

/// The tokens read so far for the loops that are still open.
pub open spec fn open_tokens(frames: Seq<Frame>) -> Seq<TokenView>
    decreases frames.len(),
{
    if frames.len() == 0 {
        Seq::empty()
    } else {
        open_tokens(frames.drop_last()) + list_tokens(frames.last().before) + seq![
            TokenView::LoopStart(frames.last().count),
        ]
    }
}

proof fn lemma_builder_keeps_tokens(tokens: Seq<TokenView>)
    ensures
        match lex_state(tokens) {
            Some(state) => open_tokens(state.open) + list_tokens(state.current) == plain_tokens(
                tokens,
            ),
            None => true,
        },
    decreases tokens.len(),
{
    if tokens.len() == 0 {
        assert(open_tokens(Seq::empty()) + list_tokens(Seq::empty()) =~= plain_tokens(tokens));
    } else {
        let front = tokens.drop_last();
        lemma_builder_keeps_tokens(front);
        match lex_state(front) {
            Some(state) => {
                let read = open_tokens(state.open) + list_tokens(state.current);
                assert(plain_tokens(tokens) =~= plain_tokens(front).push(plain_token(tokens.last())));
                match lex_step(state, tokens.last()) {
                    Some(next) => {
                        match tokens.last() {
                            TokenView::LoopStart(count) => {
                                assert(next.open.drop_last() =~= state.open);
                                assert(open_tokens(next.open) + list_tokens(next.current)
                                    =~= read.push(TokenView::LoopStart(count)));
                            },
                            TokenView::LoopFinish => {
                                let frame = state.open.last();
                                let node = Tree::Loop(frame.count, state.current);
                                assert(next.current.drop_last() =~= frame.before);
                                assert(next.current.last() == node);
                                assert(list_tokens(next.current) == list_tokens(frame.before)
                                    + tree_tokens(node));
                                assert(open_tokens(state.open) == open_tokens(next.open)
                                    + list_tokens(frame.before) + seq![
                                    TokenView::LoopStart(frame.count),
                                ]);
                                assert(open_tokens(next.open) + list_tokens(next.current)
                                    =~= read.push(TokenView::LoopFinish));
                            },
                            _ => {
                                assert(next.current.drop_last() =~= state.current);
                                assert(tree_tokens(next.current.last()) =~= seq![
                                    plain_token(tokens.last()),
                                ]);
                                assert(list_tokens(next.current) == list_tokens(state.current)
                                    + tree_tokens(next.current.last()));
                                assert(open_tokens(next.open) + list_tokens(next.current)
                                    =~= read.push(plain_token(tokens.last())));
                            },
                        }
                    },
                    None => {},
                }
            },
            None => {},
        }
    }
}

/// The loop trees are built from the tokens and from nothing else: written
/// out again as tokens, each loop between its start and its finish, they
/// give back the token list, with each global ending as its three data
/// bytes.
pub proof fn lemma_trees_keep_tokens(tokens: Seq<TokenView>)
    ensures
        match lexed(tokens) {
            Some(list) => list_tokens(list) == plain_tokens(tokens),
            None => true,
        },
{
    lemma_builder_keeps_tokens(tokens);
    match lexed(tokens) {
        Some(list) => {
            assert(open_tokens(Seq::empty()) + list_tokens(list) =~= list_tokens(list));
        },
        None => {},
    }
}

/// Whether the data of a token list is gathered in runs: no data token is
/// empty, and none stands next to another.
pub open spec fn coalesced(tokens: Seq<TokenView>) -> bool {
    forall|k: int|
        0 <= k < tokens.len() && (#[trigger] tokens[k]) is Data ==> tokens[k]->Data_0.len() > 0 && (k
            + 1 < tokens.len() ==> !(tokens[k + 1] is Data))
}

proof fn lemma_first_keeps_runs(first: TokenView, rest: Seq<TokenView>)
    requires
        coalesced(rest),
        first is Data ==> first->Data_0.len() > 0 && (rest.len() > 0 ==> !(rest[0] is Data)),
    ensures
        coalesced(seq![first] + rest),
{
    let whole = seq![first] + rest;
    assert forall|k: int| 0 <= k < whole.len() && (#[trigger] whole[k]) is Data implies whole[k]->Data_0.len()
        > 0 && (k + 1 < whole.len() ==> !(whole[k + 1] is Data)) by {
        if k > 0 {
            assert(whole[k] == rest[k - 1]);
            if k + 1 < whole.len() {
                assert(whole[k + 1] == rest[k]);
            }
        } else if k + 1 < whole.len() {
            assert(whole[k + 1] == rest[0]);
        }
    }
}

/// Contiguous data coalesces: the tokenizer gives no empty data token and
/// no two data tokens next to each other.
pub proof fn lemma_tokens_are_coalesced(s: Seq<u8>, i: int)
    requires
        0 <= i <= s.len(),
    ensures
        match tokens_from(s, i) {
            Some(tokens) => coalesced(tokens),
            None => true,
        },
    decreases s.len() - i,
{
    if i < s.len() {
        match marker_at(s, i) {
            Marker::Truncated => {},
            Marker::Byte => {
                lemma_tokens_are_coalesced(s, i + 1);
                match tokens_from(s, i + 1) {
                    Some(rest) => {
                        let run = seq![s[i]];
                        if rest.len() > 0 && rest[0] is Data {
                            let tail = rest.skip(1);
                            assert(coalesced(tail)) by {
                                assert forall|k: int|
                                    0 <= k < tail.len() && (#[trigger] tail[k]) is Data implies tail[k]->Data_0.len()
                                    > 0 && (k + 1 < tail.len() ==> !(tail[k + 1] is Data)) by {
                                    assert(tail[k] == rest[k + 1]);
                                    if k + 1 < tail.len() {
                                        assert(tail[k + 1] == rest[k + 2]);
                                    }
                                }
                            }
                            if tail.len() > 0 {
                                assert(tail[0] == rest[1]);
                                assert(rest[0] is Data);
                            }
                            lemma_first_keeps_runs(TokenView::Data(run + rest[0]->Data_0), tail);
                        } else {
                            lemma_first_keeps_runs(TokenView::Data(run), rest);
                        }
                    },
                    None => {},
                }
            },
            Marker::LoopStart(count) => {
                lemma_tokens_are_coalesced(s, i + 4);
                match tokens_from(s, i + 4) {
                    Some(rest) => {
                        lemma_first_keeps_runs(TokenView::LoopStart(count), rest);
                    },
                    None => {},
                }
            },
            Marker::LoopFinish => {
                lemma_tokens_are_coalesced(s, i + 3);
                match tokens_from(s, i + 3) {
                    Some(rest) => {
                        lemma_first_keeps_runs(TokenView::LoopFinish, rest);
                    },
                    None => {},
                }
            },
            Marker::GlobalEnding => {
                lemma_tokens_are_coalesced(s, i + 3);
                match tokens_from(s, i + 3) {
                    Some(rest) => {
                        lemma_first_keeps_runs(TokenView::GlobalEnding, rest);
                    },
                    None => {},
                }
            },
        }
    }
}

/// Whether the first `n` tokens hold more loop finishes than loop starts.
pub open spec fn overdrawn(tokens: Seq<TokenView>, n: int) -> bool {
    0 <= n <= tokens.len() && count_finishes(tokens.subrange(0, n)) > count_starts(
        tokens.subrange(0, n),
    )
}

proof fn lemma_paired_is_never_overdrawn(tokens: Seq<TokenView>, n: int)
    requires
        0 <= n <= tokens.len(),
        lex_state(tokens) is Some,
    ensures
        !overdrawn(tokens, n),
{
    let front = tokens.subrange(0, n);
    if lex_state(front) is None {
        lemma_unpaired_stays(tokens, n);
    }
    lemma_open_loops(front);
}

proof fn lemma_unpaired_is_overdrawn(tokens: Seq<TokenView>) -> (n: int)
    requires
        lex_state(tokens) is None,
    ensures
        overdrawn(tokens, n),
    decreases tokens.len(),
{
    let front = tokens.drop_last();
    if lex_state(front) is None {
        let n = lemma_unpaired_is_overdrawn(front);
        assert(front.subrange(0, n) =~= tokens.subrange(0, n));
        n
    } else {
        lemma_open_loops(front);
        assert(tokens.subrange(0, tokens.len() as int) =~= tokens);
        tokens.len() as int
    }
}

/// A loop finish is unpaired exactly when, up to some token, the list holds
/// more loop finishes than loop starts.
pub proof fn lemma_unpaired_means_overdrawn(tokens: Seq<TokenView>)
    ensures
        has_unpaired_finish(tokens) <==> exists|n: int| overdrawn(tokens, n),
{
    if lex_state(tokens) is None {
        let n = lemma_unpaired_is_overdrawn(tokens);
        assert(overdrawn(tokens, n));
    } else {
        assert forall|n: int| !overdrawn(tokens, n) by {
            if 0 <= n <= tokens.len() {
                lemma_paired_is_never_overdrawn(tokens, n);
            }
        }
    }
}

/// The event bytes of a token list: the bytes of its data tokens and of its
/// global endings, without the loop markers.
pub open spec fn data_bytes(tokens: Seq<TokenView>) -> Seq<u8>
    decreases tokens.len(),
{
    if tokens.len() == 0 {
        Seq::empty()
    } else {
        data_bytes(tokens.drop_last()) + match tokens.last() {
            TokenView::Data(bytes) => bytes,
            TokenView::GlobalEnding => ending_bytes(),
            _ => Seq::empty(),
        }
    }
}

proof fn lemma_data_bytes_add(a: Seq<TokenView>, b: Seq<TokenView>)
    ensures
        data_bytes(a + b) == data_bytes(a) + data_bytes(b),
    decreases b.len(),
{
    if b.len() == 0 {
        assert(a + b =~= a);
        assert(data_bytes(a) + data_bytes(b) =~= data_bytes(a));
    } else {
        lemma_data_bytes_add(a, b.drop_last());
        assert((a + b).drop_last() =~= a + b.drop_last());
        assert((a + b).last() == b.last());
        assert(data_bytes(a + b) =~= data_bytes(a) + data_bytes(b));
    }
}

proof fn lemma_data_bytes_of_one(token: TokenView)
    ensures
        data_bytes(seq![token]) == match token {
            TokenView::Data(bytes) => bytes,
            TokenView::GlobalEnding => ending_bytes(),
            _ => Seq::empty(),
        },
{
    let one = seq![token];
    assert(one.drop_last() =~= Seq::<TokenView>::empty());
    assert(one.last() == token);
    assert(data_bytes(one.drop_last()) =~= Seq::<u8>::empty());
    assert(data_bytes(one) =~= match token {
        TokenView::Data(bytes) => bytes,
        TokenView::GlobalEnding => ending_bytes(),
        _ => Seq::empty(),
    });
}

proof fn lemma_data_bytes_of_tree(t: Tree)
    ensures
        data_bytes(tree_tokens(t)) == plain_bytes(t),
    decreases t,
{
    match t {
        Tree::Data(bytes) => {
            lemma_data_bytes_of_one(TokenView::Data(bytes));
        },
        Tree::Loop(count, body) => {
            lemma_data_bytes_of_list(body);
            lemma_data_bytes_of_one(TokenView::LoopStart(count));
            lemma_data_bytes_of_one(TokenView::LoopFinish);
            lemma_data_bytes_add(seq![TokenView::LoopStart(count)], list_tokens(body));
            lemma_data_bytes_add(
                seq![TokenView::LoopStart(count)] + list_tokens(body),
                seq![TokenView::LoopFinish],
            );
            assert(data_bytes(tree_tokens(t)) =~= plain_bytes(t));
        },
    }
}

proof fn lemma_data_bytes_of_list(list: Seq<Tree>)
    ensures
        data_bytes(list_tokens(list)) == plain_bytes_list(list),
    decreases list,
{
    if list.len() > 0 {
        lemma_data_bytes_of_list(list.drop_last());
        lemma_data_bytes_of_tree(list.last());
        lemma_data_bytes_add(list_tokens(list.drop_last()), tree_tokens(list.last()));
    }
}

proof fn lemma_data_bytes_of_plain(tokens: Seq<TokenView>)
    ensures
        data_bytes(plain_tokens(tokens)) == data_bytes(tokens),
    decreases tokens.len(),
{
    if tokens.len() > 0 {
        lemma_data_bytes_of_plain(tokens.drop_last());
        assert(plain_tokens(tokens).drop_last() =~= plain_tokens(tokens.drop_last()));
        assert(plain_tokens(tokens).last() == plain_token(tokens.last()));
    }
}

/// Building the loop trees keeps the event bytes: the trees, written out
/// with each loop body once and without markers, give the bytes of the data
/// tokens and global endings they were built from, in order.
pub proof fn lemma_trees_keep_data(tokens: Seq<TokenView>)
    ensures
        match lexed(tokens) {
            Some(list) => plain_bytes_list(list) == data_bytes(tokens),
            None => true,
        },
{
    lemma_trees_keep_tokens(tokens);
    match lexed(tokens) {
        Some(list) => {
            lemma_data_bytes_of_list(list);
            lemma_data_bytes_of_plain(tokens);
        },
        None => {},
    }
}

} // verus!
