//! The tokenizer: cuts the event body into data runs and loop markers.

use vstd::prelude::*;
use vstd::slice::slice_subrange;
use super::error::ConvertError;
use super::laws::{coalesced, lemma_tokens_are_coalesced, lemma_tokens_cover, tokens_bytes};

verus! {

/// One piece of the event body.
#[derive(Clone, Copy, Debug)]
pub enum Token<'a> {
    /// `FF 2E 01 XX`, with `XX` the repeat count.
    LoopStart(u8),
    /// A run of bytes that holds no marker.
    Data(&'a [u8]),
    /// `FF 2F 00`.
    LoopFinish,
    /// `FF 44 00`.
    GlobalEnding,
}

/// A token as a mathematical value.
pub enum TokenView {
    LoopStart(u8),
    Data(Seq<u8>),
    LoopFinish,
    GlobalEnding,
}

impl<'a> View for Token<'a> {
    type V = TokenView;

    open spec fn view(&self) -> TokenView {
        match self {
            Token::LoopStart(count) => TokenView::LoopStart(*count),
            Token::Data(bytes) => TokenView::Data(bytes@),
            Token::LoopFinish => TokenView::LoopFinish,
            Token::GlobalEnding => TokenView::GlobalEnding,
        }
    }
}

/// The values of a list of tokens, in order.
pub open spec fn token_views<'a>(tokens: Seq<Token<'a>>) -> Seq<TokenView> {
    Seq::new(tokens.len(), |k: int| tokens[k]@)
}

/// What stands at one position of the body.
pub enum Marker {
    LoopStart(u8),
    LoopFinish,
    GlobalEnding,
    /// An ordinary byte, which joins the open data run.
    Byte,
    /// A lead byte whose continuation lies past the end of the body.
    Truncated,
}

/// Reads the marker at `i`.  After the lead byte `FF`, the next byte is
/// looked at, and the one after it only when the first can still begin a
/// marker; a read past the end of the body makes the position truncated.
pub open spec fn marker_at(s: Seq<u8>, i: int) -> Marker
    recommends
        0 <= i < s.len(),
{
    if s[i] != 0xff {
        Marker::Byte
    } else if i + 1 >= s.len() {
        Marker::Truncated
    } else if s[i + 1] == 0x2e {
        if i + 2 >= s.len() {
            Marker::Truncated
        } else if s[i + 2] != 0x01 {
            Marker::Byte
        } else if i + 3 >= s.len() {
            Marker::Truncated
        } else {
            Marker::LoopStart(s[i + 3])
        }
    } else if s[i + 1] == 0x2f || s[i + 1] == 0x44 {
        if i + 2 >= s.len() {
            Marker::Truncated
        } else if s[i + 2] != 0x00 {
            Marker::Byte
        } else if s[i + 1] == 0x2f {
            Marker::LoopFinish
        } else {
            Marker::GlobalEnding
        }
    } else {
        Marker::Byte
    }
}

/// Puts a run of bytes in front of a token list; it merges with a data token
/// that leads the list.
pub open spec fn run_then(run: Seq<u8>, rest: Seq<TokenView>) -> Seq<TokenView> {
    if run.len() == 0 {
        rest
    } else if rest.len() > 0 {
        match rest[0] {
            TokenView::Data(bytes) => seq![TokenView::Data(run + bytes)] + rest.skip(1),
            _ => seq![TokenView::Data(run)] + rest,
        }
    } else {
        seq![TokenView::Data(run)]
    }
}

/// The tokens of the body from position `i` on; `None` when a marker is cut
/// off by the end of the body.
pub open spec fn tokens_from(s: Seq<u8>, i: int) -> Option<Seq<TokenView>>
    decreases s.len() - i,
{
    if i < 0 || i >= s.len() {
        Some(Seq::empty())
    } else {
        match marker_at(s, i) {
            Marker::Truncated => None,
            Marker::Byte => match tokens_from(s, i + 1) {
                Some(rest) => Some(run_then(seq![s[i]], rest)),
                None => None,
            },
            Marker::LoopStart(count) => match tokens_from(s, i + 4) {
                Some(rest) => Some(seq![TokenView::LoopStart(count)] + rest),
                None => None,
            },
            Marker::LoopFinish => match tokens_from(s, i + 3) {
                Some(rest) => Some(seq![TokenView::LoopFinish] + rest),
                None => None,
            },
            Marker::GlobalEnding => match tokens_from(s, i + 3) {
                Some(rest) => Some(seq![TokenView::GlobalEnding] + rest),
                None => None,
            },
        }
    }
}

/// The tokens of a whole event body.
pub open spec fn tokenized(s: Seq<u8>) -> Option<Seq<TokenView>> {
    tokens_from(s, 0)
}

/// The tokens found so far, the open run, and the tokens still to come.
pub open spec fn scan_state(done: Seq<TokenView>, run: Seq<u8>, rest: Option<Seq<TokenView>>) -> Option<
    Seq<TokenView>,
> {
    match rest {
        Some(tokens) => Some(done + run_then(run, tokens)),
        None => None,
    }
}

proof fn lemma_byte_joins_run(done: Seq<TokenView>, run: Seq<u8>, b: u8, rest: Option<Seq<TokenView>>)
    ensures
        scan_state(
            done,
            run,
            match rest {
                Some(tokens) => Some(run_then(seq![b], tokens)),
                None => None,
            },
        ) == scan_state(done, run.push(b), rest),
{
    match rest {
        Some(tokens) => {
            let single = seq![b];
            assert(run + single =~= run.push(b));
            if tokens.len() > 0 {
                match tokens[0] {
                    TokenView::Data(bytes) => {
                        let merged = seq![TokenView::Data(single + bytes)] + tokens.skip(1);
                        assert(merged[0] == TokenView::Data(single + bytes));
                        assert(merged.skip(1) =~= tokens.skip(1));
                        assert(run + (single + bytes) =~= run.push(b) + bytes);
                        if run.len() == 0 {
                            assert(single + bytes =~= run.push(b) + bytes);
                        }
                    },
                    _ => {
                        let led = seq![TokenView::Data(single)] + tokens;
                        assert(led[0] == TokenView::Data(single));
                        assert(led.skip(1) =~= tokens);
                        assert(run + single =~= run.push(b));
                        if run.len() == 0 {
                            assert(single =~= run.push(b));
                        }
                    },
                }
            } else {
                let led = seq![TokenView::Data(single)];
                assert(run_then(single, tokens) == led);
                assert(led.skip(1) =~= Seq::<TokenView>::empty());
                assert(led[0] == TokenView::Data(single));
                if run.len() == 0 {
                    assert(single =~= run.push(b));
                } else {
                    assert(seq![TokenView::Data(run + single)] + led.skip(1) =~= seq![
                        TokenView::Data(run.push(b)),
                    ]);
                }
            }
        },
        None => {},
    }
}

proof fn lemma_marker_closes_run(
    done: Seq<TokenView>,
    run: Seq<u8>,
    marker: TokenView,
    rest: Option<Seq<TokenView>>,
)
    requires
        !(marker is Data),
    ensures
        scan_state(
            done,
            run,
            match rest {
                Some(tokens) => Some(seq![marker] + tokens),
                None => None,
            },
        ) == scan_state(
            if run.len() == 0 {
                done.push(marker)
            } else {
                done.push(TokenView::Data(run)).push(marker)
            },
            Seq::empty(),
            rest,
        ),
{
    match rest {
        Some(tokens) => {
            let led = seq![marker] + tokens;
            assert(led[0] == marker);
            if run.len() == 0 {
                assert(done + led =~= done.push(marker) + tokens);
            } else {
                assert(done + (seq![TokenView::Data(run)] + led) =~= done.push(TokenView::Data(run)).push(
                    marker,
                ) + tokens);
            }
        },
        None => {},
    }
}

proof fn lemma_scan_begins(rest: Option<Seq<TokenView>>)
    ensures
        scan_state(Seq::empty(), Seq::empty(), rest) == rest,
{
    match rest {
        Some(tokens) => {
            assert(Seq::<TokenView>::empty() + tokens =~= tokens);
        },
        None => {},
    }
}

fn close_run<'a>(tokens: &mut Vec<Token<'a>>, bytes: &'a [u8], start: usize, end: usize)
    requires
        start <= end <= bytes@.len(),
    ensures
        token_views(final(tokens)@) == if start == end {
            token_views(old(tokens)@)
        } else {
            token_views(old(tokens)@).push(TokenView::Data(bytes@.subrange(start as int, end as int)))
        },
{
    if start < end {
        tokens.push(Token::Data(slice_subrange(bytes, start, end)));
        assert(token_views(tokens@) =~= token_views(old(tokens)@).push(
            TokenView::Data(bytes@.subrange(start as int, end as int)),
        ));
    }
}

fn push_marker<'a>(tokens: &mut Vec<Token<'a>>, marker: Token<'a>)
    ensures
        token_views(final(tokens)@) == token_views(old(tokens)@).push(marker@),
{
    tokens.push(marker);
    assert(token_views(tokens@) =~= token_views(old(tokens)@).push(marker@));
}

/// Cuts the event body into tokens that cover it without gap or overlap:
/// each marker becomes its token, and the bytes between markers become one
/// data token.  A lead byte that no marker follows is data.  The body is
/// refused when a marker is cut off by its end.
pub fn parse_file<'a>(bytes: &'a [u8]) -> (res: Result<Vec<Token<'a>>, ConvertError>)
    ensures
        match res {
            Ok(tokens) => {
                &&& tokenized(bytes@) == Some(token_views(tokens@))
                &&& tokens_bytes(token_views(tokens@)) == bytes@
                &&& coalesced(token_views(tokens@))
            },
            Err(e) => e == ConvertError::TruncatedBuffer && tokenized(bytes@) is None,
        },
{
    let len = bytes.len();
    let ghost s = bytes@;
    let mut tokens: Vec<Token<'a>> = Vec::new();
    let mut start: usize = 0;
    let mut i: usize = 0;
    proof {
        lemma_tokens_cover(s, 0);
        lemma_tokens_are_coalesced(s, 0);
        assert(s.skip(0) =~= s);
        assert(token_views(tokens@) =~= Seq::empty());
        assert(s.subrange(0, 0) =~= Seq::empty());
        lemma_scan_begins(tokens_from(s, 0));
    }
    while i < len
        invariant
            bytes@ == s,
            len == s.len(),
            start <= i <= len,
            tokenized(s) == scan_state(
                token_views(tokens@),
                s.subrange(start as int, i as int),
                tokens_from(s, i as int),
            ),
        decreases len - i,
    {
        let ghost done = token_views(tokens@);
        let ghost run = s.subrange(start as int, i as int);
        if bytes[i] == 0xff {
            if len - i < 2 {
                return Err(ConvertError::TruncatedBuffer);
            }
            let next = bytes[i + 1];
            if next == 0x2e || next == 0x2f || next == 0x44 {
                if len - i < 3 {
                    return Err(ConvertError::TruncatedBuffer);
                }
                let arg = bytes[i + 2];
                if next == 0x2e && arg == 0x01 {
                    if len - i < 4 {
                        return Err(ConvertError::TruncatedBuffer);
                    }
                    let count = bytes[i + 3];
                    proof {
                        lemma_marker_closes_run(
                            done,
                            run,
                            TokenView::LoopStart(count),
                            tokens_from(s, i + 4),
                        );
                    }
                    close_run(&mut tokens, bytes, start, i);
                    push_marker(&mut tokens, Token::LoopStart(count));
                    i = i + 4;
                    start = i;
                    assert(s.subrange(start as int, i as int) =~= Seq::empty());
                    continue;
                } else if next != 0x2e && arg == 0x00 {
                    let marker = if next == 0x2f {
                        Token::LoopFinish
                    } else {
                        Token::GlobalEnding
                    };
                    proof {
                        lemma_marker_closes_run(done, run, marker@, tokens_from(s, i + 3));
                    }
                    close_run(&mut tokens, bytes, start, i);
                    push_marker(&mut tokens, marker);
                    i = i + 3;
                    start = i;
                    assert(s.subrange(start as int, i as int) =~= Seq::empty());
                    continue;
                }
            }
        }
        proof {
            lemma_byte_joins_run(done, run, s[i as int], tokens_from(s, i + 1));
            assert(run.push(s[i as int]) =~= s.subrange(start as int, i + 1));
        }
        i = i + 1;
    }
    let ghost done = token_views(tokens@);
    close_run(&mut tokens, bytes, start, len);
    proof {
        assert(tokens_from(s, len as int) == Some(Seq::<TokenView>::empty()));
        assert(done + Seq::<TokenView>::empty() =~= done);
        assert(done + seq![TokenView::Data(s.subrange(start as int, len as int))] =~= done.push(
            TokenView::Data(s.subrange(start as int, len as int)),
        ));
    }
    Ok(tokens)
}

/// The single zero byte of a synthetic data token.
pub const PAD: [u8; 1] = [0];

/// Number of loop-start tokens in a list.
pub open spec fn count_starts(tokens: Seq<TokenView>) -> nat
    decreases tokens.len(),
{
    if tokens.len() == 0 {
        0
    } else {
        count_starts(tokens.drop_last()) + if tokens.last() is LoopStart { 1nat } else { 0nat }
    }
}

/// Number of loop-finish tokens in a list.
pub open spec fn count_finishes(tokens: Seq<TokenView>) -> nat
    decreases tokens.len(),
{
    if tokens.len() == 0 {
        0
    } else {
        count_finishes(tokens.drop_last()) + if tokens.last() is LoopFinish { 1nat } else { 0nat }
    }
}

/// The synthetic data token: one zero byte.
pub open spec fn pad_data() -> TokenView {
    TokenView::Data(seq![0u8])
}

/// `pairs` times the synthetic data token followed by `marker`.
pub open spec fn padding(marker: TokenView, pairs: nat) -> Seq<TokenView>
    decreases pairs,
{
    if pairs == 0 {
        Seq::empty()
    } else {
        padding(marker, (pairs - 1) as nat).push(pad_data()).push(marker)
    }
}

/// A token list with as many loop starts as loop finishes.  Missing starts
/// are put in front, each behind a synthetic data token and with count zero;
/// missing finishes are put before the last token, each behind a synthetic
/// data token.
pub open spec fn balanced(tokens: Seq<TokenView>) -> Seq<TokenView> {
    let starts = count_starts(tokens);
    let finishes = count_finishes(tokens);
    if starts < finishes {
        padding(TokenView::LoopStart(0), (finishes - starts) as nat) + tokens
    } else if starts > finishes {
        tokens.drop_last() + padding(TokenView::LoopFinish, (starts - finishes) as nat) + seq![
            tokens.last(),
        ]
    } else {
        tokens
    }
}

proof fn lemma_counts_add(a: Seq<TokenView>, b: Seq<TokenView>)
    ensures
        count_starts(a + b) == count_starts(a) + count_starts(b),
        count_finishes(a + b) == count_finishes(a) + count_finishes(b),
    decreases b.len(),
{
    if b.len() == 0 {
        assert(a + b =~= a);
    } else {
        lemma_counts_add(a, b.drop_last());
        assert((a + b).drop_last() =~= a + b.drop_last());
    }
}

proof fn lemma_counts_of_padding(marker: TokenView, pairs: nat)
    ensures
        count_starts(padding(marker, pairs)) == if marker is LoopStart { pairs } else { 0 },
        count_finishes(padding(marker, pairs)) == if marker is LoopFinish { pairs } else { 0 },
    decreases pairs,
{
    if pairs > 0 {
        let before = padding(marker, (pairs - 1) as nat);
        lemma_counts_of_padding(marker, (pairs - 1) as nat);
        let middle = before.push(pad_data());
        let whole = middle.push(marker);
        assert(whole.drop_last() =~= middle);
        assert(middle.drop_last() =~= before);
        assert(count_starts(middle) == count_starts(before));
        assert(count_finishes(middle) == count_finishes(before));
        assert(count_starts(whole) == count_starts(middle) + if marker is LoopStart { 1nat } else { 0nat });
        assert(count_finishes(whole) == count_finishes(middle) + if marker is LoopFinish { 1nat } else { 0nat });
    }
}

/// After balancing, a token list holds as many loop starts as loop finishes.
pub proof fn lemma_balanced_counts_match(tokens: Seq<TokenView>)
    ensures
        count_starts(balanced(tokens)) == count_finishes(balanced(tokens)),
{
    let starts = count_starts(tokens);
    let finishes = count_finishes(tokens);
    if starts < finishes {
        let pad = padding(TokenView::LoopStart(0), (finishes - starts) as nat);
        lemma_counts_of_padding(TokenView::LoopStart(0), (finishes - starts) as nat);
        lemma_counts_add(pad, tokens);
    } else if starts > finishes {
        let pad = padding(TokenView::LoopFinish, (starts - finishes) as nat);
        let last = seq![tokens.last()];
        lemma_counts_of_padding(TokenView::LoopFinish, (starts - finishes) as nat);
        lemma_counts_add(tokens.drop_last(), pad);
        lemma_counts_add(tokens.drop_last() + pad, last);
        lemma_counts_add(tokens.drop_last(), last);
        assert(tokens.drop_last() + last =~= tokens);
    }
}

/// Counts the loop starts and the loop finishes of a token list.
pub fn count_loops<'a>(tokens: &Vec<Token<'a>>) -> (counts: (usize, usize))
    ensures
        counts.0 == count_starts(token_views(tokens@)),
        counts.1 == count_finishes(token_views(tokens@)),
{
    let mut starts: usize = 0;
    let mut finishes: usize = 0;
    let mut i: usize = 0;
    let ghost views = token_views(tokens@);
    assert(views.subrange(0, 0) =~= Seq::empty());
    while i < tokens.len()
        invariant
            views == token_views(tokens@),
            i <= tokens@.len(),
            starts == count_starts(views.subrange(0, i as int)),
            finishes == count_finishes(views.subrange(0, i as int)),
            starts <= i,
            finishes <= i,
        decreases tokens@.len() - i,
    {
        assert(views.subrange(0, i + 1).drop_last() =~= views.subrange(0, i as int));
        match tokens[i] {
            Token::LoopStart(_) => {
                starts = starts + 1;
            },
            Token::LoopFinish => {
                finishes = finishes + 1;
            },
            _ => {},
        }
        i = i + 1;
    }
    assert(views.subrange(0, i as int) =~= views);
    (starts, finishes)
}

fn push_padding<'a>(out: &mut Vec<Token<'a>>, marker: Token<'a>, pairs: usize)
    ensures
        token_views(final(out)@) == token_views(old(out)@) + padding(marker@, pairs as nat),
{
    let mut k: usize = 0;
    assert(token_views(out@) + padding(marker@, 0) =~= token_views(out@));
    while k < pairs
        invariant
            k <= pairs,
            token_views(out@) == token_views(old(out)@) + padding(marker@, k as nat),
        decreases pairs - k,
    {
        let ghost before = token_views(out@);
        out.push(Token::Data(vstd::array::array_as_slice(&PAD)));
        out.push(marker);
        k = k + 1;
        proof {
            assert(PAD@ =~= seq![0u8]);
            assert(token_views(out@) =~= before.push(pad_data()).push(marker@));
            assert(token_views(old(out)@) + padding(marker@, (k - 1) as nat).push(pad_data()).push(
                marker@,
            ) =~= before.push(pad_data()).push(marker@));
        }
    }
}

fn push_tokens<'a>(out: &mut Vec<Token<'a>>, tokens: &Vec<Token<'a>>, from: usize, to: usize)
    requires
        from <= to <= tokens@.len(),
    ensures
        token_views(final(out)@) == token_views(old(out)@) + token_views(tokens@).subrange(
            from as int,
            to as int,
        ),
{
    let mut k: usize = from;
    assert(token_views(out@) + token_views(tokens@).subrange(from as int, from as int) =~= token_views(
        out@,
    ));
    while k < to
        invariant
            from <= k <= to <= tokens@.len(),
            token_views(out@) == token_views(old(out)@) + token_views(tokens@).subrange(
                from as int,
                k as int,
            ),
        decreases to - k,
    {
        let ghost before = token_views(out@);
        out.push(tokens[k]);
        k = k + 1;
        assert(token_views(out@) =~= before.push(tokens@[k - 1]@));
        assert(token_views(old(out)@) + token_views(tokens@).subrange(from as int, k as int)
            =~= before.push(tokens@[k - 1]@));
    }
}

/// Balances a token list in place, so that the loop-tree builder finds a
/// loop start for every loop finish.
pub fn balance<'a>(tokens: &mut Vec<Token<'a>>)
    ensures
        token_views(final(tokens)@) == balanced(token_views(old(tokens)@)),
        count_starts(token_views(final(tokens)@)) == count_finishes(token_views(final(tokens)@)),
{
    let ghost views = token_views(tokens@);
    proof {
        lemma_balanced_counts_match(views);
    }
    let (starts, finishes) = count_loops(tokens);
    let len = tokens.len();
    if starts < finishes {
        let mut out: Vec<Token<'a>> = Vec::new();
        assert(token_views(out@) =~= Seq::empty());
        push_padding(&mut out, Token::LoopStart(0), finishes - starts);
        push_tokens(&mut out, tokens, 0, len);
        proof {
            assert(views.subrange(0, len as int) =~= views);
            assert(Seq::<TokenView>::empty() + padding(
                TokenView::LoopStart(0),
                (finishes - starts) as nat,
            ) =~= padding(TokenView::LoopStart(0), (finishes - starts) as nat));
        }
        *tokens = out;
    } else if starts > finishes {
        assert(len > 0);
        let mut out: Vec<Token<'a>> = Vec::new();
        assert(token_views(out@) =~= Seq::empty());
        push_tokens(&mut out, tokens, 0, len - 1);
        push_padding(&mut out, Token::LoopFinish, starts - finishes);
        push_tokens(&mut out, tokens, len - 1, len);
        proof {
            assert(views.subrange(0, len - 1) =~= views.drop_last());
            assert(views.subrange(len - 1, len as int) =~= seq![views.last()]);
            assert(Seq::<TokenView>::empty() + views.drop_last() =~= views.drop_last());
        }
        *tokens = out;
    }
}

} // verus!
