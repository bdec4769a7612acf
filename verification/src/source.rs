//! How a chain of calls is written down, and that reading it back gives the
//! chain again.

use crate::ast::Node;
use crate::interpret::{interpret_text, InterpretError};
use crate::parser::{
    argument_of, is_skip_word, parse_call, parse_calls, parse_more_arguments, parse_tokens,
    ParseError,
};
use crate::token::{
    closing_quote, identifier_end, is_blank, is_identifier_char, is_identifier_start, lex,
    lex_from, token_then, LexError, TokenView,
};
use vstd::prelude::*;

verus! {

/// How a token is written.
pub open spec fn token_text(token: TokenView) -> Seq<char> {
    match token {
        TokenView::Dot => seq!['.'],
        TokenView::LeftParen => seq!['('],
        TokenView::RightParen => seq![')'],
        TokenView::Comma => seq![','],
        TokenView::Identifier(name) => name,
        TokenView::StringLiteral(text) => seq!['"'] + text + seq!['"'],
    }
}

/// How a sequence of tokens is written: one after another, without blanks.
pub open spec fn tokens_text(tokens: Seq<TokenView>) -> Seq<char>
    decreases tokens.len(),
{
    if tokens.len() == 0 {
        Seq::empty()
    } else {
        token_text(tokens[0]) + tokens_text(tokens.drop_first())
    }
}

/// A text that the lexer reads as one identifier: it starts with an ASCII
/// letter or an underscore and goes on with identifier characters.
pub open spec fn is_identifier(name: Seq<char>) -> bool {
    &&& name.len() > 0
    &&& is_identifier_start(name[0])
    &&& forall|i: int| 0 <= i < name.len() ==> is_identifier_char(#[trigger] name[i])
}

/// A token that can be written and read back: an identifier has the form of
/// one, and a string literal holds no `"`.
pub open spec fn is_writable(token: TokenView) -> bool {
    match token {
        TokenView::Identifier(name) => is_identifier(name),
        TokenView::StringLiteral(text) => forall|i: int|
            0 <= i < text.len() ==> #[trigger] text[i] != '"',
        _ => true,
    }
}

/// Whether a text that follows an identifier keeps apart from it: it is empty
/// or begins with something that is no identifier character.
pub open spec fn ends_identifier(rest: Seq<char>) -> bool {
    rest.len() == 0 || !is_identifier_char(rest[0])
}

/// A sequence of tokens that can be written without blanks and read back:
/// each token is writable, and no identifier is followed by another one.
pub open spec fn are_writable(tokens: Seq<TokenView>) -> bool {
    &&& forall|i: int| 0 <= i < tokens.len() ==> is_writable(#[trigger] tokens[i])
    &&& forall|i: int|
        0 <= i < tokens.len() - 1 ==> !((#[trigger] tokens[i]) is Identifier && tokens[i
            + 1] is Identifier)
}

proof fn lemma_quote_found(s: Seq<char>, from: int, end: int)
    requires
        0 <= from <= end < s.len(),
        forall|k: int| from <= k < end ==> s[k] != '"',
        s[end] == '"',
    ensures
        closing_quote(s, from) == end,
    decreases end - from,
{
    if from < end {
        lemma_quote_found(s, from + 1, end);
    }
}

proof fn lemma_identifier_found(s: Seq<char>, from: int, end: int)
    requires
        0 <= from <= end <= s.len(),
        forall|k: int| from <= k < end ==> is_identifier_char(s[k]),
        end < s.len() ==> !is_identifier_char(s[end]),
    ensures
        identifier_end(s, from) == end,
    decreases end - from,
{
    if from < end {
        lemma_identifier_found(s, from + 1, end);
    }
}

proof fn lemma_quote_shift(pre: Seq<char>, s: Seq<char>, k: int)
    requires
        0 <= k <= s.len(),
    ensures
        closing_quote(pre + s, pre.len() + k) == pre.len() + closing_quote(s, k),
    decreases s.len() - k,
{
    if k < s.len() {
        assert((pre + s)[pre.len() + k] == s[k]);
        if s[k] != '"' {
            lemma_quote_shift(pre, s, k + 1);
        }
    }
}

proof fn lemma_identifier_shift(pre: Seq<char>, s: Seq<char>, k: int)
    requires
        0 <= k <= s.len(),
    ensures
        identifier_end(pre + s, pre.len() + k) == pre.len() + identifier_end(s, k),
    decreases s.len() - k,
{
    if k < s.len() {
        assert((pre + s)[pre.len() + k] == s[k]);
        if is_identifier_char(s[k]) {
            lemma_identifier_shift(pre, s, k + 1);
        }
    }
}

/// What the lexer reads from some index on does not depend on what stands
/// before that index.
pub proof fn lemma_lex_shift(pre: Seq<char>, s: Seq<char>, k: int)
    requires
        0 <= k <= s.len(),
    ensures
        lex_from(pre + s, pre.len() + k) == lex_from(s, k),
    decreases s.len() - k,
{
    let whole = pre + s;
    let at = pre.len() + k;
    if k < s.len() {
        let c = s[k];
        assert(whole[at] == c);
        if is_blank(c) || c == '.' || c == '(' || c == ')' || c == ',' {
            lemma_lex_shift(pre, s, k + 1);
        } else if c == '"' {
            lemma_quote_shift(pre, s, k + 1);
            crate::token::lemma_closing_quote(s, k + 1);
            let end = closing_quote(s, k + 1);
            if end < s.len() {
                assert(whole.subrange(at + 1, pre.len() + end) =~= s.subrange(k + 1, end));
                lemma_lex_shift(pre, s, end + 1);
            }
        } else if is_identifier_start(c) {
            lemma_identifier_shift(pre, s, k + 1);
            crate::token::lemma_identifier_end(s, k + 1);
            let end = identifier_end(s, k + 1);
            assert(whole.subrange(at, pre.len() + end) =~= s.subrange(k, end));
            lemma_lex_shift(pre, s, end);
        }
    }
}

/// Blanks in front of a text are skipped.
pub proof fn lex_skips_blanks(blanks: Seq<char>, rest: Seq<char>)
    requires
        forall|i: int| 0 <= i < blanks.len() ==> is_blank(#[trigger] blanks[i]),
    ensures
        lex(blanks + rest) == lex(rest),
    decreases blanks.len(),
{
    if blanks.len() == 0 {
        assert(blanks + rest =~= rest);
    } else {
        let whole = blanks + rest;
        assert(whole[0] == blanks[0]);
        let tail = blanks.drop_first() + rest;
        assert(whole =~= seq![blanks[0]] + tail);
        lemma_lex_shift(seq![blanks[0]], tail, 0);
        assert forall|i: int| 0 <= i < blanks.drop_first().len() implies is_blank(
            #[trigger] blanks.drop_first()[i],
        ) by {
            assert(blanks.drop_first()[i] == blanks[i + 1]);
        }
        lex_skips_blanks(blanks.drop_first(), rest);
    }
}

/// A writable token in front of a text is read as that token, and the lexer
/// goes on with the rest, provided that the rest keeps apart from an
/// identifier.
pub proof fn lex_reads_token(token: TokenView, rest: Seq<char>)
    requires
        is_writable(token),
        token is Identifier ==> ends_identifier(rest),
    ensures
        lex(token_text(token) + rest) == token_then(token, lex(rest)),
{
    let text = token_text(token);
    let whole = text + rest;
    lemma_lex_shift(text, rest, 0);
    match token {
        TokenView::Identifier(name) => {
            assert(whole[0] == name[0]);
            assert forall|k: int| 1 <= k < name.len() implies is_identifier_char(whole[k]) by {
                assert(whole[k] == name[k]);
            }
            if rest.len() > 0 {
                assert(whole[name.len() as int] == rest[0]);
            }
            lemma_identifier_found(whole, 1, name.len() as int);
            assert(whole.subrange(0, name.len() as int) =~= name);
        },
        TokenView::StringLiteral(body) => {
            let end = body.len() as int + 1;
            assert(whole[0] == '"');
            assert forall|k: int| 1 <= k < end implies whole[k] != '"' by {
                assert(whole[k] == body[k - 1]);
            }
            assert(whole[end] == '"');
            lemma_quote_found(whole, 1, end);
            assert(whole.subrange(1, end) =~= body);
        },
        _ => {
            assert(whole[0] == text[0]);
        },
    }
}

/// The first character of what a writable token sequence is written as keeps
/// apart from an identifier, unless the sequence begins with one.
proof fn lemma_text_ends_identifier(tokens: Seq<TokenView>)
    requires
        are_writable(tokens),
        tokens.len() > 0 ==> !(tokens[0] is Identifier),
    ensures
        ends_identifier(tokens_text(tokens)),
{
    if tokens.len() > 0 {
        let text = token_text(tokens[0]);
        let rest = tokens_text(tokens.drop_first());
        assert(is_writable(tokens[0]));
        assert((text + rest)[0] == text[0]);
    }
}

/// Writing tokens down and reading them back gives the tokens again.
pub proof fn lex_reads_back(tokens: Seq<TokenView>)
    requires
        are_writable(tokens),
    ensures
        lex(tokens_text(tokens)) == Ok::<Seq<TokenView>, LexError>(tokens),
    decreases tokens.len(),
{
    if tokens.len() == 0 {
        assert(tokens =~= Seq::empty());
    } else {
        let first = tokens[0];
        let others = tokens.drop_first();
        assert(is_writable(first));
        assert forall|i: int| 0 <= i < others.len() implies is_writable(#[trigger] others[i]) by {
            assert(others[i] == tokens[i + 1]);
        }
        assert forall|i: int| 0 <= i < others.len() - 1 implies !((#[trigger] others[i])
            is Identifier && others[i + 1] is Identifier) by {
            assert(others[i] == tokens[i + 1]);
            assert(others[i + 1] == tokens[i + 2]);
        }
        if first is Identifier {
            if others.len() > 0 {
                assert(others[0] == tokens[1]);
                assert(!(tokens[0] is Identifier && tokens[1] is Identifier));
            }
            lemma_text_ends_identifier(others);
        }
        lex_reads_token(first, tokens_text(others));
        lex_reads_back(others);
        assert(seq![first] + others =~= tokens);
    }
}

/// Whether a text holds blanks only.
pub open spec fn are_blanks(s: Seq<char>) -> bool {
    forall|i: int| 0 <= i < s.len() ==> is_blank(#[trigger] s[i])
}

/// How a sequence of tokens is written with blanks around them: `gaps[0]`,
/// the first token, `gaps[1]`, the second token, and so on to the last gap.
pub open spec fn spaced_text(tokens: Seq<TokenView>, gaps: Seq<Seq<char>>) -> Seq<char>
    decreases tokens.len(),
{
    if gaps.len() == 0 {
        Seq::empty()
    } else if tokens.len() == 0 {
        gaps[0]
    } else {
        gaps[0] + token_text(tokens[0]) + spaced_text(tokens.drop_first(), gaps.drop_first())
    }
}

/// Gaps that fit a sequence of tokens: one before each token and one behind
/// the last, each of blanks only, and not empty between two identifiers.
pub open spec fn are_gaps(tokens: Seq<TokenView>, gaps: Seq<Seq<char>>) -> bool {
    &&& gaps.len() == tokens.len() + 1
    &&& forall|i: int| 0 <= i < gaps.len() ==> are_blanks(#[trigger] gaps[i])
    &&& forall|i: int|
        0 <= i < tokens.len() - 1 && (#[trigger] tokens[i]) is Identifier && tokens[i
            + 1] is Identifier ==> gaps[i + 1].len() > 0
}

proof fn lemma_spaced_ends_identifier(tokens: Seq<TokenView>, gaps: Seq<Seq<char>>)
    requires
        forall|i: int| 0 <= i < tokens.len() ==> is_writable(#[trigger] tokens[i]),
        are_gaps(tokens, gaps),
        gaps[0].len() > 0 || tokens.len() == 0 || !(tokens[0] is Identifier),
    ensures
        ends_identifier(spaced_text(tokens, gaps)),
{
    let text = spaced_text(tokens, gaps);
    assert(are_blanks(gaps[0]));
    if gaps[0].len() > 0 {
        assert(is_blank(gaps[0][0]));
        assert(text[0] == gaps[0][0]);
    } else if tokens.len() > 0 {
        assert(is_writable(tokens[0]));
        assert(text[0] == token_text(tokens[0])[0]);
    }
}

/// Writing tokens down with blanks around them and reading them back gives
/// the tokens again.
pub proof fn lex_reads_back_spaced(tokens: Seq<TokenView>, gaps: Seq<Seq<char>>)
    requires
        forall|i: int| 0 <= i < tokens.len() ==> is_writable(#[trigger] tokens[i]),
        are_gaps(tokens, gaps),
    ensures
        lex(spaced_text(tokens, gaps)) == Ok::<Seq<TokenView>, LexError>(tokens),
    decreases tokens.len(),
{
    assert(are_blanks(gaps[0]));
    if tokens.len() == 0 {
        lex_skips_blanks(gaps[0], Seq::empty());
        assert(gaps[0] + Seq::<char>::empty() =~= gaps[0]);
        assert(tokens =~= Seq::empty());
    } else {
        let first = tokens[0];
        let others = tokens.drop_first();
        let later = gaps.drop_first();
        let rest = spaced_text(others, later);
        assert(is_writable(first));
        assert forall|i: int| 0 <= i < others.len() implies is_writable(#[trigger] others[i]) by {
            assert(others[i] == tokens[i + 1]);
        }
        assert(are_gaps(others, later)) by {
            assert forall|i: int| 0 <= i < later.len() implies are_blanks(#[trigger] later[i]) by {
                assert(later[i] == gaps[i + 1]);
            }
            assert forall|i: int|
                0 <= i < others.len() - 1 && (#[trigger] others[i]) is Identifier && others[i
                    + 1] is Identifier implies later[i + 1].len() > 0 by {
                assert(others[i] == tokens[i + 1]);
                assert(others[i + 1] == tokens[i + 2]);
                assert(later[i + 1] == gaps[i + 2]);
            }
        }
        if first is Identifier {
            assert(later[0] == gaps[1]);
            if others.len() > 0 {
                assert(others[0] == tokens[1]);
            }
            lemma_spaced_ends_identifier(others, later);
        }
        lex_skips_blanks(gaps[0], token_text(first) + rest);
        assert(spaced_text(tokens, gaps) =~= gaps[0] + (token_text(first) + rest));
        lex_reads_token(first, rest);
        lex_reads_back_spaced(others, later);
        assert(seq![first] + others =~= tokens);
    }
}

/// The token of an argument.
pub open spec fn argument_token(arg: Node) -> TokenView {
    match arg {
        Node::Identifier(name) => TokenView::Identifier(name),
        Node::Literal(text) => TokenView::StringLiteral(text),
        _ => arbitrary(),
    }
}

/// The tokens of the arguments from index `k` on, each behind a `,`, and the
/// closing `)`.
pub open spec fn arguments_tail(args: Seq<Node>, k: int) -> Seq<TokenView>
    decreases args.len() - k,
{
    if k < 0 || k >= args.len() {
        seq![TokenView::RightParen]
    } else {
        seq![TokenView::Comma, argument_token(args[k])] + arguments_tail(args, k + 1)
    }
}

/// The tokens of a call: its name, `(`, the arguments with `,` between them,
/// and `)`.
pub open spec fn call_tokens(call: Node) -> Seq<TokenView> {
    let name = call->MethodCall_name;
    let args = call->MethodCall_args;
    seq![TokenView::Identifier(name), TokenView::LeftParen] + (if args.len() == 0 {
        seq![TokenView::RightParen]
    } else {
        seq![argument_token(args[0])] + arguments_tail(args, 1)
    })
}

/// The tokens of the calls from index `k` on, each behind a `.`.
pub open spec fn calls_tail(calls: Seq<Node>, k: int) -> Seq<TokenView>
    decreases calls.len() - k,
{
    if k < 0 || k >= calls.len() {
        Seq::empty()
    } else {
        seq![TokenView::Dot] + call_tokens(calls[k]) + calls_tail(calls, k + 1)
    }
}

/// The tokens of a chain: its calls with `.` between them.
pub open spec fn chain_tokens(calls: Seq<Node>) -> Seq<TokenView> {
    if calls.len() == 0 {
        Seq::empty()
    } else {
        call_tokens(calls[0]) + calls_tail(calls, 1)
    }
}

/// How a chain is written: `name(arg,arg).name(arg)`, an identifier as it is
/// and a literal between `"`.
pub open spec fn chain_text(calls: Seq<Node>) -> Seq<char> {
    tokens_text(chain_tokens(calls))
}

proof fn lemma_parse_arguments_tail(
    pre: Seq<TokenView>,
    post: Seq<TokenView>,
    args: Seq<Node>,
    k: int,
)
    requires
        0 <= k <= args.len(),
        forall|i: int| 0 <= i < args.len() ==> (#[trigger] args[i]).is_argument(),
    ensures
        parse_more_arguments(pre + arguments_tail(args, k) + post, pre.len() as int, args.take(k))
            == Ok::<(Seq<Node>, int), ParseError>(
            (args, (pre.len() + arguments_tail(args, k).len()) as int),
        ),
    decreases args.len() - k,
{
    let tokens = pre + arguments_tail(args, k) + post;
    let at = pre.len() as int;
    assert(tokens[at] == arguments_tail(args, k)[0]);
    if k == args.len() {
        assert(args.take(k) =~= args);
    } else {
        let token = argument_token(args[k]);
        assert(args[k].is_argument());
        assert(tokens[at + 1] == arguments_tail(args, k)[1]);
        assert(argument_of(token) == Some(args[k]));
        let grown = pre + seq![TokenView::Comma, token];
        assert(tokens =~= grown + arguments_tail(args, k + 1) + post);
        assert(args.take(k).push(args[k]) =~= args.take(k + 1));
        lemma_parse_arguments_tail(grown, post, args, k + 1);
    }
}

proof fn lemma_parse_call_tokens(pre: Seq<TokenView>, post: Seq<TokenView>, call: Node)
    requires
        call.is_call(),
    ensures
        parse_call(pre + call_tokens(call) + post, pre.len() as int) == Ok::<
            (Node, int),
            ParseError,
        >((call, (pre.len() + call_tokens(call).len()) as int)),
{
    let name = call->MethodCall_name;
    let args = call->MethodCall_args;
    let tokens = pre + call_tokens(call) + post;
    let at = pre.len() as int;
    assert(tokens[at] == call_tokens(call)[0]);
    assert(tokens[at + 1] == call_tokens(call)[1]);
    assert(tokens[at + 2] == call_tokens(call)[2]);
    if args.len() > 0 {
        let token = argument_token(args[0]);
        assert(args[0].is_argument());
        assert(argument_of(token) == Some(args[0]));
        let grown = pre + seq![TokenView::Identifier(name), TokenView::LeftParen, token];
        assert(tokens =~= grown + arguments_tail(args, 1) + post);
        assert(seq![args[0]] =~= args.take(1));
        lemma_parse_arguments_tail(grown, post, args, 1);
    } else {
        assert(args =~= Seq::empty());
    }
}

proof fn lemma_parse_calls_tail(pre: Seq<TokenView>, calls: Seq<Node>, k: int)
    requires
        0 <= k <= calls.len(),
        forall|i: int| 0 <= i < calls.len() ==> (#[trigger] calls[i]).is_call(),
    ensures
        parse_calls(pre + calls_tail(calls, k), pre.len() as int, calls.take(k)) == Ok::<
            Seq<Node>,
            ParseError,
        >(calls),
    decreases calls.len() - k,
{
    let tokens = pre + calls_tail(calls, k);
    let at = pre.len() as int;
    if k == calls.len() {
        assert(tokens =~= pre);
        assert(calls.take(k) =~= calls);
    } else {
        let call = calls[k];
        assert(call.is_call());
        assert(tokens[at] == calls_tail(calls, k)[0]);
        let dotted = pre + seq![TokenView::Dot];
        let post = calls_tail(calls, k + 1);
        assert(tokens =~= dotted + call_tokens(call) + post);
        lemma_parse_call_tokens(dotted, post, call);
        let grown = dotted + call_tokens(call);
        assert(tokens =~= grown + post);
        assert(calls.take(k).push(call) =~= calls.take(k + 1));
        lemma_parse_calls_tail(grown, calls, k + 1);
    }
}

/// Parsing the tokens of a chain gives the chain again: as many calls, with
/// the same names and the same arguments, in the same order. The first call
/// must not bear the name of a skip word, because such a word in front of a
/// chain is dropped.
pub proof fn parse_reads_back(calls: Seq<Node>)
    requires
        forall|i: int| 0 <= i < calls.len() ==> (#[trigger] calls[i]).is_call(),
        calls.len() > 0 ==> !is_skip_word(calls[0]->MethodCall_name),
    ensures
        parse_tokens(chain_tokens(calls)) == Ok::<Node, ParseError>(Node::MethodChain(calls)),
{
    let tokens = chain_tokens(calls);
    if calls.len() == 0 {
        assert(calls =~= Seq::empty());
    } else {
        let first = calls[0];
        assert(first.is_call());
        let post = calls_tail(calls, 1);
        let none = Seq::<TokenView>::empty();
        assert(tokens =~= none + call_tokens(first) + post);
        lemma_parse_call_tokens(none, post, first);
        assert(tokens[0] == call_tokens(first)[0]);
        assert(Seq::<Node>::empty().push(first) =~= calls.take(1));
        lemma_parse_calls_tail(call_tokens(first), calls, 1);
    }
}

proof fn lemma_arguments_were_written(tokens: Seq<TokenView>, pos: int, args: Seq<Node>)
    requires
        0 <= pos,
        parse_more_arguments(tokens, pos, args) is Ok,
    ensures
        ({
            let (all, next) = parse_more_arguments(tokens, pos, args)->Ok_0;
            &&& args.len() <= all.len()
            &&& all.take(args.len() as int) == args
            &&& pos < next <= tokens.len()
            &&& tokens.subrange(pos, next) == arguments_tail(all, args.len() as int)
        }),
    decreases tokens.len() - pos,
{
    let (all, next) = parse_more_arguments(tokens, pos, args)->Ok_0;
    if tokens[pos] is RightParen {
        assert(all.take(args.len() as int) =~= args);
        assert(tokens.subrange(pos, next) =~= seq![TokenView::RightParen]);
    } else {
        let arg = argument_of(tokens[pos + 1])->0;
        let grown = args.push(arg);
        lemma_arguments_were_written(tokens, pos + 2, grown);
        assert(all.take(args.len() as int) =~= all.take(grown.len() as int).take(
            args.len() as int,
        ));
        assert(grown.take(args.len() as int) =~= args);
        assert(all[args.len() as int] == all.take(grown.len() as int)[args.len() as int]);
        assert(argument_token(arg) == tokens[pos + 1]);
        assert(tokens.subrange(pos, next) =~= seq![TokenView::Comma, tokens[pos + 1]]
            + tokens.subrange(pos + 2, next));
    }
}

proof fn lemma_call_was_written(tokens: Seq<TokenView>, pos: int)
    requires
        parse_call(tokens, pos) is Ok,
    ensures
        ({
            let (call, next) = parse_call(tokens, pos)->Ok_0;
            &&& call.is_call()
            &&& 0 <= pos < next <= tokens.len()
            &&& tokens.subrange(pos, next) == call_tokens(call)
        }),
{
    let (call, next) = parse_call(tokens, pos)->Ok_0;
    crate::parser::lemma_parse_call(tokens, pos);
    let head = seq![tokens[pos], tokens[pos + 1]];
    if tokens[pos + 2] is RightParen {
        assert(tokens.subrange(pos, next) =~= head + seq![TokenView::RightParen]);
    } else {
        let first = argument_of(tokens[pos + 2])->0;
        lemma_arguments_were_written(tokens, pos + 3, seq![first]);
        let args = call->MethodCall_args;
        assert(args[0] == args.take(1)[0]);
        assert(argument_token(first) == tokens[pos + 2]);
        assert(tokens.subrange(pos, next) =~= head + (seq![tokens[pos + 2]] + tokens.subrange(
            pos + 3,
            next,
        )));
    }
}

proof fn lemma_calls_were_written(tokens: Seq<TokenView>, pos: int, calls: Seq<Node>)
    requires
        0 <= pos <= tokens.len(),
        calls.len() > 0,
        parse_calls(tokens, pos, calls) is Ok,
    ensures
        ({
            let all = parse_calls(tokens, pos, calls)->Ok_0;
            &&& calls.len() <= all.len()
            &&& all.take(calls.len() as int) == calls
            &&& tokens.skip(pos) == calls_tail(all, calls.len() as int)
        }),
    decreases tokens.len() - pos,
{
    let all = parse_calls(tokens, pos, calls)->Ok_0;
    if pos >= tokens.len() {
        assert(all.take(calls.len() as int) =~= calls);
        assert(tokens.skip(pos) =~= Seq::<TokenView>::empty());
    } else {
        lemma_call_was_written(tokens, pos + 1);
        let (call, next) = parse_call(tokens, pos + 1)->Ok_0;
        let grown = calls.push(call);
        lemma_calls_were_written(tokens, next, grown);
        assert(all.take(calls.len() as int) =~= all.take(grown.len() as int).take(
            calls.len() as int,
        ));
        assert(grown.take(calls.len() as int) =~= calls);
        assert(all[calls.len() as int] == all.take(grown.len() as int)[calls.len() as int]);
        assert(tokens.skip(pos) =~= seq![TokenView::Dot] + tokens.subrange(pos + 1, next)
            + tokens.skip(next));
    }
}

/// The front of a token sequence that leaves no trace in the chain: a skip
/// word, if `skipped`, and a `.`, if `dotted`.
pub open spec fn chain_front(word: Seq<char>, skipped: bool, dotted: bool) -> Seq<TokenView> {
    (if skipped {
        seq![TokenView::Identifier(word)]
    } else {
        Seq::empty()
    }) + (if dotted {
        seq![TokenView::Dot]
    } else {
        Seq::empty()
    })
}

/// Only what the grammar allows is parsed: tokens that parse to a chain are
/// the tokens of that chain, behind at most a skip word and a `.`; the `.`
/// stands there only in front of a call.
pub proof fn parse_accepts_only_chains(tokens: Seq<TokenView>)
    requires
        parse_tokens(tokens) is Ok,
    ensures
        parse_tokens(tokens)->Ok_0.is_chain(),
        exists|word: Seq<char>, skipped: bool, dotted: bool|
            {
                &&& #[trigger] chain_front(word, skipped, dotted) + chain_tokens(
                    parse_tokens(tokens)->Ok_0->MethodChain_0,
                ) == tokens
                &&& skipped ==> is_skip_word(word)
                &&& dotted ==> parse_tokens(tokens)->Ok_0->MethodChain_0.len() > 0
            },
{
    crate::parser::lemma_parse_gives_chain(tokens, 0);
    let calls = parse_tokens(tokens)->Ok_0->MethodChain_0;
    let skipped = 0 < tokens.len() && tokens[0] is Identifier && is_skip_word(
        tokens[0]->Identifier_0,
    );
    let word = if skipped {
        tokens[0]->Identifier_0
    } else {
        Seq::empty()
    };
    let start: int = if skipped {
        1
    } else {
        0
    };
    let dotted = start < tokens.len() && tokens[start] is Dot;
    let front = chain_front(word, skipped, dotted);
    if start >= tokens.len() {
        assert(front + chain_tokens(calls) =~= tokens);
    } else {
        let first: int = if dotted {
            start + 1
        } else {
            start
        };
        lemma_call_was_written(tokens, first);
        let (call, next) = parse_call(tokens, first)->Ok_0;
        let one = Seq::<Node>::empty().push(call);
        lemma_calls_were_written(tokens, next, one);
        assert(calls[0] == calls.take(1)[0]);
        assert(front =~= tokens.subrange(0, first));
        assert(tokens =~= tokens.subrange(0, first) + tokens.subrange(first, next) + tokens.skip(
            next,
        ));
        assert(front + chain_tokens(calls) =~= tokens);
    }
}

/// A call that can be written and read back: its name is an identifier, and
/// each argument is an identifier or a literal without `"`.
pub open spec fn is_writable_call(call: Node) -> bool {
    &&& call.is_call()
    &&& is_identifier(call->MethodCall_name)
    &&& forall|i: int|
        0 <= i < call->MethodCall_args.len() ==> is_writable(
            argument_token(#[trigger] call->MethodCall_args[i]),
        )
}

/// A punctuation mark: any token but an identifier or a string literal.
spec fn is_mark(token: TokenView) -> bool {
    !(token is Identifier) && !(token is StringLiteral)
}

/// Writable tokens whose identifiers each stand between two marks: the first
/// token is no mark or the sequence is empty, the last is a mark, and of two
/// neighbours one is a mark.
spec fn are_spaced(tokens: Seq<TokenView>) -> bool {
    &&& forall|i: int| 0 <= i < tokens.len() ==> is_writable(#[trigger] tokens[i])
    &&& forall|i: int|
        0 <= i < tokens.len() - 1 ==> is_mark(#[trigger] tokens[i]) || is_mark(tokens[i + 1])
    &&& tokens.len() > 0 ==> is_mark(tokens.last())
}

proof fn lemma_spaced_join(a: Seq<TokenView>, b: Seq<TokenView>)
    requires
        are_spaced(a),
        are_spaced(b),
    ensures
        are_spaced(a + b),
{
    let joined = a + b;
    assert forall|i: int| 0 <= i < joined.len() implies is_writable(#[trigger] joined[i]) by {
        if i < a.len() {
            assert(joined[i] == a[i]);
        } else {
            assert(joined[i] == b[i - a.len()]);
        }
    }
    assert forall|i: int| 0 <= i < joined.len() - 1 implies is_mark(#[trigger] joined[i])
        || is_mark(joined[i + 1]) by {
        if i + 1 < a.len() {
            assert(joined[i] == a[i] && joined[i + 1] == a[i + 1]);
        } else if i < a.len() {
            assert(joined[i] == a.last());
        } else {
            assert(joined[i] == b[i - a.len()] && joined[i + 1] == b[i + 1 - a.len()]);
        }
    }
    if joined.len() > 0 {
        if b.len() > 0 {
            assert(joined.last() == b.last());
        } else {
            assert(joined =~= a);
        }
    }
}

proof fn lemma_arguments_tail_spaced(args: Seq<Node>, k: int)
    requires
        0 <= k <= args.len(),
        forall|i: int| 0 <= i < args.len() ==> is_writable(argument_token(#[trigger] args[i])),
    ensures
        are_spaced(arguments_tail(args, k)),
        is_mark(arguments_tail(args, k)[0]),
    decreases args.len() - k,
{
    if k < args.len() {
        lemma_arguments_tail_spaced(args, k + 1);
        let head = seq![TokenView::Comma, argument_token(args[k])];
        let tail = arguments_tail(args, k + 1);
        let all = head + tail;
        assert forall|i: int| 0 <= i < all.len() implies is_writable(#[trigger] all[i]) by {
            if i >= 2 {
                assert(all[i] == tail[i - 2]);
            }
        }
        assert forall|i: int| 0 <= i < all.len() - 1 implies is_mark(#[trigger] all[i]) || is_mark(
            all[i + 1],
        ) by {
            if i >= 2 {
                assert(all[i] == tail[i - 2] && all[i + 1] == tail[i - 1]);
            } else if i == 1 {
                assert(all[2] == tail[0]);
            }
        }
        assert(all.last() == tail.last());
    }
}

proof fn lemma_call_tokens_spaced(call: Node)
    requires
        is_writable_call(call),
    ensures
        are_spaced(call_tokens(call)),
{
    let name = call->MethodCall_name;
    let args = call->MethodCall_args;
    let head = seq![TokenView::Identifier(name), TokenView::LeftParen];
    assert(are_spaced(head));
    if args.len() == 0 {
        lemma_spaced_join(head, seq![TokenView::RightParen]);
    } else {
        lemma_arguments_tail_spaced(args, 1);
        let tail = arguments_tail(args, 1);
        let rest = seq![argument_token(args[0])] + tail;
        assert forall|i: int| 0 <= i < rest.len() implies is_writable(#[trigger] rest[i]) by {
            if i >= 1 {
                assert(rest[i] == tail[i - 1]);
            }
        }
        assert forall|i: int| 0 <= i < rest.len() - 1 implies is_mark(#[trigger] rest[i])
            || is_mark(rest[i + 1]) by {
            if i >= 1 {
                assert(rest[i] == tail[i - 1] && rest[i + 1] == tail[i]);
            } else {
                assert(rest[1] == tail[0]);
            }
        }
        assert(rest.last() == tail.last());
        lemma_spaced_join(head, rest);
    }
}

proof fn lemma_calls_tail_spaced(calls: Seq<Node>, k: int)
    requires
        0 <= k <= calls.len(),
        forall|i: int| 0 <= i < calls.len() ==> is_writable_call(#[trigger] calls[i]),
    ensures
        are_spaced(calls_tail(calls, k)),
    decreases calls.len() - k,
{
    if k < calls.len() {
        lemma_calls_tail_spaced(calls, k + 1);
        lemma_call_tokens_spaced(calls[k]);
        let dot = seq![TokenView::Dot];
        assert(are_spaced(dot));
        lemma_spaced_join(dot, call_tokens(calls[k]));
        lemma_spaced_join(dot + call_tokens(calls[k]), calls_tail(calls, k + 1));
    }
}

/// Round trip: a chain of writable calls, written down and interpreted, gives
/// the chain again: as many calls as were written, with the same names and the
/// same arguments, in the same order. The first call must not bear the name of
/// a skip word, because such a word in front of a chain is dropped.
pub proof fn round_trip(calls: Seq<Node>)
    requires
        forall|i: int| 0 <= i < calls.len() ==> is_writable_call(#[trigger] calls[i]),
        calls.len() > 0 ==> !is_skip_word(calls[0]->MethodCall_name),
    ensures
        interpret_text(chain_text(calls)) == Ok::<Node, InterpretError>(Node::MethodChain(calls)),
{
    let tokens = chain_tokens(calls);
    if calls.len() > 0 {
        lemma_call_tokens_spaced(calls[0]);
        lemma_calls_tail_spaced(calls, 1);
        lemma_spaced_join(call_tokens(calls[0]), calls_tail(calls, 1));
    }
    assert(are_writable(tokens)) by {
        assert forall|i: int| 0 <= i < tokens.len() - 1 implies !((#[trigger] tokens[i])
            is Identifier && tokens[i + 1] is Identifier) by {
            assert(is_mark(tokens[i]) || is_mark(tokens[i + 1]));
        }
    }
    lex_reads_back(tokens);
    assert forall|i: int| 0 <= i < calls.len() implies (#[trigger] calls[i]).is_call() by {
        assert(is_writable_call(calls[i]));
    }
    parse_reads_back(calls);
}

/// Round trip with blanks: a chain of writable calls, written down with any
/// blanks around its tokens and interpreted, gives the chain again.
pub proof fn round_trip_spaced(calls: Seq<Node>, gaps: Seq<Seq<char>>)
    requires
        forall|i: int| 0 <= i < calls.len() ==> is_writable_call(#[trigger] calls[i]),
        calls.len() > 0 ==> !is_skip_word(calls[0]->MethodCall_name),
        are_gaps(chain_tokens(calls), gaps),
    ensures
        interpret_text(spaced_text(chain_tokens(calls), gaps)) == Ok::<Node, InterpretError>(
            Node::MethodChain(calls),
        ),
{
    let tokens = chain_tokens(calls);
    if calls.len() > 0 {
        lemma_call_tokens_spaced(calls[0]);
        lemma_calls_tail_spaced(calls, 1);
        lemma_spaced_join(call_tokens(calls[0]), calls_tail(calls, 1));
    }
    lex_reads_back_spaced(tokens, gaps);
    assert forall|i: int| 0 <= i < calls.len() implies (#[trigger] calls[i]).is_call() by {
        assert(is_writable_call(calls[i]));
    }
    parse_reads_back(calls);
}

} // verus!
