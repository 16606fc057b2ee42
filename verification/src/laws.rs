//! Laws of the tokenizer, stated and proved over the model [`lex_spec`]
//! that the executable tokenizer's contract equates its behaviour with.

use vstd::prelude::*;

use crate::model::LexOut;
use crate::model::digit_run_len;
use crate::model::digits_val;
use crate::model::indents_wf;
use crate::model::keyword_spec;
use crate::model::lemma_quote_dist_of;
use crate::model::lemma_ws_width_bound;
use crate::model::lex_spec;
use crate::model::name_len;
use crate::model::ws_scan;
use crate::token::TokenModel;
use crate::token_type::TokenType;
use crate::util::is_alpha_spec;
use crate::util::is_digit_spec;

verus! {

/// Requesting `BEGIN` while the indent stack is still empty yields
/// `Symbol(BEGIN)`, consumes no characters, and leaves exactly one entry,
/// of width 0, on the stack — whatever the input holds.
pub proof fn lemma_startup_begin(s: Seq<char>, drained: bool, req: Seq<TokenType>)
    requires
        req.contains(TokenType::BEGIN),
    ensures
        ({
            let step = lex_spec(s, Seq::<usize>::empty(), drained, req);
            &&& step.out == LexOut::Tok(TokenModel::Symbol(TokenType::BEGIN))
            &&& step.consumed == 0
            &&& step.indents == seq![0usize]
            &&& step.drained == drained
        }),
{
}

/// An input that starts with an identifier character and whose maximal
/// identifier spelling is not in the keyword table lexes to `Name` carrying
/// exactly that spelling, consuming exactly the spelling. (The startup
/// `BEGIN` must not apply: either `BEGIN` is not requested or the stack has
/// started.)
pub proof fn lemma_name_token(s: Seq<char>, ind: Seq<usize>, drained: bool, req: Seq<TokenType>)
    requires
        s.len() > 0,
        is_alpha_spec(s[0]),
        keyword_spec(s.take(name_len(s) as int)) is None,
        !(req.contains(TokenType::BEGIN) && ind.len() == 0),
    ensures
        ({
            let step = lex_spec(s, ind, drained, req);
            &&& step.out == LexOut::Tok(TokenModel::Name(s.take(name_len(s) as int)))
            &&& step.consumed == name_len(s)
            &&& step.indents == ind
            &&& step.drained == drained
        }),
{
    assert(s.skip(0) =~= s);
}

/// An input that starts with a digit and whose maximal digit run has a value
/// within 32-bit signed range lexes to `Number` carrying exactly that value,
/// consuming exactly the run.
pub proof fn lemma_number_token(s: Seq<char>, ind: Seq<usize>, drained: bool, req: Seq<TokenType>)
    requires
        s.len() > 0,
        is_digit_spec(s[0]),
        digits_val(s.take(digit_run_len(s) as int), 0) <= i32::MAX,
        !(req.contains(TokenType::BEGIN) && ind.len() == 0),
    ensures
        ({
            let step = lex_spec(s, ind, drained, req);
            &&& step.out == LexOut::Tok(
                TokenModel::Number(digits_val(s.take(digit_run_len(s) as int), 0) as int),
            )
            &&& step.consumed == digit_run_len(s)
            &&& step.indents == ind
            &&& step.drained == drained
        }),
{
    assert(s.skip(0) =~= s);
}

/// Round trip for string literals: an input that opens with a double quote,
/// holds `k` quote-free content characters, and closes with a double quote
/// lexes to a string token carrying exactly the characters between the
/// quotes, consuming exactly `k + 2` characters — both quotes included —
/// and nothing more.
pub proof fn lemma_string_round_trip(s: Seq<char>, ind: Seq<usize>, drained: bool, req: Seq<TokenType>, k: nat)
    requires
        s.len() > k + 1,
        s[0] == '"',
        s[1 + k as int] == '"',
        forall|j: int| 1 <= j < 1 + k ==> s[j] != '"',
        !(req.contains(TokenType::BEGIN) && ind.len() == 0),
    ensures
        ({
            let step = lex_spec(s, ind, drained, req);
            &&& step.out == LexOut::Tok(TokenModel::Str(s.subrange(1, 1 + k as int)))
            &&& step.consumed == k + 2
            &&& step.indents == ind
            &&& step.drained == drained
        }),
{
    assert(s.skip(0) =~= s);
    assert forall|j: int| 0 <= j < k implies s.skip(1)[j] != '"' by {
        assert(s.skip(1)[j] == s[j + 1]);
    }
    lemma_quote_dist_of(s.skip(1), k);
}

/// A dedent — a newline followed by an indentation width below the top of
/// the stack — with `END` requested and `NEWLINE` not requested pops exactly
/// one level per call, however far the width lies below the top: repeated
/// calls are needed to unwind several levels.
pub proof fn lemma_dedent_pops_one(s: Seq<char>, ind: Seq<usize>, drained: bool, req: Seq<TokenType>)
    requires
        ind.len() > 0,
        ws_scan(s, false, 0).saw_nl,
        ws_scan(s, false, 0).width < ind.last(),
        req.contains(TokenType::END),
        !req.contains(TokenType::NEWLINE),
    ensures
        ({
            let step = lex_spec(s, ind, drained, req);
            &&& step.out == LexOut::Tok(TokenModel::Symbol(TokenType::END))
            &&& step.indents == ind.drop_last()
            &&& step.consumed == ws_scan(s, false, 0).consumed
            &&& step.drained == drained
        }),
{
}

/// `NEWLINE` takes priority over `BEGIN` and `END`: after a newline, if the
/// caller accepts a statement separator, it gets one — whatever the width
/// change and whether or not `BEGIN` and `END` are requested too — and the
/// indent stack is left unchanged.
pub proof fn lemma_newline_priority(s: Seq<char>, ind: Seq<usize>, drained: bool, req: Seq<TokenType>)
    requires
        ind.len() > 0,
        req.contains(TokenType::NEWLINE),
        ws_scan(s, false, 0).saw_nl,
    ensures
        ({
            let step = lex_spec(s, ind, drained, req);
            &&& step.out == LexOut::Tok(TokenModel::Symbol(TokenType::NEWLINE))
            &&& step.indents == ind
            &&& step.consumed == ws_scan(s, false, 0).consumed
            &&& step.drained == drained
        }),
{
}

/// End of input with `END` requested and only the base indent level
/// remaining yields `Symbol(END)` exactly once, consuming nothing: the
/// first call drains it and sets the flag, and a second call in the state
/// the first one left behind yields no token.
pub proof fn lemma_end_at_eof(ind: Seq<usize>, req: Seq<TokenType>)
    requires
        ind.len() == 1,
        req.contains(TokenType::END),
    ensures
        ({
            let first = lex_spec(Seq::<char>::empty(), ind, false, req);
            let second = lex_spec(Seq::<char>::empty(), first.indents, first.drained, req);
            &&& first.out == LexOut::Tok(TokenModel::Symbol(TokenType::END))
            &&& first.consumed == 0
            &&& first.indents == ind
            &&& first.drained
            &&& second.out == LexOut::NoTok
            &&& second.consumed == 0
            &&& second.indents == ind
        }),
{
    assert(Seq::<char>::empty().skip(0) =~= Seq::<char>::empty());
}

/// The indent stack invariant is preserved by every call: the base width 0
/// stays at the bottom, widths stay strictly increasing, and once lexing has
/// started the tokenizer never pops the stack below one entry.
pub proof fn lemma_lex_preserves_indent_invariant(
    s: Seq<char>,
    ind: Seq<usize>,
    drained: bool,
    req: Seq<TokenType>,
)
    requires
        indents_wf(ind),
    ensures
        indents_wf(lex_spec(s, ind, drained, req).indents),
        ind.len() >= 1 ==> lex_spec(s, ind, drained, req).indents.len() >= 1,
{
    let step = lex_spec(s, ind, drained, req);
    if req.contains(TokenType::BEGIN) && ind.len() == 0 {
    } else {
        let w = ws_scan(s, false, 0);
        if w.saw_nl && req.contains(TokenType::NEWLINE) {
        } else if w.saw_nl && ind.len() > 0 && w.width > ind.last() && req.contains(
            TokenType::BEGIN,
        ) {
            lemma_ws_width_bound(s, false, 0);
            assert(w.width as usize as nat == w.width);
            assert forall|i: int, j: int|
                0 <= i < j < step.indents.len() implies step.indents[i] < step.indents[j] by {
                if j == step.indents.len() - 1 && i < ind.len() - 1 {
                    assert(ind[i] < ind[ind.len() - 1]);
                }
            }
        } else if w.saw_nl && ind.len() > 0 && w.width < ind.last() && req.contains(
            TokenType::END,
        ) {
            assert(ind[0] == 0);
            assert(ind.len() >= 2) by {
                if ind.len() == 1 {
                    assert(ind.last() == ind[0]);
                }
            }
            assert(step.indents =~= ind.subrange(0, ind.len() - 1));
            assert forall|i: int, j: int|
                0 <= i < j < step.indents.len() implies step.indents[i] < step.indents[j] by {
                assert(step.indents[i] == ind[i]);
                assert(step.indents[j] == ind[j]);
                assert(ind[i] < ind[j]);
            }
        }
    }
}

} // verus!
