//! The mathematical model of the tokenizer: spec functions that say, for any
//! unconsumed input, indent stack and requested kind set, what one call of
//! the tokenizer produces, how many characters it consumes, and what the
//! indent stack is afterwards. The executable tokenizer's contract equates
//! its behaviour with [`lex_spec`].

use vstd::prelude::*;

use crate::token::LexError;
use crate::token::LexErrorKind;
use crate::token::Token;
use crate::token::TokenModel;
use crate::token::token_model;
use crate::token_type::TokenType;
use crate::util::digit_value;
use crate::util::is_alnum_spec;
use crate::util::is_alpha_spec;
use crate::util::is_digit_spec;

verus! {

/// `c` is layout whitespace: space, tab or newline.
pub open spec fn is_ws(c: char) -> bool {
    c == ' ' || c == '\t' || c == '\n'
}

/// Add to an indentation width, saturating at the machine limit.
pub open spec fn sat_add(w: nat, d: nat) -> nat {
    if w + d > usize::MAX {
        usize::MAX as nat
    } else {
        w + d
    }
}

/// Result of the whitespace scan: how many characters it consumes, whether a
/// newline was among them, and the indentation width of the line on which
/// the scan stops.
pub ghost struct WsScan {
    pub consumed: nat,
    pub saw_nl: bool,
    pub width: nat,
}

/// Scan of the maximal whitespace prefix of `s`, entered with newline flag
/// `saw` and accumulated width `w`. A newline sets the flag and resets the
/// width to 0, so the width of the whole run is the indentation of its final
/// line — whitespace on blank lines inside the run is discarded. Once the
/// flag is set, each space adds 1 and each tab adds 8 to the width (summed
/// arithmetically, not aligned to tab stops), saturating at the machine
/// limit.
pub open spec fn ws_scan(s: Seq<char>, saw: bool, w: nat) -> WsScan
    decreases s.len(),
{
    if s.len() > 0 && is_ws(s[0]) {
        let saw2 = saw || s[0] == '\n';
        let w2 = if s[0] == '\n' {
            0
        } else if !saw {
            w
        } else if s[0] == ' ' {
            sat_add(w, 1)
        } else {
            sat_add(w, 8)
        };
        let rest = ws_scan(s.skip(1), saw2, w2);
        WsScan { consumed: rest.consumed + 1, saw_nl: rest.saw_nl, width: rest.width }
    } else {
        WsScan { consumed: 0, saw_nl: saw, width: w }
    }
}

/// Length of the maximal prefix of identifier-continuation characters.
pub open spec fn alnum_len(s: Seq<char>) -> nat
    decreases s.len(),
{
    if s.len() > 0 && is_alnum_spec(s[0]) {
        1 + alnum_len(s.skip(1))
    } else {
        0
    }
}

/// Length of the maximal prefix of apostrophes (primed identifiers).
pub open spec fn apos_len(s: Seq<char>) -> nat
    decreases s.len(),
{
    if s.len() > 0 && s[0] == '\'' {
        1 + apos_len(s.skip(1))
    } else {
        0
    }
}

/// Length of the identifier at the head of `s`: the first character (already
/// known to be a letter or underscore), the following alphanumeric run, then
/// any trailing apostrophes.
pub open spec fn name_len(s: Seq<char>) -> nat
    recommends
        s.len() > 0 && is_alpha_spec(s[0]),
{
    let base = 1 + alnum_len(s.skip(1));
    base + apos_len(s.skip(base as int))
}

/// Length of the maximal prefix of decimal digits.
pub open spec fn digit_run_len(s: Seq<char>) -> nat
    decreases s.len(),
{
    if s.len() > 0 && is_digit_spec(s[0]) {
        1 + digit_run_len(s.skip(1))
    } else {
        0
    }
}

/// Value of the decimal digit string `s` appended after an accumulated
/// value `acc`.
pub open spec fn digits_val(s: Seq<char>, acc: nat) -> nat
    decreases s.len(),
{
    if s.len() == 0 {
        acc
    } else {
        digits_val(s.skip(1), acc * 10 + digit_value(s[0]))
    }
}

/// Index of the first double quote in `s`, if there is one.
pub open spec fn quote_dist(s: Seq<char>) -> Option<nat>
    decreases s.len(),
{
    if s.len() == 0 {
        None
    } else if s[0] == '"' {
        Some(0nat)
    } else {
        match quote_dist(s.skip(1)) {
            Some(n) => Some(n + 1),
            None => None,
        }
    }
}

/// A distance to the first quote, shifted by `d` characters already passed.
pub open spec fn shift_dist(o: Option<nat>, d: nat) -> Option<nat> {
    match o {
        Some(k) => Some(k + d),
        None => None,
    }
}

/// The keyword table: identifier spellings that lex as keyword kinds
/// instead of names.
pub open spec fn keyword_spec(s: Seq<char>) -> Option<TokenType> {
    if s == "let"@ {
        Some(TokenType::LET)
    } else if s == "type"@ {
        Some(TokenType::TYPE)
    } else if s == "print"@ {
        Some(TokenType::PRINT)
    } else {
        None
    }
}

/// The escape table: the literal character each escape introducer stands for
/// inside a character literal.
pub open spec fn escape_spec(c: char) -> Option<char> {
    if c == 'n' {
        Some('\n')
    } else if c == 't' {
        Some('\t')
    } else if c == 'r' {
        Some('\r')
    } else if c == '0' {
        Some('\0')
    } else if c == '\\' {
        Some('\\')
    } else if c == '\'' {
        Some('\'')
    } else if c == '"' {
        Some('"')
    } else {
        None
    }
}

/// What one tokenizer call produces.
pub ghost enum LexOut {
    /// A token with this model.
    Tok(TokenModel),
    /// No token of a requested kind begins here.
    NoTok,
    /// A fault of this kind, at this offset into the sequence the scan
    /// was given.
    Fault(LexErrorKind, nat),
}

/// Outcome of one literal scan: production and characters consumed.
pub ghost struct ScanStep {
    pub out: LexOut,
    pub consumed: nat,
}

/// Outcome of one full tokenizer call: production, characters consumed, the
/// indent stack afterwards, and whether the end-of-input `END` that closes
/// the base level has been produced by this or an earlier call.
pub ghost struct LexStep {
    pub out: LexOut,
    pub consumed: nat,
    pub indents: Seq<usize>,
    pub drained: bool,
}

/// Scan of an identifier at the head of `s`: the maximal identifier
/// spelling, lexed as a keyword if the keyword table has it, as a name
/// otherwise.
pub open spec fn name_scan(s: Seq<char>) -> ScanStep
    recommends
        s.len() > 0 && is_alpha_spec(s[0]),
{
    let n = name_len(s);
    let spelling = s.take(n as int);
    match keyword_spec(spelling) {
        Some(k) => ScanStep { out: LexOut::Tok(TokenModel::Symbol(k)), consumed: n },
        None => ScanStep { out: LexOut::Tok(TokenModel::Name(spelling)), consumed: n },
    }
}

/// Scan of a decimal literal at the head of `s`: the maximal digit run,
/// parsed as a 32-bit signed integer. A run whose value does not fit faults
/// with `NumericLiteralOverflow` at the start of the run; the run is
/// consumed either way.
pub open spec fn number_scan(s: Seq<char>) -> ScanStep
    recommends
        s.len() > 0 && is_digit_spec(s[0]),
{
    let n = digit_run_len(s);
    let v = digits_val(s.take(n as int), 0);
    if v <= i32::MAX {
        ScanStep { out: LexOut::Tok(TokenModel::Number(v as int)), consumed: n }
    } else {
        ScanStep { out: LexOut::Fault(LexErrorKind::NumericLiteralOverflow, 0), consumed: n }
    }
}

/// Scan of a string literal at the head of `s` (its first character the
/// opening quote): everything up to the next double quote, verbatim, with no
/// escape processing. End of input before a closing quote faults with
/// `UnterminatedStringLiteral` at the opening quote, all input consumed.
pub open spec fn string_scan(s: Seq<char>) -> ScanStep
    recommends
        s.len() > 0 && s[0] == '"',
{
    match quote_dist(s.skip(1)) {
        Some(k) => ScanStep {
            out: LexOut::Tok(TokenModel::Str(s.subrange(1, 1 + k as int))),
            consumed: k + 2,
        },
        None => ScanStep {
            out: LexOut::Fault(LexErrorKind::UnterminatedStringLiteral, 0),
            consumed: s.len(),
        },
    }
}

/// The closing step of a character literal scan: the content character `m`
/// has been fixed and `k` characters consumed; the next character must be
/// the closing quote. End of input there faults with
/// `UnterminatedCharacterLiteral` at the opening quote; any other character
/// faults with `MalformedCharacterLiteral` at that character.
pub open spec fn close_char(s: Seq<char>, m: char, k: nat) -> ScanStep {
    if s.len() <= k {
        ScanStep { out: LexOut::Fault(LexErrorKind::UnterminatedCharacterLiteral, 0), consumed: k }
    } else if s[k as int] == '\'' {
        ScanStep { out: LexOut::Tok(TokenModel::Char(m)), consumed: k + 1 }
    } else {
        ScanStep { out: LexOut::Fault(LexErrorKind::MalformedCharacterLiteral, k), consumed: k }
    }
}

/// Scan of a character literal at the head of `s` (its first character the
/// opening quote): exactly one content character, with at most one escape
/// substitution, then the closing quote. End of input after the opening
/// quote or inside the escape faults with `UnterminatedCharacterLiteral` at
/// the opening quote; an escape introducer followed by a character absent
/// from the escape table faults with `InvalidEscapeCharacter` at that
/// character.
pub open spec fn char_scan(s: Seq<char>) -> ScanStep
    recommends
        s.len() > 0 && s[0] == '\'',
{
    if s.len() < 2 {
        ScanStep {
            out: LexOut::Fault(LexErrorKind::UnterminatedCharacterLiteral, 0),
            consumed: s.len(),
        }
    } else if s[1] == '\\' {
        if s.len() < 3 {
            ScanStep { out: LexOut::Fault(LexErrorKind::UnterminatedCharacterLiteral, 0), consumed: 2 }
        } else {
            match escape_spec(s[2]) {
                Some(m) => close_char(s, m, 3),
                None => ScanStep { out: LexOut::Fault(LexErrorKind::InvalidEscapeCharacter, 2), consumed: 2 },
            }
        }
    } else {
        close_char(s, s[1], 2)
    }
}

/// No literal or operator begins at the head of `s`.
pub open spec fn no_literal_head(s: Seq<char>) -> bool {
    s.len() == 0 || !(is_alpha_spec(s[0]) || is_digit_spec(s[0]) || s[0] == '"' || s[0] == '\''
        || s[0] == '=')
}

/// The final `Symbol(END)` that closes the base level fires here: no literal
/// begins, it has not been produced before, `END` is requested, and only the
/// base indent level remains.
pub open spec fn closes_base(
    s: Seq<char>,
    ind: Seq<usize>,
    drained: bool,
    req: Seq<TokenType>,
) -> bool {
    no_literal_head(s) && !drained && req.contains(TokenType::END) && ind.len() == 1
}

/// Literal and operator dispatch on the first unconsumed character, after
/// whitespace and structural handling: identifiers, numbers, strings,
/// character literals, the `=` operator; failing those, the final
/// `Symbol(END)` — produced at most once — when `END` is requested and only
/// the base indent level remains; failing that, no token.
pub open spec fn dispatch_scan(
    s: Seq<char>,
    ind: Seq<usize>,
    drained: bool,
    req: Seq<TokenType>,
) -> ScanStep {
    if s.len() > 0 && is_alpha_spec(s[0]) {
        name_scan(s)
    } else if s.len() > 0 && is_digit_spec(s[0]) {
        number_scan(s)
    } else if s.len() > 0 && s[0] == '"' {
        string_scan(s)
    } else if s.len() > 0 && s[0] == '\'' {
        char_scan(s)
    } else if s.len() > 0 && s[0] == '=' {
        ScanStep { out: LexOut::Tok(TokenModel::Symbol(TokenType::EQ)), consumed: 1 }
    } else if closes_base(s, ind, drained, req) {
        ScanStep { out: LexOut::Tok(TokenModel::Symbol(TokenType::END)), consumed: 0 }
    } else {
        ScanStep { out: LexOut::NoTok, consumed: 0 }
    }
}

/// A fault offset given relative to the dispatch point, shifted to be
/// relative to the start of the whole call.
pub open spec fn shift_fault(out: LexOut, base: nat) -> LexOut {
    match out {
        LexOut::Fault(k, off) => LexOut::Fault(k, base + off),
        _ => out,
    }
}

/// One call of the tokenizer on unconsumed input `s`, indent stack `ind`,
/// base-close flag `drained` and requested kind set `req`, in priority
/// order: the startup `BEGIN` (pushing the base width 0 on a still-empty
/// stack); then, if the whitespace scan saw a newline, `NEWLINE` if
/// requested, else `BEGIN` on an indent (pushing the final line's width),
/// else `END` on a dedent (popping exactly one level); failing those,
/// literal and operator dispatch. The structural comparisons need a top of
/// stack: with an empty stack neither fires. Producing the final
/// base-closing `END` sets the flag, so it is produced exactly once.
pub open spec fn lex_spec(
    s: Seq<char>,
    ind: Seq<usize>,
    drained: bool,
    req: Seq<TokenType>,
) -> LexStep {
    if req.contains(TokenType::BEGIN) && ind.len() == 0 {
        LexStep {
            out: LexOut::Tok(TokenModel::Symbol(TokenType::BEGIN)),
            consumed: 0,
            indents: seq![0usize],
            drained,
        }
    } else {
        let w = ws_scan(s, false, 0);
        if w.saw_nl && req.contains(TokenType::NEWLINE) {
            LexStep {
                out: LexOut::Tok(TokenModel::Symbol(TokenType::NEWLINE)),
                consumed: w.consumed,
                indents: ind,
                drained,
            }
        } else if w.saw_nl && ind.len() > 0 && w.width > ind.last() && req.contains(
            TokenType::BEGIN,
        ) {
            LexStep {
                out: LexOut::Tok(TokenModel::Symbol(TokenType::BEGIN)),
                consumed: w.consumed,
                indents: ind.push(w.width as usize),
                drained,
            }
        } else if w.saw_nl && ind.len() > 0 && w.width < ind.last() && req.contains(
            TokenType::END,
        ) {
            LexStep {
                out: LexOut::Tok(TokenModel::Symbol(TokenType::END)),
                consumed: w.consumed,
                indents: ind.drop_last(),
                drained,
            }
        } else {
            let s2 = s.skip(w.consumed as int);
            let d = dispatch_scan(s2, ind, drained, req);
            LexStep {
                out: shift_fault(d.out, w.consumed),
                consumed: w.consumed + d.consumed,
                indents: ind,
                drained: drained || closes_base(s2, ind, drained, req),
            }
        }
    }
}

/// The indent stack invariant: once lexing has started, the base width 0 is
/// at the bottom, and widths strictly increase from bottom to top.
pub open spec fn indents_wf(ind: Seq<usize>) -> bool {
    &&& ind.len() > 0 ==> ind[0] == 0
    &&& forall|i: int, j: int| 0 <= i < j < ind.len() ==> ind[i] < ind[j]
}

/// How the tokenizer's result relates to a modelled production: a token by
/// its model, no token as `Ok(None)`, a fault by its kind and its absolute
/// position `base + off`.
pub open spec fn out_matches(
    r: Result<Option<Token>, LexError>,
    out: LexOut,
    base: nat,
) -> bool {
    match out {
        LexOut::Tok(m) => r matches Ok(Some(t)) && token_model(t) == m,
        LexOut::NoTok => r matches Ok(o) && o is None,
        LexOut::Fault(k, off) => r matches Err(e) && e.kind == k && e.at as nat == base + off,
    }
}

/// How a literal scanner's result relates to a modelled production.
pub open spec fn scan_matches(r: Result<Token, LexError>, out: LexOut, base: nat) -> bool {
    match out {
        LexOut::Tok(m) => r matches Ok(t) && token_model(t) == m,
        LexOut::NoTok => false,
        LexOut::Fault(k, off) => r matches Err(e) && e.kind == k && e.at as nat == base + off,
    }
}

/// An identifier-continuation run is no longer than the sequence it
/// starts at.
pub proof fn lemma_alnum_len_le(s: Seq<char>)
    ensures
        alnum_len(s) <= s.len(),
    decreases s.len(),
{
    if s.len() > 0 && is_alnum_spec(s[0]) {
        lemma_alnum_len_le(s.skip(1));
    }
}

/// An apostrophe run is no longer than the sequence it starts at.
pub proof fn lemma_apos_len_le(s: Seq<char>)
    ensures
        apos_len(s) <= s.len(),
    decreases s.len(),
{
    if s.len() > 0 && s[0] == '\'' {
        lemma_apos_len_le(s.skip(1));
    }
}

/// A digit run is no longer than the sequence it starts at, and every
/// character inside it is a digit.
pub proof fn lemma_digit_run(s: Seq<char>)
    ensures
        digit_run_len(s) <= s.len(),
        forall|j: int| 0 <= j < digit_run_len(s) ==> is_digit_spec(s[j]),
    decreases s.len(),
{
    if s.len() > 0 && is_digit_spec(s[0]) {
        lemma_digit_run(s.skip(1));
        assert forall|j: int| 0 <= j < digit_run_len(s) implies is_digit_spec(s[j]) by {
            if j > 0 {
                assert(s.skip(1)[j - 1] == s[j]);
            }
        }
    }
}

/// The first quote of `s` stands at `k` exactly when `s[k]` is a quote and
/// no earlier character is one.
pub proof fn lemma_quote_dist_of(s: Seq<char>, k: nat)
    requires
        k < s.len(),
        s[k as int] == '"',
        forall|j: int| 0 <= j < k ==> s[j] != '"',
    ensures
        quote_dist(s) == Some(k),
    decreases k,
{
    if k > 0 {
        assert(s[0] != '"');
        lemma_quote_dist_of(s.skip(1), (k - 1) as nat);
    }
}

/// The accumulated indentation width never exceeds the machine limit it
/// saturates at.
pub proof fn lemma_ws_width_bound(s: Seq<char>, saw: bool, w: nat)
    requires
        w <= usize::MAX,
    ensures
        ws_scan(s, saw, w).width <= usize::MAX,
    decreases s.len(),
{
    if s.len() > 0 && is_ws(s[0]) {
        let saw2 = saw || s[0] == '\n';
        let w2 = if s[0] == '\n' {
            0
        } else if !saw {
            w
        } else if s[0] == ' ' {
            sat_add(w, 1)
        } else {
            sat_add(w, 8)
        };
        lemma_ws_width_bound(s.skip(1), saw2, w2);
    }
}

/// The value of a digit string is at least the accumulator it starts from.
pub proof fn lemma_digits_val_ge_acc(s: Seq<char>, acc: nat)
    ensures
        digits_val(s, acc) >= acc,
    decreases s.len(),
{
    if s.len() > 0 {
        lemma_digits_val_ge_acc(s.skip(1), acc * 10 + digit_value(s[0]));
    }
}

} // verus!
