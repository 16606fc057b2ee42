//! The tokenizer: a pull-based lexer that synthesizes `BEGIN`, `END` and
//! `NEWLINE` tokens from whitespace layout, guided by the set of token kinds
//! the caller currently accepts.

use vstd::prelude::*;
use vstd::string::StringExecFns;

use crate::cursor::Cursor;
use crate::model::LexOut;
use crate::model::alnum_len;
use crate::model::apos_len;
use crate::model::char_scan;
use crate::model::digit_run_len;
use crate::model::digits_val;
use crate::model::escape_spec;
use crate::model::indents_wf;
use crate::model::keyword_spec;
use crate::model::lemma_digit_run;
use crate::model::lemma_digits_val_ge_acc;
use crate::model::lex_spec;
use crate::model::name_len;
use crate::model::name_scan;
use crate::model::number_scan;
use crate::model::out_matches;
use crate::model::quote_dist;
use crate::model::sat_add;
use crate::model::scan_matches;
use crate::model::shift_dist;
use crate::model::string_scan;
use crate::model::ws_scan;
use crate::token::LexError;
use crate::token::LexErrorKind;
use crate::token::Token;
use crate::token::token_model;
use crate::token_type::TokenType;
use crate::util::is_alnum;
use crate::util::is_alpha;
use crate::util::is_alpha_spec;
use crate::util::is_digit;
use crate::util::is_digit_spec;

verus! {

/// The tokenizer: a cursor over the source text, the ordered stack of
/// indentation widths of all currently open blocks (outermost first), and a
/// flag recording that the final `END` closing the base level has been
/// produced. The stack is empty until the first `BEGIN` is requested; the
/// base entry is never popped, so the flag is what makes the final `END`
/// one-shot.
pub struct Lexer<'a> {
    cursor: Cursor<'a>,
    indents: Vec<usize>,
    drained: bool,
}

impl<'a> Lexer<'a> {
    /// All characters of the source text.
    pub closed spec fn chars(self) -> Seq<char> {
        self.cursor.chars()
    }

    /// How many characters have been consumed.
    pub closed spec fn pos(self) -> nat {
        self.cursor.pos()
    }

    /// The characters not yet consumed.
    pub open spec fn remaining(self) -> Seq<char> {
        self.chars().skip(self.pos() as int)
    }

    /// The indent stack.
    pub closed spec fn indents(self) -> Seq<usize> {
        self.indents@
    }

    /// The final base-closing `END` has already been produced.
    pub closed spec fn drained(self) -> bool {
        self.drained
    }

    /// Well-formedness: the cursor sits inside its text, and the indent
    /// stack satisfies its invariant.
    pub closed spec fn wf(self) -> bool {
        self.cursor.wf() && indents_wf(self.indents@)
    }

    /// What well-formedness gives to a caller.
    pub proof fn lemma_wf(self)
        requires
            self.wf(),
        ensures
            self.pos() <= self.chars().len(),
            indents_wf(self.indents()),
    {
        self.cursor.lemma_wf();
    }

    /// A fresh tokenizer over `source_str`: cursor at the first character,
    /// indent stack empty.
    pub fn new(source_str: &'a str) -> (l: Lexer<'a>)
        ensures
            l.wf(),
            l.chars() == source_str@,
            l.pos() == 0,
            l.indents() == Seq::<usize>::empty(),
            !l.drained(),
    {
        let l = Lexer { cursor: Cursor::new(source_str), indents: Vec::new(), drained: false };
        proof {
            assert(l.indents@ =~= Seq::<usize>::empty());
        }
        l
    }

    /// Name-or-keyword scan: the first character (a letter or underscore),
    /// the following alphanumeric run, then any trailing apostrophes. A
    /// spelling in the keyword table lexes as that keyword's kind.
    #[verifier::loop_isolation(false)]
    fn name(&mut self) -> (t: Token)
        requires
            old(self).wf(),
            old(self).remaining().len() > 0,
            is_alpha_spec(old(self).remaining()[0]),
        ensures
            final(self).wf(),
            final(self).chars() == old(self).chars(),
            final(self).indents() == old(self).indents(),
            final(self).drained() == old(self).drained(),
            ({
                let sc = name_scan(old(self).remaining());
                &&& final(self).pos() == old(self).pos() + sc.consumed
                &&& sc.out matches LexOut::Tok(m) && token_model(t) == m
            }),
    {
        let ghost chars0 = self.chars();
        let ghost pos0 = self.pos();
        let ghost s = self.remaining();
        proof {
            self.cursor.lemma_wf();
        }
        let start = self.cursor.position();
        self.cursor.advance();
        proof {
            assert(s.skip(1) =~= chars0.skip(pos0 as int + 1));
        }
        loop
            invariant
                self.cursor.wf(),
                self.chars() == chars0,
                self.indents@ == old(self).indents@,
                self.drained == old(self).drained,
                pos0 + 1 <= self.pos() <= chars0.len(),
                alnum_len(s.skip(1)) == (self.pos() - pos0 - 1) + alnum_len(self.remaining()),
            decreases chars0.len() - self.pos(),
        {
            let cont = match self.cursor.peek() {
                Some(c) => is_alnum(c),
                None => false,
            };
            if !cont {
                break ;
            }
            let ghost pre = self.pos();
            self.cursor.advance();
            proof {
                assert(chars0.skip(pre as int).skip(1) =~= chars0.skip(pre as int + 1));
            }
        }
        let ghost base = 1 + alnum_len(s.skip(1));
        proof {
            assert(self.pos() == pos0 + base);
            assert(s.skip(base as int) =~= chars0.skip((pos0 + base) as int));
        }
        loop
            invariant
                self.cursor.wf(),
                self.chars() == chars0,
                self.indents@ == old(self).indents@,
                self.drained == old(self).drained,
                pos0 + base <= self.pos() <= chars0.len(),
                apos_len(s.skip(base as int)) == (self.pos() - pos0 - base) + apos_len(
                    self.remaining(),
                ),
            decreases chars0.len() - self.pos(),
        {
            if !self.cursor.check('\'') {
                break ;
            }
            let ghost pre = self.pos();
            self.cursor.advance();
            proof {
                assert(chars0.skip(pre as int).skip(1) =~= chars0.skip(pre as int + 1));
            }
        }
        proof {
            assert(self.pos() == pos0 + name_len(s));
        }
        let spelling = self.cursor.captured(start);
        proof {
            assert(spelling@ =~= s.take(name_len(s) as int));
        }
        match keyword_lookup(&spelling) {
            Some(k) => Token::Symbol(k),
            None => Token::Name(spelling),
        }
    }

    /// Decimal literal scan: the maximal digit run, parsed as a 32-bit
    /// signed integer; a run whose value does not fit reports
    /// `NumericLiteralOverflow` at the start of the run.
    #[verifier::loop_isolation(false)]
    fn number(&mut self) -> (r: Result<Token, LexError>)
        requires
            old(self).wf(),
            old(self).remaining().len() > 0,
            is_digit_spec(old(self).remaining()[0]),
        ensures
            final(self).wf(),
            final(self).chars() == old(self).chars(),
            final(self).indents() == old(self).indents(),
            final(self).drained() == old(self).drained(),
            ({
                let sc = number_scan(old(self).remaining());
                &&& final(self).pos() == old(self).pos() + sc.consumed
                &&& scan_matches(r, sc.out, old(self).pos())
            }),
    {
        let ghost chars0 = self.chars();
        let ghost pos0 = self.pos();
        let ghost s = self.remaining();
        proof {
            self.cursor.lemma_wf();
        }
        let start = self.cursor.position();
        loop
            invariant
                self.cursor.wf(),
                self.chars() == chars0,
                self.indents@ == old(self).indents@,
                self.drained == old(self).drained,
                pos0 <= self.pos() <= chars0.len(),
                digit_run_len(s) == (self.pos() - pos0) + digit_run_len(self.remaining()),
            decreases chars0.len() - self.pos(),
        {
            let cont = match self.cursor.peek() {
                Some(c) => is_digit(c),
                None => false,
            };
            if !cont {
                break ;
            }
            let ghost pre = self.pos();
            self.cursor.advance();
            proof {
                assert(chars0.skip(pre as int).skip(1) =~= chars0.skip(pre as int + 1));
            }
        }
        let ghost run = digit_run_len(s);
        proof {
            assert(self.pos() == pos0 + run);
        }
        let spelling = self.cursor.captured(start);
        proof {
            lemma_digit_run(s);
            assert(spelling@ =~= s.take(run as int));
            assert forall|j: int| 0 <= j < spelling@.len() implies is_digit_spec(
                spelling@[j],
            ) by {
                assert(spelling@[j] == s[j]);
            }
        }
        let st = spelling.as_str();
        let n_chars = st.unicode_len();
        let mut acc: u64 = 0;
        let mut i: usize = 0;
        proof {
            assert(spelling@.skip(0) =~= spelling@);
        }
        while i < n_chars
            invariant
                i <= n_chars,
                n_chars == spelling@.len(),
                st@ == spelling@,
                acc <= i32::MAX as u64,
                digits_val(spelling@.skip(i as int), acc as nat) == digits_val(spelling@, 0),
            decreases n_chars - i,
        {
            let c = st.get_char(i);
            let d: u64 = (c as u32 - 48) as u64;
            let next: u64 = acc * 10 + d;
            proof {
                assert(spelling@.skip(i as int).skip(1) =~= spelling@.skip(i as int + 1));
            }
            if next > (i32::MAX as u64) {
                proof {
                    lemma_digits_val_ge_acc(spelling@.skip(i as int + 1), (acc * 10 + d) as nat);
                }
                return Err(LexError { kind: LexErrorKind::NumericLiteralOverflow, at: start });
            }
            acc = next;
            i = i + 1;
        }
        proof {
            assert(spelling@.skip(n_chars as int) =~= Seq::<char>::empty());
        }
        Ok(Token::Number(acc as i32))
    }

    /// String literal scan: everything between the opening quote and the
    /// next double quote, verbatim, with no escape processing; end of input
    /// before a closing quote reports `UnterminatedStringLiteral` at the
    /// opening quote.
    #[verifier::loop_isolation(false)]
    fn string(&mut self) -> (r: Result<Token, LexError>)
        requires
            old(self).wf(),
            old(self).remaining().len() > 0,
            old(self).remaining()[0] == '"',
        ensures
            final(self).wf(),
            final(self).chars() == old(self).chars(),
            final(self).indents() == old(self).indents(),
            final(self).drained() == old(self).drained(),
            ({
                let sc = string_scan(old(self).remaining());
                &&& final(self).pos() == old(self).pos() + sc.consumed
                &&& scan_matches(r, sc.out, old(self).pos())
            }),
    {
        let ghost chars0 = self.chars();
        let ghost pos0 = self.pos();
        let ghost s = self.remaining();
        proof {
            self.cursor.lemma_wf();
        }
        let start = self.cursor.position();
        self.cursor.advance();
        let cstart = self.cursor.position();
        proof {
            assert(s.skip(1) =~= chars0.skip(pos0 as int + 1));
        }
        loop
            invariant
                self.cursor.wf(),
                self.chars() == chars0,
                self.indents@ == old(self).indents@,
                self.drained == old(self).drained,
                pos0 + 1 <= self.pos() <= chars0.len(),
                quote_dist(s.skip(1)) == shift_dist(
                    quote_dist(self.remaining()),
                    (self.pos() - pos0 - 1) as nat,
                ),
            decreases chars0.len() - self.pos(),
        {
            if self.cursor.at_end() {
                return Err(LexError { kind: LexErrorKind::UnterminatedStringLiteral, at: start });
            }
            if self.cursor.check('"') {
                break ;
            }
            let ghost pre = self.pos();
            self.cursor.advance();
            proof {
                assert(chars0.skip(pre as int).skip(1) =~= chars0.skip(pre as int + 1));
            }
        }
        let ghost k = (self.pos() - pos0 - 1) as nat;
        let content = self.cursor.captured(cstart);
        proof {
            assert(content@ =~= s.subrange(1, 1 + k as int));
        }
        self.cursor.advance();
        Ok(Token::String(content))
    }

    /// Character literal scan: exactly one content character, with at most
    /// one escape substitution, then the closing quote; anything else
    /// reports the matching fault.
    fn character(&mut self) -> (r: Result<Token, LexError>)
        requires
            old(self).wf(),
            old(self).remaining().len() > 0,
            old(self).remaining()[0] == '\'',
        ensures
            final(self).wf(),
            final(self).chars() == old(self).chars(),
            final(self).indents() == old(self).indents(),
            final(self).drained() == old(self).drained(),
            ({
                let sc = char_scan(old(self).remaining());
                &&& final(self).pos() == old(self).pos() + sc.consumed
                &&& scan_matches(r, sc.out, old(self).pos())
            }),
    {
        let ghost chars0 = self.chars();
        let ghost pos0 = self.pos();
        let ghost s = self.remaining();
        proof {
            self.cursor.lemma_wf();
        }
        let start = self.cursor.position();
        self.cursor.advance();
        let c1_opt = self.cursor.peek();
        if c1_opt.is_none() {
            return Err(LexError { kind: LexErrorKind::UnterminatedCharacterLiteral, at: start });
        }
        let c1 = c1_opt.unwrap();
        let content: char = if c1 == '\\' {
            self.cursor.advance();
            let c2_opt = self.cursor.peek();
            if c2_opt.is_none() {
                return Err(
                    LexError { kind: LexErrorKind::UnterminatedCharacterLiteral, at: start },
                );
            }
            let c2 = c2_opt.unwrap();
            match escape_lookup(c2) {
                None => {
                    let p = self.cursor.position();
                    return Err(
                        LexError { kind: LexErrorKind::InvalidEscapeCharacter, at: p },
                    );
                },
                Some(m) => {
                    self.cursor.advance();
                    m
                },
            }
        } else {
            self.cursor.advance();
            c1
        };
        if self.cursor.check('\'') {
            self.cursor.advance();
            Ok(Token::Char(content))
        } else if self.cursor.at_end() {
            Err(LexError { kind: LexErrorKind::UnterminatedCharacterLiteral, at: start })
        } else {
            let p = self.cursor.position();
            Err(LexError { kind: LexErrorKind::MalformedCharacterLiteral, at: p })
        }
    }

    /// One pull of the tokenizer. `valid_tokens` holds the token kinds the
    /// caller's grammar currently accepts; it decides which structural token,
    /// if any, a run of whitespace produces. In priority order: the startup
    /// `BEGIN` on a still-empty indent stack; after a newline, `NEWLINE` if
    /// requested, else `BEGIN` on an indent, else `END` on a dedent (one
    /// level per call), comparing the indentation of the line on which the
    /// whitespace run stops; then literal and operator dispatch; then, once
    /// only, the final `END` when only the base level remains. Returns
    /// `Ok(None)` when no requested kind begins here, and `Err` for a
    /// malformed literal. The behaviour is exactly [`lex_spec`] on the
    /// unconsumed input, the indent stack, the base-close flag and the
    /// requested set.
    #[verifier::loop_isolation(false)]
    pub fn lex(&mut self, valid_tokens: Vec<TokenType>) -> (r: Result<Option<Token>, LexError>)
        requires
            old(self).wf(),
        ensures
            final(self).wf(),
            final(self).chars() == old(self).chars(),
            ({
                let step = lex_spec(
                    old(self).remaining(),
                    old(self).indents(),
                    old(self).drained(),
                    valid_tokens@,
                );
                &&& final(self).pos() == old(self).pos() + step.consumed
                &&& final(self).indents() == step.indents
                &&& final(self).drained() == step.drained
                &&& out_matches(r, step.out, old(self).pos())
            }),
    {
        let ghost chars0 = self.chars();
        let ghost pos0 = self.pos();
        let ghost s0 = self.remaining();
        let ghost ind0 = self.indents@;
        proof {
            self.cursor.lemma_wf();
        }
        if contains_kind(&valid_tokens, TokenType::BEGIN) && self.indents.len() == 0 {
            self.indents.push(0);
            proof {
                assert(self.indents@ =~= seq![0usize]);
            }
            return Ok(Some(Token::Symbol(TokenType::BEGIN)));
        }
        let mut saw_nl = false;
        let mut width: usize = 0;
        loop
            invariant
                self.cursor.wf(),
                self.chars() == chars0,
                self.indents@ == ind0,
                self.drained == old(self).drained,
                pos0 <= self.pos() <= chars0.len(),
                ws_scan(s0, false, 0).saw_nl == ws_scan(
                    self.remaining(),
                    saw_nl,
                    width as nat,
                ).saw_nl,
                ws_scan(s0, false, 0).width == ws_scan(
                    self.remaining(),
                    saw_nl,
                    width as nat,
                ).width,
                ws_scan(s0, false, 0).consumed == (self.pos() - pos0) + ws_scan(
                    self.remaining(),
                    saw_nl,
                    width as nat,
                ).consumed,
            decreases chars0.len() - self.pos(),
        {
            if self.cursor.check('\n') {
                let ghost pre = self.pos();
                self.cursor.advance();
                saw_nl = true;
                width = 0;
                proof {
                    assert(chars0.skip(pre as int).skip(1) =~= chars0.skip(pre as int + 1));
                }
            } else if self.cursor.check(' ') {
                let ghost pre = self.pos();
                self.cursor.advance();
                if saw_nl {
                    width = sat_add_usize(width, 1);
                }
                proof {
                    assert(chars0.skip(pre as int).skip(1) =~= chars0.skip(pre as int + 1));
                }
            } else if self.cursor.check('\t') {
                let ghost pre = self.pos();
                self.cursor.advance();
                if saw_nl {
                    width = sat_add_usize(width, 8);
                }
                proof {
                    assert(chars0.skip(pre as int).skip(1) =~= chars0.skip(pre as int + 1));
                }
            } else {
                break ;
            }
        }
        let ghost wsc = ws_scan(s0, false, 0);
        proof {
            assert(wsc.saw_nl == saw_nl);
            assert(wsc.width == width as nat);
            assert(wsc.consumed == self.pos() - pos0);
        }
        if saw_nl {
            if contains_kind(&valid_tokens, TokenType::NEWLINE) {
                return Ok(Some(Token::Symbol(TokenType::NEWLINE)));
            }
            if self.indents.len() > 0 {
                let top = self.indents[self.indents.len() - 1];
                if width > top && contains_kind(&valid_tokens, TokenType::BEGIN) {
                    self.indents.push(width);
                    proof {
                        assert forall|i: int, j: int|
                            0 <= i < j < self.indents@.len() implies self.indents@[i]
                            < self.indents@[j] by {
                            if j == self.indents@.len() - 1 && i < ind0.len() - 1 {
                                assert(ind0[i] < ind0[ind0.len() - 1]);
                            }
                        }
                    }
                    return Ok(Some(Token::Symbol(TokenType::BEGIN)));
                }
                if width < top && contains_kind(&valid_tokens, TokenType::END) {
                    let _ = self.indents.pop();
                    proof {
                        assert(self.indents@ =~= ind0.drop_last());
                        assert forall|i: int, j: int|
                            0 <= i < j < self.indents@.len() implies self.indents@[i]
                            < self.indents@[j] by {
                            assert(ind0[i] < ind0[j]);
                        }
                    }
                    return Ok(Some(Token::Symbol(TokenType::END)));
                }
            }
        }
        let ghost s2 = self.remaining();
        let ghost dpos = self.pos();
        proof {
            assert(s2 =~= s0.skip(wsc.consumed as int));
        }
        let c_opt = self.cursor.peek();
        if let Some(c) = c_opt {
            if is_alpha(c) {
                let t = self.name();
                return Ok(Some(t));
            }
            if is_digit(c) {
                return match self.number() {
                    Ok(t) => Ok(Some(t)),
                    Err(e) => Err(e),
                };
            }
            if c == '"' {
                return match self.string() {
                    Ok(t) => Ok(Some(t)),
                    Err(e) => Err(e),
                };
            }
            if c == '\'' {
                return match self.character() {
                    Ok(t) => Ok(Some(t)),
                    Err(e) => Err(e),
                };
            }
            if c == '=' {
                self.cursor.advance();
                return Ok(Some(Token::Symbol(TokenType::EQ)));
            }
        }
        if !self.drained && contains_kind(&valid_tokens, TokenType::END) && self.indents.len()
            == 1 {
            self.drained = true;
            return Ok(Some(Token::Symbol(TokenType::END)));
        }
        Ok(None)
    }
}

/// The requested kind set holds `k`.
fn contains_kind(v: &Vec<TokenType>, k: TokenType) -> (r: bool)
    ensures
        r == v@.contains(k),
{
    let mut i: usize = 0;
    while i < v.len()
        invariant
            i <= v.len(),
            forall|j: int| 0 <= j < i ==> v@[j] != k,
        decreases v.len() - i,
    {
        if v[i] == k {
            assert(v@.contains(k)) by {
                assert(v@[i as int] == k);
            }
            return true;
        }
        i = i + 1;
    }
    false
}

/// Add to an indentation width, saturating at the machine limit.
fn sat_add_usize(w: usize, d: usize) -> (r: usize)
    ensures
        r as nat == sat_add(w as nat, d as nat),
{
    if w > usize::MAX - d {
        usize::MAX
    } else {
        w + d
    }
}

/// The keyword table: look an identifier spelling up.
fn keyword_lookup(s: &String) -> (r: Option<TokenType>)
    ensures
        r == keyword_spec(s@),
{
    if s.eq(&String::from_str("let")) {
        Some(TokenType::LET)
    } else if s.eq(&String::from_str("type")) {
        Some(TokenType::TYPE)
    } else if s.eq(&String::from_str("print")) {
        Some(TokenType::PRINT)
    } else {
        None
    }
}

/// The escape table: the literal character an escape introducer stands for.
fn escape_lookup(c: char) -> (r: Option<char>)
    ensures
        r == escape_spec(c),
{
    if c == 'n' {
        Some('\n')
    } else if c == 't' {
        Some('\t')
    } else if c == 'r' {
        Some('\r')
    } else if c == '0' {
        Some('\0')
    } else if c == '\\' {
        Some('\\')
    } else if c == '\'' {
        Some('\'')
    } else if c == '"' {
        Some('"')
    } else {
        None
    }
}

} // verus!
