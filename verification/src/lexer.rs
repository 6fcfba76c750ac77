//! Tokens of the surface syntax, and the splitter that produces them.
//!
//! The splitter treats `(` and `)` as one-character tokens, splits every
//! other run of non-blank characters at blanks, and classifies each word as
//! a 64-bit signed decimal integer where it parses as one, else as a symbol.
use vstd::prelude::*;

verus! {

/// One atomic token of the input text: a parenthesis marker, a decimal
/// integer, or any other whitespace-delimited word (a symbol).
#[derive(Debug, PartialEq)]
pub enum Token {
    Integer(i64),
    Symbol(String),
    LParen,
    RParen,
}

/// Mathematical image of a `Token`: the integer as `int`, the symbol as its
/// character sequence.
pub enum TokenView {
    Integer(int),
    Symbol(Seq<char>),
    LParen,
    RParen,
}

impl View for Token {
    type V = TokenView;

    open spec fn view(&self) -> TokenView {
        match self {
            Token::Integer(n) => TokenView::Integer(*n as int),
            Token::Symbol(s) => TokenView::Symbol(s@),
            Token::LParen => TokenView::LParen,
            Token::RParen => TokenView::RParen,
        }
    }
}

impl Clone for Token {
    fn clone(&self) -> (res: Self)
        ensures
            res@ == self@,
    {
        match self {
            Token::Integer(n) => Token::Integer(*n),
            Token::Symbol(s) => Token::Symbol(s.clone()),
            Token::LParen => Token::LParen,
            Token::RParen => Token::RParen,
        }
    }
}

/// Error reserved for a future stricter tokenizer; the current splitter
/// accepts every word, so no call ever produces one.
#[derive(Debug)]
pub struct TokenError {
    pub ch: char,
}

/// The views of the elements of a token sequence, in the same order.
pub open spec fn tokens_view(s: Seq<Token>) -> Seq<TokenView> {
    Seq::new(s.len(), |i: int| s[i]@)
}

/// A blank character: the token separators the splitter recognises.
pub open spec fn is_space(c: char) -> bool {
    c == ' ' || c == '\t' || c == '\n' || c == '\r'
}

/// A character that ends a word: a blank or a parenthesis.
pub open spec fn is_delim(c: char) -> bool {
    is_space(c) || c == '(' || c == ')'
}

/// Length of the maximal word (delimiter-free prefix) at the front of `s`.
pub open spec fn word_len(s: Seq<char>) -> int
    decreases s.len(),
{
    if s.len() == 0 || is_delim(s[0]) {
        0
    } else {
        1 + word_len(s.drop_first())
    }
}

/// A decimal digit.
pub open spec fn is_digit(c: char) -> bool {
    48 <= c as u32 <= 57
}

/// The value of a decimal digit.
pub open spec fn digit_val(c: char) -> int {
    c as u32 - 48
}

/// Whether every character of `w` is a decimal digit.
pub open spec fn all_digits(w: Seq<char>) -> bool {
    forall|i: int| 0 <= i < w.len() ==> is_digit(w[i])
}

/// The value of a digit string read as a decimal numeral.
pub open spec fn digits_val(w: Seq<char>) -> int
    decreases w.len(),
{
    if w.len() == 0 {
        0
    } else {
        digits_val(w.drop_last()) * 10 + digit_val(w.last())
    }
}

/// The digit part of a candidate integer word, after any single leading
/// sign, and whether the sign was a minus.
pub open spec fn literal_neg(w: Seq<char>) -> bool {
    w.len() > 0 && w[0] == '-'
}

/// The digits of a candidate integer word, after any single leading sign.
pub open spec fn literal_digits(w: Seq<char>) -> Seq<char> {
    if w.len() > 0 && (w[0] == '+' || w[0] == '-') {
        w.drop_first()
    } else {
        w
    }
}

/// The signed value a candidate integer word denotes.
pub open spec fn int_literal_val(w: Seq<char>) -> int {
    if literal_neg(w) {
        -digits_val(literal_digits(w))
    } else {
        digits_val(literal_digits(w))
    }
}

/// Whether a word is a 64-bit signed decimal integer: an optional sign,
/// one or more digits, and a value within the 64-bit signed range.
pub open spec fn is_int_literal(w: Seq<char>) -> bool {
    &&& literal_digits(w).len() > 0
    &&& all_digits(literal_digits(w))
    &&& i64::MIN <= int_literal_val(w) <= i64::MAX
}

/// How a word is classified: an integer token where it is a decimal
/// integer, else a symbol token.
pub open spec fn classify(w: Seq<char>) -> TokenView {
    if is_int_literal(w) {
        TokenView::Integer(int_literal_val(w))
    } else {
        TokenView::Symbol(w)
    }
}

/// The token sequence of an input text: blanks separate tokens, each
/// parenthesis is a token of its own, and every other maximal word is
/// classified by `classify`.
pub open spec fn spec_tokenize(s: Seq<char>) -> Seq<TokenView>
    decreases s.len(),
{
    if s.len() == 0 {
        Seq::empty()
    } else if is_space(s[0]) {
        spec_tokenize(s.drop_first())
    } else if s[0] == '(' {
        seq![TokenView::LParen] + spec_tokenize(s.drop_first())
    } else if s[0] == ')' {
        seq![TokenView::RParen] + spec_tokenize(s.drop_first())
    } else {
        let n = word_len(s);
        if 1 <= n <= s.len() {
            seq![classify(s.take(n))] + spec_tokenize(s.skip(n))
        } else {
            // dead: a word at the front has at least one character
            Seq::empty()
        }
    }
}

/// The word at the front of `s` ends exactly where the first delimiter
/// stands (or at the end of `s`).
proof fn lemma_word_len_of(s: Seq<char>, m: int)
    requires
        0 <= m <= s.len(),
        forall|k: int| 0 <= k < m ==> !is_delim(s[k]),
        m == s.len() || is_delim(s[m]),
    ensures
        word_len(s) == m,
    decreases m,
{
    if m == 0 {
    } else {
        assert(!is_delim(s[0]));
        lemma_word_len_of(s.drop_first(), m - 1);
    }
}

/// A digit string's value is non-negative and no prefix exceeds it.
proof fn lemma_digits_val_prefix(w: Seq<char>, m: int)
    requires
        all_digits(w),
        0 <= m <= w.len(),
    ensures
        digits_val(w) >= 0,
        digits_val(w) >= digits_val(w.take(m)),
    decreases w.len(),
{
    if w.len() == 0 {
    } else {
        assert(all_digits(w.drop_last()));
        lemma_digits_val_prefix(w.drop_last(), if m <= w.len() - 1 {
            m
        } else {
            (w.len() - 1) as int
        });
        assert(is_digit(w.last()));
        if m == w.len() {
            assert(w.take(m) =~= w);
        } else {
            assert(w.drop_last().take(m) =~= w.take(m));
        }
    }
}

/// Checks a blank character.
fn is_space_exec(c: char) -> (r: bool)
    ensures
        r == is_space(c),
{
    c == ' ' || c == '\t' || c == '\n' || c == '\r'
}

/// Checks a word-ending character.
fn is_delim_exec(c: char) -> (r: bool)
    ensures
        r == is_delim(c),
{
    is_space_exec(c) || c == '(' || c == ')'
}

/// Reads a word as a 64-bit signed decimal integer if it is one.
#[verifier::loop_isolation(false)]
fn parse_int(w: &str) -> (r: Option<i64>)
    ensures
        match r {
            Some(v) => is_int_literal(w@) && v as int == int_literal_val(w@),
            None => !is_int_literal(w@),
        },
{
    let n = w.unicode_len();
    if n == 0 {
        return None;
    }
    let c0 = w.get_char(0);
    let signed: bool = c0 == '+' || c0 == '-';
    let neg: bool = c0 == '-';
    let start: usize = if signed {
        1
    } else {
        0
    };
    if start == n {
        return None;
    }
    let ghost ds = literal_digits(w@);
    proof {
        assert(ds =~= w@.skip(start as int));
    }
    let limit: u64 = if neg {
        0x8000_0000_0000_0000
    } else {
        0x7fff_ffff_ffff_ffff
    };
    let mut acc: u64 = 0;
    let mut k: usize = start;
    proof {
        assert(ds.take(0) =~= Seq::<char>::empty());
    }
    while k < n
        invariant
            start <= k <= n,
            acc <= limit,
            acc as int == digits_val(ds.take(k - start)),
            forall|t: int| 0 <= t < k - start ==> is_digit(ds[t]),
        decreases n - k,
    {
        let c = w.get_char(k);
        let u = c as u32;
        if u < 48 || u > 57 {
            proof {
                assert(ds[k - start] == w@[k as int]);
                assert(!is_digit(ds[k - start]));
            }
            return None;
        }
        let d: u64 = (u - 48) as u64;
        proof {
            assert(ds.take(k - start + 1).drop_last() =~= ds.take(k - start));
            assert(ds.take(k - start + 1).last() == ds[k - start]);
            assert(ds[k - start] == w@[k as int]);
        }
        if acc > (limit - d) / 10 {
            proof {
                let m = k - start + 1;
                assert(digits_val(ds.take(m)) == acc * 10 + d);
                assert(digits_val(ds.take(m)) > limit) by {
                    assert(acc >= (limit - d) / 10 + 1);
                    assert(acc * 10 >= ((limit - d) / 10 + 1) * 10) by (nonlinear_arith)
                        requires
                            acc >= (limit - d) / 10 + 1,
                    ;
                    assert(((limit - d) / 10 + 1) * 10 > limit - d);
                }
                if all_digits(ds) && i64::MIN <= int_literal_val(w@) <= i64::MAX {
                    lemma_digits_val_prefix(ds, m);
                    assert(digits_val(ds) > limit);
                    if neg {
                        assert(int_literal_val(w@) == -digits_val(ds));
                        assert(int_literal_val(w@) < i64::MIN);
                    } else {
                        assert(int_literal_val(w@) > i64::MAX);
                    }
                    assert(false);
                }
            }
            return None;
        }
        acc = acc * 10 + d;
        k += 1;
    }
    proof {
        assert(ds.take(n - start) =~= ds);
        assert(acc as int == digits_val(ds));
        assert(all_digits(ds));
    }
    if neg {
        let v: i64 = (-(acc as i128)) as i64;
        Some(v)
    } else {
        let v: i64 = acc as i64;
        Some(v)
    }
}

/// Splits an input text into tokens. The splitter accepts every word, so
/// the result is always the token sequence `spec_tokenize` describes; the
/// error type is a hook for stricter splitting.
#[verifier::loop_isolation(false)]
pub fn tokenize(program: &str) -> (r: Result<Vec<Token>, TokenError>)
    ensures
        r matches Ok(toks) && tokens_view(toks@) == spec_tokenize(program@),
{
    let n = program.unicode_len();
    let mut toks: Vec<Token> = Vec::new();
    let mut i: usize = 0;
    proof {
        assert(program@.skip(0) =~= program@);
        assert(tokens_view(toks@) =~= Seq::<TokenView>::empty());
    }
    while i < n
        invariant
            i <= n,
            spec_tokenize(program@) =~= tokens_view(toks@) + spec_tokenize(program@.skip(i as int)),
        decreases n - i,
    {
        let ghost rest = program@.skip(i as int);
        let c = program.get_char(i);
        proof {
            assert(rest[0] == c);
            assert(rest.drop_first() =~= program@.skip(i as int + 1));
        }
        if is_space_exec(c) {
            i += 1;
        } else if c == '(' {
            let ghost pre = toks@;
            toks.push(Token::LParen);
            proof {
                assert(tokens_view(toks@) =~= tokens_view(pre) + seq![TokenView::LParen]);
                assert((tokens_view(pre) + seq![TokenView::LParen]) + spec_tokenize(program@.skip(i as int + 1))
                    =~= tokens_view(pre) + (seq![TokenView::LParen] + spec_tokenize(program@.skip(i as int + 1))));
            }
            i += 1;
        } else if c == ')' {
            let ghost pre = toks@;
            toks.push(Token::RParen);
            proof {
                assert(tokens_view(toks@) =~= tokens_view(pre) + seq![TokenView::RParen]);
                assert((tokens_view(pre) + seq![TokenView::RParen]) + spec_tokenize(program@.skip(i as int + 1))
                    =~= tokens_view(pre) + (seq![TokenView::RParen] + spec_tokenize(program@.skip(i as int + 1))));
            }
            i += 1;
        } else {
            let mut j: usize = i + 1;
            let mut stopped = false;
            while j < n && !stopped
                invariant
                    i < j <= n,
                    forall|t: int| i <= t < j ==> !is_delim(program@[t]),
                    stopped ==> j < n && is_delim(program@[j as int]),
                decreases n - j, if stopped { 0int } else { 1int },
            {
                if is_delim_exec(program.get_char(j)) {
                    stopped = true;
                } else {
                    j += 1;
                }
            }
            proof {
                assert(forall|t: int| 0 <= t < j - i ==> !is_delim(rest[t]));
                if j < n {
                    assert(is_delim(rest[j - i]));
                }
                lemma_word_len_of(rest, j - i);
            }
            let word = program.substring_char(i, j);
            proof {
                assert(word@ =~= rest.take(j - i));
                assert(rest.skip(j - i) =~= program@.skip(j as int));
            }
            let ghost pre = toks@;
            match parse_int(word) {
                Some(v) => {
                    toks.push(Token::Integer(v));
                    proof {
                        assert(classify(word@) == TokenView::Integer(v as int));
                        assert(tokens_view(toks@) =~= tokens_view(pre) + seq![TokenView::Integer(v as int)]);
                    }
                },
                None => {
                    toks.push(Token::Symbol(String::from_str(word)));
                    proof {
                        assert(classify(word@) == TokenView::Symbol(word@));
                        assert(tokens_view(toks@) =~= tokens_view(pre) + seq![TokenView::Symbol(word@)]);
                    }
                },
            }
            proof {
                assert((tokens_view(pre) + seq![classify(word@)]) + spec_tokenize(program@.skip(j as int))
                    =~= tokens_view(pre) + (seq![classify(word@)] + spec_tokenize(program@.skip(j as int))));
            }
            i = j;
        }
    }
    proof {
        assert(program@.skip(n as int) =~= Seq::<char>::empty());
        assert(tokens_view(toks@) + Seq::<TokenView>::empty() =~= tokens_view(toks@));
    }
    Ok(toks)
}

} // verus!
