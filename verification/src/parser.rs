//! The expression tree and the parser that builds it from a token sequence.
use vstd::prelude::*;

use crate::lexer::Token;
use crate::lexer::TokenView;
use crate::lexer::tokens_view;

verus! {

/// One node of the expression tree. A `Lambda` carries its parameter names
/// and its unevaluated body expressions; it captures no environment.
#[derive(Debug, PartialEq)]
pub enum Object {
    Void,
    Integer(i64),
    Bool(bool),
    Symbol(String),
    Lambda(Vec<String>, Vec<Object>),
    List(Vec<Object>),
}

/// Mathematical image of an `Object`: integers as `int`, strings as
/// character sequences, vectors as sequences.
#[verifier::ext_equal]
pub enum ExprView {
    Void,
    Integer(int),
    Bool(bool),
    Symbol(Seq<char>),
    Lambda(Seq<Seq<char>>, Seq<ExprView>),
    List(Seq<ExprView>),
}

/// The mathematical image of one expression node.
pub open spec fn expr_view(o: Object) -> ExprView
    decreases o,
{
    match o {
        Object::Void => ExprView::Void,
        Object::Integer(n) => ExprView::Integer(n as int),
        Object::Bool(b) => ExprView::Bool(b),
        Object::Symbol(s) => ExprView::Symbol(s@),
        Object::Lambda(params, body) => ExprView::Lambda(params.deep_view(), exprs_view(body@)),
        Object::List(items) => ExprView::List(exprs_view(items@)),
    }
}

/// The images of the elements of a sequence of expression nodes.
pub open spec fn exprs_view(s: Seq<Object>) -> Seq<ExprView>
    decreases s,
{
    if s.len() == 0 {
        Seq::empty()
    } else {
        seq![expr_view(s[0])] + exprs_view(s.drop_first())
    }
}

/// `exprs_view` maps `expr_view` over the sequence, element by element.
pub broadcast proof fn lemma_exprs_view_elems(s: Seq<Object>)
    ensures
        (#[trigger] exprs_view(s)).len() == s.len(),
        forall|i: int| 0 <= i < s.len() ==> exprs_view(s)[i] == expr_view(s[i]),
    decreases s.len(),
{
    if s.len() > 0 {
        lemma_exprs_view_elems(s.drop_first());
        assert forall|i: int| 0 <= i < s.len() implies exprs_view(s)[i] == expr_view(s[i]) by {
            if i > 0 {
                assert(s.drop_first()[i - 1] == s[i]);
            }
        }
    }
}

impl View for Object {
    type V = ExprView;

    open spec fn view(&self) -> ExprView {
        expr_view(*self)
    }
}

/// Clones every element of a vector of expression nodes.
pub(crate) fn clone_objects(v: &Vec<Object>) -> (res: Vec<Object>)
    ensures
        exprs_view(res@) == exprs_view(v@),
    decreases v@,
{
    broadcast use lemma_exprs_view_elems;

    let mut res: Vec<Object> = Vec::new();
    let mut i: usize = 0;
    while i < v.len()
        invariant
            i <= v@.len(),
            res@.len() == i,
            forall|j: int| 0 <= j < i ==> res@[j]@ == v@[j]@,
        decreases v@.len() - i,
    {
        res.push(v[i].clone());
        i += 1;
    }
    proof {
        assert(exprs_view(res@) =~= exprs_view(v@));
    }
    res
}

/// Clones every element of a vector of names.
fn clone_strings(v: &Vec<String>) -> (res: Vec<String>)
    ensures
        res.deep_view() == v.deep_view(),
{
    let mut res: Vec<String> = Vec::new();
    let mut i: usize = 0;
    while i < v.len()
        invariant
            i <= v@.len(),
            res@.len() == i,
            forall|j: int| 0 <= j < i ==> res@[j] == v@[j],
        decreases v@.len() - i,
    {
        res.push(v[i].clone());
        i += 1;
    }
    proof {
        assert(res.deep_view() =~= v.deep_view());
    }
    res
}

impl Clone for Object {
    fn clone(&self) -> (res: Self)
        ensures
            res@ == self@,
        decreases self,
    {
        match self {
            Object::Void => Object::Void,
            Object::Integer(n) => Object::Integer(*n),
            Object::Bool(b) => Object::Bool(*b),
            Object::Symbol(s) => Object::Symbol(s.clone()),
            Object::Lambda(params, body) => Object::Lambda(
                clone_strings(params),
                clone_objects(body),
            ),
            Object::List(items) => Object::List(clone_objects(items)),
        }
    }
}

/// The decimal character of one digit value.
pub open spec fn digit_char(d: int) -> char {
    if d == 0 { '0' }
    else if d == 1 { '1' }
    else if d == 2 { '2' }
    else if d == 3 { '3' }
    else if d == 4 { '4' }
    else if d == 5 { '5' }
    else if d == 6 { '6' }
    else if d == 7 { '7' }
    else if d == 8 { '8' }
    else { '9' }
}

/// The decimal rendering of a non-negative integer.
pub open spec fn nat_text(m: nat) -> Seq<char>
    decreases m,
{
    if m < 10 {
        seq![digit_char(m as int)]
    } else {
        nat_text(m / 10) + seq![digit_char((m % 10) as int)]
    }
}

/// The decimal rendering of an integer.
pub open spec fn int_text(n: int) -> Seq<char> {
    if n < 0 {
        seq!['-'] + nat_text((-n) as nat)
    } else {
        nat_text(n as nat)
    }
}

/// The rendering of a lambda's parameter names: each name followed by one
/// space.
pub open spec fn names_text(ps: Seq<Seq<char>>) -> Seq<char>
    decreases ps.len(),
{
    if ps.len() == 0 {
        Seq::empty()
    } else {
        ps[0] + seq![' '] + names_text(ps.drop_first())
    }
}

/// The printable rendering of an expression, as the interpreter shows
/// results: integers in decimal, booleans as `true`/`false`, symbols
/// verbatim, lists parenthesised with elements space-separated, `Void` as a
/// fixed placeholder, and a lambda as its parameter names followed by its
/// body expressions. Diagnostic only: this text need not parse back to the
/// same expression.
pub open spec fn text_of(e: ExprView) -> Seq<char>
    decreases e,
{
    match e {
        ExprView::Void => "Void"@,
        ExprView::Integer(n) => int_text(n),
        ExprView::Bool(b) => if b {
            "true"@
        } else {
            "false"@
        },
        ExprView::Symbol(s) => s,
        ExprView::Lambda(ps, body) => "Lambda("@ + names_text(ps) + ")"@ + tail_text(body),
        ExprView::List(items) => "("@ + list_text(items) + ")"@,
    }
}

/// The space-separated renderings of a list's elements.
pub open spec fn list_text(items: Seq<ExprView>) -> Seq<char>
    decreases items,
{
    if items.len() == 0 {
        Seq::empty()
    } else {
        text_of(items[0]) + tail_text(items.drop_first())
    }
}

/// The renderings of trailing elements, each preceded by one space.
pub open spec fn tail_text(items: Seq<ExprView>) -> Seq<char>
    decreases items,
{
    if items.len() == 0 {
        Seq::empty()
    } else {
        seq![' '] + text_of(items[0]) + tail_text(items.drop_first())
    }
}

/// The decimal rendering of one digit, as a borrowed one-character text.
fn digit_str<'a>(d: u64) -> (r: &'a str)
    requires
        d < 10,
    ensures
        r@ == seq![digit_char(d as int)],
{
    let digits = "0123456789";
    proof {
        reveal_strlit("0123456789");
    }
    let r = digits.substring_char(d as usize, d as usize + 1);
    proof {
        assert(r@ =~= seq![digit_char(d as int)]);
    }
    r
}

/// The decimal rendering of a non-negative integer.
fn nat_to_string(m: u64) -> (r: String)
    ensures
        r@ == nat_text(m as nat),
    decreases m,
{
    if m < 10 {
        String::from_str(digit_str(m))
    } else {
        let s = nat_to_string(m / 10);
        s.concat(digit_str(m % 10))
    }
}

/// The decimal rendering of an integer.
fn int_to_string(n: i64) -> (r: String)
    ensures
        r@ == int_text(n as int),
{
    if n >= 0 {
        nat_to_string(n as u64)
    } else {
        let m: u64 = (-(n as i128)) as u64;
        let s = String::from_str("-");
        proof {
            reveal_strlit("-");
            assert(s@ =~= seq!['-']);
        }
        s.concat(nat_to_string(m).as_str())
    }
}

impl Object {
    /// The printable rendering of this expression, as `text_of` describes
    /// it. Diagnostic only: the text of a lambda or of `Void` does not
    /// parse back to the same expression.
    #[verifier::loop_isolation(false)]
    pub fn to_text(&self) -> (r: String)
        ensures
            r@ == text_of(self@),
        decreases self,
    {
        match self {
            Object::Void => String::from_str("Void"),
            Object::Integer(n) => int_to_string(*n),
            Object::Bool(b) => if *b {
                String::from_str("true")
            } else {
                String::from_str("false")
            },
            Object::Symbol(s) => s.clone(),
            Object::Lambda(params, body) => {
                broadcast use lemma_exprs_view_elems;

                let ghost psv = params.deep_view();
                let ghost bodyv = exprs_view(body@);
                let mut out = String::from_str("Lambda(");
                let mut i: usize = 0;
                proof {
                    reveal_strlit(" ");
                    assert(psv.skip(0) =~= psv);
                }
                while i < params.len()
                    invariant
                        i <= params@.len(),
                        out@ + names_text(psv.skip(i as int)) =~= "Lambda("@ + names_text(psv),
                    decreases params@.len() - i,
                {
                    let ghost pre = out@;
                    out.append(params[i].as_str());
                    out.append(" ");
                    proof {
                        assert(psv.skip(i as int)[0] == psv[i as int]);
                        assert(psv.skip(i as int).drop_first() =~= psv.skip(i as int + 1));
                        assert(out@ =~= pre + (psv[i as int] + seq![' ']));
                    }
                    i += 1;
                }
                proof {
                    assert(psv.skip(params@.len() as int) =~= Seq::<Seq<char>>::empty());
                }
                out.append(")");
                let mut j: usize = 0;
                proof {
                    assert(bodyv.skip(0) =~= bodyv);
                }
                while j < body.len()
                    invariant
                        j <= body@.len(),
                        out@ + tail_text(bodyv.skip(j as int)) =~= "Lambda("@ + names_text(psv) + ")"@
                            + tail_text(bodyv),
                    decreases body@.len() - j,
                {
                    let ghost pre = out@;
                    out.append(" ");
                    let t = body[j].to_text();
                    out.append(t.as_str());
                    proof {
                        assert(bodyv.skip(j as int)[0] == bodyv[j as int]);
                        assert(bodyv.skip(j as int).drop_first() =~= bodyv.skip(j as int + 1));
                        assert(out@ =~= pre + (seq![' '] + text_of(bodyv[j as int])));
                    }
                    j += 1;
                }
                proof {
                    assert(bodyv.skip(body@.len() as int) =~= Seq::<ExprView>::empty());
                    assert(out@ =~= text_of(self@));
                }
                out
            },
            Object::List(items) => {
                broadcast use lemma_exprs_view_elems;

                let ghost itemsv = exprs_view(items@);
                proof {
                    reveal_strlit(" ");
                }
                let mut out = String::from_str("(");
                if items.len() > 0 {
                    let t0 = items[0].to_text();
                    out.append(t0.as_str());
                    let mut j: usize = 1;
                    proof {
                        assert(itemsv.drop_first() =~= itemsv.skip(1));
                    }
                    while j < items.len()
                        invariant
                            1 <= j <= items@.len(),
                            out@ + tail_text(itemsv.skip(j as int)) =~= "("@ + list_text(itemsv),
                        decreases items@.len() - j,
                    {
                        let ghost pre = out@;
                        out.append(" ");
                        let t = items[j].to_text();
                        out.append(t.as_str());
                        proof {
                            assert(itemsv.skip(j as int)[0] == itemsv[j as int]);
                            assert(itemsv.skip(j as int).drop_first() =~= itemsv.skip(j as int + 1));
                            assert(out@ =~= pre + (seq![' '] + text_of(itemsv[j as int])));
                        }
                        j += 1;
                    }
                    proof {
                        assert(itemsv.skip(items@.len() as int) =~= Seq::<ExprView>::empty());
                    }
                }
                out.append(")");
                proof {
                    assert(out@ =~= text_of(self@));
                }
                out
            },
        }
    }
}

/// The ways a token sequence can fail to form an expression: it does not
/// open with a parenthesis, or it runs out before a list is closed.
#[derive(Debug, PartialEq, Eq, Clone, Copy, Structural)]
pub enum ParseFault {
    ExpectedLParen,
    Insufficient,
}

/// A structural malformation of the token sequence.
#[derive(Debug, PartialEq, Eq, Clone, Copy, Structural)]
pub struct ParseError {
    pub kind: ParseFault,
}

impl ParseError {
    /// The printable description of this error.
    pub fn message(&self) -> (r: String)
        ensures
            self.kind is ExpectedLParen ==> r@ == "Parse error: expected an open parenthesis"@,
            self.kind is Insufficient ==> r@ == "Parse error: insufficient tokens"@,
    {
        match self.kind {
            ParseFault::ExpectedLParen => String::from_str("Parse error: expected an open parenthesis"),
            ParseFault::Insufficient => String::from_str("Parse error: insufficient tokens"),
        }
    }
}

/// The views of a token stack whose top is its last element, read from the
/// top down: the order in which popping the stack yields the tokens.
pub open spec fn stack_view(s: Seq<Token>) -> Seq<TokenView> {
    Seq::new(s.len(), |i: int| s[s.len() - 1 - i]@)
}

/// Parses one parenthesised list from the front of `toks`: the head token
/// must be an open parenthesis. On success, returns the expression and the
/// tokens left over after its closing parenthesis.
pub open spec fn sp_list(toks: Seq<TokenView>) -> Result<(ExprView, Seq<TokenView>), ParseFault>
    decreases toks.len(), 1int,
{
    if toks.len() == 0 || !(toks[0] is LParen) {
        Err(ParseFault::ExpectedLParen)
    } else {
        match sp_items(toks.drop_first()) {
            Ok((items, rest)) => Ok((ExprView::List(items), rest)),
            Err(f) => Err(f),
        }
    }
}

/// Parses list elements from the front of `toks` up to and including the
/// closing parenthesis of the current list. On success, returns the elements
/// and the tokens left over.
pub open spec fn sp_items(toks: Seq<TokenView>) -> Result<(Seq<ExprView>, Seq<TokenView>), ParseFault>
    decreases toks.len(), 2int,
{
    if toks.len() == 0 {
        Err(ParseFault::Insufficient)
    } else {
        match toks[0] {
            TokenView::RParen => Ok((Seq::empty(), toks.drop_first())),
            TokenView::Integer(n) => match sp_items(toks.drop_first()) {
                Ok((items, rest)) => Ok((seq![ExprView::Integer(n)] + items, rest)),
                Err(f) => Err(f),
            },
            TokenView::Symbol(s) => match sp_items(toks.drop_first()) {
                Ok((items, rest)) => Ok((seq![ExprView::Symbol(s)] + items, rest)),
                Err(f) => Err(f),
            },
            TokenView::LParen => match sp_list(toks) {
                Err(f) => Err(f),
                Ok((obj, rest)) => if rest.len() < toks.len() {
                    match sp_items(rest) {
                        Ok((items, rest2)) => Ok((seq![obj] + items, rest2)),
                        Err(f) => Err(f),
                    }
                } else {
                    // dead: a parsed list always consumes its open parenthesis
                    Err(ParseFault::Insufficient)
                },
            },
        }
    }
}

/// A successful sub-parse always consumes at least one token.
pub proof fn lemma_sp_consumes(toks: Seq<TokenView>)
    ensures
        sp_list(toks) matches Ok((o, rest)) ==> rest.len() < toks.len(),
        sp_items(toks) matches Ok((is, rest)) ==> rest.len() < toks.len(),
    decreases toks.len(),
{
    if toks.len() > 0 {
        lemma_sp_consumes(toks.drop_first());
        if toks[0] is LParen {
            match sp_list(toks) {
                Ok((o, rest)) => {
                    if rest.len() < toks.len() {
                        lemma_sp_consumes(rest);
                    }
                },
                Err(_) => {},
            }
        }
    }
}

/// What parsing a whole token sequence yields: the first complete
/// parenthesised list at its front; tokens after it are ignored.
pub open spec fn spec_parse(toks: Seq<TokenView>) -> Result<ExprView, ParseFault> {
    match sp_list(toks) {
        Ok((o, _)) => Ok(o),
        Err(f) => Err(f),
    }
}

/// Parses a token sequence into a single expression tree.
pub fn parse(tokens: &Vec<Token>) -> (r: Result<Object, ParseError>)
    ensures
        r matches Ok(o) ==> spec_parse(tokens_view(tokens@)) == Ok::<ExprView, ParseFault>(o@),
        r matches Err(e) ==> spec_parse(tokens_view(tokens@)) == Err::<ExprView, ParseFault>(e.kind),
{
    let ghost orig = tokens_view(tokens@);
    let mut rev: Vec<Token> = Vec::new();
    let mut i: usize = tokens.len();
    while i > 0
        invariant
            i <= tokens@.len(),
            rev@.len() == tokens@.len() - i,
            forall|j: int| 0 <= j < rev@.len() ==> rev@[j]@ == tokens@[tokens@.len() - 1 - j]@,
        decreases i,
    {
        i -= 1;
        rev.push(tokens[i].clone());
    }
    proof {
        assert(stack_view(rev@) =~= orig);
    }
    match parse_list(&mut rev) {
        Ok(o) => Ok(o),
        Err(e) => Err(e),
    }
}

/// Pops one parenthesised list from the token stack.
fn parse_list(toks: &mut Vec<Token>) -> (r: Result<Object, ParseError>)
    ensures
        r matches Ok(o) ==> sp_list(stack_view(old(toks)@))
            == Ok::<(ExprView, Seq<TokenView>), ParseFault>((o@, stack_view(final(toks)@)))
            && final(toks)@.len() < old(toks)@.len(),
        r matches Err(e) ==> sp_list(stack_view(old(toks)@))
            == Err::<(ExprView, Seq<TokenView>), ParseFault>(e.kind),
    decreases old(toks)@.len(), 1int,
{
    let ghost s0 = stack_view(old(toks)@);
    let t = toks.pop();
    match t {
        Some(Token::LParen) => {
            proof {
                assert(stack_view(toks@) =~= s0.drop_first());
            }
            match parse_items(toks) {
                Ok(items) => {
                    let o = Object::List(items);
                    Ok(o)
                },
                Err(e) => Err(e),
            }
        },
        _ => {
            proof {
                if old(toks)@.len() > 0 {
                    assert(s0[0] == old(toks)@.last()@);
                }
            }
            Err(ParseError { kind: ParseFault::ExpectedLParen })
        },
    }
}

/// Pops list elements from the token stack up to and including the closing
/// parenthesis of the current list.
fn parse_items(toks: &mut Vec<Token>) -> (r: Result<Vec<Object>, ParseError>)
    ensures
        r matches Ok(items) ==> sp_items(stack_view(old(toks)@))
            == Ok::<(Seq<ExprView>, Seq<TokenView>), ParseFault>((exprs_view(items@), stack_view(final(toks)@)))
            && final(toks)@.len() < old(toks)@.len(),
        r matches Err(e) ==> sp_items(stack_view(old(toks)@))
            == Err::<(Seq<ExprView>, Seq<TokenView>), ParseFault>(e.kind),
    decreases old(toks)@.len(), 2int,
{
    broadcast use lemma_exprs_view_elems;

    let ghost s0 = stack_view(old(toks)@);
    let t = toks.pop();
    proof {
        if old(toks)@.len() > 0 {
            assert(s0[0] == old(toks)@.last()@);
            assert(stack_view(toks@) =~= s0.drop_first());
        }
    }
    match t {
        None => Err(ParseError { kind: ParseFault::Insufficient }),
        Some(Token::RParen) => {
            let items: Vec<Object> = Vec::new();
            proof {
                assert(exprs_view(items@) =~= Seq::<ExprView>::empty());
            }
            Ok(items)
        },
        Some(Token::Integer(n)) => {
            match parse_items(toks) {
                Err(e) => Err(e),
                Ok(mut items) => {
                    let ghost pre = items@;
                    items.insert(0, Object::Integer(n));
                    proof {
                        assert(exprs_view(items@)
                            =~= seq![ExprView::Integer(n as int)] + exprs_view(pre));
                    }
                    Ok(items)
                },
            }
        },
        Some(Token::Symbol(sym)) => {
            let ghost symv = sym@;
            match parse_items(toks) {
                Err(e) => Err(e),
                Ok(mut items) => {
                    let ghost pre = items@;
                    items.insert(0, Object::Symbol(sym));
                    proof {
                        assert(exprs_view(items@)
                            =~= seq![ExprView::Symbol(symv)] + exprs_view(pre));
                    }
                    Ok(items)
                },
            }
        },
        Some(Token::LParen) => {
            toks.push(Token::LParen);
            proof {
                assert(stack_view(toks@) =~= s0);
            }
            match parse_list(toks) {
                Err(e) => Err(e),
                Ok(obj) => {
                    proof {
                        lemma_sp_consumes(s0);
                    }
                    match parse_items(toks) {
                        Err(e) => Err(e),
                        Ok(mut items) => {
                            let ghost pre = items@;
                            items.insert(0, obj);
                            proof {
                                assert(exprs_view(items@)
                                    =~= seq![obj@] + exprs_view(pre));
                            }
                            Ok(items)
                        },
                    }
                },
            }
        },
    }
}

} // verus!
