use vstd::prelude::*;
use crate::value::{Object, Val, objects_view};

verus! {

/// A token of the surface syntax. A float is held as its IEEE-754 bit
/// pattern.
#[derive(Debug, PartialEq)]
pub enum Token {
    Integer(i64),
    Float(u64),
    Symbol(String),
    Lparen,
    Rparen,
}

/// The model of a token.
pub enum TokenM {
    Integer(i64),
    Float(u64),
    Symbol(Seq<char>),
    Lparen,
    Rparen,
}

impl Token {
    pub open spec fn view(&self) -> TokenM {
        match self {
            Token::Integer(n) => TokenM::Integer(*n),
            Token::Float(f) => TokenM::Float(*f),
            Token::Symbol(s) => TokenM::Symbol(s@),
            Token::Lparen => TokenM::Lparen,
            Token::Rparen => TokenM::Rparen,
        }
    }
}

pub open spec fn tokens_view(t: Seq<Token>) -> Seq<TokenM> {
    t.map_values(|x: Token| x@)
}

/// What went wrong in a failed parse.
#[derive(Debug, PartialEq, Eq, Structural)]
pub enum ParseErrorKind {
    /// The tokens do not start with an opening parenthesis.
    ExpectedLparen,
    /// The tokens end before every parenthesis is closed.
    InsufficientTokens,
}

/// A failed parse.
#[derive(Debug, PartialEq)]
pub struct ParseError {
    pub kind: ParseErrorKind,
}

/// Whether a character is alphanumeric, as Rust's `char` defines it.
pub uninterp spec fn alphanumeric(c: char) -> bool;

/// Relies on `char::is_alphanumeric`: whether `c` is alphabetic or numeric
/// in Unicode's sense; the answer depends on `c` alone.
#[verifier::external_body]
fn is_alphanumeric(c: char) -> (r: bool)
    ensures
        r == alphanumeric(c),
{
    c.is_alphanumeric()
}

/// The characters that continue an atom after its first one.
pub open spec fn symbol_char(c: char) -> bool {
    alphanumeric(c) || c == '.' || c == '_'
}

fn is_symbol_char(c: char) -> (r: bool)
    ensures
        r == symbol_char(c),
{
    is_alphanumeric(c) || c == '.' || c == '_'
}

/// The index of the last character of the atom that starts at `i`.
pub open spec fn atom_end(cs: Seq<char>, i: int) -> int
    decreases cs.len() - i,
{
    if 0 <= i && i + 1 < cs.len() && symbol_char(cs[i + 1]) {
        atom_end(cs, i + 1)
    } else {
        i
    }
}

/// The index of the last character of the atom that starts at `index`: the
/// atom runs on while the next character is alphanumeric, `.` or `_`.
pub fn get_next_symbol(chars: &Vec<char>, index: usize) -> (end: usize)
    requires
        index < chars@.len(),
    ensures
        index <= end < chars@.len(),
        forall|j: int| index < j <= end ==> symbol_char(#[trigger] chars@[j]),
        end + 1 < chars@.len() ==> !symbol_char(chars@[end + 1]),
        end == atom_end(chars@, index as int),
{
    let mut end: usize = index;
    while end < chars.len() - 1 && is_symbol_char(chars[end + 1])
        invariant
            index <= end < chars@.len(),
            forall|j: int| index < j <= end ==> symbol_char(#[trigger] chars@[j]),
            atom_end(chars@, index as int) == atom_end(chars@, end as int),
        decreases chars@.len() - end,
    {
        end += 1;
    }
    end
}

pub open spec fn is_digit(c: char) -> bool {
    '0' <= c <= '9'
}

pub open spec fn all_digits(s: Seq<char>) -> bool {
    s.len() > 0 && forall|i: int| 0 <= i < s.len() ==> is_digit(#[trigger] s[i])
}

/// The value of a string of decimal digits.
pub open spec fn digits_value(s: Seq<char>) -> int
    decreases s.len(),
{
    if s.len() == 0 {
        0
    } else {
        digits_value(s.drop_last()) * 10 + (s.last() as int - '0' as int)
    }
}

/// The integer that a text spells: an optional sign, then one or more decimal
/// digits.
pub open spec fn int_of_text(s: Seq<char>) -> Option<int> {
    if s.len() > 0 && s[0] == '-' && all_digits(s.drop_first()) {
        Some(-digits_value(s.drop_first()))
    } else if s.len() > 0 && s[0] == '+' && all_digits(s.drop_first()) {
        Some(digits_value(s.drop_first()))
    } else if all_digits(s) {
        Some(digits_value(s))
    } else {
        None
    }
}

/// The 64-bit integer that a text spells, if it spells one in range.
pub open spec fn i64_of_text(s: Seq<char>) -> Option<i64> {
    match int_of_text(s) {
        Some(n) => if i64::MIN <= n <= i64::MAX {
            Some(n as i64)
        } else {
            None
        },
        None => None,
    }
}

proof fn lemma_digits_monotone(s: Seq<char>, k: int)
    requires
        0 <= k <= s.len(),
        forall|i: int| 0 <= i < s.len() ==> is_digit(#[trigger] s[i]),
    ensures
        0 <= digits_value(s.take(k)) <= digits_value(s),
    decreases s.len(),
{
    if s.len() > 0 {
        if k == s.len() {
            assert(s.take(k) == s);
            lemma_digits_monotone(s.drop_last(), k - 1);
        } else {
            lemma_digits_monotone(s.drop_last(), k);
            assert(s.drop_last().take(k) == s.take(k));
        }
        assert(is_digit(s.last()));
    }
}

/// The 64-bit integer that `s` spells, if it spells one in range.
pub fn parse_i64(s: &Vec<char>) -> (r: Option<i64>)
    ensures
        r == i64_of_text(s@),
{
    let len = s.len();
    let negative = len > 0 && s[0] == '-';
    let start: usize = if len > 0 && (s[0] == '-' || s[0] == '+') { 1 } else { 0 };
    let ghost digits = s@.subrange(start as int, len as int);
    proof {
        if start == 1 {
            assert(s@.drop_first() =~= digits);
        } else {
            assert(s@ =~= digits);
        }
    }
    if start >= len {
        assert(!all_digits(digits));
        return None;
    }
    let mut i: usize = start;
    while i < len
        invariant
            start <= i <= len,
            len == s@.len(),
            digits == s@.subrange(start as int, len as int),
            forall|j: int| start <= j < i ==> is_digit(#[trigger] s@[j]),
            start <= 1,
            start == 1 ==> s@.drop_first() == digits,
            start == 0 ==> s@ == digits,
            start == 1 <==> (len > 0 && (s@[0] == '-' || s@[0] == '+')),
        decreases len - i,
    {
        if !('0' <= s[i] && s[i] <= '9') {
            assert(!is_digit(digits[i - start]));
            assert(!all_digits(digits));
            assert(!all_digits(s@)) by {
                if start == 1 {
                    assert(!is_digit(s@[0]));
                }
            }
            return None;
        }
        i += 1;
    }
    assert(all_digits(digits));
    let mut acc: i64 = 0;
    let mut k: usize = start;
    while k < len
        invariant
            start <= k <= len,
            len == s@.len(),
            digits == s@.subrange(start as int, len as int),
            all_digits(digits),
            negative == (s@[0] == '-'),
            negative ==> start == 1,
            start <= 1,
            start == 1 ==> s@.drop_first() == digits,
            start == 0 ==> s@ == digits,
            start == 1 <==> (len > 0 && (s@[0] == '-' || s@[0] == '+')),
            acc == (if negative {
                -digits_value(digits.take(k - start))
            } else {
                digits_value(digits.take(k - start))
            }),
        decreases len - k,
    {
        let c = s[k];
        assert(is_digit(digits[k - start]));
        let d = (c as u32 - '0' as u32) as i64;
        assert(digits.take(k - start + 1).drop_last() == digits.take(k - start));
        let t = acc.checked_mul(10);
        let next = match t {
            Some(t) => if negative {
                t.checked_sub(d)
            } else {
                t.checked_add(d)
            },
            None => None,
        };
        match next {
            Some(n) => {
                acc = n;
            },
            None => {
                proof {
                    let p = digits.take(k - start);
                    let q = digits.take(k - start + 1);
                    assert(q.last() == c);
                    assert(digits_value(q) == digits_value(p) * 10 + (c as int - '0' as int));
                    lemma_digits_monotone(digits, k - start + 1);
                    lemma_digits_monotone(digits, k - start);
                    if negative {
                        assert(-digits_value(q) < i64::MIN);
                        assert(int_of_text(s@) == Some(-digits_value(digits)));
                    } else {
                        assert(digits_value(q) > i64::MAX);
                        assert(s@[0] != '-');
                        if start == 0 {
                            assert(!(s@[0] == '-' || s@[0] == '+'));
                            assert(all_digits(s@));
                        } else {
                            assert(s@[0] == '+');
                            assert(all_digits(s@.drop_first()));
                        }
                        assert(int_of_text(s@) == Some(digits_value(digits)));
                    }
                }
                return None;
            },
        }
        k += 1;
    }
    assert(digits.take(len - start) == digits);
    Some(acc)
}

/// The caller's float reading can be called on any text and gives one result
/// for each text.
pub open spec fn float_text_ok<G: Fn(&Vec<char>) -> Option<u64>>(g: G) -> bool {
    &&& forall|v: &Vec<char>| #[trigger] g.requires((v,))
    &&& forall|v1: &Vec<char>, v2: &Vec<char>, r1: Option<u64>, r2: Option<u64>|
        v1@ == v2@ && #[trigger] g.ensures((v1,), r1) && #[trigger] g.ensures((v2,), r2) ==> r1
            == r2
}

/// The float that the caller's reading finds in a text, as a bit pattern.
pub open spec fn float_text<G: Fn(&Vec<char>) -> Option<u64>>(g: G) -> spec_fn(Seq<char>) -> Option<u64> {
    |s: Seq<char>|
        (choose|p: (&Vec<char>, Option<u64>)| p.0@ == s && #[trigger] g.ensures((p.0,), p.1)).1
}

/// The token that an atom's text stands for: an integer if it spells one in
/// range, else a float if the float reading accepts it, else a symbol.
pub open spec fn classify_spec(s: Seq<char>, ff: spec_fn(Seq<char>) -> Option<u64>) -> TokenM {
    match i64_of_text(s) {
        Some(n) => TokenM::Integer(n),
        None => match ff(s) {
            Some(f) => TokenM::Float(f),
            None => TokenM::Symbol(s),
        },
    }
}

/// The tokens of `cs[i..]`: parentheses stand alone, spaces separate, and
/// anything else starts an atom.
pub open spec fn tokens_from(cs: Seq<char>, i: int, ff: spec_fn(Seq<char>) -> Option<u64>) -> Seq<TokenM>
    decreases cs.len() - i,
{
    if i < 0 || i >= cs.len() {
        Seq::empty()
    } else if cs[i] == '(' {
        seq![TokenM::Lparen] + tokens_from(cs, i + 1, ff)
    } else if cs[i] == ')' {
        seq![TokenM::Rparen] + tokens_from(cs, i + 1, ff)
    } else if cs[i] == ' ' {
        tokens_from(cs, i + 1, ff)
    } else {
        let e = atom_end(cs, i);
        if i <= e < cs.len() {
            seq![classify_spec(cs.subrange(i, e + 1), ff)] + tokens_from(cs, e + 1, ff)
        } else {
            Seq::empty()
        }
    }
}

/// Relies on `String`'s `FromIterator<char>`: the string holds the given
/// characters in order.
#[verifier::external_body]
fn string_of(cs: &Vec<char>) -> (r: String)
    ensures
        r@ == cs@,
{
    cs.iter().collect()
}

fn classify<G: Fn(&Vec<char>) -> Option<u64>>(atom: &Vec<char>, float_of: &G) -> (t: Token)
    requires
        float_text_ok(*float_of),
    ensures
        t@ == classify_spec(atom@, float_text(*float_of)),
{
    match parse_i64(atom) {
        Some(n) => Token::Integer(n),
        None => {
            let f = float_of(atom);
            proof {
                let ff = float_text(*float_of);
                let w = (atom, f);
                assert(w.0@ == atom@ && float_of.ensures((w.0,), w.1));
                let p = choose|p: (&Vec<char>, Option<u64>)| p.0@ == atom@ && #[trigger] float_of.ensures((p.0,), p.1);
                assert(ff(atom@) == p.1);
            }
            match f {
                Some(bits) => Token::Float(bits),
                None => Token::Symbol(string_of(atom)),
            }
        },
    }
}

/// Splits text into tokens. An atom that spells a 64-bit integer becomes an
/// `Integer`; one that `float_of` reads as a float becomes a `Float` with the
/// bit pattern it gives; any other becomes a `Symbol`.
pub fn tokenize<G: Fn(&Vec<char>) -> Option<u64>>(chars: &Vec<char>, float_of: &G) -> (r: Vec<Token>)
    requires
        float_text_ok(*float_of),
    ensures
        tokens_view(r@) == tokens_from(chars@, 0, float_text(*float_of)),
{
    let ghost ff = float_text(*float_of);
    let ghost cs = chars@;
    let mut tokens: Vec<Token> = Vec::new();
    let mut i: usize = 0;
    assert(tokens_view(tokens@) + tokens_from(cs, 0, ff) =~= tokens_from(cs, 0, ff));
    while i < chars.len()
        invariant
            i <= chars@.len(),
            cs == chars@,
            ff == float_text(*float_of),
            float_text_ok(*float_of),
            tokens_view(tokens@) + tokens_from(cs, i as int, ff) == tokens_from(cs, 0, ff),
        decreases chars@.len() - i,
    {
        let ghost before = tokens_view(tokens@);
        let c = chars[i];
        if c == '(' {
            tokens.push(Token::Lparen);
            assert(tokens_view(tokens@) =~= before.push(TokenM::Lparen));
            assert(before + (seq![TokenM::Lparen] + tokens_from(cs, i + 1, ff)) =~= before.push(TokenM::Lparen) + tokens_from(cs, i + 1, ff));
            i += 1;
        } else if c == ')' {
            tokens.push(Token::Rparen);
            assert(tokens_view(tokens@) =~= before.push(TokenM::Rparen));
            assert(before + (seq![TokenM::Rparen] + tokens_from(cs, i + 1, ff)) =~= before.push(TokenM::Rparen) + tokens_from(cs, i + 1, ff));
            i += 1;
        } else if c == ' ' {
            i += 1;
        } else {
            let end = get_next_symbol(chars, i);
            let mut atom: Vec<char> = Vec::new();
            let mut j: usize = i;
            while j <= end
                invariant
                    i <= j <= end + 1,
                    end < chars.len(),
                    atom@ == chars@.subrange(i as int, j as int),
                decreases end + 1 - j,
            {
                atom.push(chars[j]);
                assert(atom@ =~= chars@.subrange(i as int, j + 1));
                j += 1;
            }
            let t = classify(&atom, float_of);
            tokens.push(t);
            let ghost tm = classify_spec(cs.subrange(i as int, end + 1), ff);
            assert(tokens_view(tokens@) =~= before.push(tm));
            assert(before + (seq![tm] + tokens_from(cs, end + 1, ff)) =~= before.push(tm) + tokens_from(cs, end + 1, ff));
            i = end + 1;
        }
    }
    assert(tokens_view(tokens@) + tokens_from(cs, i as int, ff) =~= tokens_view(tokens@));
    tokens
}

/// The value of an atom token; `true` and `false` are booleans.
pub open spec fn atom_val(t: TokenM) -> Val {
    match t {
        TokenM::Integer(n) => Val::Integer(n),
        TokenM::Float(f) => Val::Float(f),
        TokenM::Symbol(s) => if s == "true"@ {
            Val::Bool(true)
        } else if s == "false"@ {
            Val::Bool(false)
        } else {
            Val::Symbol(s)
        },
        _ => Val::Void,
    }
}

/// Parses the items of a list from `ts[i]` on, after the items `acc`, up to
/// the parenthesis that closes it; gives the list and that parenthesis's
/// index.
pub open spec fn parse_items(ts: Seq<TokenM>, i: int, acc: Seq<Val>) -> Result<(Val, int), ParseErrorKind>
    decreases ts.len() - i,
{
    if i < 0 || i >= ts.len() {
        Err(ParseErrorKind::InsufficientTokens)
    } else {
        match ts[i] {
            TokenM::Rparen => Ok((Val::List(acc), i)),
            TokenM::Lparen => match parse_items(ts, i + 1, Seq::empty()) {
                Ok((v, j)) => if i < j < ts.len() {
                    parse_items(ts, j + 1, acc.push(v))
                } else {
                    Err(ParseErrorKind::InsufficientTokens)
                },
                Err(e) => Err(e),
            },
            _ => parse_items(ts, i + 1, acc.push(atom_val(ts[i]))),
        }
    }
}

/// The expression that a token sequence starts with: a parenthesised list.
pub open spec fn parse_spec(ts: Seq<TokenM>) -> Result<Val, ParseErrorKind> {
    if ts.len() == 0 || !(ts[0] is Lparen) {
        Err(ParseErrorKind::ExpectedLparen)
    } else {
        match parse_items(ts, 1, Seq::empty()) {
            Ok((v, _)) => Ok(v),
            Err(e) => Err(e),
        }
    }
}

fn atom_object(t: &Token) -> (r: Object)
    ensures
        r@ == atom_val(t@),
{
    match t {
        Token::Integer(n) => Object::Integer(*n),
        Token::Float(f) => Object::Float(*f),
        Token::Symbol(s) => {
            let yes = "true".to_owned();
            let no = "false".to_owned();
            if *s == yes {
                Object::Bool(true)
            } else if *s == no {
                Object::Bool(false)
            } else {
                Object::Symbol(s.clone())
            }
        },
        _ => Object::Void,
    }
}

fn parse_list(tokens: &Vec<Token>, start: usize) -> (r: Result<(Object, usize), ParseError>)
    ensures
        match r {
            Ok((o, j)) => {
                &&& start <= j < tokens@.len()
                &&& parse_items(tokens_view(tokens@), start as int, Seq::empty()) == Ok::<(Val, int), ParseErrorKind>((o@, j as int))
            },
            Err(e) => parse_items(tokens_view(tokens@), start as int, Seq::empty()) == Err::<(Val, int), ParseErrorKind>(e.kind),
        },
    decreases tokens@.len() - start,
{
    let ghost ts = tokens_view(tokens@);
    let mut items: Vec<Object> = Vec::new();
    let mut i: usize = start;
    assert(objects_view(items@) == Seq::<Val>::empty());
    loop
        invariant
            start <= i,
            ts == tokens_view(tokens@),
            ts.len() == tokens@.len(),
            parse_items(ts, start as int, Seq::empty()) == parse_items(ts, i as int, objects_view(items@)),
        decreases tokens@.len() - i,
    {
        if i >= tokens.len() {
            return Err(ParseError { kind: ParseErrorKind::InsufficientTokens });
        }
        assert(ts[i as int] == tokens@[i as int]@);
        let ghost acc = objects_view(items@);
        let ghost prev = items@;
        match &tokens[i] {
            Token::Rparen => {
                return Ok((Object::List(items), i));
            },
            Token::Lparen => {
                match parse_list(tokens, i + 1) {
                    Ok((v, j)) => {
                        items.push(v);
                        assert(items@.drop_last() == prev);
                        assert(objects_view(items@).drop_last() == acc);
                        i = j + 1;
                    },
                    Err(e) => {
                        return Err(e);
                    },
                }
            },
            t => {
                items.push(atom_object(t));
                assert(items@.drop_last() == prev);
                assert(objects_view(items@).drop_last() == acc);
                i += 1;
            },
        }
    }
}

/// Parses the parenthesised expression that `tokens` starts with; tokens
/// after its closing parenthesis are left alone.
pub fn parse(tokens: &Vec<Token>) -> (r: Result<Object, ParseError>)
    ensures
        match r {
            Ok(o) => parse_spec(tokens_view(tokens@)) == Ok::<Val, ParseErrorKind>(o@),
            Err(e) => parse_spec(tokens_view(tokens@)) == Err::<Val, ParseErrorKind>(e.kind),
        },
{
    if tokens.len() == 0 {
        return Err(ParseError { kind: ParseErrorKind::ExpectedLparen });
    }
    assert(tokens_view(tokens@)[0] == tokens@[0]@);
    match &tokens[0] {
        Token::Lparen => {},
        _ => {
            return Err(ParseError { kind: ParseErrorKind::ExpectedLparen });
        },
    }
    match parse_list(tokens, 1) {
        Ok((o, _)) => Ok(o),
        Err(e) => Err(e),
    }
}

} // verus!
