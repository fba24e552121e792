//! Tokenizer: turns a character sequence into `Pair` and `Break` tokens.
//!
//! A newline at the start of a token marks an empty line and becomes a
//! `Break`. Any other character starts a key, which runs until a `:`; the
//! value then runs until a space, a newline, or the end of the input. A
//! newline or end of input inside a key, or a `:` inside a value, is a
//! lexical error that aborts the whole run.

use vstd::prelude::*;

verus! {

/// A lexical error; any such error is fatal for the whole run.
#[derive(Clone, Copy, PartialEq, Eq, Structural, Debug)]
pub enum LexError {
    /// A newline was read while scanning a key, before any `:`.
    NewlineInKey,
    /// The input ended while scanning a key, before any `:`.
    EofInKey,
    /// A `:` was read while scanning a value.
    ColonInValue,
}

impl LexError {
    /// A human-readable description of the error.
    pub fn message(&self) -> (r: &'static str)
        ensures
            r@ == match self {
                LexError::NewlineInKey => "newline in key"@,
                LexError::EofInKey => "end of file in key"@,
                LexError::ColonInValue => ": in value"@,
            },
    {
        match self {
            LexError::NewlineInKey => "newline in key",
            LexError::EofInKey => "end of file in key",
            LexError::ColonInValue => ": in value",
        }
    }
}

/// One `key:value` field, as scanned from the input.
pub struct Pair {
    pub key: Vec<char>,
    pub value: Vec<char>,
}

/// A lexical unit: a key/value pair, or a blank-line marker.
pub enum Token {
    Pair(Pair),
    Break,
}

/// The mathematical counterpart of `Token`: key and value as sequences.
pub enum TokenModel {
    Pair(Seq<char>, Seq<char>),
    Break,
}

impl View for Token {
    type V = TokenModel;

    open spec fn view(&self) -> TokenModel {
        match self {
            Token::Pair(p) => TokenModel::Pair(p.key@, p.value@),
            Token::Break => TokenModel::Break,
        }
    }
}

/// The models of a sequence of tokens.
pub open spec fn token_models(ts: Seq<Token>) -> Seq<TokenModel> {
    ts.map_values(|t: Token| t@)
}

/// A character that ends a key (the `:` is consumed; a newline is an error).
pub open spec fn is_key_terminator(c: char) -> bool {
    c == ':' || c == '\n'
}

/// A character that ends a value (a `:` here is an error).
pub open spec fn is_value_terminator(c: char) -> bool {
    c == '\n' || c == ' ' || c == ':'
}

/// The index of the first key terminator at or after `i`, or `s.len()`.
pub open spec fn scan_key(s: Seq<char>, i: int) -> int
    decreases s.len() - i,
{
    if i >= s.len() {
        i
    } else if is_key_terminator(s[i]) {
        i
    } else {
        scan_key(s, i + 1)
    }
}

/// The index of the first value terminator at or after `i`, or `s.len()`.
pub open spec fn scan_value(s: Seq<char>, i: int) -> int
    decreases s.len() - i,
{
    if i >= s.len() {
        i
    } else if is_value_terminator(s[i]) {
        i
    } else {
        scan_value(s, i + 1)
    }
}

pub proof fn lemma_scan_key(s: Seq<char>, i: int)
    requires
        0 <= i <= s.len(),
    ensures
        i <= scan_key(s, i) <= s.len(),
        scan_key(s, i) < s.len() ==> is_key_terminator(s[scan_key(s, i)]),
        forall|j: int| i <= j < scan_key(s, i) ==> !is_key_terminator(s[j]),
    decreases s.len() - i,
{
    if i < s.len() && !is_key_terminator(s[i]) {
        lemma_scan_key(s, i + 1);
    }
}

pub proof fn lemma_scan_value(s: Seq<char>, i: int)
    requires
        0 <= i <= s.len(),
    ensures
        i <= scan_value(s, i) <= s.len(),
        scan_value(s, i) < s.len() ==> is_value_terminator(s[scan_value(s, i)]),
        forall|j: int| i <= j < scan_value(s, i) ==> !is_value_terminator(s[j]),
    decreases s.len() - i,
{
    if i < s.len() && !is_value_terminator(s[i]) {
        lemma_scan_value(s, i + 1);
    }
}

/// The tokens of `s` from position `i` on, or the first lexical error.
pub open spec fn spec_tokenize_at(s: Seq<char>, i: int) -> Result<Seq<TokenModel>, LexError>
    decreases s.len() - i,
{
    if i < 0 || i >= s.len() {
        Ok(Seq::empty())
    } else if s[i] == '\n' {
        match spec_tokenize_at(s, i + 1) {
            Ok(rest) => Ok(seq![TokenModel::Break] + rest),
            Err(e) => Err(e),
        }
    } else {
        let ke = scan_key(s, i + 1);
        proof {
            lemma_scan_key(s, i + 1);
        }
        if ke >= s.len() {
            Err(LexError::EofInKey)
        } else if s[ke] == '\n' {
            Err(LexError::NewlineInKey)
        } else {
            let ve = scan_value(s, ke + 1);
            proof {
                lemma_scan_value(s, ke + 1);
            }
            if ve < s.len() && s[ve] == ':' {
                Err(LexError::ColonInValue)
            } else {
                let next = if ve < s.len() { ve + 1 } else { ve };
                let pair = TokenModel::Pair(s.subrange(i, ke), s.subrange(ke + 1, ve));
                match spec_tokenize_at(s, next) {
                    Ok(rest) => Ok(seq![pair] + rest),
                    Err(e) => Err(e),
                }
            }
        }
    }
}

/// The tokens of the whole input, or the first lexical error.
pub open spec fn spec_tokenize(s: Seq<char>) -> Result<Seq<TokenModel>, LexError> {
    spec_tokenize_at(s, 0)
}

/// `rest` with `pre` put before its tokens; an error passes through.
pub open spec fn prepend_tokens(
    pre: Seq<TokenModel>,
    rest: Result<Seq<TokenModel>, LexError>,
) -> Result<Seq<TokenModel>, LexError> {
    match rest {
        Ok(ts) => Ok(pre + ts),
        Err(e) => Err(e),
    }
}

proof fn lemma_prepend_prepend(
    pre: Seq<TokenModel>,
    t: TokenModel,
    rest: Result<Seq<TokenModel>, LexError>,
)
    ensures
        prepend_tokens(pre, prepend_tokens(seq![t], rest)) == prepend_tokens(pre.push(t), rest),
{
    match rest {
        Ok(ts) => {
            assert(pre + (seq![t] + ts) =~= pre.push(t) + ts);
        },
        Err(_) => {},
    }
}

/// Scan one `key:value` pair whose first key character stands at `start`.
fn parse_pair(input: &Vec<char>, start: usize) -> (r: Result<(Pair, usize), LexError>)
    requires
        start < input@.len(),
        input@[start as int] != '\n',
    ensures
        ({
            let s = input@;
            let ke = scan_key(s, start + 1);
            if ke >= s.len() {
                r == Err::<(Pair, usize), LexError>(LexError::EofInKey)
            } else if s[ke] == '\n' {
                r == Err::<(Pair, usize), LexError>(LexError::NewlineInKey)
            } else {
                let ve = scan_value(s, ke + 1);
                if ve < s.len() && s[ve] == ':' {
                    r == Err::<(Pair, usize), LexError>(LexError::ColonInValue)
                } else {
                    r matches Ok((p, next)) && p.key@ == s.subrange(start as int, ke)
                        && p.value@ == s.subrange(ke + 1, ve) && next == if ve < s.len() {
                        ve + 1
                    } else {
                        ve
                    } && start < next <= s.len()
                }
            }
        }),
{
    let ghost s = input@;
    let n = input.len();
    let mut key: Vec<char> = Vec::new();
    key.push(input[start]);
    let mut j: usize = start + 1;
    while j < n && input[j] != ':' && input[j] != '\n'
        invariant
            start + 1 <= j <= s.len(),
            s == input@,
            n == s.len(),
            start < s.len(),
            scan_key(s, start as int + 1) == scan_key(s, j as int),
            key@ == seq![s[start as int]] + s.subrange(start as int + 1, j as int),
        decreases s.len() - j,
    {
        key.push(input[j]);
        proof {
            assert(key@ =~= seq![s[start as int]] + s.subrange(start as int + 1, j as int + 1));
        }
        j = j + 1;
    }
    let ghost ke = scan_key(s, start as int + 1);
    proof {
        assert(ke == j as int);
    }
    if j == n {
        return Err(LexError::EofInKey);
    }
    if input[j] == '\n' {
        return Err(LexError::NewlineInKey);
    }
    proof {
        assert(key@ =~= s.subrange(start as int, ke));
    }
    let mut value: Vec<char> = Vec::new();
    let mut m: usize = j + 1;
    while m < n && input[m] != '\n' && input[m] != ' ' && input[m] != ':'
        invariant
            ke + 1 <= m <= s.len(),
            s == input@,
            n == s.len(),
            0 <= ke < s.len(),
            scan_value(s, ke + 1) == scan_value(s, m as int),
            value@ == s.subrange(ke + 1, m as int),
        decreases s.len() - m,
    {
        value.push(input[m]);
        proof {
            assert(value@ =~= s.subrange(ke + 1, m as int + 1));
        }
        m = m + 1;
    }
    let ghost ve = scan_value(s, ke + 1);
    proof {
        assert(ve == m as int);
    }
    if m < n && input[m] == ':' {
        return Err(LexError::ColonInValue);
    }
    let next = if m < n { m + 1 } else { m };
    Ok((Pair { key, value }, next))
}

/// Tokenize the whole input eagerly, or report the first lexical error.
pub fn tokenize(input: &Vec<char>) -> (r: Result<Vec<Token>, LexError>)
    ensures
        match r {
            Ok(toks) => spec_tokenize(input@) == Ok::<Seq<TokenModel>, LexError>(
                token_models(toks@),
            ),
            Err(e) => spec_tokenize(input@) == Err::<Seq<TokenModel>, LexError>(e),
        },
{
    let ghost s = input@;
    let mut toks: Vec<Token> = Vec::new();
    let mut i: usize = 0;
    while i < input.len()
        invariant
            0 <= i <= s.len(),
            s == input@,
            spec_tokenize(s) == prepend_tokens(token_models(toks@), spec_tokenize_at(s, i as int)),
        decreases s.len() - i,
    {
        let c = input[i];
        if c == '\n' {
            let ghost pre = token_models(toks@);
            proof {
                assert(spec_tokenize_at(s, i as int) == prepend_tokens(
                    seq![TokenModel::Break],
                    spec_tokenize_at(s, i as int + 1),
                ));
                lemma_prepend_prepend(pre, TokenModel::Break, spec_tokenize_at(s, i as int + 1));
            }
            toks.push(Token::Break);
            proof {
                assert(token_models(toks@) =~= pre.push(TokenModel::Break));
            }
            i = i + 1;
        } else {
            match parse_pair(input, i) {
                Err(e) => {
                    proof {
                        lemma_scan_key(s, i as int + 1);
                        assert(spec_tokenize_at(s, i as int) == Err::<Seq<TokenModel>, LexError>(
                            e,
                        ));
                    }
                    return Err(e);
                },
                Ok((p, next)) => {
                    let ghost pre = token_models(toks@);
                    let ghost pm = TokenModel::Pair(p.key@, p.value@);
                    proof {
                        assert(spec_tokenize_at(s, i as int) == prepend_tokens(
                            seq![pm],
                            spec_tokenize_at(s, next as int),
                        ));
                        lemma_prepend_prepend(pre, pm, spec_tokenize_at(s, next as int));
                    }
                    toks.push(Token::Pair(p));
                    proof {
                        assert(token_models(toks@) =~= pre.push(pm));
                    }
                    i = next;
                },
            }
        }
    }
    proof {
        assert(token_models(toks@) + Seq::<TokenModel>::empty() =~= token_models(toks@));
    }
    Ok(toks)
}

} // verus!
