//! The derivation format as spec functions over bytes. Each takes the input
//! and a position and gives the value found there with the position after it,
//! or the error where it does not match.

use crate::sorted::{build_map, build_set};
use crate::types::{DerivationView, OutputView};
use vstd::prelude::*;

verus! {

pub const QUOTE: u8 = 34;

pub const BACKSLASH: u8 = 92;

pub const COMMA: u8 = 44;

pub const OPEN_PAREN: u8 = 40;

pub const CLOSE_PAREN: u8 = 41;

pub const OPEN_BRACKET: u8 = 91;

pub const CLOSE_BRACKET: u8 = 93;

/// What the parser looked for where the input went wrong.
#[derive(Clone, Copy, Debug, PartialEq, Eq, Structural)]
pub enum Expected {
    /// This byte, after optional whitespace.
    Byte(u8),
    /// The `Derive(` that opens a derivation.
    Header,
    /// The closing quote of the string literal whose body starts at the
    /// offset.
    ClosingQuote,
    /// The end of the input, after the closing parenthesis.
    EndOfInput,
}

/// A malformed derivation: what was expected, and the byte offset where.
#[derive(Clone, Copy, Debug, PartialEq, Eq, Structural)]
pub struct ParseError {
    pub expected: Expected,
    pub position: usize,
}

/// The error of expecting `expected` at offset `at`.
pub open spec fn fail<T>(expected: Expected, at: int) -> Result<T, ParseError> {
    Err(ParseError { expected, position: at as usize })
}

pub open spec fn is_space(b: u8) -> bool {
    b == 32 || (9 <= b && b <= 13)
}

/// The first position at or after `i` that holds no whitespace.
pub open spec fn skip_ws(s: Seq<u8>, i: int) -> int
    decreases s.len() - i,
{
    if 0 <= i < s.len() && is_space(s[i]) {
        skip_ws(s, i + 1)
    } else {
        i
    }
}

/// The byte `c` after optional whitespace.
pub open spec fn token(s: Seq<u8>, i: int, c: u8) -> Result<int, ParseError> {
    let j = skip_ws(s, i);
    if 0 <= j < s.len() && s[j] == c {
        Ok(j + 1)
    } else {
        fail(Expected::Byte(c), j)
    }
}

/// What the byte after a backslash stands for.
pub open spec fn unescape(c: u8) -> u8 {
    if c == 110 {
        10
    } else if c == 116 {
        9
    } else if c == 114 {
        13
    } else {
        c
    }
}

/// `acc` put before the items that `r` found.
pub open spec fn prepend_items<T>(acc: Seq<T>, r: Result<(Seq<T>, int), ParseError>) -> Result<(Seq<T>, int), ParseError> {
    match r {
        Ok((xs, e)) => Ok((acc + xs, e)),
        Err(err) => Err(err),
    }
}

/// `acc` put before the bytes that `r` decoded.
pub open spec fn prepend<T>(acc: Seq<T>, r: Option<(Seq<T>, int)>) -> Option<(Seq<T>, int)> {
    match r {
        Some((xs, e)) => Some((acc + xs, e)),
        None => None,
    }
}

/// The decoded rest of a string literal from `i` on, up to and past its
/// closing quote.
pub open spec fn string_body(s: Seq<u8>, i: int) -> Option<(Seq<u8>, int)>
    decreases s.len() - i,
{
    if i < 0 || i >= s.len() {
        None
    } else if s[i] == QUOTE {
        Some((Seq::empty(), i + 1))
    } else if s[i] == BACKSLASH {
        if i + 1 >= s.len() {
            None
        } else {
            prepend(seq![unescape(s[i + 1])], string_body(s, i + 2))
        }
    } else {
        prepend(seq![s[i]], string_body(s, i + 1))
    }
}

/// A string literal after optional whitespace.
pub open spec fn string(s: Seq<u8>, i: int) -> Result<(Seq<u8>, int), ParseError> {
    match token(s, i, QUOTE) {
        Ok(j) => match string_body(s, j) {
            Some(x) => Ok(x),
            None => fail(Expected::ClosingQuote, j),
        },
        Err(e) => Err(e),
    }
}

/// An optional string: a string literal, absent when it is empty, or nothing
/// at all.
pub open spec fn opt_string(s: Seq<u8>, i: int) -> Result<(Option<Seq<u8>>, int), ParseError> {
    let j = skip_ws(s, i);
    if 0 <= j < s.len() && s[j] == QUOTE {
        match string(s, i) {
            Ok((t, e)) => Ok((if t.len() == 0 { None } else { Some(t) }, e)),
            Err(err) => Err(err),
        }
    } else {
        Ok((None, j))
    }
}

/// One or more items separated by commas, then the closing bracket.
pub open spec fn list_rest<T>(s: Seq<u8>, i: int, item: spec_fn(Seq<u8>, int) -> Result<(T, int), ParseError>) -> Result<(Seq<T>, int), ParseError>
    decreases s.len() - i,
{
    match item(s, i) {
        Ok((x, e)) => match token(s, e, COMMA) {
            Ok(k) => if i < k {
                prepend_items(seq![x], list_rest(s, k, item))
            } else {
                fail(Expected::Byte(COMMA), k)
            },
            Err(_) => match token(s, e, CLOSE_BRACKET) {
                Ok(k) => Ok((seq![x], k)),
                Err(err) => Err(err),
            },
        },
        Err(err) => Err(err),
    }
}

/// A bracketed list of items.
pub open spec fn list<T>(s: Seq<u8>, i: int, item: spec_fn(Seq<u8>, int) -> Result<(T, int), ParseError>) -> Result<(Seq<T>, int), ParseError> {
    match token(s, i, OPEN_BRACKET) {
        Ok(j) => match token(s, j, CLOSE_BRACKET) {
            Ok(k) => Ok((Seq::empty(), k)),
            Err(_) => list_rest(s, j, item),
        },
        Err(err) => Err(err),
    }
}

pub open spec fn string_item() -> spec_fn(Seq<u8>, int) -> Result<(Seq<u8>, int), ParseError> {
    |s: Seq<u8>, i: int| string(s, i)
}

/// `(name, path, hash algorithm, hash)`
pub open spec fn output_entry(s: Seq<u8>, i: int) -> Result<((Seq<u8>, OutputView), int), ParseError> {
    match token(s, i, OPEN_PAREN) {
        Ok(p) => match string(s, p) {
            Ok((name, p)) => match token(s, p, COMMA) {
                Ok(p) => match string(s, p) {
                    Ok((path, p)) => match token(s, p, COMMA) {
                        Ok(p) => match opt_string(s, p) {
                            Ok((algo, p)) => match token(s, p, COMMA) {
                                Ok(p) => match opt_string(s, p) {
                                    Ok((hash, p)) => match token(s, p, CLOSE_PAREN) {
                                        Ok(p) => Ok(
                                            (
                                                (
                                                    name,
                                                    OutputView {
                                                        path,
                                                        hash_algorithm: algo,
                                                        hash,
                                                    },
                                                ),
                                                p,
                                            ),
                                        ),
                                        Err(e) => Err(e),
                                    },
                                    Err(e) => Err(e),
                                },
                                Err(e) => Err(e),
                            },
                            Err(e) => Err(e),
                        },
                        Err(e) => Err(e),
                    },
                    Err(e) => Err(e),
                },
                Err(e) => Err(e),
            },
            Err(e) => Err(e),
        },
        Err(e) => Err(e),
    }
}

pub open spec fn output_item() -> spec_fn(Seq<u8>, int) -> Result<((Seq<u8>, OutputView), int), ParseError> {
    |s: Seq<u8>, i: int| output_entry(s, i)
}

/// `(path, [output names])`
pub open spec fn input_entry(s: Seq<u8>, i: int) -> Result<((Seq<u8>, Seq<Seq<u8>>), int), ParseError> {
    match token(s, i, OPEN_PAREN) {
        Ok(p) => match string(s, p) {
            Ok((path, p)) => match token(s, p, COMMA) {
                Ok(p) => match list(s, p, string_item()) {
                    Ok((names, p)) => match token(s, p, CLOSE_PAREN) {
                        Ok(p) => Ok(((path, build_set(names)), p)),
                        Err(e) => Err(e),
                    },
                    Err(e) => Err(e),
                },
                Err(e) => Err(e),
            },
            Err(e) => Err(e),
        },
        Err(e) => Err(e),
    }
}

pub open spec fn input_item() -> spec_fn(Seq<u8>, int) -> Result<((Seq<u8>, Seq<Seq<u8>>), int), ParseError> {
    |s: Seq<u8>, i: int| input_entry(s, i)
}

/// `(name, value)`
pub open spec fn env_entry(s: Seq<u8>, i: int) -> Result<((Seq<u8>, Seq<u8>), int), ParseError> {
    match token(s, i, OPEN_PAREN) {
        Ok(p) => match string(s, p) {
            Ok((key, p)) => match token(s, p, COMMA) {
                Ok(p) => match string(s, p) {
                    Ok((value, p)) => match token(s, p, CLOSE_PAREN) {
                        Ok(p) => Ok(((key, value), p)),
                        Err(e) => Err(e),
                    },
                    Err(e) => Err(e),
                },
                Err(e) => Err(e),
            },
            Err(e) => Err(e),
        },
        Err(e) => Err(e),
    }
}

pub open spec fn env_item() -> spec_fn(Seq<u8>, int) -> Result<((Seq<u8>, Seq<u8>), int), ParseError> {
    |s: Seq<u8>, i: int| env_entry(s, i)
}

/// The bytes of `Derive(`.
pub open spec fn header_bytes() -> Seq<u8> {
    seq![68u8, 101u8, 114u8, 105u8, 118u8, 101u8, 40u8]
}

/// `Derive(` after optional whitespace.
pub open spec fn header(s: Seq<u8>, i: int) -> Result<int, ParseError> {
    let j = skip_ws(s, i);
    if 0 <= j && j + 7 <= s.len() && s.subrange(j, j + 7) == header_bytes() {
        Ok(j + 7)
    } else {
        fail(Expected::Header, j)
    }
}

/// The closing parenthesis of a derivation, then only whitespace to the end.
pub open spec fn closing(s: Seq<u8>, i: int) -> Result<(), ParseError> {
    match token(s, i, CLOSE_PAREN) {
        Ok(p) => if skip_ws(s, p) == s.len() {
            Ok(())
        } else {
            fail(Expected::EndOfInput, skip_ws(s, p))
        },
        Err(e) => Err(e),
    }
}

/// The five sections that follow the input derivations, from the comma before
/// the input sources on.
pub open spec fn tail_sections(s: Seq<u8>, i: int) -> Result<
    (Seq<Seq<u8>>, Seq<u8>, Seq<u8>, Seq<Seq<u8>>, Seq<(Seq<u8>, Seq<u8>)>),
    ParseError,
> {
    match token(s, i, COMMA) {
        Ok(p) => match list(s, p, string_item()) {
            Ok((sources, p)) => match token(s, p, COMMA) {
                Ok(p) => match string(s, p) {
                    Ok((platform, p)) => match token(s, p, COMMA) {
                        Ok(p) => match string(s, p) {
                            Ok((builder, p)) => match token(s, p, COMMA) {
                                Ok(p) => match list(s, p, string_item()) {
                                    Ok((args, p)) => match token(s, p, COMMA) {
                                        Ok(p) => match list(s, p, env_item()) {
                                            Ok((env, p)) => match closing(s, p) {
                                                Ok(_) => Ok((sources, platform, builder, args, env)),
                                                Err(e) => Err(e),
                                            },
                                            Err(e) => Err(e),
                                        },
                                        Err(e) => Err(e),
                                    },
                                    Err(e) => Err(e),
                                },
                                Err(e) => Err(e),
                            },
                            Err(e) => Err(e),
                        },
                        Err(e) => Err(e),
                    },
                    Err(e) => Err(e),
                },
                Err(e) => Err(e),
            },
            Err(e) => Err(e),
        },
        Err(e) => Err(e),
    }
}

/// The derivation that the whole input `s` encodes, if it is one.
pub open spec fn derivation(s: Seq<u8>) -> Result<DerivationView, ParseError> {
    match header(s, 0) {
        Ok(p) => match list(s, p, output_item()) {
            Ok((outputs, p)) => match token(s, p, COMMA) {
                Ok(p) => match list(s, p, input_item()) {
                    Ok((inputs, p)) => match tail_sections(s, p) {
                        Ok((sources, platform, builder, args, env)) => Ok(
                            DerivationView {
                                outputs: build_map(outputs),
                                input_sources: build_set(sources),
                                input_derivations: build_map(inputs),
                                platform,
                                builder,
                                args,
                                env: build_map(env),
                            },
                        ),
                        Err(e) => Err(e),
                    },
                    Err(e) => Err(e),
                },
                Err(e) => Err(e),
            },
            Err(e) => Err(e),
        },
        Err(e) => Err(e),
    }
}

} // verus!
