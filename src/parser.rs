//! The derivation parser: a recursive-descent decoder over raw bytes.

use crate::bytes::{append_bytes, to_vec};
use crate::grammar::{
    derivation, env_entry, env_item, fail, header, header_bytes, input_entry, input_item,
    is_space, list, list_rest, opt_string, output_entry, output_item, prepend, prepend_items,
    skip_ws, string, string_body, string_item, token, unescape, Expected, ParseError, BACKSLASH,
    CLOSE_BRACKET, CLOSE_PAREN, COMMA, OPEN_BRACKET, OPEN_PAREN, QUOTE,
};
use crate::sorted::{build_map, build_set, insert_entry, insert_member};
use crate::types::{
    env_view, inputs_view, keys_of, opt_view, outputs_view, seqs_view, strictly_sorted, Derivation,
    Output, OutputView,
};
use vstd::prelude::*;
use vstd::string::StringSliceAdditionalSpecFns;

verus! {

/// Relies on memchr::memchr: the index of the first occurrence of `needle`
/// in `haystack`, or `None` when it does not occur.
pub assume_specification[ memchr::memchr ](needle: u8, haystack: &[u8]) -> (r: Option<usize>)
    ensures
        match r {
            Some(i) => {
                &&& i < haystack@.len()
                &&& haystack@[i as int] == needle
                &&& forall|j: int| 0 <= j < i ==> haystack@[j] != needle
            },
            None => forall|j: int| 0 <= j < haystack@.len() ==> haystack@[j] != needle,
        },
;

/// Relies on memchr::memchr2: the index of the first occurrence of either
/// needle in `haystack`, or `None` when neither occurs.
pub assume_specification[ memchr::memchr2 ](needle1: u8, needle2: u8, haystack: &[u8]) -> (r: Option<usize>)
    ensures
        match r {
            Some(i) => {
                &&& i < haystack@.len()
                &&& (haystack@[i as int] == needle1 || haystack@[i as int] == needle2)
                &&& forall|j: int|
                    0 <= j < i ==> haystack@[j] != needle1 && haystack@[j] != needle2
            },
            None => forall|j: int|
                0 <= j < haystack@.len() ==> haystack@[j] != needle1 && haystack@[j] != needle2,
        },
;

pub proof fn lemma_prepend_push<T>(acc: Seq<T>, x: T, r: Option<(Seq<T>, int)>)
    ensures
        prepend(acc, prepend(seq![x], r)) == prepend(acc.push(x), r),
{
    if let Some((xs, e)) = r {
        assert(acc + (seq![x] + xs) =~= acc.push(x) + xs);
    }
}

pub proof fn lemma_prepend_items_push<T>(acc: Seq<T>, x: T, r: Result<(Seq<T>, int), ParseError>)
    ensures
        prepend_items(acc, prepend_items(seq![x], r)) == prepend_items(acc.push(x), r),
{
    if let Ok((xs, e)) = r {
        assert(acc + (seq![x] + xs) =~= acc.push(x) + xs);
    }
}

pub proof fn lemma_prepend_concat<T>(a: Seq<T>, b: Seq<T>, r: Option<(Seq<T>, int)>)
    ensures
        prepend(a, prepend(b, r)) == prepend(a + b, r),
{
    if let Some((xs, e)) = r {
        assert(a + (b + xs) =~= (a + b) + xs);
    }
}

/// A run of bytes that holds no quote and no backslash decodes to itself.
pub proof fn lemma_plain_run(s: Seq<u8>, i: int, j: int)
    requires
        0 <= i <= j <= s.len(),
        forall|k: int| i <= k < j ==> s[k] != QUOTE && s[k] != BACKSLASH,
    ensures
        string_body(s, i) == prepend(s.subrange(i, j), string_body(s, j)),
    decreases j - i,
{
    if i == j {
        if let Some((xs, e)) = string_body(s, j) {
            assert(s.subrange(i, j) + xs =~= xs);
        }
    } else {
        lemma_plain_run(s, i + 1, j);
        lemma_prepend_concat(seq![s[i]], s.subrange(i + 1, j), string_body(s, j));
        assert(seq![s[i]] + s.subrange(i + 1, j) =~= s.subrange(i, j));
    }
}

/// A string literal whose closing quote never comes is no string.
pub proof fn lemma_no_quote(s: Seq<u8>, i: int)
    requires
        0 <= i,
        forall|k: int| i <= k < s.len() ==> s[k] != QUOTE,
    ensures
        string_body(s, i) is None,
    decreases s.len() - i,
{
    if i < s.len() {
        if s[i] == BACKSLASH {
            if i + 1 < s.len() {
                lemma_no_quote(s, i + 2);
            }
        } else {
            lemma_no_quote(s, i + 1);
        }
    }
}

/// The byte that a backslash followed by `c` stands for.
pub fn unescape_byte(c: u8) -> (r: u8)
    ensures
        r == unescape(c),
{
    if c == 110u8 {
        10u8
    } else if c == 116u8 {
        9u8
    } else if c == 114u8 {
        13u8
    } else {
        c
    }
}

struct Parser<'a> {
    bytes: &'a [u8],
    pos: usize,
}

impl<'a> Parser<'a> {
    spec fn wf(&self) -> bool {
        &&& self.pos <= self.bytes@.len()
        &&& self.bytes@.len() <= usize::MAX
    }

    fn new(input: &'a [u8]) -> (r: Self)
        ensures
            r.bytes@ == input@,
            r.pos == 0,
            r.wf(),
    {
        assert(input.len() == input@.len());
        Parser { bytes: input, pos: 0 }
    }

    fn peek(&self) -> (r: Option<u8>)
        ensures
            r == if self.pos < self.bytes@.len() {
                Some(self.bytes@[self.pos as int])
            } else {
                None
            },
    {
        if self.pos < self.bytes.len() {
            Some(self.bytes[self.pos])
        } else {
            None
        }
    }

    fn advance(&mut self)
        requires
            old(self).wf(),
            old(self).pos < old(self).bytes@.len(),
        ensures
            final(self).bytes == old(self).bytes,
            final(self).pos == old(self).pos + 1,
    {
        self.pos = self.pos + 1;
    }

    fn skip_whitespace(&mut self)
        requires
            old(self).wf(),
        ensures
            final(self).wf(),
            final(self).bytes == old(self).bytes,
            final(self).pos == skip_ws(old(self).bytes@, old(self).pos as int),
            final(self).pos >= old(self).pos,
    {
        while self.pos < self.bytes.len() && is_space_byte(self.bytes[self.pos])
            invariant
                self.wf(),
                self.bytes == old(self).bytes,
                self.pos >= old(self).pos,
                skip_ws(self.bytes@, self.pos as int) == skip_ws(
                    old(self).bytes@,
                    old(self).pos as int,
                ),
            decreases self.bytes@.len() - self.pos,
        {
            self.advance();
        }
    }

    fn error(&self, expected: Expected) -> (r: ParseError)
        ensures
            r.expected == expected,
            r.position == self.pos,
    {
        ParseError { expected, position: self.pos }
    }

    /// Consumes the byte `c` after optional whitespace.
    fn expect_char(&mut self, c: u8) -> (r: Result<(), ParseError>)
        requires
            old(self).wf(),
        ensures
            final(self).wf(),
            final(self).bytes == old(self).bytes,
            match token(old(self).bytes@, old(self).pos as int, c) {
                Ok(k) => r is Ok && final(self).pos == k,
                Err(e) => r matches Err(x) && x == e,
            },
            r is Ok ==> final(self).pos > old(self).pos,
    {
        self.skip_whitespace();
        match self.peek() {
            Some(b) => {
                if b == c {
                    self.advance();
                    Ok(())
                } else {
                    Err(self.error(Expected::Byte(c)))
                }
            },
            None => Err(self.error(Expected::Byte(c))),
        }
    }

    /// Consumes the byte `c` after optional whitespace if it is there, and
    /// nothing otherwise.
    fn try_char(&mut self, c: u8) -> (r: bool)
        requires
            old(self).wf(),
        ensures
            final(self).wf(),
            final(self).bytes == old(self).bytes,
            match token(old(self).bytes@, old(self).pos as int, c) {
                Ok(k) => r && final(self).pos == k,
                Err(_) => !r && final(self).pos == old(self).pos,
            },
            r ==> final(self).pos > old(self).pos,
    {
        let start = self.pos;
        match self.expect_char(c) {
            Ok(()) => true,
            Err(_) => {
                self.pos = start;
                false
            },
        }
    }

    /// Consumes `Derive(` after optional whitespace.
    fn expect_str(&mut self) -> (r: Result<(), ParseError>)
        requires
            old(self).wf(),
        ensures
            final(self).wf(),
            final(self).bytes == old(self).bytes,
            match header(old(self).bytes@, old(self).pos as int) {
                Ok(k) => r is Ok && final(self).pos == k,
                Err(e) => r matches Err(x) && x == e,
            },
    {
        self.skip_whitespace();
        let p = self.pos;
        if self.bytes.len() >= 7 && p <= self.bytes.len() - 7 && self.bytes[p] == 68u8 && self.bytes[p + 1] == 101u8
            && self.bytes[p + 2] == 114u8 && self.bytes[p + 3] == 105u8 && self.bytes[p + 4] == 118u8
            && self.bytes[p + 5] == 101u8 && self.bytes[p + 6] == 40u8 {
            assert(self.bytes@.subrange(p as int, p + 7) =~= header_bytes());
            self.pos = p + 7;
            Ok(())
        } else {
            proof {
                if p + 7 <= self.bytes@.len() && self.bytes@.subrange(p as int, p + 7)
                    == header_bytes() {
                    assert(self.bytes@[p + 6] == self.bytes@.subrange(p as int, p + 7)[6]);
                    assert(self.bytes@[p + 5] == self.bytes@.subrange(p as int, p + 7)[5]);
                    assert(self.bytes@[p + 4] == self.bytes@.subrange(p as int, p + 7)[4]);
                    assert(self.bytes@[p + 3] == self.bytes@.subrange(p as int, p + 7)[3]);
                    assert(self.bytes@[p + 2] == self.bytes@.subrange(p as int, p + 7)[2]);
                    assert(self.bytes@[p + 1] == self.bytes@.subrange(p as int, p + 7)[1]);
                    assert(self.bytes@[p as int] == self.bytes@.subrange(p as int, p + 7)[0]);
                }
            }
            Err(self.error(Expected::Header))
        }
    }

    /// Succeeds where only whitespace is left.
    fn expect_end(&mut self) -> (r: Result<(), ParseError>)
        requires
            old(self).wf(),
        ensures
            final(self).wf(),
            final(self).bytes == old(self).bytes,
            r is Ok <==> skip_ws(old(self).bytes@, old(self).pos as int) == old(self).bytes@.len(),
            r is Err ==> r == fail::<()>(
                Expected::EndOfInput,
                skip_ws(old(self).bytes@, old(self).pos as int),
            ),
    {
        self.skip_whitespace();
        if self.pos == self.bytes.len() {
            Ok(())
        } else {
            Err(self.error(Expected::EndOfInput))
        }
    }

    /// A string literal, decoded. Without a backslash the bytes between the
    /// quotes are copied at once; otherwise runs between escapes are copied
    /// and each escape is decoded on its own.
    fn parse_bytes(&mut self) -> (r: Result<Vec<u8>, ParseError>)
        requires
            old(self).wf(),
        ensures
            final(self).wf(),
            final(self).bytes == old(self).bytes,
            match string(old(self).bytes@, old(self).pos as int) {
                Ok((t, e)) => r matches Ok(v) && v@ == t && final(self).pos == e,
                Err(err) => r matches Err(x) && x == err,
            },
            r is Ok ==> final(self).pos > old(self).pos,
    {
        self.expect_char(QUOTE)?;
        let ghost s = self.bytes@;
        let start = self.pos;
        let len = self.bytes.len();
        match memchr::memchr(QUOTE, &self.bytes[start..len]) {
            None => {
                proof {
                    assert forall|k: int| start <= k < s.len() implies s[k] != QUOTE by {
                        assert(s[k] == s.subrange(start as int, len as int)[k - start]);
                    }
                    lemma_no_quote(s, start as int);
                }
                return Err(self.error(Expected::ClosingQuote));
            },
            Some(q) => {
                let body = &self.bytes[start..start + q];
                if memchr::memchr(BACKSLASH, body).is_none() {
                    proof {
                        assert forall|k: int| start <= k < start + q implies s[k] != QUOTE && s[k]
                            != 92 by {
                            assert(s[k] == s.subrange(start as int, len as int)[k - start]);
                            assert(s[k] == body@[k - start]);
                        }
                        assert(s[start + q] == s.subrange(start as int, len as int)[q as int]);
                        lemma_plain_run(s, start as int, start + q);
                    }
                    self.pos = start + q + 1;
                    let v = to_vec(body);
                    assert(v@ =~= s.subrange(start as int, start + q) + Seq::<u8>::empty());
                    return Ok(v);
                }
            },
        }
        let mut result: Vec<u8> = Vec::new();
        let mut cur = start;
        assert(result@ + s.subrange(0, 0) =~= result@);
        proof {
            if let Some((xs, e)) = string_body(s, start as int) {
                assert(Seq::<u8>::empty() + xs =~= xs);
            }
        }
        loop
            invariant
                self.bytes == old(self).bytes,
                self.bytes@ == s,
                self.wf(),
                len == s.len(),
                start <= cur <= len,
                self.pos == start,
                start > old(self).pos,
                token(s, old(self).pos as int, QUOTE) == Ok::<int, ParseError>(start as int),
                string_body(s, start as int) == prepend(result@, string_body(s, cur as int)),
            decreases len - cur,
        {
            let rest = &self.bytes[cur..len];
            match memchr::memchr2(QUOTE, BACKSLASH, rest) {
                None => {
                    proof {
                        assert forall|k: int| cur <= k < len implies s[k] != QUOTE && s[k] != BACKSLASH by {
                            assert(s[k] == rest@[k - cur]);
                        }
                        lemma_plain_run(s, cur as int, len as int);
                    }
                    return Err(self.error(Expected::ClosingQuote));
                },
                Some(k) => {
                    proof {
                        assert forall|j: int| cur <= j < cur + k implies s[j] != QUOTE && s[j]
                            != BACKSLASH by {
                            assert(s[j] == rest@[j - cur]);
                        }
                        lemma_plain_run(s, cur as int, cur + k);
                        lemma_prepend_concat(
                            result@,
                            s.subrange(cur as int, cur + k),
                            string_body(s, cur + k),
                        );
                        assert(s[cur + k] == rest@[k as int]);
                    }
                    append_bytes(&mut result, &self.bytes[cur..cur + k]);
                    cur = cur + k;
                    if self.bytes[cur] == QUOTE {
                        self.pos = cur + 1;
                        assert(result@ + Seq::<u8>::empty() =~= result@);
                        return Ok(result);
                    }
                    if cur + 1 >= len {
                        return Err(self.error(Expected::ClosingQuote));
                    }
                    proof {
                        lemma_prepend_push(
                            result@,
                            unescape(s[cur + 1]),
                            string_body(s, cur + 2),
                        );
                    }
                    result.push(unescape_byte(self.bytes[cur + 1]));
                    cur = cur + 2;
                },
            }
        }
    }

    /// A string literal, absent when empty, or nothing at all.
    fn parse_optional_bytes(&mut self) -> (r: Result<Option<Vec<u8>>, ParseError>)
        requires
            old(self).wf(),
        ensures
            final(self).wf(),
            final(self).bytes == old(self).bytes,
            match opt_string(old(self).bytes@, old(self).pos as int) {
                Ok((t, e)) => r matches Ok(v) && opt_view(v) == t && final(self).pos == e,
                Err(err) => r matches Err(x) && x == err,
            },
            r is Ok ==> final(self).pos >= old(self).pos,
    {
        let start = self.pos;
        self.skip_whitespace();
        match self.peek() {
            Some(b) => {
                if b == QUOTE {
                    self.pos = start;
                    let t = self.parse_bytes()?;
                    if t.len() == 0 {
                        Ok(None)
                    } else {
                        Ok(Some(t))
                    }
                } else {
                    Ok(None)
                }
            },
            None => Ok(None),
        }
    }

    /// `[` strings separated by commas `]`, in order.
    fn parse_bytes_list(&mut self) -> (r: Result<Vec<Vec<u8>>, ParseError>)
        requires
            old(self).wf(),
        ensures
            final(self).wf(),
            final(self).bytes == old(self).bytes,
            match list(old(self).bytes@, old(self).pos as int, string_item()) {
                Ok((xs, e)) => r matches Ok(v) && seqs_view(v@) == xs && final(self).pos == e,
                Err(err) => r matches Err(x) && x == err,
            },
            r is Ok ==> final(self).pos > old(self).pos,
    {
        self.expect_char(OPEN_BRACKET)?;
        let ghost s = self.bytes@;
        let ghost j = self.pos as int;
        let mut items: Vec<Vec<u8>> = Vec::new();
        if self.try_char(CLOSE_BRACKET) {
            return Ok(items);
        }
        proof {
            if let Ok((xs, e)) = list_rest(s, j, string_item()) {
                assert(seqs_view(items@) + xs =~= xs);
            }
        }
        loop
            invariant
                self.wf(),
                self.bytes == old(self).bytes,
                self.bytes@ == s,
                j <= self.pos,
                old(self).pos < j,
                list(s, old(self).pos as int, string_item()) == list_rest(s, j, string_item()),
                list_rest(s, j, string_item()) == prepend_items(
                    seqs_view(items@),
                    list_rest(s, self.pos as int, string_item()),
                ),
            decreases s.len() - self.pos,
        {
            let ghost i = self.pos as int;
            let x = self.parse_bytes()?;
            let ghost e = self.pos as int;
            let ghost before = seqs_view(items@);
            items.push(x);
            assert(seqs_view(items@) =~= before.push(x@));
            if self.try_char(COMMA) {
                proof {
                    lemma_prepend_items_push(before, x@, list_rest(s, self.pos as int, string_item()));
                }
            } else {
                self.expect_char(CLOSE_BRACKET)?;
                return Ok(items);
            }
        }
    }

    /// `[` strings separated by commas `]`, collected into a set.
    fn parse_bytes_set(&mut self) -> (r: Result<Vec<Vec<u8>>, ParseError>)
        requires
            old(self).wf(),
        ensures
            final(self).wf(),
            final(self).bytes == old(self).bytes,
            match list(old(self).bytes@, old(self).pos as int, string_item()) {
                Ok((xs, e)) => r matches Ok(v) && seqs_view(v@) == build_set(xs)
                    && final(self).pos == e,
                Err(err) => r matches Err(x) && x == err,
            },
            r matches Ok(v) ==> strictly_sorted(seqs_view(v@)),
            r is Ok ==> final(self).pos > old(self).pos,
    {
        self.expect_char(OPEN_BRACKET)?;
        let ghost s = self.bytes@;
        let ghost j = self.pos as int;
        let mut items: Vec<Vec<u8>> = Vec::new();
        if self.try_char(CLOSE_BRACKET) {
            return Ok(items);
        }
        let ghost mut acc: Seq<Seq<u8>> = Seq::empty();
        proof {
            if let Ok((xs, e)) = list_rest(s, j, string_item()) {
                assert(acc + xs =~= xs);
            }
        }
        loop
            invariant
                self.wf(),
                self.bytes == old(self).bytes,
                self.bytes@ == s,
                j <= self.pos,
                old(self).pos < j,
                list(s, old(self).pos as int, string_item()) == list_rest(s, j, string_item()),
                list_rest(s, j, string_item()) == prepend_items(
                    acc,
                    list_rest(s, self.pos as int, string_item()),
                ),
                seqs_view(items@) == build_set(acc),
                strictly_sorted(seqs_view(items@)),
            decreases s.len() - self.pos,
        {
            let x = self.parse_bytes()?;
            let ghost before = acc;
            let ghost xv = x@;
            insert_member(&mut items, x);
            proof {
                acc = acc.push(xv);
                assert(acc.drop_last() =~= before);
            }
            if self.try_char(COMMA) {
                proof {
                    lemma_prepend_items_push(before, xv, list_rest(s, self.pos as int, string_item()));
                }
            } else {
                self.expect_char(CLOSE_BRACKET)?;
                assert(before + seq![xv] =~= acc);
                return Ok(items);
            }
        }
    }

    /// `(name, path, hash algorithm, hash)`
    fn parse_output_entry(&mut self) -> (r: Result<(Vec<u8>, Output), ParseError>)
        requires
            old(self).wf(),
        ensures
            final(self).wf(),
            final(self).bytes == old(self).bytes,
            match output_entry(old(self).bytes@, old(self).pos as int) {
                Ok((x, e)) => r matches Ok(v) && (v.0@, v.1@) == x && final(self).pos == e,
                Err(err) => r matches Err(x) && x == err,
            },
            r is Ok ==> final(self).pos > old(self).pos,
    {
        self.expect_char(OPEN_PAREN)?;
        let name = self.parse_bytes()?;
        self.expect_char(COMMA)?;
        let path = self.parse_bytes()?;
        self.expect_char(COMMA)?;
        let hash_algorithm = self.parse_optional_bytes()?;
        self.expect_char(COMMA)?;
        let hash = self.parse_optional_bytes()?;
        self.expect_char(CLOSE_PAREN)?;
        Ok((name, Output { path, hash_algorithm, hash }))
    }

    /// `(path, [output names])`
    fn parse_input_entry(&mut self) -> (r: Result<(Vec<u8>, Vec<Vec<u8>>), ParseError>)
        requires
            old(self).wf(),
        ensures
            final(self).wf(),
            final(self).bytes == old(self).bytes,
            match input_entry(old(self).bytes@, old(self).pos as int) {
                Ok((x, e)) => r matches Ok(v) && (v.0@, seqs_view(v.1@)) == x && final(self).pos
                    == e,
                Err(err) => r matches Err(x) && x == err,
            },
            r is Ok ==> final(self).pos > old(self).pos,
    {
        self.expect_char(OPEN_PAREN)?;
        let path = self.parse_bytes()?;
        self.expect_char(COMMA)?;
        let outputs = self.parse_bytes_set()?;
        self.expect_char(CLOSE_PAREN)?;
        Ok((path, outputs))
    }

    /// `(name, value)`
    fn parse_env_entry(&mut self) -> (r: Result<(Vec<u8>, Vec<u8>), ParseError>)
        requires
            old(self).wf(),
        ensures
            final(self).wf(),
            final(self).bytes == old(self).bytes,
            match env_entry(old(self).bytes@, old(self).pos as int) {
                Ok((x, e)) => r matches Ok(v) && (v.0@, v.1@) == x && final(self).pos == e,
                Err(err) => r matches Err(x) && x == err,
            },
            r is Ok ==> final(self).pos > old(self).pos,
    {
        self.expect_char(OPEN_PAREN)?;
        let key = self.parse_bytes()?;
        self.expect_char(COMMA)?;
        let value = self.parse_bytes()?;
        self.expect_char(CLOSE_PAREN)?;
        Ok((key, value))
    }

    /// `[` output entries separated by commas `]`, collected into a map in which a
    /// later entry for a name replaces an earlier one.
    fn parse_outputs(&mut self) -> (r: Result<Vec<(Vec<u8>, Output)>, ParseError>)
        requires
            old(self).wf(),
        ensures
            final(self).wf(),
            final(self).bytes == old(self).bytes,
            match list(old(self).bytes@, old(self).pos as int, output_item()) {
                Ok((es, e)) => r matches Ok(m) && outputs_view(m@) == build_map(es)
                    && final(self).pos == e,
                Err(err) => r matches Err(x) && x == err,
            },
            r matches Ok(m) ==> strictly_sorted(keys_of(outputs_view(m@))),
            r is Ok ==> final(self).pos > old(self).pos,
    {
        self.expect_char(OPEN_BRACKET)?;
        let ghost s = self.bytes@;
        let ghost j = self.pos as int;
        let mut items: Vec<(Vec<u8>, Output)> = Vec::new();
        assert(keys_of(outputs_view(items@)) =~= Seq::<Seq<u8>>::empty());
        if self.try_char(CLOSE_BRACKET) {
            assert(outputs_view(items@) =~= build_map(Seq::<(Seq<u8>, OutputView)>::empty()));
            return Ok(items);
        }
        let ghost mut acc: Seq<(Seq<u8>, OutputView)> = Seq::empty();
        proof {
            if let Ok((xs, e)) = list_rest(s, j, output_item()) {
                assert(acc + xs =~= xs);
            }
            assert(outputs_view(items@) =~= build_map(acc));
        }
        loop
            invariant
                self.wf(),
                self.bytes == old(self).bytes,
                self.bytes@ == s,
                j <= self.pos,
                old(self).pos < j,
                list(s, old(self).pos as int, output_item()) == list_rest(s, j, output_item()),
                list_rest(s, j, output_item()) == prepend_items(
                    acc,
                    list_rest(s, self.pos as int, output_item()),
                ),
                outputs_view(items@) == build_map(acc),
                strictly_sorted(keys_of(outputs_view(items@))),
            decreases s.len() - self.pos,
        {
            let (k, v) = self.parse_output_entry()?;
            let ghost before = acc;
            let ghost xv = (k@, v@);
            let ghost vf: spec_fn(Output) -> OutputView = |x: Output| x@;
            assert(items@.map_values(|e: (Vec<u8>, Output)| e.0@) =~= keys_of(outputs_view(items@)));
            assert(items@.map_values(|e: (Vec<u8>, Output)| (e.0@, vf(e.1))) =~= outputs_view(items@));
            insert_entry::<Output, OutputView>(&mut items, k, v, Ghost(vf));
            assert(items@.map_values(|e: (Vec<u8>, Output)| e.0@) =~= keys_of(outputs_view(items@)));
            assert(items@.map_values(|e: (Vec<u8>, Output)| (e.0@, vf(e.1))) =~= outputs_view(items@));
            proof {
                acc = acc.push(xv);
                assert(acc.drop_last() =~= before);
            }
            if self.try_char(COMMA) {
                proof {
                    lemma_prepend_items_push(before, xv, list_rest(s, self.pos as int, output_item()));
                }
            } else {
                self.expect_char(CLOSE_BRACKET)?;
                assert(before + seq![xv] =~= acc);
                return Ok(items);
            }
        }
    }

    /// `[` input derivation entries separated by commas `]`, collected into a map in which a
    /// later entry for a name replaces an earlier one.
    fn parse_input_derivations(&mut self) -> (r: Result<Vec<(Vec<u8>, Vec<Vec<u8>>)>, ParseError>)
        requires
            old(self).wf(),
        ensures
            final(self).wf(),
            final(self).bytes == old(self).bytes,
            match list(old(self).bytes@, old(self).pos as int, input_item()) {
                Ok((es, e)) => r matches Ok(m) && inputs_view(m@) == build_map(es)
                    && final(self).pos == e,
                Err(err) => r matches Err(x) && x == err,
            },
            r matches Ok(m) ==> strictly_sorted(keys_of(inputs_view(m@))),
            r is Ok ==> final(self).pos > old(self).pos,
    {
        self.expect_char(OPEN_BRACKET)?;
        let ghost s = self.bytes@;
        let ghost j = self.pos as int;
        let mut items: Vec<(Vec<u8>, Vec<Vec<u8>>)> = Vec::new();
        assert(keys_of(inputs_view(items@)) =~= Seq::<Seq<u8>>::empty());
        if self.try_char(CLOSE_BRACKET) {
            assert(inputs_view(items@) =~= build_map(Seq::<(Seq<u8>, Seq<Seq<u8>>)>::empty()));
            return Ok(items);
        }
        let ghost mut acc: Seq<(Seq<u8>, Seq<Seq<u8>>)> = Seq::empty();
        proof {
            if let Ok((xs, e)) = list_rest(s, j, input_item()) {
                assert(acc + xs =~= xs);
            }
            assert(inputs_view(items@) =~= build_map(acc));
        }
        loop
            invariant
                self.wf(),
                self.bytes == old(self).bytes,
                self.bytes@ == s,
                j <= self.pos,
                old(self).pos < j,
                list(s, old(self).pos as int, input_item()) == list_rest(s, j, input_item()),
                list_rest(s, j, input_item()) == prepend_items(
                    acc,
                    list_rest(s, self.pos as int, input_item()),
                ),
                inputs_view(items@) == build_map(acc),
                strictly_sorted(keys_of(inputs_view(items@))),
            decreases s.len() - self.pos,
        {
            let (k, v) = self.parse_input_entry()?;
            let ghost before = acc;
            let ghost xv = (k@, seqs_view(v@));
            let ghost vf: spec_fn(Vec<Vec<u8>>) -> Seq<Seq<u8>> = |x: Vec<Vec<u8>>| seqs_view(x@);
            assert(items@.map_values(|e: (Vec<u8>, Vec<Vec<u8>>)| e.0@) =~= keys_of(inputs_view(items@)));
            assert(items@.map_values(|e: (Vec<u8>, Vec<Vec<u8>>)| (e.0@, vf(e.1))) =~= inputs_view(items@));
            insert_entry::<Vec<Vec<u8>>, Seq<Seq<u8>>>(&mut items, k, v, Ghost(vf));
            assert(items@.map_values(|e: (Vec<u8>, Vec<Vec<u8>>)| e.0@) =~= keys_of(inputs_view(items@)));
            assert(items@.map_values(|e: (Vec<u8>, Vec<Vec<u8>>)| (e.0@, vf(e.1))) =~= inputs_view(items@));
            proof {
                acc = acc.push(xv);
                assert(acc.drop_last() =~= before);
            }
            if self.try_char(COMMA) {
                proof {
                    lemma_prepend_items_push(before, xv, list_rest(s, self.pos as int, input_item()));
                }
            } else {
                self.expect_char(CLOSE_BRACKET)?;
                assert(before + seq![xv] =~= acc);
                return Ok(items);
            }
        }
    }

    /// `[` environment entries separated by commas `]`, collected into a map in which a
    /// later entry for a name replaces an earlier one.
    fn parse_environment(&mut self) -> (r: Result<Vec<(Vec<u8>, Vec<u8>)>, ParseError>)
        requires
            old(self).wf(),
        ensures
            final(self).wf(),
            final(self).bytes == old(self).bytes,
            match list(old(self).bytes@, old(self).pos as int, env_item()) {
                Ok((es, e)) => r matches Ok(m) && env_view(m@) == build_map(es)
                    && final(self).pos == e,
                Err(err) => r matches Err(x) && x == err,
            },
            r matches Ok(m) ==> strictly_sorted(keys_of(env_view(m@))),
            r is Ok ==> final(self).pos > old(self).pos,
    {
        self.expect_char(OPEN_BRACKET)?;
        let ghost s = self.bytes@;
        let ghost j = self.pos as int;
        let mut items: Vec<(Vec<u8>, Vec<u8>)> = Vec::new();
        assert(keys_of(env_view(items@)) =~= Seq::<Seq<u8>>::empty());
        if self.try_char(CLOSE_BRACKET) {
            assert(env_view(items@) =~= build_map(Seq::<(Seq<u8>, Seq<u8>)>::empty()));
            return Ok(items);
        }
        let ghost mut acc: Seq<(Seq<u8>, Seq<u8>)> = Seq::empty();
        proof {
            if let Ok((xs, e)) = list_rest(s, j, env_item()) {
                assert(acc + xs =~= xs);
            }
            assert(env_view(items@) =~= build_map(acc));
        }
        loop
            invariant
                self.wf(),
                self.bytes == old(self).bytes,
                self.bytes@ == s,
                j <= self.pos,
                old(self).pos < j,
                list(s, old(self).pos as int, env_item()) == list_rest(s, j, env_item()),
                list_rest(s, j, env_item()) == prepend_items(
                    acc,
                    list_rest(s, self.pos as int, env_item()),
                ),
                env_view(items@) == build_map(acc),
                strictly_sorted(keys_of(env_view(items@))),
            decreases s.len() - self.pos,
        {
            let (k, v) = self.parse_env_entry()?;
            let ghost before = acc;
            let ghost xv = (k@, v@);
            let ghost vf: spec_fn(Vec<u8>) -> Seq<u8> = |x: Vec<u8>| x@;
            assert(items@.map_values(|e: (Vec<u8>, Vec<u8>)| e.0@) =~= keys_of(env_view(items@)));
            assert(items@.map_values(|e: (Vec<u8>, Vec<u8>)| (e.0@, vf(e.1))) =~= env_view(items@));
            insert_entry::<Vec<u8>, Seq<u8>>(&mut items, k, v, Ghost(vf));
            assert(items@.map_values(|e: (Vec<u8>, Vec<u8>)| e.0@) =~= keys_of(env_view(items@)));
            assert(items@.map_values(|e: (Vec<u8>, Vec<u8>)| (e.0@, vf(e.1))) =~= env_view(items@));
            proof {
                acc = acc.push(xv);
                assert(acc.drop_last() =~= before);
            }
            if self.try_char(COMMA) {
                proof {
                    lemma_prepend_items_push(before, xv, list_rest(s, self.pos as int, env_item()));
                }
            } else {
                self.expect_char(CLOSE_BRACKET)?;
                assert(before + seq![xv] =~= acc);
                return Ok(items);
            }
        }
    }

    /// `Derive(outputs, input derivations, input sources, platform, builder,
    /// args, env)` and nothing after it but whitespace.
    fn parse_derivation(&mut self) -> (r: Result<Derivation, ParseError>)
        requires
            old(self).wf(),
            old(self).pos == 0,
        ensures
            match derivation(old(self).bytes@) {
                Ok(d) => r matches Ok(v) && v@ == d,
                Err(e) => r matches Err(x) && x == e,
            },
            r matches Ok(v) ==> v@.wf(),
    {
        self.expect_str()?;
        let outputs = self.parse_outputs()?;
        self.expect_char(COMMA)?;
        let input_derivations = self.parse_input_derivations()?;
        self.expect_char(COMMA)?;
        let input_sources = self.parse_input_sources()?;
        self.expect_char(COMMA)?;
        let platform = self.parse_bytes()?;
        self.expect_char(COMMA)?;
        let builder = self.parse_bytes()?;
        self.expect_char(COMMA)?;
        let args = self.parse_bytes_list()?;
        self.expect_char(COMMA)?;
        let env = self.parse_environment()?;
        self.expect_char(CLOSE_PAREN)?;
        self.expect_end()?;
        Ok(Derivation { outputs, input_sources, input_derivations, platform, builder, args, env })
    }

    fn parse_input_sources(&mut self) -> (r: Result<Vec<Vec<u8>>, ParseError>)
        requires
            old(self).wf(),
        ensures
            final(self).wf(),
            final(self).bytes == old(self).bytes,
            match list(old(self).bytes@, old(self).pos as int, string_item()) {
                Ok((xs, e)) => r matches Ok(v) && seqs_view(v@) == build_set(xs)
                    && final(self).pos == e,
                Err(err) => r matches Err(x) && x == err,
            },
            r matches Ok(v) ==> strictly_sorted(seqs_view(v@)),
            r is Ok ==> final(self).pos > old(self).pos,
    {
        self.parse_bytes_set()
    }
}

fn is_space_byte(b: u8) -> (r: bool)
    ensures
        r == is_space(b),
{
    b == 32u8 || (9u8 <= b && b <= 13u8)
}

/// Parses a derivation from its textual encoding, given as raw bytes. The
/// input must match the format exactly; whitespace may stand between tokens.
pub fn parse_derivation_bytes(input: &[u8]) -> (r: Result<Derivation, ParseError>)
    ensures
        match derivation(input@) {
            Ok(d) => r matches Ok(v) && v@ == d,
            Err(e) => r matches Err(x) && x == e,
        },
        r matches Ok(v) ==> v@.wf(),
{
    let mut parser = Parser::new(input);
    parser.parse_derivation()
}

/// Parses a derivation from its textual encoding.
pub fn parse_derivation_string(input: &str) -> (r: Result<Derivation, ParseError>)
    ensures
        match derivation(input.spec_bytes()) {
            Ok(d) => r matches Ok(v) && v@ == d,
            Err(e) => r matches Err(x) && x == e,
        },
        r matches Ok(v) ==> v@.wf(),
{
    parse_derivation_bytes(input.as_bytes())
}

} // verus!
