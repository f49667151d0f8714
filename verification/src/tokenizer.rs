use vstd::prelude::*;

use crate::numbers::is_digit;
use crate::text::{
    chars_of, copy_range, find_pair, find_pair_start, has_prefix, lead_len, lead_white_len,
    lemma_lead_len_bound, lemma_lead_len_skip, lines, other_than,
    split_lines, starts_with, string_of, trim, trim_chars, trim_start, views, white, append_chars,
    lemma_find_pair_skip, pair_at,
};

verus! {

/// The kinds of Jack tokens; `NoToken` before the first token.
#[derive(PartialEq, Eq, Structural, Debug, Clone, Copy, Hash)]
pub enum TokenType {
    Keyword,
    Symbol,
    Identifier,
    IntConstant,
    StringConst,
    NoToken,
}

/// Why `advance` found no token.
#[derive(PartialEq, Eq, Structural, Debug, Clone, Copy)]
pub enum TokenizeError {
    /// The text was used up.
    NoMoreTokens,
    /// A string constant had no closing quote.
    InvalidStringConstant,
    /// The text did not start with a token of any kind.
    UnknownToken,
}

impl TokenizeError {
    /// The text that reports the error, as characters.
    pub open spec fn report(&self) -> Seq<char> {
        match *self {
            TokenizeError::NoMoreTokens => "No more tokens available"@,
            TokenizeError::InvalidStringConstant => "Parse failed, invalid String constant token"@,
            TokenizeError::UnknownToken => "Parse failed, token did not match any of the defined token types"@,
        }
    }

    /// The text that reports the error.
    pub fn message(&self) -> (m: &'static str)
        ensures
            m@ == self.report(),
    {
        match self {
            TokenizeError::NoMoreTokens => "No more tokens available",
            TokenizeError::InvalidStringConstant => "Parse failed, invalid String constant token",
            TokenizeError::UnknownToken => "Parse failed, token did not match any of the defined token types",
        }
    }
}

/// Whether `c` has the Unicode `Alphabetic` property (`char::is_alphabetic`).
pub uninterp spec fn alphabetic(c: char) -> bool;

/// Whether `c` is an ASCII letter.
pub open spec fn ascii_letter(c: char) -> bool {
    ('a' <= c && c <= 'z') || ('A' <= c && c <= 'Z')
}

/// Whether `c` is a letter, as `char::is_alphabetic` decides: among ASCII
/// characters the letters, beyond them the Unicode `Alphabetic` property.
pub open spec fn letter(c: char) -> bool {
    if (c as u32) <= 0x7f {
        ascii_letter(c)
    } else {
        alphabetic(c)
    }
}

/// `char::is_alphabetic`: whether `c` has the Unicode `Alphabetic`
/// property. The contract names the result, and states the one fact that
/// the Unicode tables give of ASCII: its alphabetic characters are exactly
/// the letters `A`..`Z` and `a`..`z`. Nothing more is said of the rest of
/// Unicode.
#[verifier::external_body]
fn is_alphabetic(c: char) -> (b: bool)
    ensures
        b == alphabetic(c),
        (c as u32) <= 0x7f ==> (b <==> ascii_letter(c)),
{
    c.is_alphabetic()
}

/// Jack text without its comments: `//` up to the end of the line (the
/// newline stays) and `/* ... */` (an unclosed one runs to the end).
pub open spec fn strip_comments(s: Seq<char>) -> Seq<char>
    decreases s.len(),
{
    if s.len() == 0 {
        seq![]
    } else if s.len() >= 2 && s[0] == '/' && s[1] == '/' {
        let k = lead_len(s, other_than('\n'));
        if 0 < k <= s.len() {
            strip_comments(s.skip(k as int))
        } else {
            seq![]
        }
    } else if s.len() >= 2 && s[0] == '/' && s[1] == '*' {
        match find_pair(s.skip(2), '*', '/') {
            Some(k) => if 0 <= k && k + 4 <= s.len() {
                strip_comments(s.skip(k + 4))
            } else {
                seq![]
            },
            None => seq![],
        }
    } else {
        seq![s[0]] + strip_comments(s.drop_first())
    }
}

/// Text with no `/` has no comment: stripping comments keeps it whole.
pub proof fn lemma_strip_no_slash(s: Seq<char>)
    requires
        !s.contains('/'),
    ensures
        strip_comments(s) == s,
    decreases s.len(),
{
    if s.len() > 0 {
        assert(s[0] != '/');
        let t = s.drop_first();
        assert(!t.contains('/')) by {
            if t.contains('/') {
                let j = choose|j: int| 0 <= j < t.len() && t[j] == '/';
                assert(s[j + 1] == '/');
            }
        }
        lemma_strip_no_slash(t);
        assert(s =~= seq![s[0]] + t);
    }
}

/// A `//` comment runs to the end of its line: it goes, the newline that
/// ends it stays.
pub proof fn lemma_strip_line_comment(x: Seq<char>, rest: Seq<char>)
    requires
        !x.contains('\n'),
    ensures
        strip_comments(seq!['/', '/'] + x + seq!['\n'] + rest) == seq!['\n'] + strip_comments(rest),
{
    let s = seq!['/', '/'] + x + seq!['\n'] + rest;
    let k: int = x.len() as int + 2;
    assert forall|j: int| 0 <= j < k implies (other_than('\n'))(#[trigger] s[j]) by {
        if j >= 2 {
            assert(s[j] == x[j - 2]);
        }
    }
    lemma_lead_len_skip(s, other_than('\n'), k);
    assert(s.skip(k)[0] == '\n');
    assert(lead_len(s.skip(k), other_than('\n')) == 0);
    assert(s.skip(k) =~= seq!['\n'] + rest);
    let u = seq!['\n'] + rest;
    assert(u.drop_first() =~= rest);
    assert(u[0] == '\n');
    assert(strip_comments(u) == seq![u[0]] + strip_comments(u.drop_first()));
    assert(s[0] == '/' && s[1] == '/');
    assert(lead_len(s, other_than('\n')) == k);
    assert(strip_comments(s) == strip_comments(s.skip(k)));
}

/// A `/* ... */` comment goes whole, up to the first `*/` after its
/// opening.
pub proof fn lemma_strip_block_comment(x: Seq<char>, rest: Seq<char>)
    requires
        forall|j: int| 0 <= j < x.len() - 1 ==> !(#[trigger] x[j] == '*' && x[j + 1] == '/'),
    ensures
        strip_comments(seq!['/', '*'] + x + seq!['*', '/'] + rest) == strip_comments(rest),
{
    let s = seq!['/', '*'] + x + seq!['*', '/'] + rest;
    let t = s.skip(2);
    assert(t =~= x + seq!['*', '/'] + rest);
    assert forall|j: int| 0 <= j < x.len() implies !pair_at(t, '*', '/', j) by {
        if j < x.len() - 1 {
            assert(t[j] == x[j] && t[j + 1] == x[j + 1]);
        } else {
            assert(t[j + 1] == '*');
        }
    }
    lemma_find_pair_skip(t, '*', '/', x.len() as int);
    assert(t.skip(x.len() as int) =~= seq!['*', '/'] + rest);
    assert(find_pair(t.skip(x.len() as int), '*', '/') == Some(0int));
    assert(s.skip(x.len() as int + 4) =~= rest);
}

/// The lines `ls`, each trimmed, written one after the other.
pub open spec fn concat_trimmed(ls: Seq<Seq<char>>) -> Seq<char>
    decreases ls.len(),
{
    if ls.len() == 0 {
        seq![]
    } else {
        concat_trimmed(ls.drop_last()) + trim(ls.last())
    }
}

/// Jack source as the tokenizer reads it: without comments, each line
/// trimmed, and the lines joined with nothing between them.
pub open spec fn clean_jack(s: Seq<char>) -> Seq<char> {
    concat_trimmed(lines(strip_comments(s)))
}

/// Jack text without its comments.
pub fn strip_jack_comments(v: &[char]) -> (r: Vec<char>)
    ensures
        r@ == strip_comments(v@),
{
    let n = v.len();
    let mut out: Vec<char> = Vec::new();
    let mut i: usize = 0;
    assert(v@.skip(0) == v@);
    while i < n
        invariant
            i <= n,
            n == v.len(),
            strip_comments(v@) == out@ + strip_comments(v@.skip(i as int)),
        decreases n - i,
    {
        let ghost t = v@.skip(i as int);
        assert(t.len() > 0 && t[0] == v@[i as int]);
        if i + 1 < n && v[i] == '/' && v[i + 1] == '/' {
            assert(t[1] == v@[i + 1]);
            let mut j: usize = i;
            while j < n && v[j] != '\n'
                invariant
                    i <= j <= n,
                    n == v.len(),
                    t == v@.skip(i as int),
                    forall|x: int| 0 <= x < j - i ==> other_than('\n')(#[trigger] t[x]),
                decreases n - j,
            {
                assert(t[j - i] == v@[j as int]);
                j = j + 1;
            }
            proof {
                lemma_lead_len_skip(t, other_than('\n'), j - i);
                if j < n {
                    assert(t.skip(j - i)[0] == v@[j as int]);
                }
                assert(lead_len(t.skip(j - i), other_than('\n')) == 0);
                assert(t.skip(j - i) == v@.skip(j as int));
            }
            i = j;
        } else if i + 1 < n && v[i] == '/' && v[i + 1] == '*' {
            assert(t[1] == v@[i + 1]);
            let rest = copy_range(v, i + 2, n);
            assert(rest@ == t.skip(2));
            match find_pair_start(rest.as_slice(), '*', '/') {
                Some(k) => {
                    assert(t.skip(k + 4) == v@.skip(i + k + 4));
                    i = i + k + 4;
                },
                None => {
                    assert(v@.skip(n as int).len() == 0);
                    i = n;
                },
            }
        } else {
            out.push(v[i]);
            assert(t.drop_first() == v@.skip(i + 1));
            i = i + 1;
        }
    }
    assert(v@.skip(n as int).len() == 0);
    out
}

/// Jack source as the tokenizer reads it: without comments, each line
/// trimmed, and the lines joined with nothing between them.
pub fn clean_jack_code(contents: String) -> (r: String)
    ensures
        r@ == clean_jack(contents@),
{
    let v = chars_of(contents.as_str());
    let stripped = strip_jack_comments(v.as_slice());
    let ls = split_lines(stripped.as_slice());
    let ghost lv = views(ls@);
    let mut out: Vec<char> = Vec::new();
    let mut i: usize = 0;
    assert(lv.take(0) =~= Seq::<Seq<char>>::empty());
    while i < ls.len()
        invariant
            i <= ls@.len(),
            lv == views(ls@),
            out@ == concat_trimmed(lv.take(i as int)),
        decreases ls.len() - i,
    {
        assert(lv.take(i + 1).drop_last() == lv.take(i as int));
        assert(lv.take(i + 1).last() == ls@[i as int]@);
        let t = trim_chars(ls[i].as_slice());
        append_chars(&mut out, t.as_slice());
        i = i + 1;
    }
    assert(lv.take(ls.len() as int) == lv);
    string_of(out.as_slice())
}

/// The keywords of Jack, in the order in which they are tried.
pub open spec fn jack_keywords() -> Seq<Seq<char>> {
    seq![
        seq!['c', 'l', 'a', 's', 's'],
        seq!['c', 'o', 'n', 's', 't', 'r', 'u', 'c', 't', 'o', 'r'],
        seq!['f', 'u', 'n', 'c', 't', 'i', 'o', 'n'],
        seq!['m', 'e', 't', 'h', 'o', 'd'],
        seq!['f', 'i', 'e', 'l', 'd'],
        seq!['s', 't', 'a', 't', 'i', 'c'],
        seq!['v', 'a', 'r'],
        seq!['i', 'n', 't'],
        seq!['c', 'h', 'a', 'r'],
        seq!['b', 'o', 'o', 'l', 'e', 'a', 'n'],
        seq!['v', 'o', 'i', 'd'],
        seq!['t', 'r', 'u', 'e'],
        seq!['f', 'a', 'l', 's', 'e'],
        seq!['n', 'u', 'l', 'l'],
        seq!['t', 'h', 'i', 's'],
        seq!['l', 'e', 't'],
        seq!['d', 'o'],
        seq!['i', 'f'],
        seq!['e', 'l', 's', 'e'],
        seq!['w', 'h', 'i', 'l', 'e'],
        seq!['r', 'e', 't', 'u', 'r', 'n'],
    ]
}

/// The symbols of Jack.
pub open spec fn jack_symbols() -> Seq<char> {
    seq!['{', '}', '(', ')', '[', ']', '.', ',', ';', '+', '-', '*', '/', '&', '|', '<', '>', '=', '~']
}

/// Whether `c` starts with the keyword `k` followed by a space, `;` or `)`.
pub open spec fn keyword_at(c: Seq<char>, k: Seq<char>) -> bool {
    ||| starts_with(c, k.push(' '))
    ||| starts_with(c, k.push(';'))
    ||| starts_with(c, k.push(')'))
}

/// The first of the keywords `ks` with which `c` starts.
pub open spec fn first_keyword(c: Seq<char>, ks: Seq<Seq<char>>) -> Option<Seq<char>>
    decreases ks.len(),
{
    if ks.len() == 0 {
        None
    } else if keyword_at(c, ks[0]) {
        Some(ks[0])
    } else {
        first_keyword(c, ks.drop_first())
    }
}

/// The predicate of ASCII digits, as a value.
pub open spec fn digit() -> spec_fn(char) -> bool {
    |c: char| is_digit(c)
}

/// The characters that may continue an identifier.
pub open spec fn ident_char() -> spec_fn(char) -> bool {
    |c: char| letter(c) || c == '_' || is_digit(c)
}

/// The token at the start of `c` (which starts with no white space): its
/// text, its kind, and the text that stands for it in `c`.
pub open spec fn scan(c: Seq<char>) -> Option<(Seq<char>, TokenType, Seq<char>)> {
    match first_keyword(c, jack_keywords()) {
        Some(k) => Some((k, TokenType::Keyword, k)),
        None => if c.len() > 0 && jack_symbols().contains(c[0]) {
            Some((seq![c[0]], TokenType::Symbol, seq![c[0]]))
        } else if c.len() > 0 && is_digit(c[0]) {
            let d = c.take(lead_len(c, digit()) as int);
            Some((d, TokenType::IntConstant, d))
        } else if c.len() > 0 && c[0] == '"' {
            let k = lead_len(c.drop_first(), other_than('"'));
            if k < c.len() - 1 {
                let t = c.subrange(1, k as int + 1);
                Some((t, TokenType::StringConst, seq!['"'] + t + seq!['"']))
            } else {
                None
            }
        } else if c.len() > 0 && (letter(c[0]) || c[0] == '_') {
            let w = c.take(lead_len(c, ident_char()) as int);
            Some((w, TokenType::Identifier, w))
        } else {
            None
        },
    }
}

/// Why no token starts `c`.
pub open spec fn scan_error(c: Seq<char>) -> TokenizeError {
    if c.len() > 0 && c[0] == '"' {
        TokenizeError::InvalidStringConstant
    } else {
        TokenizeError::UnknownToken
    }
}

/// `str::trim_start_matches`: `s` without all the copies of `p` at its
/// front.
pub open spec fn strip_all(s: Seq<char>, p: Seq<char>) -> Seq<char>
    decreases s.len(),
{
    if p.len() > 0 && starts_with(s, p) {
        strip_all(s.skip(p.len() as int), p)
    } else {
        s
    }
}

/// Whether the UTF-8 encoding of `t` is one byte long.
pub open spec fn is_one_byte(t: Seq<char>) -> bool {
    vstd::utf8::encode_utf8(t).len() == 1
}

/// A text is one byte long in UTF-8 when it is one ASCII character.
pub proof fn lemma_one_byte(t: Seq<char>)
    ensures
        is_one_byte(t) <==> (t.len() == 1 && (t[0] as u32) <= 0x7f),
{
    if t.len() > 0 {
        let rest = t.drop_first();
        let first = vstd::utf8::encode_scalar(t[0] as u32);
        assert(vstd::utf8::encode_utf8(t) == first + vstd::utf8::encode_utf8(rest));
        assert(first.len() >= 1);
        assert(first.len() == 1 <==> (t[0] as u32) <= 0x7f);
        if rest.len() > 0 {
            let second = vstd::utf8::encode_scalar(rest[0] as u32);
            assert(vstd::utf8::encode_utf8(rest) == second + vstd::utf8::encode_utf8(
                rest.drop_first(),
            ));
            assert(vstd::utf8::encode_utf8(rest).len() >= 1);
        } else {
            assert(vstd::utf8::encode_utf8(rest).len() == 0);
        }
    }
}

/// The text after the token `token`, which `pattern` stands for at the
/// start of `c`: one copy of `pattern` goes when the token is one byte
/// long, every copy at the front otherwise.
pub open spec fn consume(c: Seq<char>, token: Seq<char>, pattern: Seq<char>) -> Seq<char> {
    if is_one_byte(token) {
        c.skip(pattern.len() as int)
    } else {
        strip_all(c, pattern)
    }
}

/// The list of Jack keywords.
fn keyword_list() -> (v: Vec<Vec<char>>)
    ensures
        views(v@) == jack_keywords(),
{
    let mut v: Vec<Vec<char>> = Vec::new();
    v.push(vec!['c', 'l', 'a', 's', 's']);
    v.push(vec!['c', 'o', 'n', 's', 't', 'r', 'u', 'c', 't', 'o', 'r']);
    v.push(vec!['f', 'u', 'n', 'c', 't', 'i', 'o', 'n']);
    v.push(vec!['m', 'e', 't', 'h', 'o', 'd']);
    v.push(vec!['f', 'i', 'e', 'l', 'd']);
    v.push(vec!['s', 't', 'a', 't', 'i', 'c']);
    v.push(vec!['v', 'a', 'r']);
    v.push(vec!['i', 'n', 't']);
    v.push(vec!['c', 'h', 'a', 'r']);
    v.push(vec!['b', 'o', 'o', 'l', 'e', 'a', 'n']);
    v.push(vec!['v', 'o', 'i', 'd']);
    v.push(vec!['t', 'r', 'u', 'e']);
    v.push(vec!['f', 'a', 'l', 's', 'e']);
    v.push(vec!['n', 'u', 'l', 'l']);
    v.push(vec!['t', 'h', 'i', 's']);
    v.push(vec!['l', 'e', 't']);
    v.push(vec!['d', 'o']);
    v.push(vec!['i', 'f']);
    v.push(vec!['e', 'l', 's', 'e']);
    v.push(vec!['w', 'h', 'i', 'l', 'e']);
    v.push(vec!['r', 'e', 't', 'u', 'r', 'n']);
    assert(views(v@) =~= jack_keywords());
    v
}

/// Whether `c` is a Jack symbol.
fn is_symbol(c: char) -> (b: bool)
    ensures
        b == jack_symbols().contains(c),
{
    let b = c == '{' || c == '}' || c == '(' || c == ')' || c == '[' || c == ']' || c == '.' || c == ',' || c == ';' || c == '+' || c == '-' || c == '*' || c == '/' || c == '&' || c == '|' || c == '<' || c == '>' || c == '=' || c == '~';
    proof {
        if b {
            let i = choose|i: int| 0 <= i < jack_symbols().len() && jack_symbols()[i] == c;
        } else {
            assert forall|i: int| 0 <= i < jack_symbols().len() implies jack_symbols()[i] != c by {}
        }
    }
    b
}


/// Keywords that the text does not start with can be skipped in the search.
pub proof fn lemma_first_keyword_skip(c: Seq<char>, ks: Seq<Seq<char>>, i: int)
    requires
        0 <= i <= ks.len(),
        forall|j: int| 0 <= j < i ==> !keyword_at(c, #[trigger] ks[j]),
    ensures
        first_keyword(c, ks) == first_keyword(c, ks.skip(i)),
    decreases i,
{
    if i == 0 {
        assert(ks.skip(0) == ks);
    } else {
        assert(!keyword_at(c, ks[0]));
        let t = ks.drop_first();
        assert forall|j: int| 0 <= j < i - 1 implies !keyword_at(c, #[trigger] t[j]) by {
            assert(t[j] == ks[j + 1]);
        }
        lemma_first_keyword_skip(c, t, i - 1);
        assert(t.skip(i - 1) == ks.skip(i));
    }
}

/// Whether `c` starts with the keyword `k` and a space, `;` or `)`.
fn keyword_here(c: &[char], k: &[char]) -> (b: bool)
    ensures
        b == keyword_at(c@, k@),
{
    let n = k.len();
    let b = has_prefix(c, k) && c.len() > n && (c[n] == ' ' || c[n] == ';' || c[n] == ')');
    proof {
        let d = [' ', ';', ')'];
        assert forall|x: char| #[trigger] starts_with(c@, k@.push(x)) == (starts_with(c@, k@)
            && c@.len() > n && c@[n as int] == x) by {
            if starts_with(c@, k@.push(x)) {
                assert(c@.take(n as int) == c@.take(n + 1).take(n as int));
                assert(k@.push(x).take(n as int) == k@);
                assert(c@.take(n + 1)[n as int] == x);
            }
            if starts_with(c@, k@) && c@.len() > n && c@[n as int] == x {
                assert(c@.take(n + 1) =~= k@.push(x));
            }
        }
    }
    b
}

/// Whether `c` is an ASCII digit.
fn is_ascii_digit(c: char) -> (b: bool)
    ensures
        b == is_digit(c),
{
    '0' <= c && c <= '9'
}

/// The token at the start of `c`: its text, its kind, and the text that
/// stands for it.
fn scan_token(c: &[char]) -> (r: Result<(Vec<char>, TokenType, Vec<char>), TokenizeError>)
    ensures
        match scan(c@) {
            Some((t, ty, p)) => r matches Ok((t2, ty2, p2)) && t2@ == t && ty2 == ty && p2@ == p,
            None => r == Err::<(Vec<char>, TokenType, Vec<char>), TokenizeError>(scan_error(c@)),
        },
{
    let kws = keyword_list();
    let ghost kv = views(kws@);
    let mut i: usize = 0;
    while i < kws.len()
        invariant
            i <= kws@.len(),
            kv == views(kws@),
            kv == jack_keywords(),
            forall|j: int| 0 <= j < i ==> !keyword_at(c@, #[trigger] kv[j]),
        decreases kws.len() - i,
    {
        assert(kv[i as int] == kws@[i as int]@);
        if keyword_here(c, kws[i].as_slice()) {
            proof {
                lemma_first_keyword_skip(c@, kv, i as int);
                assert(kv.skip(i as int)[0] == kv[i as int]);
            }
            let k = copy_range(kws[i].as_slice(), 0, kws[i].len());
            let p = copy_range(kws[i].as_slice(), 0, kws[i].len());
            return Ok((k, TokenType::Keyword, p));
        }
        i = i + 1;
    }
    proof {
        lemma_first_keyword_skip(c@, kv, i as int);
        assert(kv.skip(i as int).len() == 0);
    }
    let n = c.len();
    if n > 0 && is_symbol(c[0]) {
        let t = vec![c[0]];
        let p = vec![c[0]];
        assert(t@ == seq![c@[0]]);
        assert(p@ == seq![c@[0]]);
        return Ok((t, TokenType::Symbol, p));
    }
    if n > 0 && is_ascii_digit(c[0]) {
        let mut j: usize = 0;
        while j < n && is_ascii_digit(c[j])
            invariant
                j <= n,
                n == c.len(),
                forall|x: int| 0 <= x < j ==> digit()(#[trigger] c@[x]),
            decreases n - j,
        {
            j = j + 1;
        }
        proof {
            lemma_lead_len_skip(c@, digit(), j as int);
            if j < n {
                assert(c@.skip(j as int)[0] == c@[j as int]);
            }
            assert(lead_len(c@.skip(j as int), digit()) == 0);
        }
        let t = copy_range(c, 0, j);
        let p = copy_range(c, 0, j);
        return Ok((t, TokenType::IntConstant, p));
    }
    if n > 0 && c[0] == '"' {
        let rest = copy_range(c, 1, n);
        assert(rest@ == c@.drop_first());
        match crate::text::find_char(rest.as_slice(), '"') {
            Some(k) => {
                let t = copy_range(c, 1, k + 1);
                let mut p: Vec<char> = Vec::new();
                p.push('"');
                append_chars(&mut p, t.as_slice());
                p.push('"');
                assert(p@ =~= seq!['"'] + t@ + seq!['"']);
                return Ok((t, TokenType::StringConst, p));
            },
            None => {
                return Err(TokenizeError::InvalidStringConstant);
            },
        }
    }
    if n > 0 && (is_alphabetic(c[0]) || c[0] == '_') {
        let mut j: usize = 0;
        while j < n && (is_alphabetic(c[j]) || c[j] == '_' || is_ascii_digit(c[j]))
            invariant
                j <= n,
                n == c.len(),
                forall|x: int| 0 <= x < j ==> ident_char()(#[trigger] c@[x]),
            decreases n - j,
        {
            j = j + 1;
        }
        proof {
            lemma_lead_len_skip(c@, ident_char(), j as int);
            if j < n {
                assert(c@.skip(j as int)[0] == c@[j as int]);
            }
            assert(lead_len(c@.skip(j as int), ident_char()) == 0);
        }
        let t = copy_range(c, 0, j);
        let p = copy_range(c, 0, j);
        return Ok((t, TokenType::Identifier, p));
    }
    Err(TokenizeError::UnknownToken)
}

/// `s` without all the copies of `p` at its front.
fn strip_all_exec(s: &[char], p: &[char]) -> (r: Vec<char>)
    ensures
        r@ == strip_all(s@, p@),
{
    let n = s.len();
    let mut i: usize = 0;
    assert(s@.skip(0) == s@);
    if p.len() == 0 {
        return copy_range(s, 0, n);
    }
    loop
        invariant
            i <= n,
            n == s.len(),
            p@.len() > 0,
            strip_all(s@, p@) == strip_all(s@.skip(i as int), p@),
        decreases n - i,
    {
        let rest = copy_range(s, i, n);
        assert(rest@ == s@.skip(i as int));
        if !has_prefix(rest.as_slice(), p) {
            return rest;
        }
        assert(s@.skip(i as int).skip(p@.len() as int) == s@.skip(i + p@.len()));
        i = i + p.len();
    }
}

/// The text after the token `token`, which `pattern` stands for at the
/// start of `c`.
fn consume_exec(c: &[char], token: &[char], pattern: &[char]) -> (r: Vec<char>)
    requires
        is_one_byte(token@) ==> pattern@.len() <= c@.len(),
    ensures
        r@ == consume(c@, token@, pattern@),
{
    proof {
        lemma_one_byte(token@);
    }
    if token.len() == 1 && (token[0] as u32) <= 0x7f {
        copy_range(c, pattern.len(), c.len())
    } else {
        strip_all_exec(c, pattern)
    }
}


/// Every Jack keyword has at least two characters, and starts with a
/// lower-case ASCII letter.
pub proof fn lemma_keywords_nonempty()
    ensures
        forall|i: int|
            0 <= i < jack_keywords().len() ==> #[trigger] jack_keywords()[i].len() >= 2 && 'a'
                <= jack_keywords()[i][0] <= 'z',
{
    let ks = jack_keywords();
    assert forall|i: int| 0 <= i < ks.len() implies #[trigger] ks[i].len() >= 2 && 'a' <= ks[i][0] <= 'z' by {
        if i == 0 { assert(ks[0].len() >= 2 && 'a' <= ks[0][0] <= 'z'); }
        else if i == 1 { assert(ks[1].len() >= 2 && 'a' <= ks[1][0] <= 'z'); }
        else if i == 2 { assert(ks[2].len() >= 2 && 'a' <= ks[2][0] <= 'z'); }
        else if i == 3 { assert(ks[3].len() >= 2 && 'a' <= ks[3][0] <= 'z'); }
        else if i == 4 { assert(ks[4].len() >= 2 && 'a' <= ks[4][0] <= 'z'); }
        else if i == 5 { assert(ks[5].len() >= 2 && 'a' <= ks[5][0] <= 'z'); }
        else if i == 6 { assert(ks[6].len() >= 2 && 'a' <= ks[6][0] <= 'z'); }
        else if i == 7 { assert(ks[7].len() >= 2 && 'a' <= ks[7][0] <= 'z'); }
        else if i == 8 { assert(ks[8].len() >= 2 && 'a' <= ks[8][0] <= 'z'); }
        else if i == 9 { assert(ks[9].len() >= 2 && 'a' <= ks[9][0] <= 'z'); }
        else if i == 10 { assert(ks[10].len() >= 2 && 'a' <= ks[10][0] <= 'z'); }
        else if i == 11 { assert(ks[11].len() >= 2 && 'a' <= ks[11][0] <= 'z'); }
        else if i == 12 { assert(ks[12].len() >= 2 && 'a' <= ks[12][0] <= 'z'); }
        else if i == 13 { assert(ks[13].len() >= 2 && 'a' <= ks[13][0] <= 'z'); }
        else if i == 14 { assert(ks[14].len() >= 2 && 'a' <= ks[14][0] <= 'z'); }
        else if i == 15 { assert(ks[15].len() >= 2 && 'a' <= ks[15][0] <= 'z'); }
        else if i == 16 { assert(ks[16].len() >= 2 && 'a' <= ks[16][0] <= 'z'); }
        else if i == 17 { assert(ks[17].len() >= 2 && 'a' <= ks[17][0] <= 'z'); }
        else if i == 18 { assert(ks[18].len() >= 2 && 'a' <= ks[18][0] <= 'z'); }
        else if i == 19 { assert(ks[19].len() >= 2 && 'a' <= ks[19][0] <= 'z'); }
        else { assert(ks[20].len() >= 2 && 'a' <= ks[20][0] <= 'z'); }
    }
}

/// The keyword found starts the text and is one of the keywords searched.
pub proof fn lemma_first_keyword_found(c: Seq<char>, ks: Seq<Seq<char>>)
    ensures
        first_keyword(c, ks) matches Some(k) ==> keyword_at(c, k) && ks.contains(k),
    decreases ks.len(),
{
    if ks.len() > 0 && !keyword_at(c, ks[0]) {
        lemma_first_keyword_found(c, ks.drop_first());
        if let Some(k) = first_keyword(c, ks.drop_first()) {
            let i = choose|i: int| 0 <= i < ks.drop_first().len() && ks.drop_first()[i] == k;
            assert(ks[i + 1] == k);
        }
    } else if ks.len() > 0 {
        assert(ks[0] == ks[0]);
    }
}

/// Stripping copies of a pattern never lengthens the text.
pub proof fn lemma_strip_all_len(s: Seq<char>, p: Seq<char>)
    ensures
        strip_all(s, p).len() <= s.len(),
    decreases s.len(),
{
    if p.len() > 0 && starts_with(s, p) {
        lemma_strip_all_len(s.skip(p.len() as int), p);
    }
}

/// What a token takes from the text: the text left is shorter than before
/// by at least the token's length, and by at least one character.
pub proof fn lemma_scan_progress(c: Seq<char>)
    requires
        scan(c) is Some,
    ensures
        ({
            let (t, ty, p) = scan(c).unwrap();
            &&& consume(c, t, p).len() + t.len() <= c.len()
            &&& consume(c, t, p).len() < c.len()
            &&& (is_one_byte(t) ==> starts_with(c, p))
        }),
{
    let (t, ty, p) = scan(c).unwrap();
    assert(starts_with(c, p) && p.len() >= t.len() && p.len() >= 1) by {
        match first_keyword(c, jack_keywords()) {
            Some(k) => {
                lemma_first_keyword_found(c, jack_keywords());
                lemma_keywords_nonempty();
                let i = choose|i: int| 0 <= i < jack_keywords().len() && jack_keywords()[i] == k;
                assert(k.len() >= 2);
                let d = if starts_with(c, k.push(' ')) {
                    ' '
                } else if starts_with(c, k.push(';')) {
                    ';'
                } else {
                    ')'
                };
                assert(starts_with(c, k.push(d)));
                assert(c.take(k.len() as int) == c.take(k.len() as int + 1).take(k.len() as int));
                assert(k.push(d).take(k.len() as int) == k);
            },
            None => {
                if c.len() > 0 && jack_symbols().contains(c[0]) {
                    assert(c.take(1) =~= seq![c[0]]);
                } else if c.len() > 0 && is_digit(c[0]) {
                    lemma_lead_len_bound(c, digit());
                } else if c.len() > 0 && c[0] == '"' {
                    let k = lead_len(c.drop_first(), other_than('"'));
                    lemma_lead_len_bound(c.drop_first(), other_than('"'));
                    assert(c.drop_first()[k as int] == '"');
                    assert(c.take(p.len() as int) =~= p);
                } else {
                    lemma_lead_len_bound(c, ident_char());
                }
            },
        }
    }
    if !is_one_byte(t) {
        lemma_strip_all_len(c.skip(p.len() as int), p);
    }
}

/// No keyword starts a text whose first character is no lower-case ASCII
/// letter.
pub proof fn lemma_no_keyword(c: Seq<char>)
    requires
        c.len() > 0,
        !('a' <= c[0] <= 'z'),
    ensures
        first_keyword(c, jack_keywords()) is None,
{
    let ks = jack_keywords();
    lemma_keywords_nonempty();
    assert forall|j: int| 0 <= j < ks.len() implies !keyword_at(c, #[trigger] ks[j]) by {
        let k = ks[j];
        assert forall|x: char| !starts_with(c, #[trigger] k.push(x)) by {
            if starts_with(c, k.push(x)) {
                assert(c.take(k.len() as int + 1)[0] == k.push(x)[0]);
            }
        }
    }
    lemma_first_keyword_skip(c, ks, ks.len() as int);
    assert(ks.skip(ks.len() as int).len() == 0);
}

/// A text that starts with a symbol (no lower-case letter) yields that
/// symbol as its token.
pub proof fn lemma_scan_symbol(c: Seq<char>)
    requires
        c.len() > 0,
        jack_symbols().contains(c[0]),
        !('a' <= c[0] <= 'z'),
    ensures
        scan(c) == Some((seq![c[0]], TokenType::Symbol, seq![c[0]])),
{
    lemma_no_keyword(c);
}

/// Each of the nineteen symbols of Jack (`{ } ( ) [ ] . , ; + - * / & | <
/// > = ~`) scans as a symbol token of its own, whatever follows it.
pub proof fn lemma_scan_each_symbol(sym: char, rest: Seq<char>)
    requires
        sym == '{' || sym == '}' || sym == '(' || sym == ')' || sym == '[' || sym == ']' || sym == '.' || sym == ',' || sym == ';' || sym == '+' || sym == '-' || sym == '*' || sym == '/' || sym == '&' || sym == '|' || sym == '<' || sym == '>' || sym == '=' || sym == '~',
    ensures
        scan(seq![sym] + rest) == Some((seq![sym], TokenType::Symbol, seq![sym])),
{
    let c = seq![sym] + rest;
    let ss = jack_symbols();
    if sym == '{' {
        assert(ss[0] == sym);
    }
    if sym == '}' {
        assert(ss[1] == sym);
    }
    if sym == '(' {
        assert(ss[2] == sym);
    }
    if sym == ')' {
        assert(ss[3] == sym);
    }
    if sym == '[' {
        assert(ss[4] == sym);
    }
    if sym == ']' {
        assert(ss[5] == sym);
    }
    if sym == '.' {
        assert(ss[6] == sym);
    }
    if sym == ',' {
        assert(ss[7] == sym);
    }
    if sym == ';' {
        assert(ss[8] == sym);
    }
    if sym == '+' {
        assert(ss[9] == sym);
    }
    if sym == '-' {
        assert(ss[10] == sym);
    }
    if sym == '*' {
        assert(ss[11] == sym);
    }
    if sym == '/' {
        assert(ss[12] == sym);
    }
    if sym == '&' {
        assert(ss[13] == sym);
    }
    if sym == '|' {
        assert(ss[14] == sym);
    }
    if sym == '<' {
        assert(ss[15] == sym);
    }
    if sym == '>' {
        assert(ss[16] == sym);
    }
    if sym == '=' {
        assert(ss[17] == sym);
    }
    if sym == '~' {
        assert(ss[18] == sym);
    }
    assert(c[0] == sym);
    lemma_scan_symbol(c);
}

/// A string constant, the text between two double quotes, scans as that
/// text, and stands for it with its quotes, whatever follows.
pub proof fn lemma_scan_string(t: Seq<char>, rest: Seq<char>)
    requires
        !t.contains('"'),
    ensures
        scan(seq!['"'] + t + seq!['"'] + rest) == Some(
            (t, TokenType::StringConst, seq!['"'] + t + seq!['"']),
        ),
{
    let c = seq!['"'] + t + seq!['"'] + rest;
    let ss = jack_symbols();
    assert(c[0] == '"');
    lemma_no_keyword(c);
    assert(!ss.contains('"')) by {
        assert forall|i: int| 0 <= i < ss.len() implies ss[i] != '"' by {
        if i == 0 {
            assert(ss[0] != '"');
        }
        else if i == 1 {
            assert(ss[1] != '"');
        }
        else if i == 2 {
            assert(ss[2] != '"');
        }
        else if i == 3 {
            assert(ss[3] != '"');
        }
        else if i == 4 {
            assert(ss[4] != '"');
        }
        else if i == 5 {
            assert(ss[5] != '"');
        }
        else if i == 6 {
            assert(ss[6] != '"');
        }
        else if i == 7 {
            assert(ss[7] != '"');
        }
        else if i == 8 {
            assert(ss[8] != '"');
        }
        else if i == 9 {
            assert(ss[9] != '"');
        }
        else if i == 10 {
            assert(ss[10] != '"');
        }
        else if i == 11 {
            assert(ss[11] != '"');
        }
        else if i == 12 {
            assert(ss[12] != '"');
        }
        else if i == 13 {
            assert(ss[13] != '"');
        }
        else if i == 14 {
            assert(ss[14] != '"');
        }
        else if i == 15 {
            assert(ss[15] != '"');
        }
        else if i == 16 {
            assert(ss[16] != '"');
        }
        else if i == 17 {
            assert(ss[17] != '"');
        }
        else {
            assert(ss[18] != '"');
        }
        }
    }
    let d = c.drop_first();
    assert forall|j: int| 0 <= j < t.len() implies (other_than('"'))(#[trigger] d[j]) by {
        assert(d[j] == t[j]);
        assert(t.contains(t[j]) ==> t[j] != '"');
    }
    lemma_lead_len_skip(d, other_than('"'), t.len() as int);
    assert(d.skip(t.len() as int)[0] == '"');
    assert(lead_len(d.skip(t.len() as int), other_than('"')) == 0);
    assert(c.subrange(1, t.len() as int + 1) =~= t);
}

/// A text that starts with the digits `d`, followed by no digit, yields
/// them as an integer constant.
pub proof fn lemma_scan_digits(d: Seq<char>, rest: Seq<char>)
    requires
        d.len() > 0,
        forall|i: int| 0 <= i < d.len() ==> is_digit(#[trigger] d[i]),
        rest.len() > 0 ==> !is_digit(rest[0]),
    ensures
        scan(d + rest) == Some((d, TokenType::IntConstant, d)),
        consume(d + rest, d, d) == rest,
{
    let c = d + rest;
    assert(c[0] == d[0]);
    lemma_no_keyword(c);
    assert forall|i: int| 0 <= i < jack_symbols().len() implies jack_symbols()[i] != c[0] by {
        let ss = jack_symbols();
        assert(!is_digit(ss[i])) by {
            if i == 0 {} else if i == 1 {} else if i == 2 {} else if i == 3 {} else if i == 4 {}
            else if i == 5 {} else if i == 6 {} else if i == 7 {} else if i == 8 {} else if i == 9 {}
            else if i == 10 {} else if i == 11 {} else if i == 12 {} else if i == 13 {}
            else if i == 14 {} else if i == 15 {} else if i == 16 {} else if i == 17 {} else {}
        }
    }
    assert forall|i: int| 0 <= i < d.len() implies digit()(#[trigger] c[i]) by {
        assert(c[i] == d[i]);
    }
    lemma_lead_len_skip(c, digit(), d.len() as int);
    assert(c.skip(d.len() as int) =~= rest);
    assert(lead_len(rest, digit()) == 0);
    assert(c.take(d.len() as int) =~= d);
    lemma_one_byte(d);
    if d.len() == 1 && (d[0] as u32) <= 0x7f {
        assert(consume(c, d, d) == c.skip(d.len() as int));
    } else {
        assert(starts_with(c, d));
        if rest.len() > 0 && starts_with(rest, d) {
            assert(rest.take(d.len() as int)[0] == d[0]);
        }
        assert(!starts_with(rest, d));
        assert(strip_all(rest, d) == rest);
        assert(strip_all(c, d) == strip_all(c.skip(d.len() as int), d));
    }
}

/// A word of lower-case letters that the text `k`, then a character that is
/// no lower-case letter, starts with is `k` itself.
proof fn lemma_keyword_at_unique(k: Seq<char>, sep: char, rest: Seq<char>, k2: Seq<char>)
    requires
        forall|j: int| 0 <= j < k.len() ==> 'a' <= #[trigger] k[j] <= 'z',
        forall|j: int| 0 <= j < k2.len() ==> 'a' <= #[trigger] k2[j] <= 'z',
        !('a' <= sep <= 'z'),
        keyword_at(k + seq![sep] + rest, k2),
    ensures
        k2 == k,
{
    let c = k + seq![sep] + rest;
    let x: char = if starts_with(c, k2.push(' ')) {
        ' '
    } else if starts_with(c, k2.push(';')) {
        ';'
    } else {
        ')'
    };
    assert(starts_with(c, k2.push(x)));
    assert(c.take(k2.len() as int + 1) == k2.push(x));
    if k2.len() < k.len() {
        assert(c[k2.len() as int] == k2.push(x)[k2.len() as int]);
        assert(c[k2.len() as int] == k[k2.len() as int]);
    } else if k2.len() > k.len() {
        assert(c[k.len() as int] == k2.push(x)[k.len() as int]);
        assert(k2.push(x)[k.len() as int] == k2[k.len() as int]);
        assert(c[k.len() as int] == sep);
    } else {
        assert forall|j: int| 0 <= j < k.len() implies k2[j] == k[j] by {
            assert(c[j] == k2.push(x)[j]);
            assert(c[j] == k[j]);
        }
        assert(k2 =~= k);
    }
}

/// Some keyword is found in a text that one of the keywords searched
/// starts, followed as a keyword is.
proof fn lemma_first_keyword_some(c: Seq<char>, ks: Seq<Seq<char>>, i: int)
    requires
        0 <= i < ks.len(),
        keyword_at(c, ks[i]),
    ensures
        first_keyword(c, ks) is Some,
    decreases ks.len(),
{
    if !keyword_at(c, ks[0]) {
        assert(ks.drop_first()[i - 1] == ks[i]);
        lemma_first_keyword_some(c, ks.drop_first(), i - 1);
    }
}

/// A Jack keyword directly followed by a space, a `;` or a `)` scans as
/// that keyword, whatever follows.
pub proof fn lemma_scan_keyword(i: int, sep: char, rest: Seq<char>)
    requires
        0 <= i < jack_keywords().len(),
        sep == ' ' || sep == ';' || sep == ')',
    ensures
        scan(jack_keywords()[i] + seq![sep] + rest) == Some(
            (jack_keywords()[i], TokenType::Keyword, jack_keywords()[i]),
        ),
{
    let ks = jack_keywords();
    let k = ks[i];
    let c = k + seq![sep] + rest;
    lemma_keywords_lowercase();
    assert(forall|j: int| 0 <= j < k.len() ==> 'a' <= #[trigger] k[j] <= 'z') by {
        assert(forall|j: int| 0 <= j < k.len() ==> #[trigger] k[j] == ks[i][j]);
    }
    assert(c.take(k.len() as int + 1) =~= k.push(sep));
    assert(keyword_at(c, k));
    lemma_first_keyword_some(c, ks, i);
    lemma_first_keyword_found(c, ks);
    let k2 = first_keyword(c, ks).unwrap();
    let j = choose|j: int| 0 <= j < ks.len() && ks[j] == k2;
    assert(forall|m: int| 0 <= m < k2.len() ==> 'a' <= #[trigger] k2[m] <= 'z') by {
        assert(forall|m: int| 0 <= m < k2.len() ==> #[trigger] k2[m] == ks[j][m]);
    }
    lemma_keyword_at_unique(k, sep, rest, k2);
}

/// Every character of a Jack keyword is a lower-case ASCII letter.
pub proof fn lemma_keywords_lowercase()
    ensures
        forall|i: int, j: int|
            0 <= i < jack_keywords().len() && 0 <= j < jack_keywords()[i].len() ==> 'a'
                <= #[trigger] jack_keywords()[i][j] <= 'z',
{
    let ks = jack_keywords();
    assert forall|i: int, j: int| 0 <= i < ks.len() && 0 <= j < ks[i].len() implies 'a'
        <= #[trigger] ks[i][j] <= 'z' by {
        if i == 0 {
            assert(forall|j: int| 0 <= j < ks[0].len() ==> 'a' <= #[trigger] ks[0][j] <= 'z');
        }
        else if i == 1 {
            assert(forall|j: int| 0 <= j < ks[1].len() ==> 'a' <= #[trigger] ks[1][j] <= 'z');
        }
        else if i == 2 {
            assert(forall|j: int| 0 <= j < ks[2].len() ==> 'a' <= #[trigger] ks[2][j] <= 'z');
        }
        else if i == 3 {
            assert(forall|j: int| 0 <= j < ks[3].len() ==> 'a' <= #[trigger] ks[3][j] <= 'z');
        }
        else if i == 4 {
            assert(forall|j: int| 0 <= j < ks[4].len() ==> 'a' <= #[trigger] ks[4][j] <= 'z');
        }
        else if i == 5 {
            assert(forall|j: int| 0 <= j < ks[5].len() ==> 'a' <= #[trigger] ks[5][j] <= 'z');
        }
        else if i == 6 {
            assert(forall|j: int| 0 <= j < ks[6].len() ==> 'a' <= #[trigger] ks[6][j] <= 'z');
        }
        else if i == 7 {
            assert(forall|j: int| 0 <= j < ks[7].len() ==> 'a' <= #[trigger] ks[7][j] <= 'z');
        }
        else if i == 8 {
            assert(forall|j: int| 0 <= j < ks[8].len() ==> 'a' <= #[trigger] ks[8][j] <= 'z');
        }
        else if i == 9 {
            assert(forall|j: int| 0 <= j < ks[9].len() ==> 'a' <= #[trigger] ks[9][j] <= 'z');
        }
        else if i == 10 {
            assert(forall|j: int| 0 <= j < ks[10].len() ==> 'a' <= #[trigger] ks[10][j] <= 'z');
        }
        else if i == 11 {
            assert(forall|j: int| 0 <= j < ks[11].len() ==> 'a' <= #[trigger] ks[11][j] <= 'z');
        }
        else if i == 12 {
            assert(forall|j: int| 0 <= j < ks[12].len() ==> 'a' <= #[trigger] ks[12][j] <= 'z');
        }
        else if i == 13 {
            assert(forall|j: int| 0 <= j < ks[13].len() ==> 'a' <= #[trigger] ks[13][j] <= 'z');
        }
        else if i == 14 {
            assert(forall|j: int| 0 <= j < ks[14].len() ==> 'a' <= #[trigger] ks[14][j] <= 'z');
        }
        else if i == 15 {
            assert(forall|j: int| 0 <= j < ks[15].len() ==> 'a' <= #[trigger] ks[15][j] <= 'z');
        }
        else if i == 16 {
            assert(forall|j: int| 0 <= j < ks[16].len() ==> 'a' <= #[trigger] ks[16][j] <= 'z');
        }
        else if i == 17 {
            assert(forall|j: int| 0 <= j < ks[17].len() ==> 'a' <= #[trigger] ks[17][j] <= 'z');
        }
        else if i == 18 {
            assert(forall|j: int| 0 <= j < ks[18].len() ==> 'a' <= #[trigger] ks[18][j] <= 'z');
        }
        else if i == 19 {
            assert(forall|j: int| 0 <= j < ks[19].len() ==> 'a' <= #[trigger] ks[19][j] <= 'z');
        }
        else if i == 20 {
            assert(forall|j: int| 0 <= j < ks[20].len() ==> 'a' <= #[trigger] ks[20][j] <= 'z');
        } else {
        }
    }
}

/// Whether `c` is an ASCII character that may continue an identifier.
pub open spec fn ascii_ident_char(c: char) -> bool {
    ascii_letter(c) || c == '_' || is_digit(c)
}

/// A text that starts with the identifier `x` (ASCII, no keyword), followed
/// by an ASCII character that cannot continue it, yields `x` as its token.
pub proof fn lemma_scan_identifier(x: Seq<char>, rest: Seq<char>)
    requires
        x.len() > 0,
        ascii_letter(x[0]) || x[0] == '_',
        forall|i: int| 0 <= i < x.len() ==> ascii_ident_char(#[trigger] x[i]),
        rest.len() > 0 ==> !ascii_ident_char(rest[0]) && (rest[0] as u32) <= 0x7f,
        !jack_keywords().contains(x),
    ensures
        scan(x + rest) == Some((x, TokenType::Identifier, x)),
        consume(x + rest, x, x) == rest,
{
    let c = x + rest;
    let ks = jack_keywords();
    lemma_keywords_lowercase();
    assert forall|j: int| 0 <= j < ks.len() implies !keyword_at(c, #[trigger] ks[j]) by {
        let k = ks[j];
        assert forall|sep: char| (sep == ' ' || sep == ';' || sep == ')') implies !starts_with(
            c,
            #[trigger] k.push(sep),
        ) by {
            if starts_with(c, k.push(sep)) {
                let t = c.take(k.len() as int + 1);
                assert(t == k.push(sep));
                if k.len() < x.len() {
                    assert(t[k.len() as int] == x[k.len() as int]);
                    assert(ascii_ident_char(x[k.len() as int]));
                } else if k.len() == x.len() {
                    assert(k =~= x) by {
                        assert forall|m: int| 0 <= m < k.len() implies k[m] == x[m] by {
                            assert(t[m] == k.push(sep)[m]);
                        }
                    }
                    assert(ks[j] == x);
                } else {
                    assert(t[x.len() as int] == rest[0]);
                    assert(k.push(sep)[x.len() as int] == k[x.len() as int]);
                    assert('a' <= k[x.len() as int] <= 'z');
                }
            }
        }
        if keyword_at(c, k) {
            if starts_with(c, k.push(' ')) {}
            else if starts_with(c, k.push(';')) {}
            else { assert(starts_with(c, k.push(')'))); }
        }
    }
    lemma_first_keyword_skip(c, ks, ks.len() as int);
    assert(ks.skip(ks.len() as int).len() == 0);
    assert(c[0] == x[0]);
    assert forall|i: int| 0 <= i < jack_symbols().len() implies jack_symbols()[i] != c[0] by {
        let ss = jack_symbols();
        assert(!ascii_ident_char(ss[i])) by {
            if i == 0 {} else if i == 1 {} else if i == 2 {} else if i == 3 {} else if i == 4 {}
            else if i == 5 {} else if i == 6 {} else if i == 7 {} else if i == 8 {} else if i == 9 {}
            else if i == 10 {} else if i == 11 {} else if i == 12 {} else if i == 13 {}
            else if i == 14 {} else if i == 15 {} else if i == 16 {} else if i == 17 {} else {}
        }
    }
    assert forall|i: int| 0 <= i < x.len() implies ident_char()(#[trigger] c[i]) by {
        assert(c[i] == x[i]);
    }
    lemma_lead_len_skip(c, ident_char(), x.len() as int);
    assert(c.skip(x.len() as int) =~= rest);
    assert(lead_len(rest, ident_char()) == 0);
    assert(c.take(x.len() as int) =~= x);
    lemma_one_byte(x);
    if x.len() == 1 && (x[0] as u32) <= 0x7f {
        assert(consume(c, x, x) == c.skip(x.len() as int));
    } else {
        assert(starts_with(c, x));
        if rest.len() > 0 && starts_with(rest, x) {
            assert(rest.take(x.len() as int)[0] == x[0]);
        }
        assert(!starts_with(rest, x));
        assert(strip_all(rest, x) == rest);
        assert(strip_all(c, x) == strip_all(c.skip(x.len() as int), x));
    }
}

/// Trimming the start never lengthens the text.
pub proof fn lemma_trim_start_len(s: Seq<char>)
    ensures
        trim_start(s).len() <= s.len(),
{
    lemma_lead_len_bound(s, white());
}

/// Splits Jack source into tokens, one at a time.
pub struct JackTokenizer {
    file_content: String,
    current_token: String,
    current_token_type: TokenType,
}

impl JackTokenizer {
    /// The text not yet tokenized.
    pub closed spec fn content(&self) -> Seq<char> {
        self.file_content@
    }

    /// The current token.
    pub closed spec fn token(&self) -> Seq<char> {
        self.current_token@
    }

    /// The kind of the current token.
    pub closed spec fn token_type(&self) -> TokenType {
        self.current_token_type
    }

    /// A tokenizer over the Jack source `source`, cleaned as `clean_jack`
    /// says, before its first token.
    pub fn new(source: String) -> (t: Self)
        ensures
            t.content() == clean_jack(source@),
            t.token() == Seq::<char>::empty(),
            t.token_type() == TokenType::NoToken,
    {
        let cleaned_jack_code = clean_jack_code(source);
        JackTokenizer {
            file_content: cleaned_jack_code,
            current_token: String::new(),
            current_token_type: TokenType::NoToken,
        }
    }

    /// Whether any text is left.
    pub fn has_more_tokens(&self) -> (b: bool)
        ensures
            b == (self.content().len() > 0),
    {
        !self.file_content.as_str().is_empty()
    }

    /// The current token.
    pub fn get_token(&self) -> (s: &str)
        ensures
            s@ == self.token(),
    {
        self.current_token.as_str()
    }

    /// The kind of the current token.
    pub fn get_token_type(&self) -> (t: &TokenType)
        ensures
            *t == self.token_type(),
    {
        &self.current_token_type
    }

    /// The text not yet tokenized.
    pub fn get_file_content(&self) -> (s: &str)
        ensures
            s@ == self.content(),
    {
        self.file_content.as_str()
    }

    /// Makes `current_token` the current token and takes `trim_content`, the
    /// text that stands for it, off the front of the text: once when the
    /// token is one byte long, every copy of it otherwise.
    fn set_token_details(&mut self, current_token: &str, trim_content: &str)
        requires
            is_one_byte(current_token@) ==> starts_with(old(self).content(), trim_content@),
        ensures
            final(self).token() == current_token@,
            final(self).content() == consume(old(self).content(), current_token@, trim_content@),
            final(self).token_type() == old(self).token_type(),
    {
        self.current_token = current_token.to_owned();
        let c = chars_of(self.file_content.as_str());
        let t = chars_of(current_token);
        let p = chars_of(trim_content);
        let rest = consume_exec(c.as_slice(), t.as_slice(), p.as_slice());
        self.file_content = string_of(rest.as_slice());
    }

    /// Moves to the next token: white space at the front of the text is
    /// dropped, then the first keyword (followed by a space, `;` or `)`),
    /// symbol, integer, string constant or identifier there becomes the
    /// current token and leaves the text.
    pub fn advance(&mut self) -> (r: Result<(), TokenizeError>)
        ensures
            old(self).content().len() == 0 ==> r == Err::<(), TokenizeError>(
                TokenizeError::NoMoreTokens,
            ) && *final(self) == *old(self),
            old(self).content().len() > 0 ==> match scan(trim_start(old(self).content())) {
                Some((t, ty, p)) => {
                    &&& r is Ok
                    &&& final(self).token() == t
                    &&& final(self).token_type() == ty
                    &&& final(self).content() == consume(trim_start(old(self).content()), t, p)
                },
                None => {
                    &&& r == Err::<(), TokenizeError>(scan_error(trim_start(old(self).content())))
                    &&& final(self).content() == trim_start(old(self).content())
                    &&& final(self).token() == old(self).token()
                    &&& final(self).token_type() == old(self).token_type()
                },
            },
            r is Ok ==> final(self).content().len() + final(self).token().len() <= old(
                self,
            ).content().len(),
            r is Ok ==> final(self).content().len() < old(self).content().len(),
            final(self).content().len() <= old(self).content().len(),
    {
        if !self.has_more_tokens() {
            return Err(TokenizeError::NoMoreTokens);
        }
        let v = chars_of(self.file_content.as_str());
        let a = lead_white_len(v.as_slice());
        proof {
            lemma_lead_len_bound(v@, white());
        }
        let c = copy_range(v.as_slice(), a, v.len());
        assert(c@ == trim_start(v@));
        proof {
            lemma_trim_start_len(v@);
        }
        self.file_content = string_of(c.as_slice());
        match scan_token(c.as_slice()) {
            Ok((t, ty, p)) => {
                proof {
                    lemma_scan_progress(c@);
                }
                let ts = string_of(t.as_slice());
                let ps = string_of(p.as_slice());
                self.set_token_details(ts.as_str(), ps.as_str());
                self.current_token_type = ty;
                Ok(())
            },
            Err(e) => Err(e),
        }
    }
}

} // verus!
