use vstd::prelude::*;

verus! {

/// The characters that `char::is_whitespace` accepts: those with the
/// Unicode `White_Space` property.
pub open spec fn is_white(c: char) -> bool {
    ||| ('\u{9}' <= c && c <= '\u{d}')
    ||| c == ' '
    ||| c == '\u{85}'
    ||| c == '\u{a0}'
    ||| c == '\u{1680}'
    ||| ('\u{2000}' <= c && c <= '\u{200a}')
    ||| c == '\u{2028}'
    ||| c == '\u{2029}'
    ||| c == '\u{202f}'
    ||| c == '\u{205f}'
    ||| c == '\u{3000}'
}

/// Whether `c` is white space, as `char::is_whitespace` decides.
pub fn is_whitespace(c: char) -> (b: bool)
    ensures
        b == is_white(c),
{
    ('\u{9}' <= c && c <= '\u{d}') || c == ' ' || c == '\u{85}' || c == '\u{a0}' || c == '\u{1680}'
        || ('\u{2000}' <= c && c <= '\u{200a}') || c == '\u{2028}' || c == '\u{2029}' || c
        == '\u{202f}' || c == '\u{205f}' || c == '\u{3000}'
}


/// Appends `c` to `s`; `String::push`, of which std documents that it
/// appends the given char to the end of the string.
#[verifier::external_body]
pub(crate) fn push_char(s: &mut String, c: char)
    ensures
        final(s)@ == old(s)@.push(c),
{
    s.push(c);
}

/// The characters of `s`, in order.
pub fn chars_of(s: &str) -> (v: Vec<char>)
    ensures
        v@ == s@,
{
    let mut v: Vec<char> = Vec::new();
    for c in it: s.chars()
        invariant
            v@ == it.seq().take(it.index() as int),
            it.seq() == s@,
    {
        v.push(c);
    }
    v
}

/// A string made of the characters of `v`.
pub fn string_of(v: &[char]) -> (s: String)
    ensures
        s@ == v@,
{
    let mut s = String::new();
    let mut i: usize = 0;
    while i < v.len()
        invariant
            i <= v.len(),
            s@ == v@.take(i as int),
        decreases v.len() - i,
    {
        push_char(&mut s, v[i]);
        assert(v@.take(i + 1) == v@.take(i as int).push(v@[i as int]));
        i = i + 1;
    }
    assert(v@.take(v.len() as int) == v@);
    s
}


/// The predicate of white space, as a value.
pub open spec fn white() -> spec_fn(char) -> bool {
    |c: char| is_white(c)
}

/// The predicate "is one of the characters of `set`".
pub open spec fn in_set(set: Seq<char>) -> spec_fn(char) -> bool {
    |c: char| set.contains(c)
}

/// The predicate "is not `c`".
pub open spec fn other_than(c: char) -> spec_fn(char) -> bool {
    |x: char| x != c
}

/// How many characters at the front of `s` satisfy `p`.
pub open spec fn lead_len(s: Seq<char>, p: spec_fn(char) -> bool) -> nat
    decreases s.len(),
{
    if s.len() == 0 || !p(s[0]) {
        0
    } else {
        1 + lead_len(s.drop_first(), p)
    }
}

/// How many characters at the back of `s` satisfy `p`.
pub open spec fn trail_len(s: Seq<char>, p: spec_fn(char) -> bool) -> nat
    decreases s.len(),
{
    if s.len() == 0 || !p(s.last()) {
        0
    } else {
        1 + trail_len(s.drop_last(), p)
    }
}

/// `s` without the characters at its front that satisfy `p`.
pub open spec fn strip_lead(s: Seq<char>, p: spec_fn(char) -> bool) -> Seq<char> {
    s.skip(lead_len(s, p) as int)
}

/// `s` without the characters at its back that satisfy `p`.
pub open spec fn strip_trail(s: Seq<char>, p: spec_fn(char) -> bool) -> Seq<char> {
    s.take(s.len() - trail_len(s, p))
}

/// `str::trim_start`: `s` without its leading white space.
pub open spec fn trim_start(s: Seq<char>) -> Seq<char> {
    strip_lead(s, white())
}

/// `str::trim`: `s` without its leading and trailing white space.
pub open spec fn trim(s: Seq<char>) -> Seq<char> {
    strip_trail(strip_lead(s, white()), white())
}

/// `str::trim_matches` with a set of characters as the pattern.
pub open spec fn trim_matches(s: Seq<char>, set: Seq<char>) -> Seq<char> {
    strip_trail(strip_lead(s, in_set(set)), in_set(set))
}

/// Trimming by a set of characters depends only on which characters the
/// set holds, not on their order or on repetitions: `(` and `)` trim as
/// `)` and `(` do.
pub proof fn lemma_trim_matches_same_set(s: Seq<char>, set1: Seq<char>, set2: Seq<char>)
    requires
        forall|c: char| set1.contains(c) <==> set2.contains(c),
    ensures
        trim_matches(s, set1) == trim_matches(s, set2),
{
    assert(in_set(set1) =~= in_set(set2));
}

/// Whether `p` is a prefix of `s`.
pub open spec fn starts_with(s: Seq<char>, p: Seq<char>) -> bool {
    p.len() <= s.len() && s.take(p.len() as int) == p
}

/// The index of the first `c` in `s`, if there is one.
pub open spec fn first_of(s: Seq<char>, c: char) -> Option<int> {
    let k = lead_len(s, other_than(c));
    if k < s.len() {
        Some(k as int)
    } else {
        None
    }
}

/// The leading run of characters satisfying `p` lies within `s`, and the
/// character after it, if any, fails `p`.
pub proof fn lemma_lead_len_bound(s: Seq<char>, p: spec_fn(char) -> bool)
    ensures
        lead_len(s, p) <= s.len(),
        forall|j: int| 0 <= j < lead_len(s, p) ==> p(#[trigger] s[j]),
        lead_len(s, p) < s.len() ==> !p(s[lead_len(s, p) as int]),
    decreases s.len(),
{
    if s.len() > 0 && p(s[0]) {
        lemma_lead_len_bound(s.drop_first(), p);
        assert forall|j: int| 0 <= j < lead_len(s, p) implies p(#[trigger] s[j]) by {
            if j > 0 {
                assert(s[j] == s.drop_first()[j - 1]);
            }
        }
    }
}

/// The trailing run of characters satisfying `p` lies within `s`, and the
/// character before it, if any, fails `p`.
pub proof fn lemma_trail_len_bound(s: Seq<char>, p: spec_fn(char) -> bool)
    ensures
        trail_len(s, p) <= s.len(),
        forall|j: int| s.len() - trail_len(s, p) <= j < s.len() ==> p(#[trigger] s[j]),
        trail_len(s, p) < s.len() ==> !p(s[s.len() - trail_len(s, p) - 1]),
    decreases s.len(),
{
    if s.len() > 0 && p(s.last()) {
        lemma_trail_len_bound(s.drop_last(), p);
        assert forall|j: int| s.len() - trail_len(s, p) <= j < s.len() implies p(#[trigger] s[j]) by {
            if j < s.len() - 1 {
                assert(s[j] == s.drop_last()[j]);
            }
        }
    }
}

/// Counting from the front after a run of `i` characters that satisfy `p`.
pub proof fn lemma_lead_len_skip(s: Seq<char>, p: spec_fn(char) -> bool, i: int)
    requires
        0 <= i <= s.len(),
        forall|j: int| 0 <= j < i ==> p(#[trigger] s[j]),
    ensures
        lead_len(s, p) == i + lead_len(s.skip(i), p),
    decreases i,
{
    if i == 0 {
        assert(s.skip(0) == s);
    } else {
        assert(p(s[0]));
        let t = s.drop_first();
        assert forall|j: int| 0 <= j < i - 1 implies p(#[trigger] t[j]) by {
            assert(t[j] == s[j + 1]);
        }
        lemma_lead_len_skip(t, p, i - 1);
        assert(t.skip(i - 1) == s.skip(i));
    }
}

/// Counting from the back after a run of `k` characters that satisfy `p`.
pub proof fn lemma_trail_len_take(s: Seq<char>, p: spec_fn(char) -> bool, k: int)
    requires
        0 <= k <= s.len(),
        forall|j: int| s.len() - k <= j < s.len() ==> p(#[trigger] s[j]),
    ensures
        trail_len(s, p) == k + trail_len(s.take(s.len() - k), p),
    decreases k,
{
    if k == 0 {
        assert(s.take(s.len() as int) == s);
    } else {
        assert(p(s[s.len() - 1]));
        let t = s.drop_last();
        assert forall|j: int| t.len() - (k - 1) <= j < t.len() implies p(#[trigger] t[j]) by {
            assert(t[j] == s[j]);
        }
        lemma_trail_len_take(t, p, k - 1);
        assert(t.take(t.len() - (k - 1)) == s.take(s.len() - k));
    }
}

/// Number of leading white-space characters of `v`.
pub fn lead_white_len(v: &[char]) -> (n: usize)
    ensures
        n == lead_len(v@, white()),
{
    let mut i: usize = 0;
    while i < v.len() && is_whitespace(v[i])
        invariant
            i <= v.len(),
            forall|j: int| 0 <= j < i ==> white()(#[trigger] v@[j]),
        decreases v.len() - i,
    {
        i = i + 1;
    }
    proof {
        lemma_lead_len_skip(v@, white(), i as int);
    }
    i
}

/// Number of trailing white-space characters of `v`.
pub fn trail_white_len(v: &[char]) -> (n: usize)
    ensures
        n == trail_len(v@, white()),
{
    let mut k: usize = 0;
    while k < v.len() && is_whitespace(v[v.len() - 1 - k])
        invariant
            k <= v.len(),
            forall|j: int| v.len() - k <= j < v.len() ==> white()(#[trigger] v@[j]),
        decreases v.len() - k,
    {
        k = k + 1;
    }
    proof {
        lemma_trail_len_take(v@, white(), k as int);
        assert(v@.take(v.len() - k) == v@.take(v.len() - k));
    }
    k
}

/// Whether `c` is one of the characters of `set`.
pub fn set_contains(set: &[char], c: char) -> (b: bool)
    ensures
        b == set@.contains(c),
{
    let mut i: usize = 0;
    while i < set.len()
        invariant
            i <= set.len(),
            forall|j: int| 0 <= j < i ==> set@[j] != c,
        decreases set.len() - i,
    {
        if set[i] == c {
            return true;
        }
        i = i + 1;
    }
    false
}

/// Number of leading characters of `v` that are in `set`.
pub fn lead_in_set_len(v: &[char], set: &[char]) -> (n: usize)
    ensures
        n == lead_len(v@, in_set(set@)),
{
    let mut i: usize = 0;
    while i < v.len() && set_contains(set, v[i])
        invariant
            i <= v.len(),
            forall|j: int| 0 <= j < i ==> in_set(set@)(#[trigger] v@[j]),
        decreases v.len() - i,
    {
        i = i + 1;
    }
    proof {
        lemma_lead_len_skip(v@, in_set(set@), i as int);
    }
    i
}

/// Number of trailing characters of `v` that are in `set`.
pub fn trail_in_set_len(v: &[char], set: &[char]) -> (n: usize)
    ensures
        n == trail_len(v@, in_set(set@)),
{
    let mut k: usize = 0;
    while k < v.len() && set_contains(set, v[v.len() - 1 - k])
        invariant
            k <= v.len(),
            forall|j: int| v.len() - k <= j < v.len() ==> in_set(set@)(#[trigger] v@[j]),
        decreases v.len() - k,
    {
        k = k + 1;
    }
    proof {
        lemma_trail_len_take(v@, in_set(set@), k as int);
    }
    k
}

/// Index of the first `c` in `v`, if there is one.
pub fn find_char(v: &[char], c: char) -> (r: Option<usize>)
    ensures
        r matches Some(k) ==> first_of(v@, c) == Some(k as int),
        r is None ==> first_of(v@, c) is None,
{
    let mut i: usize = 0;
    while i < v.len() && v[i] != c
        invariant
            i <= v.len(),
            forall|j: int| 0 <= j < i ==> other_than(c)(#[trigger] v@[j]),
        decreases v.len() - i,
    {
        i = i + 1;
    }
    proof {
        lemma_lead_len_skip(v@, other_than(c), i as int);
    }
    if i < v.len() {
        Some(i)
    } else {
        None
    }
}

/// The characters `v[from..to]`, copied.
pub fn copy_range(v: &[char], from: usize, to: usize) -> (r: Vec<char>)
    requires
        from <= to <= v.len(),
    ensures
        r@ == v@.subrange(from as int, to as int),
{
    let mut r: Vec<char> = Vec::new();
    let mut i: usize = from;
    while i < to
        invariant
            from <= i <= to,
            to <= v.len(),
            r@ == v@.subrange(from as int, i as int),
        decreases to - i,
    {
        r.push(v[i]);
        i = i + 1;
    }
    r
}

/// `v` without leading and trailing white space.
pub fn trim_chars(v: &[char]) -> (r: Vec<char>)
    ensures
        r@ == trim(v@),
{
    let a = lead_white_len(v);
    proof {
        lemma_lead_len_bound(v@, white());
    }
    let rest = copy_range(v, a, v.len());
    assert(rest@ == strip_lead(v@, white()));
    let b = trail_white_len(rest.as_slice());
    proof {
        lemma_trail_len_bound(rest@, white());
    }
    let r = copy_range(rest.as_slice(), 0, rest.len() - b);
    r
}

/// Whether `p` is a prefix of `v`.
pub fn has_prefix(v: &[char], p: &[char]) -> (b: bool)
    ensures
        b == starts_with(v@, p@),
{
    if p.len() > v.len() {
        return false;
    }
    let mut i: usize = 0;
    while i < p.len()
        invariant
            i <= p.len() <= v.len(),
            forall|j: int| 0 <= j < i ==> v@[j] == p@[j],
        decreases p.len() - i,
    {
        if v[i] != p[i] {
            assert(v@.take(p.len() as int)[i as int] != p@[i as int]);
            return false;
        }
        i = i + 1;
    }
    assert(v@.take(p.len() as int) =~= p@);
    true
}


/// A line as `str::lines` yields it: a carriage return before the
/// newline that ended it is dropped.
pub open spec fn strip_cr(s: Seq<char>) -> Seq<char> {
    if s.len() > 0 && s.last() == '\r' {
        s.drop_last()
    } else {
        s
    }
}

/// `str::lines`: the pieces of `s` between newlines, a final newline
/// opening no further line, and `\r\n` counting as one newline.
pub open spec fn lines(s: Seq<char>) -> Seq<Seq<char>>
    decreases s.len(),
{
    if s.len() == 0 {
        seq![]
    } else {
        let k = lead_len(s, other_than('\n'));
        if k < s.len() {
            seq![strip_cr(s.take(k as int))] + lines(s.skip(k as int + 1))
        } else {
            seq![s]
        }
    }
}

/// `trim(s)` is the run of `s` that starts after its leading white space;
/// when it is not empty it neither starts nor ends with white space.
pub proof fn lemma_trim_shape(s: Seq<char>)
    ensures
        lead_len(s, white()) + trim(s).len() <= s.len(),
        trim(s) == s.subrange(lead_len(s, white()) as int, (lead_len(s, white()) + trim(s).len()) as int),
        trim(s).len() > 0 ==> !is_white(trim(s)[0]) && !is_white(trim(s).last()),
{
    let a = lead_len(s, white());
    lemma_lead_len_bound(s, white());
    let r = s.skip(a as int);
    lemma_trail_len_bound(r, white());
    let t = trim(s);
    assert(t =~= s.subrange(a as int, (a + t.len()) as int));
    if t.len() > 0 {
        assert(t[0] == s[a as int]);
        assert(t.last() == r[r.len() - trail_len(r, white()) - 1]);
    }
}

/// A sequence that neither starts nor ends with white space is its own trim.
pub proof fn lemma_trim_fixed(s: Seq<char>)
    requires
        s.len() == 0 || (!is_white(s[0]) && !is_white(s.last())),
    ensures
        trim(s) == s,
{
    assert(lead_len(s, white()) == 0);
    assert(s.skip(0) =~= s);
    assert(trail_len(s, white()) == 0);
    assert(s.take(s.len() as int) =~= s);
}

/// The lines of `s` hold no newline.
pub proof fn lemma_lines_no_newline(s: Seq<char>)
    ensures
        forall|i: int| 0 <= i < lines(s).len() ==> !(#[trigger] lines(s)[i]).contains('\n'),
    decreases s.len(),
{
    if s.len() > 0 {
        let k = lead_len(s, other_than('\n'));
        lemma_lead_len_bound(s, other_than('\n'));
        if k < s.len() {
            let rest = s.skip(k as int + 1);
            lemma_lines_no_newline(rest);
            let first = strip_cr(s.take(k as int));
            assert forall|j: int| 0 <= j < first.len() implies first[j] != '\n' by {
                assert(first[j] == s[j]);
            }
            assert forall|i: int| 0 <= i < lines(s).len() implies !(#[trigger] lines(s)[i]).contains('\n') by {
                if i == 0 {
                    assert(lines(s)[i] == first);
                } else {
                    assert(lines(s)[i] == lines(rest)[i - 1]);
                }
            }
        } else {
            assert(lines(s) == seq![s]);
            assert forall|i: int| 0 <= i < lines(s).len() implies !(#[trigger] lines(s)[i]).contains('\n') by {
                assert(lines(s)[i] == s);
                assert forall|j: int| 0 <= j < s.len() implies s[j] != '\n' by {
                    assert(other_than('\n')(s[j]));
                }
            }
        }
    }
}

/// Joining `p` in front of other pieces puts a newline after it.
pub proof fn lemma_join_front(p: Seq<char>, rest: Seq<Seq<char>>)
    requires
        rest.len() > 0,
    ensures
        join(seq![p] + rest) == p + seq!['\n'] + join(rest),
    decreases rest.len(),
{
    let ps = seq![p] + rest;
    if rest.len() == 1 {
        assert(ps.drop_last() =~= seq![p]);
        assert(ps.last() == rest[0]);
        assert(join(seq![p]) == p);
        assert(join(rest) == rest[0]);
        assert(join(ps) == join(ps.drop_last()) + seq!['\n'] + ps.last());
    } else {
        lemma_join_front(p, rest.drop_last());
        assert(ps.drop_last() =~= seq![p] + rest.drop_last());
        assert(ps.last() == rest.last());
        assert(join(ps) == join(ps.drop_last()) + seq!['\n'] + ps.last());
        assert(join(rest) == join(rest.drop_last()) + seq!['\n'] + rest.last());
        assert(p + seq!['\n'] + join(rest.drop_last()) + seq!['\n'] + rest.last() =~= p + seq!['\n']
            + (join(rest.drop_last()) + seq!['\n'] + rest.last()));
    }
}

/// Pieces that are not empty, hold no newline and do not end in a carriage
/// return come back as the lines of their join: `lines` undoes `join`.
pub proof fn lemma_lines_join(ps: Seq<Seq<char>>)
    requires
        forall|i: int|
            0 <= i < ps.len() ==> (#[trigger] ps[i]).len() > 0 && !ps[i].contains('\n') && ps[i].last()
                != '\r',
    ensures
        lines(join(ps)) == ps,
    decreases ps.len(),
{
    if ps.len() > 0 {
        let p = ps[0];
        let rest = ps.drop_first();
        assert forall|j: int| 0 <= j < p.len() implies other_than('\n')(#[trigger] p[j]) by {}
        if ps.len() == 1 {
            lemma_lead_len_skip(p, other_than('\n'), p.len() as int);
            assert(p.skip(p.len() as int).len() == 0);
            assert(join(ps) == p);
            assert(lines(p) == seq![p]);
            assert(ps =~= seq![p]);
        } else {
            assert(ps =~= seq![p] + rest);
            lemma_join_front(p, rest);
            let s = join(ps);
            assert(s == p + seq!['\n'] + join(rest));
            assert forall|j: int| 0 <= j < p.len() implies other_than('\n')(#[trigger] s[j]) by {
                assert(s[j] == p[j]);
            }
            lemma_lead_len_skip(s, other_than('\n'), p.len() as int);
            assert(s.skip(p.len() as int)[0] == '\n');
            assert(lead_len(s.skip(p.len() as int), other_than('\n')) == 0);
            let k = p.len() as int;
            assert(s.take(k) =~= p);
            assert(strip_cr(p) == p);
            assert(s.skip(k + 1) =~= join(rest));
            assert forall|i: int| 0 <= i < rest.len() implies (#[trigger] rest[i]).len() > 0
                && !rest[i].contains('\n') && rest[i].last() != '\r' by {
                assert(rest[i] == ps[i + 1]);
            }
            lemma_lines_join(rest);
            assert(lines(s) == seq![p] + rest);
        }
    }
}

/// The views of a sequence of character vectors.
pub open spec fn views(r: Seq<Vec<char>>) -> Seq<Seq<char>> {
    r.map_values(|x: Vec<char>| x@)
}

/// The lines of `v`, as `str::lines` gives them.
pub fn split_lines(v: &[char]) -> (r: Vec<Vec<char>>)
    ensures
        views(r@) == lines(v@),
{
    let mut r: Vec<Vec<char>> = Vec::new();
    let mut start: usize = 0;
    let mut i: usize = 0;
    assert(v@.skip(0) == v@);
    assert(views(r@) =~= Seq::<Seq<char>>::empty());
    while i < v.len()
        invariant
            start <= i <= v.len(),
            forall|j: int| start <= j < i ==> other_than('\n')(#[trigger] v@[j]),
            lines(v@) == views(r@) + lines(v@.skip(start as int)),
        decreases v.len() - i,
    {
        if v[i] == '\n' {
            let ghost t = v@.skip(start as int);
            proof {
                assert forall|j: int| 0 <= j < i - start implies other_than('\n')(#[trigger] t[j]) by {
                    assert(t[j] == v@[start + j]);
                }
                lemma_lead_len_skip(t, other_than('\n'), i - start);
                assert(t.skip(i - start)[0] == '\n');
                assert(t.len() > 0);
            }
            let piece = copy_range(v, start, i);
            let line = if piece.len() > 0 && piece[piece.len() - 1] == '\r' {
                copy_range(piece.as_slice(), 0, piece.len() - 1)
            } else {
                piece
            };
            proof {
                assert(t.take(i - start) == v@.subrange(start as int, i as int));
                assert(t.skip(i - start + 1) == v@.skip(i + 1));
                if piece@.len() > 0 && piece@.last() == '\r' {
                    assert(line@ == piece@.drop_last());
                }
                assert(line@ == strip_cr(t.take(i - start)));
            }
            let ghost before = views(r@);
            r.push(line);
            proof {
                assert(views(r@) =~= before.push(line@));
                assert(lines(t) == seq![line@] + lines(v@.skip(i + 1)));
                assert(views(r@) + lines(v@.skip(i + 1)) == before + lines(t));
            }
            start = i + 1;
        }
        i = i + 1;
    }
    if start < v.len() {
        let ghost t = v@.skip(start as int);
        proof {
            assert forall|j: int| 0 <= j < t.len() implies other_than('\n')(#[trigger] t[j]) by {
                assert(t[j] == v@[start + j]);
            }
            lemma_lead_len_skip(t, other_than('\n'), t.len() as int);
            assert(t.skip(t.len() as int).len() == 0);
        }
        let piece = copy_range(v, start, v.len());
        let ghost before = views(r@);
        r.push(piece);
        proof {
            assert(piece@ == t);
            assert(views(r@) =~= before.push(piece@));
            assert(lines(t) == seq![t]);
        }
    } else {
        assert(v@.skip(start as int).len() == 0);
        assert(views(r@) + lines(v@.skip(start as int)) == views(r@));
    }
    r
}

/// The index of the first `a` that `b` follows in `s`, if there is one.
pub open spec fn find_pair(s: Seq<char>, a: char, b: char) -> Option<int>
    decreases s.len(),
{
    if s.len() < 2 {
        None
    } else if s[0] == a && s[1] == b {
        Some(0)
    } else {
        match find_pair(s.drop_first(), a, b) {
            Some(k) => Some(k + 1),
            None => None,
        }
    }
}

/// Whether `s` has `a` at index `k`, followed by `b`.
pub open spec fn pair_at(s: Seq<char>, a: char, b: char, k: int) -> bool {
    0 <= k && k + 1 < s.len() && s[k] == a && s[k + 1] == b
}

/// The index of the first `//` in `s`, if there is one.
pub open spec fn find_comment(s: Seq<char>) -> Option<int> {
    find_pair(s, '/', '/')
}

/// Searching for a pair after a prefix that holds none gives the same
/// index as searching from the start.
pub proof fn lemma_find_pair_skip(s: Seq<char>, a: char, b: char, i: int)
    requires
        0 <= i <= s.len(),
        forall|j: int| 0 <= j < i ==> !pair_at(s, a, b, j),
    ensures
        find_pair(s, a, b) == (match find_pair(s.skip(i), a, b) {
            Some(k) => Some(k + i),
            None => None::<int>,
        }),
    decreases i,
{
    if i == 0 {
        assert(s.skip(0) == s);
        match find_pair(s, a, b) {
            Some(k) => {},
            None => {},
        }
    } else {
        let t = s.drop_first();
        assert(!pair_at(s, a, b, 0));
        assert forall|j: int| 0 <= j < i - 1 implies !pair_at(t, a, b, j) by {
            assert(!pair_at(s, a, b, j + 1));
            if j + 1 < t.len() {
                assert(t[j] == s[j + 1] && t[j + 1] == s[j + 2]);
            }
        }
        lemma_find_pair_skip(t, a, b, i - 1);
        assert(t.skip(i - 1) == s.skip(i));
    }
}

/// `find_pair` gives the first index of the pair, or `None` when there is
/// none.
pub proof fn lemma_find_pair_facts(s: Seq<char>, a: char, b: char)
    ensures
        find_pair(s, a, b) matches Some(k) ==> pair_at(s, a, b, k) && forall|j: int|
            0 <= j < k ==> !pair_at(s, a, b, j),
        find_pair(s, a, b) is None ==> forall|j: int| !pair_at(s, a, b, j),
    decreases s.len(),
{
    if s.len() >= 2 && !(s[0] == a && s[1] == b) {
        let t = s.drop_first();
        lemma_find_pair_facts(t, a, b);
        assert forall|j: int| pair_at(s, a, b, j) && j > 0 implies pair_at(t, a, b, j - 1) by {}
        match find_pair(t, a, b) {
            Some(k) => {
                assert(pair_at(t, a, b, k));
                assert(s[k + 1] == t[k] && s[k + 2] == t[k + 1]);
                assert forall|j: int| 0 <= j < k + 1 implies !pair_at(s, a, b, j) by {
                    if j > 0 && pair_at(s, a, b, j) {
                        assert(pair_at(t, a, b, j - 1));
                    }
                }
            },
            None => {
                assert forall|j: int| !pair_at(s, a, b, j) by {
                    if j > 0 && pair_at(s, a, b, j) {
                        assert(pair_at(t, a, b, j - 1));
                    }
                }
            },
        }
    }
}

/// Index of the first `a` in `v` that `b` follows, if there is one.
pub fn find_pair_start(v: &[char], a: char, b: char) -> (r: Option<usize>)
    ensures
        r matches Some(k) ==> find_pair(v@, a, b) == Some(k as int) && k + 1 < v.len(),
        r is None ==> find_pair(v@, a, b) is None,
{
    let mut i: usize = 0;
    while v.len() > 0 && i < v.len() - 1
        invariant
            i <= v.len(),
            forall|j: int| 0 <= j < i ==> !pair_at(v@, a, b, j),
        decreases v.len() - i,
    {
        if v[i] == a && v[i + 1] == b {
            proof {
                lemma_find_pair_skip(v@, a, b, i as int);
                assert(v@.skip(i as int)[0] == a && v@.skip(i as int)[1] == b);
            }
            return Some(i);
        }
        i = i + 1;
    }
    proof {
        lemma_find_pair_skip(v@, a, b, i as int);
        assert(v@.skip(i as int).len() < 2);
    }
    None
}

/// Index of the first `//` in `v`, if there is one.
pub fn find_comment_start(v: &[char]) -> (r: Option<usize>)
    ensures
        r matches Some(k) ==> find_comment(v@) == Some(k as int) && k + 1 < v.len(),
        r is None ==> find_comment(v@) is None,
{
    find_pair_start(v, '/', '/')
}

/// `v` without the characters of `set` at its front and back
/// (`str::trim_matches` with a set of characters).
pub fn trim_set_chars(v: &[char], set: &[char]) -> (r: Vec<char>)
    ensures
        r@ == trim_matches(v@, set@),
{
    let a = lead_in_set_len(v, set);
    proof {
        lemma_lead_len_bound(v@, in_set(set@));
    }
    let rest = copy_range(v, a, v.len());
    let b = trail_in_set_len(rest.as_slice(), set);
    proof {
        lemma_trail_len_bound(rest@, in_set(set@));
    }
    copy_range(rest.as_slice(), 0, rest.len() - b)
}

/// Appends the characters of `p` to `out`.
pub fn append_chars(out: &mut Vec<char>, p: &[char])
    ensures
        final(out)@ == old(out)@ + p@,
{
    let mut i: usize = 0;
    while i < p.len()
        invariant
            i <= p.len(),
            out@ == old(out)@ + p@.take(i as int),
        decreases p.len() - i,
    {
        out.push(p[i]);
        assert(p@.take(i + 1) == p@.take(i as int).push(p@[i as int]));
        i = i + 1;
    }
    assert(p@.take(p.len() as int) == p@);
}

/// The pieces `ps` joined by newlines.
pub open spec fn join(ps: Seq<Seq<char>>) -> Seq<char>
    decreases ps.len(),
{
    if ps.len() == 0 {
        seq![]
    } else if ps.len() == 1 {
        ps[0]
    } else {
        join(ps.drop_last()) + seq!['\n'] + ps.last()
    }
}

/// Adds `p` as the last of the pieces of `out`, which holds `count` pieces
/// joined by newlines.
pub(crate) fn join_push(out: &mut Vec<char>, count: usize, p: &[char], Ghost(ps): Ghost<Seq<Seq<char>>>)
    requires
        old(out)@ == join(ps),
        count == ps.len(),
    ensures
        final(out)@ == join(ps.push(p@)),
{
    if count > 0 {
        out.push('\n');
    }
    append_chars(out, p);
    assert(ps.push(p@).drop_last() == ps);
}

/// The index of the first `c` in `v[from..to]`, counted from the start of `v`.
pub fn find_char_in(v: &[char], from: usize, to: usize, c: char) -> (r: Option<usize>)
    requires
        from <= to <= v.len(),
    ensures
        r matches Some(k) ==> from <= k < to && first_of(v@.subrange(from as int, to as int), c)
            == Some(k - from),
        r is None ==> first_of(v@.subrange(from as int, to as int), c) is None,
{
    let part = copy_range(v, from, to);
    match find_char(part.as_slice(), c) {
        Some(k) => {
            proof {
                lemma_lead_len_bound(part@, other_than(c));
            }
            Some(from + k)
        },
        None => None,
    }
}


/// Whether `a` and `b` hold the same characters.
pub fn chars_eq(a: &[char], b: &[char]) -> (r: bool)
    ensures
        r == (a@ == b@),
{
    if a.len() != b.len() {
        return false;
    }
    let r = has_prefix(a, b);
    proof {
        assert(a@.take(b@.len() as int) == a@);
    }
    r
}


/// Whether `a` and `b` are the same text.
pub fn same_text(a: &str, b: &str) -> (r: bool)
    ensures
        r == (a@ == b@),
{
    let x = chars_of(a);
    let y = chars_of(b);
    chars_eq(x.as_slice(), y.as_slice())
}

/// Whether the text `s` starts with the text `p`.
pub fn text_starts_with(s: &str, p: &str) -> (r: bool)
    ensures
        r == starts_with(s@, p@),
{
    let x = chars_of(s);
    let y = chars_of(p);
    has_prefix(x.as_slice(), y.as_slice())
}

/// The text `a`, a dot, and the text `b`.
pub fn dotted(a: &str, b: &str) -> (r: String)
    ensures
        r@ == a@ + seq!['.'] + b@,
{
    let mut v = chars_of(a);
    v.push('.');
    let y = chars_of(b);
    append_chars(&mut v, y.as_slice());
    string_of(v.as_slice())
}

/// The text `a` followed by the text `b`.
pub fn concat_text(a: &str, b: &str) -> (r: String)
    ensures
        r@ == a@ + b@,
{
    let mut v = chars_of(a);
    let y = chars_of(b);
    append_chars(&mut v, y.as_slice());
    string_of(v.as_slice())
}

/// Whether `b` begins with `a`.
pub open spec fn extends(a: Seq<char>, b: Seq<char>) -> bool {
    a.len() <= b.len() && b.take(a.len() as int) == a
}

/// Extending is transitive.
pub broadcast proof fn lemma_extends_trans(a: Seq<char>, b: Seq<char>, c: Seq<char>)
    requires
        #[trigger] extends(a, b),
        #[trigger] extends(b, c),
    ensures
        extends(a, c),
{
    assert(c.take(a.len() as int) == c.take(b.len() as int).take(a.len() as int));
}

/// Appending extends.
pub broadcast proof fn lemma_extends_append(a: Seq<char>, x: Seq<char>)
    ensures
        #![trigger a + x]
        extends(a, a + x),
{
    assert((a + x).take(a.len() as int) == a);
}

/// Every sequence extends itself.
pub broadcast proof fn lemma_extends_refl(a: Seq<char>)
    ensures
        #[trigger] extends(a, a),
{
    assert(a.take(a.len() as int) == a);
}

pub broadcast group group_extends {
    lemma_extends_trans,
    lemma_extends_append,
    lemma_extends_refl,
}

} // verus!
