//! Character-level text utilities with exact specifications.
//!
//! Text is handled as sequences of `char`. Each executable function here is
//! proved equal to a spec function that mirrors the behaviour of the
//! corresponding `str` method of the standard library (`lines`, `split`,
//! `split_whitespace`, `trim`, `replace`, `parse::<u64>`, ...).
use crate::format::join_with;
use vstd::prelude::*;
use vstd::std_specs::iter::IteratorSpec;

verus! {

/// `String::push` appends one character to the end of the string.
pub assume_specification[ String::push ](s: &mut String, ch: char)
    ensures
        final(s)@ == old(s)@.push(ch),
;

// ---------------------------------------------------------------------------
// Conversions between strings and character vectors
// ---------------------------------------------------------------------------

/// The characters of a string slice, in order.
pub fn chars_of(s: &str) -> (v: Vec<char>)
    ensures
        v@ == s@,
{
    broadcast use vstd::string::group_string_axioms;

    let mut v: Vec<char> = Vec::new();
    for c in it: s.chars()
        invariant
            it.seq() == s@,
            v@ == s@.take(it.index() as int),
    {
        v.push(c);
    }
    v
}

/// A string holding exactly the given characters.
pub fn string_of(v: &[char]) -> (s: String)
    ensures
        s@ == v@,
{
    let mut s = String::new();
    let mut i: usize = 0;
    while i < v.len()
        invariant
            i <= v.len(),
            s@ == v@.subrange(0, i as int),
        decreases v.len() - i,
    {
        s.push(v[i]);
        i = i + 1;
    }
    s
}

/// Appends all characters of `src` to `dst`.
pub fn push_all(dst: &mut Vec<char>, src: &[char])
    ensures
        final(dst)@ == old(dst)@ + src@,
{
    let mut i: usize = 0;
    while i < src.len()
        invariant
            i <= src.len(),
            dst@ == old(dst)@ + src@.subrange(0, i as int),
        decreases src.len() - i,
    {
        dst.push(src[i]);
        i = i + 1;
        proof {
            assert(src@.subrange(0, i as int) == src@.subrange(0, i - 1).push(src@[i - 1]));
        }
    }
    proof {
        assert(src@.subrange(0, src@.len() as int) == src@);
    }
}

/// Appends the characters of a string slice to `dst`.
pub fn push_str(dst: &mut Vec<char>, s: &str)
    ensures
        final(dst)@ == old(dst)@ + s@,
{
    let cs = chars_of(s);
    push_all(dst, cs.as_slice());
}

/// The concatenation of two character sequences.
pub fn concat(a: &[char], b: &[char]) -> (r: Vec<char>)
    ensures
        r@ == a@ + b@,
{
    let mut r: Vec<char> = Vec::new();
    push_all(&mut r, a);
    push_all(&mut r, b);
    proof {
        assert(Seq::<char>::empty() + a@ == a@);
    }
    r
}

/// A copy of `s[from..to]`.
pub fn slice_copy(s: &[char], from: usize, to: usize) -> (r: Vec<char>)
    requires
        from <= to <= s@.len(),
    ensures
        r@ == s@.subrange(from as int, to as int),
{
    let mut r: Vec<char> = Vec::new();
    let mut i = from;
    while i < to
        invariant
            from <= i <= to <= s@.len(),
            r@ == s@.subrange(from as int, i as int),
        decreases to - i,
    {
        r.push(s[i]);
        i = i + 1;
        proof {
            assert(s@.subrange(from as int, i as int) == s@.subrange(from as int, i - 1).push(
                s@[i - 1],
            ));
        }
    }
    r
}

/// Whether two character sequences are equal.
pub fn chars_eq(a: &[char], b: &[char]) -> (r: bool)
    ensures
        r == (a@ == b@),
{
    if a.len() != b.len() {
        return false;
    }
    let mut i: usize = 0;
    while i < a.len()
        invariant
            i <= a.len(),
            a@.len() == b@.len(),
            a@.subrange(0, i as int) == b@.subrange(0, i as int),
        decreases a.len() - i,
    {
        if a[i] != b[i] {
            proof {
                assert(a@[i as int] != b@[i as int]);
            }
            return false;
        }
        i = i + 1;
        proof {
            assert(a@.subrange(0, i as int) == a@.subrange(0, i - 1).push(a@[i - 1]));
            assert(b@.subrange(0, i as int) == b@.subrange(0, i - 1).push(b@[i - 1]));
        }
    }
    proof {
        assert(a@.subrange(0, a@.len() as int) == a@);
        assert(b@.subrange(0, b@.len() as int) == b@);
    }
    true
}

/// Whether a character sequence equals a string literal.
pub fn chars_eq_str(a: &[char], s: &str) -> (r: bool)
    ensures
        r == (a@ == s@),
{
    let cs = chars_of(s);
    chars_eq(a, cs.as_slice())
}

// ---------------------------------------------------------------------------
// Prefixes and suffixes
// ---------------------------------------------------------------------------

/// `s` starts with `p` (as `str::starts_with`).
pub open spec fn has_prefix(s: Seq<char>, p: Seq<char>) -> bool {
    p.len() <= s.len() && s.take(p.len() as int) == p
}

/// `s` ends with `p` (as `str::ends_with`).
pub open spec fn has_suffix(s: Seq<char>, p: Seq<char>) -> bool {
    p.len() <= s.len() && s.skip(s.len() - p.len()) == p
}

/// Whether `s[at..]` starts with `p`.
pub fn matches_at(s: &[char], at: usize, p: &[char]) -> (r: bool)
    requires
        at <= s@.len(),
    ensures
        r == has_prefix(s@.skip(at as int), p@),
{
    if p.len() > s.len() - at {
        return false;
    }
    let mut i: usize = 0;
    while i < p.len()
        invariant
            at <= s@.len(),
            p@.len() <= s@.len() - at,
            at + p@.len() <= s@.len(),
            i <= p.len(),
            forall|k: int| 0 <= k < i ==> s@[at + k] == p@[k],
        decreases p.len() - i,
    {
        assert(at + i < s.len());
        if s[at + i] != p[i] {
            proof {
                assert(s@.skip(at as int).take(p@.len() as int)[i as int] != p@[i as int]);
            }
            return false;
        }
        i = i + 1;
    }
    proof {
        assert(s@.skip(at as int).take(p@.len() as int) =~= p@);
    }
    true
}

/// Whether `s` starts with `p`.
pub fn starts_with(s: &[char], p: &[char]) -> (r: bool)
    ensures
        r == has_prefix(s@, p@),
{
    proof {
        assert(s@.skip(0) == s@);
    }
    matches_at(s, 0, p)
}

/// Whether `s` ends with `p`.
pub fn ends_with(s: &[char], p: &[char]) -> (r: bool)
    ensures
        r == has_suffix(s@, p@),
{
    if p.len() > s.len() {
        return false;
    }
    let r = matches_at(s, s.len() - p.len(), p);
    proof {
        assert(s@.skip(s@.len() - p@.len()).len() == p@.len());
        assert(s@.skip(s@.len() - p@.len()).take(p@.len() as int) == s@.skip(
            s@.len() - p@.len(),
        ));
    }
    r
}

/// `s` with the prefix `p` removed, if it has that prefix (as `str::strip_prefix`).
pub fn strip_prefix(s: &[char], p: &[char]) -> (r: Option<Vec<char>>)
    ensures
        match r {
            Some(rest) => has_prefix(s@, p@) && rest@ == s@.skip(p@.len() as int),
            None => !has_prefix(s@, p@),
        },
{
    if starts_with(s, p) {
        Some(slice_copy(s, p.len(), s.len()))
    } else {
        None
    }
}

// ---------------------------------------------------------------------------
// Whitespace and trimming
// ---------------------------------------------------------------------------

/// The Unicode `White_Space` property, as `char::is_whitespace` decides it.
pub open spec fn is_ws(c: char) -> bool {
    let u = c as u32;
    ||| u == 0x20
    ||| 0x09 <= u <= 0x0d
    ||| u == 0x85
    ||| u == 0xa0
    ||| u == 0x1680
    ||| 0x2000 <= u <= 0x200a
    ||| u == 0x2028
    ||| u == 0x2029
    ||| u == 0x202f
    ||| u == 0x205f
    ||| u == 0x3000
}

/// Whether `c` is whitespace.
pub fn is_whitespace(c: char) -> (r: bool)
    ensures
        r == is_ws(c),
{
    let u = c as u32;
    u == 0x20 || (0x09 <= u && u <= 0x0d) || u == 0x85 || u == 0xa0 || u == 0x1680 || (0x2000
        <= u && u <= 0x200a) || u == 0x2028 || u == 0x2029 || u == 0x202f || u == 0x205f || u
        == 0x3000
}

/// `s` without leading whitespace.
pub open spec fn trim_start(s: Seq<char>) -> Seq<char>
    decreases s.len(),
{
    if s.len() > 0 && is_ws(s[0]) {
        trim_start(s.drop_first())
    } else {
        s
    }
}

/// `s` without trailing whitespace.
pub open spec fn trim_end(s: Seq<char>) -> Seq<char>
    decreases s.len(),
{
    if s.len() > 0 && is_ws(s.last()) {
        trim_end(s.drop_last())
    } else {
        s
    }
}

/// `s` without leading and trailing whitespace (as `str::trim`).
pub open spec fn trim(s: Seq<char>) -> Seq<char> {
    trim_end(trim_start(s))
}

proof fn lemma_trim_start_skip(s: Seq<char>, i: int)
    requires
        0 <= i <= s.len(),
        forall|k: int| 0 <= k < i ==> is_ws(#[trigger] s[k]),
    ensures
        trim_start(s) == trim_start(s.skip(i)),
    decreases i,
{
    if i > 0 {
        assert(s.drop_first().skip(i - 1) == s.skip(i));
        lemma_trim_start_skip(s.drop_first(), i - 1);
    } else {
        assert(s.skip(0) == s);
    }
}

proof fn lemma_trim_end_take(s: Seq<char>, j: int)
    requires
        0 <= j <= s.len(),
        forall|k: int| j <= k < s.len() ==> is_ws(#[trigger] s[k]),
    ensures
        trim_end(s) == trim_end(s.take(j)),
    decreases s.len() - j,
{
    if j < s.len() {
        assert(s.drop_last().take(j) == s.take(j));
        lemma_trim_end_take(s.drop_last(), j);
    } else {
        assert(s.take(j) == s);
    }
}

/// The index of the first non-whitespace character of `s[from..]`, or `s.len()`.
fn skip_ws(s: &[char], from: usize) -> (i: usize)
    requires
        from <= s@.len(),
    ensures
        from <= i <= s@.len(),
        forall|k: int| from <= k < i ==> is_ws(#[trigger] s@[k]),
        i < s@.len() ==> !is_ws(s@[i as int]),
{
    let mut i = from;
    while i < s.len() && is_whitespace(s[i])
        invariant
            from <= i <= s@.len(),
            forall|k: int| from <= k < i ==> is_ws(#[trigger] s@[k]),
        decreases s.len() - i,
    {
        i = i + 1;
    }
    i
}

/// `s` without leading and trailing whitespace.
pub fn trim_chars(s: &[char]) -> (r: Vec<char>)
    ensures
        r@ == trim(s@),
{
    let i = skip_ws(s, 0);
    proof {
        lemma_trim_start_skip(s@, i as int);
    }
    let mut j = s.len();
    while j > i && is_whitespace(s[j - 1])
        invariant
            i <= j <= s@.len(),
            forall|k: int| j <= k < s@.len() ==> is_ws(#[trigger] s@[k]),
        decreases j,
    {
        j = j - 1;
    }
    let r = slice_copy(s, i, j);
    proof {
        let t = s@.skip(i as int);
        assert(i < s@.len() ==> t.len() > 0 && t[0] == s@[i as int]);
        assert(trim_start(t) == t);
        lemma_trim_end_take(t, (j - i) as int);
        assert(t.take((j - i) as int) == s@.subrange(i as int, j as int));
        let u = t.take((j - i) as int);
        if j > i {
            assert(u.last() == s@[j - 1]);
        } else {
            assert(u.len() == 0);
        }
        assert(trim_end(u) == u);
    }
    r
}

// ---------------------------------------------------------------------------
// Splitting
// ---------------------------------------------------------------------------

/// The character sequences held by a sequence of strings.
pub open spec fn string_views(v: Seq<String>) -> Seq<Seq<char>> {
    v.map_values(|x: String| x@)
}

/// The character sequences held by a sequence of character vectors.
pub open spec fn char_views(v: Seq<Vec<char>>) -> Seq<Seq<char>> {
    v.map_values(|x: Vec<char>| x@)
}

/// The length of the leading run of characters of `s` different from `c`.
pub open spec fn run_len(s: Seq<char>, c: char) -> nat
    decreases s.len(),
{
    if s.len() == 0 || s[0] == c {
        0
    } else {
        1 + run_len(s.drop_first(), c)
    }
}

/// The pieces of `s` between occurrences of `c` (as `str::split` with a `char`).
pub open spec fn split_on(s: Seq<char>, c: char) -> Seq<Seq<char>>
    decreases s.len(),
{
    let n = run_len(s, c);
    if n < s.len() {
        seq![s.take(n as int)] + split_on(s.skip((n + 1) as int), c)
    } else {
        seq![s]
    }
}

/// `l` without one trailing carriage return.
pub open spec fn strip_cr(l: Seq<char>) -> Seq<char> {
    if l.len() > 0 && l.last() == '\r' {
        l.drop_last()
    } else {
        l
    }
}

/// The lines of `s` (as `str::lines`): pieces ended by `\n` or `\r\n`, the
/// final line ending being optional.
pub open spec fn lines(s: Seq<char>) -> Seq<Seq<char>>
    decreases s.len(),
{
    if s.len() == 0 {
        seq![]
    } else {
        let n = run_len(s, '\n');
        if n < s.len() {
            seq![strip_cr(s.take(n as int))] + lines(s.skip((n + 1) as int))
        } else {
            seq![s]
        }
    }
}

/// The length of the leading run of non-whitespace characters of `s`.
pub open spec fn word_len(s: Seq<char>) -> nat
    decreases s.len(),
{
    if s.len() == 0 || is_ws(s[0]) {
        0
    } else {
        1 + word_len(s.drop_first())
    }
}

/// The whitespace-separated words of `s` (as `str::split_whitespace`).
pub open spec fn words(s: Seq<char>) -> Seq<Seq<char>>
    decreases s.len(),
{
    if s.len() == 0 {
        seq![]
    } else if is_ws(s[0]) {
        words(s.drop_first())
    } else {
        let n = word_len(s);
        proof {
            lemma_word_len_le(s);
        }
        seq![s.take(n as int)] + words(s.skip(n as int))
    }
}

proof fn lemma_run_len_step(s: Seq<char>, i: int, c: char)
    requires
        0 <= i < s.len(),
        s[i] != c,
    ensures
        run_len(s.skip(i), c) == 1 + run_len(s.skip(i + 1), c),
{
    assert(s.skip(i).drop_first() == s.skip(i + 1));
}

proof fn lemma_word_len_step(s: Seq<char>, i: int)
    requires
        0 <= i < s.len(),
        !is_ws(s[i]),
    ensures
        word_len(s.skip(i)) == 1 + word_len(s.skip(i + 1)),
{
    assert(s.skip(i).drop_first() == s.skip(i + 1));
}

pub proof fn lemma_run_len_le(s: Seq<char>, c: char)
    ensures
        run_len(s, c) <= s.len(),
        run_len(s, c) < s.len() ==> s[run_len(s, c) as int] == c,
        forall|k: int| 0 <= k < run_len(s, c) ==> s[k] != c,
    decreases s.len(),
{
    if s.len() > 0 && s[0] != c {
        lemma_run_len_le(s.drop_first(), c);
        assert forall|k: int| 0 <= k < run_len(s, c) implies s[k] != c by {
            if k > 0 {
                assert(s[k] == s.drop_first()[k - 1]);
            }
        }
    }
}

pub proof fn lemma_word_len_le(s: Seq<char>)
    ensures
        word_len(s) <= s.len(),
    decreases s.len(),
{
    if s.len() > 0 && !is_ws(s[0]) {
        lemma_word_len_le(s.drop_first());
    }
}

/// The index of the first `c` in `s[from..]`, or `s.len()`.
pub fn find_char(s: &[char], from: usize, c: char) -> (i: usize)
    requires
        from <= s@.len(),
    ensures
        from <= i <= s@.len(),
        i == from + run_len(s@.skip(from as int), c),
        i < s@.len() ==> s@[i as int] == c,
        forall|k: int| from <= k < i ==> s@[k] != c,
{
    let mut i = from;
    while i < s.len() && s[i] != c
        invariant
            from <= i <= s@.len(),
            run_len(s@.skip(from as int), c) == (i - from) + run_len(s@.skip(i as int), c),
            forall|k: int| from <= k < i ==> s@[k] != c,
        decreases s.len() - i,
    {
        proof {
            lemma_run_len_step(s@, i as int, c);
        }
        i = i + 1;
    }
    proof {
        if i < s.len() {
            assert(s@.skip(i as int)[0] == c);
        } else {
            assert(s@.skip(i as int).len() == 0);
        }
    }
    i
}

/// The pieces of `s` between occurrences of `c`.
pub fn split_char(s: &[char], c: char) -> (r: Vec<Vec<char>>)
    ensures
        char_views(r@) == split_on(s@, c),
{
    let mut r: Vec<Vec<char>> = Vec::new();
    let mut start: usize = 0;
    proof {
        assert(char_views(r@) =~= Seq::<Seq<char>>::empty());
        assert(s@.skip(0) == s@);
    }
    loop
        invariant
            start <= s@.len(),
            split_on(s@, c) == char_views(r@) + split_on(s@.skip(start as int), c),
        decreases s@.len() - start,
    {
        let end = find_char(s, start, c);
        let piece = slice_copy(s, start, end);
        let ghost rest = s@.skip(start as int);
        proof {
            assert(rest.take((end - start) as int) == s@.subrange(start as int, end as int));
        }
        if end < s.len() {
            proof {
                assert(rest.skip((end - start) + 1) == s@.skip(end + 1));
                assert(split_on(rest, c) == seq![piece@] + split_on(s@.skip(end + 1), c));
            }
            let ghost old_r = char_views(r@);
            r.push(piece);
            proof {
                assert(char_views(r@) =~= old_r.push(piece@));
                assert(old_r + (seq![piece@] + split_on(s@.skip(end + 1), c)) == old_r.push(
                    piece@,
                ) + split_on(s@.skip(end + 1), c));
            }
            start = end + 1;
        } else {
            proof {
                assert(rest.take((end - start) as int) == rest);
                assert(split_on(rest, c) == seq![rest]);
            }
            let ghost old_r = char_views(r@);
            r.push(piece);
            proof {
                assert(char_views(r@) =~= old_r.push(piece@));
                assert(old_r + seq![rest] == old_r.push(rest));
            }
            return r;
        }
    }
}

/// The lines of `s`.
pub fn lines_of(s: &[char]) -> (r: Vec<Vec<char>>)
    ensures
        char_views(r@) == lines(s@),
{
    let mut r: Vec<Vec<char>> = Vec::new();
    let mut start: usize = 0;
    proof {
        assert(char_views(r@) =~= Seq::<Seq<char>>::empty());
        assert(s@.skip(0) == s@);
    }
    while start < s.len()
        invariant
            start <= s@.len(),
            lines(s@) == char_views(r@) + lines(s@.skip(start as int)),
        decreases s@.len() - start,
    {
        let end = find_char(s, start, '\n');
        let ghost rest = s@.skip(start as int);
        proof {
            assert(rest.take((end - start) as int) == s@.subrange(start as int, end as int));
        }
        if end < s.len() {
            let mut line_end = end;
            if end > start && s[end - 1] == '\r' {
                line_end = end - 1;
            }
            let piece = slice_copy(s, start, line_end);
            proof {
                assert(rest.skip((end - start) + 1) == s@.skip(end + 1));
                let l = rest.take((end - start) as int);
                if end > start && s@[end - 1] == '\r' {
                    assert(l.last() == '\r');
                    assert(strip_cr(l) == l.drop_last());
                    assert(l.drop_last() == s@.subrange(start as int, line_end as int));
                } else {
                    assert(strip_cr(l) == l);
                }
                assert(strip_cr(l) == piece@);
                assert(lines(rest) == seq![piece@] + lines(s@.skip(end + 1)));
            }
            let ghost old_r = char_views(r@);
            r.push(piece);
            proof {
                assert(char_views(r@) =~= old_r.push(piece@));
                assert(old_r + (seq![piece@] + lines(s@.skip(end + 1))) == old_r.push(piece@)
                    + lines(s@.skip(end + 1)));
            }
            start = end + 1;
        } else {
            let piece = slice_copy(s, start, end);
            proof {
                assert(rest.take((end - start) as int) == rest);
                assert(lines(rest) == seq![rest]);
            }
            let ghost old_r = char_views(r@);
            r.push(piece);
            proof {
                assert(char_views(r@) =~= old_r.push(piece@));
                assert(old_r + seq![rest] == old_r.push(rest));
                assert(s@.skip(s@.len() as int).len() == 0);
            }
            return r;
        }
    }
    proof {
        assert(s@.skip(start as int).len() == 0);
        assert(char_views(r@) + seq![] == char_views(r@));
    }
    r
}

/// The whitespace-separated words of `s`.
pub fn words_of(s: &[char]) -> (r: Vec<Vec<char>>)
    ensures
        char_views(r@) == words(s@),
{
    let mut r: Vec<Vec<char>> = Vec::new();
    let mut i: usize = 0;
    proof {
        assert(char_views(r@) =~= Seq::<Seq<char>>::empty());
        assert(s@.skip(0) == s@);
    }
    while i < s.len()
        invariant
            i <= s@.len(),
            words(s@) == char_views(r@) + words(s@.skip(i as int)),
        decreases s@.len() - i,
    {
        if is_whitespace(s[i]) {
            proof {
                assert(s@.skip(i as int).drop_first() == s@.skip(i + 1));
            }
            i = i + 1;
        } else {
            let mut j = i;
            while j < s.len() && !is_whitespace(s[j])
                invariant
                    i <= j <= s@.len(),
                    word_len(s@.skip(i as int)) == (j - i) + word_len(s@.skip(j as int)),
                decreases s@.len() - j,
            {
                proof {
                    lemma_word_len_step(s@, j as int);
                }
                j = j + 1;
            }
            proof {
                if j < s.len() {
                    assert(s@.skip(j as int)[0] == s@[j as int]);
                } else {
                    assert(s@.skip(j as int).len() == 0);
                }
                assert(word_len(s@.skip(j as int)) == 0);
            }
            let piece = slice_copy(s, i, j);
            let ghost rest = s@.skip(i as int);
            proof {
                assert(rest.take((j - i) as int) == piece@);
                assert(rest.skip((j - i) as int) == s@.skip(j as int));
                assert(words(rest) == seq![piece@] + words(s@.skip(j as int)));
            }
            let ghost old_r = char_views(r@);
            r.push(piece);
            proof {
                assert(char_views(r@) =~= old_r.push(piece@));
                assert(old_r + (seq![piece@] + words(s@.skip(j as int))) == old_r.push(piece@)
                    + words(s@.skip(j as int)));
            }
            i = j;
        }
    }
    proof {
        assert(s@.skip(i as int).len() == 0);
        assert(char_views(r@) + seq![] == char_views(r@));
    }
    r
}

// ---------------------------------------------------------------------------
// Replacement
// ---------------------------------------------------------------------------

/// `s` with every non-overlapping occurrence of the non-empty pattern `p`,
/// scanned from the left, replaced by `rep` (as `str::replace`).
pub open spec fn replace_all(s: Seq<char>, p: Seq<char>, rep: Seq<char>) -> Seq<char>
    recommends
        p.len() > 0,
    decreases s.len(),
{
    if s.len() == 0 || p.len() == 0 {
        s
    } else if has_prefix(s, p) {
        rep + replace_all(s.skip(p.len() as int), p, rep)
    } else {
        seq![s[0]] + replace_all(s.drop_first(), p, rep)
    }
}

/// `s` with every occurrence of `p` replaced by `rep`.
pub fn replace_chars(s: &[char], p: &[char], rep: &[char]) -> (r: Vec<char>)
    requires
        p@.len() > 0,
    ensures
        r@ == replace_all(s@, p@, rep@),
{
    let mut r: Vec<char> = Vec::new();
    let mut i: usize = 0;
    proof {
        assert(s@.skip(0) == s@);
        assert(r@ + replace_all(s@, p@, rep@) == replace_all(s@, p@, rep@));
    }
    while i < s.len()
        invariant
            i <= s@.len(),
            p@.len() > 0,
            replace_all(s@, p@, rep@) == r@ + replace_all(s@.skip(i as int), p@, rep@),
        decreases s@.len() - i,
    {
        let ghost rest = s@.skip(i as int);
        if matches_at(s, i, p) {
            proof {
                assert(rest.skip(p@.len() as int) == s@.skip(i + p@.len()));
                assert(replace_all(rest, p@, rep@) == rep@ + replace_all(
                    s@.skip(i + p@.len()),
                    p@,
                    rep@,
                ));
            }
            let ghost old_r = r@;
            push_all(&mut r, rep);
            proof {
                assert(old_r + (rep@ + replace_all(s@.skip(i + p@.len()), p@, rep@)) == (old_r
                    + rep@) + replace_all(s@.skip(i + p@.len()), p@, rep@));
            }
            i = i + p.len();
        } else {
            proof {
                assert(rest.drop_first() == s@.skip(i + 1));
                assert(rest[0] == s@[i as int]);
            }
            let ghost old_r = r@;
            r.push(s[i]);
            proof {
                assert(old_r + (seq![s@[i as int]] + replace_all(s@.skip(i + 1), p@, rep@)) == (
                old_r.push(s@[i as int])) + replace_all(s@.skip(i + 1), p@, rep@));
            }
            i = i + 1;
        }
    }
    proof {
        assert(s@.skip(i as int).len() == 0);
        assert(r@ + Seq::<char>::empty() == r@);
    }
    r
}

// ---------------------------------------------------------------------------
// Decimal numbers
// ---------------------------------------------------------------------------

/// Whether `c` is an ASCII decimal digit.
pub open spec fn is_digit(c: char) -> bool {
    '0' <= c <= '9'
}

/// The value of the ASCII digit `c`.
pub open spec fn digit_value(c: char) -> nat {
    (c as u32 - '0' as u32) as nat
}

/// Whether `s` consists of ASCII digits only.
pub open spec fn all_digits(s: Seq<char>) -> bool {
    forall|i: int| 0 <= i < s.len() ==> is_digit(#[trigger] s[i])
}

/// The value of a string of decimal digits.
pub open spec fn digits_value(s: Seq<char>) -> nat
    decreases s.len(),
{
    if s.len() == 0 {
        0
    } else {
        digits_value(s.drop_last()) * 10 + digit_value(s.last())
    }
}

/// The digits of `s`, that is `s` without one leading `+` sign.
pub open spec fn unsigned_digits(s: Seq<char>) -> Seq<char> {
    if s.len() > 0 && s[0] == '+' {
        s.drop_first()
    } else {
        s
    }
}

/// The result of `str::parse::<u64>`: an optional `+`, then at least one
/// digit, and a value that fits.
pub open spec fn parse_u64_spec(s: Seq<char>) -> Option<u64> {
    let d = unsigned_digits(s);
    if d.len() > 0 && all_digits(d) && digits_value(d) <= u64::MAX {
        Some(digits_value(d) as u64)
    } else {
        None
    }
}

proof fn lemma_digits_value_prefix(s: Seq<char>, i: int)
    requires
        0 <= i <= s.len(),
        all_digits(s),
    ensures
        digits_value(s.take(i)) <= digits_value(s),
    decreases s.len() - i,
{
    if i < s.len() {
        lemma_digits_value_prefix(s, i + 1);
        assert(s.take(i + 1).drop_last() == s.take(i));
    } else {
        assert(s.take(i) == s);
    }
}

/// Parses an unsigned decimal integer, as `str::parse::<u64>` does.
pub fn parse_u64(s: &[char]) -> (r: Option<u64>)
    ensures
        r == parse_u64_spec(s@),
{
    let mut i: usize = 0;
    if s.len() > 0 && s[0] == '+' {
        i = 1;
    }
    let ghost d = unsigned_digits(s@);
    proof {
        assert(d == s@.skip(i as int));
    }
    if i >= s.len() {
        return None;
    }
    let mut acc: u64 = 0;
    let start = i;
    while i < s.len()
        invariant
            start <= i <= s@.len(),
            d == s@.skip(start as int),
            d == unsigned_digits(s@),
            all_digits(d.take(i - start)),
            acc as nat == digits_value(d.take(i - start)),
        decreases s@.len() - i,
    {
        let c = s[i];
        if !('0' <= c && c <= '9') {
            proof {
                assert(d[i - start] == c);
                assert(!is_digit(d[i - start]));
            }
            return None;
        }
        let dv = (c as u32 - '0' as u32) as u64;
        proof {
            assert(d.take(i + 1 - start).drop_last() == d.take(i - start));
            assert(d.take(i + 1 - start).last() == c);
        }
        if acc > (u64::MAX - dv) / 10 {
            proof {
                assert(digits_value(d.take(i + 1 - start)) == acc * 10 + dv);
                assert(acc * 10 + dv > u64::MAX) by (nonlinear_arith)
                    requires
                        acc > (u64::MAX - dv) / 10,
                        dv <= 9,
                ;
                assert forall|k: int| 0 <= k < i + 1 - start implies is_digit(
                    #[trigger] d.take(i + 1 - start)[k],
                ) by {
                    if k < i - start {
                        assert(d.take(i - start)[k] == d.take(i + 1 - start)[k]);
                    }
                }
                if all_digits(d) {
                    lemma_digits_value_prefix(d, i + 1 - start);
                }
            }
            return None;
        }
        proof {
            assert(acc * 10 + dv <= u64::MAX) by (nonlinear_arith)
                requires
                    acc <= (u64::MAX - dv) / 10,
                    dv <= 9,
            ;
            assert forall|k: int| 0 <= k < i + 1 - start implies is_digit(
                #[trigger] d.take(i + 1 - start)[k],
            ) by {
                if k < i - start {
                    assert(d.take(i - start)[k] == d.take(i + 1 - start)[k]);
                }
            }
        }
        acc = acc * 10 + dv;
        i = i + 1;
    }
    proof {
        assert(d.take(i - start) == d);
    }
    Some(acc)
}

/// The number a counter file holds: its text without surrounding whitespace,
/// parsed as `str::parse::<u64>` does.
pub fn parse_trimmed_u64(s: &str) -> (r: Option<u64>)
    ensures
        r == parse_u64_spec(trim(s@)),
{
    let c = chars_of(s);
    let t = trim_chars(c.as_slice());
    parse_u64(t.as_slice())
}

/// The character of the decimal digit `d`.
pub open spec fn digit_char(d: nat) -> char {
    ('0' as u32 + d) as char
}

/// The decimal representation of `n`, without leading zeros.
pub open spec fn decimal(n: nat) -> Seq<char>
    decreases n,
{
    if n < 10 {
        seq![digit_char(n)]
    } else {
        decimal(n / 10).push(digit_char(n % 10))
    }
}

/// The digits of `n` have the value `n`, so different numbers have
/// different decimal representations.
pub proof fn lemma_decimal_value(n: nat)
    ensures
        digits_value(decimal(n)) == n,
    decreases n,
{
    let c = digit_char(n % 10);
    assert(c as u32 == '0' as u32 + n % 10);
    assert(digit_value(c) == n % 10);
    if n >= 10 {
        lemma_decimal_value(n / 10);
        let d = decimal(n / 10).push(c);
        assert(d.drop_last() == decimal(n / 10));
        assert(d.last() == c);
        assert(decimal(n) == d);
        assert(digits_value(d) == digits_value(decimal(n / 10)) * 10 + digit_value(c));
        assert((n / 10) * 10 + n % 10 == n);
    } else {
        assert(decimal(n).drop_last() =~= Seq::<char>::empty());
        assert(decimal(n).last() == c);
        assert(digits_value(decimal(n)) == digits_value(Seq::<char>::empty()) * 10 + digit_value(c));
    }
}

/// The decimal representation of `n` (as `u64::to_string`).
pub fn decimal_chars(n: u64) -> (r: Vec<char>)
    ensures
        r@ == decimal(n as nat),
    decreases n,
{
    let d = (n % 10) as u8;
    let c = (48u8 + d) as char;
    if n < 10 {
        let mut r = Vec::new();
        r.push(c);
        proof {
            assert(r@ == seq![digit_char(n as nat)]);
        }
        r
    } else {
        let mut r = decimal_chars(n / 10);
        r.push(c);
        r
    }
}


// ---------------------------------------------------------------------------
// Floating-point syntax
// ---------------------------------------------------------------------------

/// The number of leading ASCII digits of `s`.
pub open spec fn digit_run(s: Seq<char>) -> nat
    decreases s.len(),
{
    if s.len() > 0 && is_digit(s[0]) {
        1 + digit_run(s.drop_first())
    } else {
        0
    }
}

/// The index of the first `e` or `E` of `s`, or its length.
pub open spec fn exp_pos(s: Seq<char>) -> nat
    decreases s.len(),
{
    if s.len() == 0 || s[0] == 'e' || s[0] == 'E' {
        0
    } else {
        1 + exp_pos(s.drop_first())
    }
}

/// `c` in lower case, for ASCII letters.
pub open spec fn ascii_lower(c: char) -> char {
    if 'A' <= c <= 'Z' {
        ((c as u32) + 32) as char
    } else {
        c
    }
}

/// Whether `s` equals the lower-case word `w` up to ASCII case.
pub open spec fn eq_ignore_case(s: Seq<char>, w: Seq<char>) -> bool {
    s.len() == w.len() && forall|i: int| 0 <= i < s.len() ==> ascii_lower(#[trigger] s[i]) == w[i]
}

/// `s` without one leading `+` or `-`.
pub open spec fn unsigned_part(s: Seq<char>) -> Seq<char> {
    if s.len() > 0 && (s[0] == '+' || s[0] == '-') {
        s.drop_first()
    } else {
        s
    }
}

/// A mantissa: `Digit+`, `Digit+ '.' Digit*` or `Digit* '.' Digit+`.
pub open spec fn mantissa_syntax(m: Seq<char>) -> bool {
    let d = digit_run(m);
    if d == m.len() {
        d > 0
    } else {
        m[d as int] == '.' && all_digits(m.skip((d + 1) as int)) && (d > 0 || m.len() > d + 1)
    }
}

/// An exponent after its `e`: `Sign? Digit+`.
pub open spec fn exponent_syntax(x: Seq<char>) -> bool {
    let y = unsigned_part(x);
    y.len() > 0 && all_digits(y)
}

/// A decimal number: a mantissa and an optional exponent.
pub open spec fn number_syntax(s: Seq<char>) -> bool {
    let k = exp_pos(s);
    mantissa_syntax(s.take(k as int)) && (k == s.len() || exponent_syntax(s.skip((k + 1) as int)))
}

/// The strings that `str::parse::<f64>` accepts, following the grammar of
/// its documentation, case-insensitively:
/// `Sign? ( 'inf' | 'infinity' | 'nan' | Number )`.
pub open spec fn float_syntax(s: Seq<char>) -> bool {
    let b = unsigned_part(s);
    eq_ignore_case(b, "inf"@) || eq_ignore_case(b, "infinity"@) || eq_ignore_case(b, "nan"@)
        || number_syntax(b)
}

proof fn lemma_digit_run_step(s: Seq<char>, i: int)
    requires
        0 <= i < s.len(),
        is_digit(s[i]),
    ensures
        digit_run(s.skip(i)) == 1 + digit_run(s.skip(i + 1)),
{
    assert(s.skip(i).drop_first() == s.skip(i + 1));
}

proof fn lemma_exp_pos_step(s: Seq<char>, i: int)
    requires
        0 <= i < s.len(),
        s[i] != 'e' && s[i] != 'E',
    ensures
        exp_pos(s.skip(i)) == 1 + exp_pos(s.skip(i + 1)),
{
    assert(s.skip(i).drop_first() == s.skip(i + 1));
}

proof fn lemma_digit_run_le(s: Seq<char>)
    ensures
        digit_run(s) <= s.len(),
        digit_run(s) < s.len() ==> !is_digit(s[digit_run(s) as int]),
        forall|k: int| 0 <= k < digit_run(s) ==> is_digit(s[k]),
    decreases s.len(),
{
    if s.len() > 0 && is_digit(s[0]) {
        lemma_digit_run_le(s.drop_first());
        assert forall|k: int| 0 <= k < digit_run(s) implies is_digit(s[k]) by {
            if k > 0 {
                assert(s[k] == s.drop_first()[k - 1]);
            }
        }
    }
}

proof fn lemma_exp_pos_le(s: Seq<char>)
    ensures
        exp_pos(s) <= s.len(),
        exp_pos(s) < s.len() ==> (s[exp_pos(s) as int] == 'e' || s[exp_pos(s) as int] == 'E'),
    decreases s.len(),
{
    if !(s.len() == 0 || s[0] == 'e' || s[0] == 'E') {
        lemma_exp_pos_le(s.drop_first());
    }
}

/// Whether every character of `s[from..to]` is a digit.
fn all_digits_in(s: &[char], from: usize, to: usize) -> (r: bool)
    requires
        from <= to <= s@.len(),
    ensures
        r == all_digits(s@.subrange(from as int, to as int)),
{
    let mut i = from;
    while i < to
        invariant
            from <= i <= to <= s@.len(),
            all_digits(s@.subrange(from as int, i as int)),
        decreases to - i,
    {
        if !('0' <= s[i] && s[i] <= '9') {
            proof {
                assert(s@.subrange(from as int, to as int)[i - from] == s@[i as int]);
            }
            return false;
        }
        proof {
            assert forall|k: int| 0 <= k < i + 1 - from implies is_digit(
                #[trigger] s@.subrange(from as int, i + 1)[k],
            ) by {
                if k < i - from {
                    assert(s@.subrange(from as int, i + 1)[k] == s@.subrange(
                        from as int,
                        i as int,
                    )[k]);
                }
            }
        }
        i = i + 1;
    }
    true
}

/// Whether `s[from..to]` equals the lower-case word `w` up to ASCII case.
fn eq_ignore_case_in(s: &[char], from: usize, to: usize, w: &str) -> (r: bool)
    requires
        from <= to <= s@.len(),
    ensures
        r == eq_ignore_case(s@.subrange(from as int, to as int), w@),
{
    let wc = chars_of(w);
    if to - from != wc.len() {
        return false;
    }
    let mut i: usize = 0;
    while i < wc.len()
        invariant
            from <= to <= s@.len(),
            to - from == wc@.len(),
            i <= wc@.len(),
            wc@ == w@,
            forall|k: int|
                0 <= k < i ==> ascii_lower(#[trigger] s@.subrange(from as int, to as int)[k])
                    == wc@[k],
        decreases wc@.len() - i,
    {
        let c = s[from + i];
        let lc = if 'A' <= c && c <= 'Z' {
            ((c as u32) + 32) as u8 as char
        } else {
            c
        };
        proof {
            assert(s@.subrange(from as int, to as int)[i as int] == c);
            if 'A' <= c && c <= 'Z' {
                assert(((c as u32) + 32) as u8 as char == ((c as u32) + 32) as char);
            }
        }
        if lc != wc[i] {
            return false;
        }
        i = i + 1;
    }
    true
}

/// Whether `str::parse::<f64>` accepts `s`.
#[verifier::rlimit(60)]
pub fn is_float_syntax(s: &[char]) -> (r: bool)
    ensures
        r == float_syntax(s@),
{
    let start: usize = if s.len() > 0 && (s[0] == '+' || s[0] == '-') {
        1
    } else {
        0
    };
    let ghost b = unsigned_part(s@);
    proof {
        assert(b == s@.subrange(start as int, s@.len() as int));
    }
    let n = s.len();
    if eq_ignore_case_in(s, start, n, "inf") || eq_ignore_case_in(s, start, n, "infinity")
        || eq_ignore_case_in(s, start, n, "nan") {
        return true;
    }
    // The mantissa ends at the first `e` or `E`.

    let mut k = start;
    while k < n && s[k] != 'e' && s[k] != 'E'
        invariant
            start <= k <= n == s@.len(),
            b == s@.subrange(start as int, n as int),
            exp_pos(b) == (k - start) + exp_pos(s@.skip(k as int)),
        decreases n - k,
    {
        proof {
            lemma_exp_pos_step(s@, k as int);
        }
        k = k + 1;
    }
    proof {
        assert(b == s@.skip(start as int));
        if k < n {
            assert(s@.skip(k as int)[0] == s@[k as int]);
        } else {
            assert(s@.skip(k as int).len() == 0);
        }
        assert(exp_pos(s@.skip(k as int)) == 0);
    }
    let mut d = start;
    while d < k && '0' <= s[d] && s[d] <= '9'
        invariant
            start <= d <= k <= n == s@.len(),
            digit_run(s@.subrange(start as int, k as int)) == (d - start) + digit_run(
                s@.subrange(d as int, k as int),
            ),
        decreases k - d,
    {
        proof {
            let m = s@.subrange(start as int, k as int);
            lemma_digit_run_step(m, (d - start) as int);
            assert(m.skip(d - start) == s@.subrange(d as int, k as int));
            assert(m.skip(d - start + 1) == s@.subrange(d + 1, k as int));
        }
        d = d + 1;
    }
    let ghost m = b.take((k - start) as int);
    proof {
        assert(m == s@.subrange(start as int, k as int));
        let t = s@.subrange(d as int, k as int);
        if d < k {
            assert(t[0] == s@[d as int]);
        }
        assert(digit_run(t) == 0);
    }
    let mantissa_ok = if d == k {
        d > start
    } else {
        s[d] == '.' && all_digits_in(s, d + 1, k) && (d > start || k > d + 1)
    };
    proof {
        if d < k {
            assert(m[d - start] == s@[d as int]);
            assert(m.skip(d - start + 1) == s@.subrange(d + 1, k as int));
        }
        assert(mantissa_ok == mantissa_syntax(m));
    }
    if !mantissa_ok {
        return false;
    }
    if k == n {
        return true;
    }
    let mut e = k + 1;
    if e < n && (s[e] == '+' || s[e] == '-') {
        e = e + 1;
    }
    let r = e < n && all_digits_in(s, e, n);
    proof {
        let x = b.skip(k - start + 1);
        assert(x == s@.subrange(k + 1, n as int));
        assert(unsigned_part(x) == s@.subrange(e as int, n as int));
    }
    r
}


// ---------------------------------------------------------------------------
// Tokens
// ---------------------------------------------------------------------------

/// The view of an optional string.
pub open spec fn opt_str(o: Option<String>) -> Option<Seq<char>> {
    match o {
        Some(s) => Some(s@),
        None => None,
    }
}

/// `t` when `str::parse::<f64>` accepts it.
pub open spec fn float_token(t: Seq<char>) -> Option<Seq<char>> {
    if float_syntax(t) {
        Some(t)
    } else {
        None
    }
}

/// `t` as a string when `str::parse::<f64>` accepts it.
pub fn float_token_of(t: &[char]) -> (r: Option<String>)
    ensures
        opt_str(r) == float_token(t@),
{
    if is_float_syntax(t) {
        Some(string_of(t))
    } else {
        None
    }
}

/// The `i`-th word of `s`, if it has one.
pub open spec fn word_at(s: Seq<char>, i: int) -> Option<Seq<char>> {
    if 0 <= i < words(s).len() {
        Some(words(s)[i])
    } else {
        None
    }
}

/// `s` without trailing occurrences of `c` (as `str::trim_end_matches`).
pub open spec fn trim_end_char(s: Seq<char>, c: char) -> Seq<char>
    decreases s.len(),
{
    if s.len() > 0 && s.last() == c {
        trim_end_char(s.drop_last(), c)
    } else {
        s
    }
}

/// `s` without trailing occurrences of `c`.
pub fn trim_end_char_of(s: &[char], c: char) -> (r: Vec<char>)
    ensures
        r@ == trim_end_char(s@, c),
{
    let mut j = s.len();
    proof {
        assert(s@.take(j as int) == s@);
    }
    while j > 0 && s[j - 1] == c
        invariant
            j <= s@.len(),
            trim_end_char(s@, c) == trim_end_char(s@.take(j as int), c),
        decreases j,
    {
        proof {
            assert(s@.take(j as int).drop_last() == s@.take(j - 1));
        }
        j = j - 1;
    }
    proof {
        if j > 0 {
            assert(s@.take(j as int).last() == s@[j - 1]);
        }
    }
    slice_copy(s, 0, j)
}


/// `str::split` always yields at least one piece, the first one being the
/// text before the first separator.
pub proof fn lemma_split_on_len(s: Seq<char>, c: char)
    ensures
        split_on(s, c).len() >= 1,
        split_on(s, c)[0] == s.take(run_len(s, c) as int),
{
    lemma_run_len_le(s, c);
    if run_len(s, c) < s.len() {
    } else {
        assert(s.take(s.len() as int) == s);
    }
}

// ---------------------------------------------------------------------------
// Facts about replacement
// ---------------------------------------------------------------------------

/// `p` occurs in `s` (as `str::contains`).
pub open spec fn contains_seq(s: Seq<char>, p: Seq<char>) -> bool {
    exists|i: int| 0 <= i <= s.len() && #[trigger] has_prefix(s.skip(i), p)
}

/// No occurrence of `p` can start inside `rep`: every suffix of `rep` differs
/// from `p` somewhere within `rep`.
pub open spec fn no_start_inside(rep: Seq<char>, p: Seq<char>) -> bool {
    forall|j: int| 0 <= j < rep.len() ==> #[trigger] mismatch_from(rep, p, j)
}

/// The suffix of `rep` from `j` differs from `p` somewhere within `rep`.
pub open spec fn mismatch_from(rep: Seq<char>, p: Seq<char>, j: int) -> bool {
    exists|k: int| 0 <= k < p.len() && j + k < rep.len() && rep[j + k] != #[trigger] p[k]
}

/// `c` does not occur in `s`.
pub open spec fn lacks_char(s: Seq<char>, c: char) -> bool {
    forall|k: int| 0 <= k < s.len() ==> #[trigger] s[k] != c
}

proof fn lemma_skip_of_tail(s: Seq<char>, i: int)
    requires
        s.len() > 0,
        0 <= i <= s.len() - 1,
    ensures
        s.drop_first().skip(i) == s.skip(i + 1),
{
    assert(s.drop_first().skip(i) =~= s.skip(i + 1));
}

/// A text in which `p` does not occur is left as it is by replacing `p`.
pub proof fn lemma_replace_all_absent(s: Seq<char>, p: Seq<char>, rep: Seq<char>)
    requires
        p.len() > 0,
        !contains_seq(s, p),
    ensures
        replace_all(s, p, rep) == s,
    decreases s.len(),
{
    if s.len() > 0 {
        assert(s.skip(0) == s);
        let t = s.drop_first();
        assert forall|i: int| 0 <= i <= t.len() implies !#[trigger] has_prefix(t.skip(i), p) by {
            lemma_skip_of_tail(s, i);
            assert(!has_prefix(s.skip(i + 1), p));
        }
        lemma_replace_all_absent(t, p, rep);
        assert(seq![s[0]] + t =~= s);
    }
}

/// A replacement that begins with `rep`'s first character did happen: a text
/// starting with `q`, in which that character does not occur, comes from a
/// text starting with `q`.
pub proof fn lemma_replace_all_prefix(t: Seq<char>, p: Seq<char>, rep: Seq<char>, q: Seq<char>)
    requires
        p.len() > 0,
        rep.len() > 0,
        lacks_char(q, rep[0]),
        has_prefix(replace_all(t, p, rep), q),
    ensures
        has_prefix(t, q),
    decreases t.len(),
{
    if q.len() == 0 {
        assert(t.take(0) =~= q);
    } else if t.len() == 0 {
    } else if has_prefix(t, p) {
        let r = replace_all(t, p, rep);
        assert(r[0] == rep[0]);
        assert(r.take(q.len() as int)[0] == q[0]);
    } else {
        let tail = t.drop_first();
        let rr = replace_all(tail, p, rep);
        let r = replace_all(t, p, rep);
        assert(r == seq![t[0]] + rr);
        let q1 = q.drop_first();
        assert(r.take(q.len() as int)[0] == q[0]);
        assert(rr.take(q1.len() as int) =~= q1) by {
            assert forall|k: int| 0 <= k < q1.len() implies rr.take(q1.len() as int)[k] == q1[k] by {
                assert(r.take(q.len() as int)[k + 1] == q[k + 1]);
            }
        }
        lemma_replace_all_prefix(tail, p, rep, q1);
        assert(t.take(q.len() as int) =~= q) by {
            assert forall|k: int| 0 <= k < q.len() implies t.take(q.len() as int)[k] == q[k] by {
                if k > 0 {
                    assert(tail.take(q1.len() as int)[k - 1] == q1[k - 1]);
                }
            }
        }
    }
}

/// When `rep`'s first character does not occur in the result, no
/// replacement happened.
pub proof fn lemma_replace_all_unchanged(t: Seq<char>, p: Seq<char>, rep: Seq<char>)
    requires
        p.len() > 0,
        rep.len() > 0,
        lacks_char(replace_all(t, p, rep), rep[0]),
    ensures
        replace_all(t, p, rep) == t,
    decreases t.len(),
{
    if t.len() > 0 {
        if has_prefix(t, p) {
            assert(replace_all(t, p, rep)[0] == rep[0]);
        } else {
            let tail = t.drop_first();
            let rr = replace_all(tail, p, rep);
            assert(replace_all(t, p, rep) == seq![t[0]] + rr);
            assert forall|k: int| 0 <= k < rr.len() implies #[trigger] rr[k] != rep[0] by {
                assert(replace_all(t, p, rep)[k + 1] == rr[k]);
            }
            lemma_replace_all_unchanged(tail, p, rep);
            assert(seq![t[0]] + tail =~= t);
        }
    }
}

/// After every occurrence of `p` is replaced by `rep`, `p` no longer occurs,
/// when no occurrence can start inside `rep` and `rep`'s first character does
/// not occur in `p` after its first position.
pub proof fn lemma_replace_all_removes(s: Seq<char>, p: Seq<char>, rep: Seq<char>)
    requires
        p.len() > 0,
        rep.len() > 0,
        no_start_inside(rep, p),
        lacks_char(p.drop_first(), rep[0]),
    ensures
        !contains_seq(replace_all(s, p, rep), p),
    decreases s.len(),
{
    let r = replace_all(s, p, rep);
    if s.len() == 0 {
        assert forall|i: int| 0 <= i <= r.len() implies !#[trigger] has_prefix(r.skip(i), p) by {}
    } else if has_prefix(s, p) {
        let rest = replace_all(s.skip(p.len() as int), p, rep);
        lemma_replace_all_removes(s.skip(p.len() as int), p, rep);
        assert(r == rep + rest);
        assert forall|i: int| 0 <= i <= r.len() implies !#[trigger] has_prefix(r.skip(i), p) by {
            if i >= rep.len() {
                assert(r.skip(i) =~= rest.skip(i - rep.len()));
            } else {
                assert(mismatch_from(rep, p, i));
                let k = choose|k: int|
                    0 <= k < p.len() && i + k < rep.len() && rep[i + k] != #[trigger] p[k];
                if has_prefix(r.skip(i), p) {
                    assert(r.skip(i).take(p.len() as int)[k] == p[k]);
                    assert(r.skip(i)[k] == rep[i + k]);
                }
            }
        }
    } else {
        let tail = s.drop_first();
        let rest = replace_all(tail, p, rep);
        lemma_replace_all_removes(tail, p, rep);
        assert(r == seq![s[0]] + rest);
        assert forall|i: int| 0 <= i <= r.len() implies !#[trigger] has_prefix(r.skip(i), p) by {
            if i >= 1 {
                assert(r.skip(i) =~= rest.skip(i - 1));
            } else if has_prefix(r.skip(i), p) {
                assert(r.skip(0) == r);
                let q = p.drop_first();
                assert(r.take(p.len() as int)[0] == p[0]);
                assert(rest.take(q.len() as int) =~= q) by {
                    assert forall|k: int| 0 <= k < q.len() implies rest.take(q.len() as int)[k]
                        == q[k] by {
                        assert(r.take(p.len() as int)[k + 1] == p[k + 1]);
                    }
                }
                lemma_replace_all_prefix(tail, p, rep, q);
                assert(s.take(p.len() as int) =~= p) by {
                    assert forall|k: int| 0 <= k < p.len() implies s.take(p.len() as int)[k]
                        == p[k] by {
                        if k > 0 {
                            assert(tail.take(q.len() as int)[k - 1] == q[k - 1]);
                        }
                    }
                }
            }
        }
    }
}

/// The length of the run before the first `c` in `x + rest`: that in `x` when
/// `x` holds a `c`, otherwise all of `x` and the run in `rest`.
proof fn lemma_run_len_concat(x: Seq<char>, rest: Seq<char>, c: char)
    ensures
        lacks_char(x, c) ==> run_len(x + rest, c) == x.len() + run_len(rest, c),
        !lacks_char(x, c) ==> run_len(x + rest, c) == run_len(x, c) && run_len(x, c) < x.len(),
    decreases x.len(),
{
    if x.len() > 0 {
        assert((x + rest)[0] == x[0]);
        assert((x + rest).drop_first() =~= x.drop_first() + rest);
        lemma_run_len_concat(x.drop_first(), rest, c);
        if x[0] != c {
            assert(lacks_char(x, c) == lacks_char(x.drop_first(), c)) by {
                if lacks_char(x.drop_first(), c) {
                    assert forall|k: int| 0 <= k < x.len() implies #[trigger] x[k] != c by {
                        if k > 0 {
                            assert(x.drop_first()[k - 1] == x[k]);
                        }
                    }
                }
                if lacks_char(x, c) {
                    assert forall|k: int| 0 <= k < x.drop_first().len() implies #[trigger] x.drop_first()[k]
                        != c by {
                        assert(x[k + 1] == x.drop_first()[k]);
                    }
                }
            }
        } else {
            assert(x[0] == c);
        }
    } else {
        assert(x + rest =~= rest);
    }
}

/// Splitting `x`, a `c` and a `y` without `c` gives the pieces of `x` and then
/// `y`.
proof fn lemma_split_on_append(x: Seq<char>, y: Seq<char>, c: char)
    requires
        lacks_char(y, c),
    ensures
        split_on(x + seq![c] + y, c) == split_on(x, c).push(y),
    decreases x.len(),
{
    let s = x + seq![c] + y;
    lemma_run_len_le(x, c);
    lemma_run_len_concat(x, seq![c] + y, c);
    assert(s =~= x + (seq![c] + y));
    lemma_run_len_concat(y, seq![], c);
    assert(y + seq![] =~= y);
    if !lacks_char(x, c) {
        let n = run_len(x, c);
        assert(s.take(n as int) =~= x.take(n as int));
        let x2 = x.skip((n + 1) as int);
        assert(s.skip((n + 1) as int) =~= x2 + seq![c] + y);
        lemma_split_on_append(x2, y, c);
        assert(split_on(x, c) == seq![x.take(n as int)] + split_on(x2, c));
        assert(split_on(s, c) =~= split_on(x, c).push(y));
    } else {
        assert((seq![c] + y)[0] == c);
        assert(run_len(seq![c] + y, c) == 0);
        assert(s.take(x.len() as int) =~= x);
        assert(s.skip(x.len() as int + 1) =~= y);
        assert(run_len(x, c) == x.len()) by {
            lemma_run_len_concat(x, seq![], c);
            assert(x + seq![] =~= x);
        }
        assert(split_on(y, c) == seq![y]);
        assert(split_on(x, c) == seq![x]);
        assert(split_on(s, c) =~= split_on(x, c).push(y));
    }
}

/// Pieces without `c`, joined by `c`, split at `c` into the same pieces.
pub proof fn lemma_split_join(ps: Seq<Seq<char>>, c: char)
    requires
        ps.len() >= 1,
        forall|i: int| 0 <= i < ps.len() ==> #[trigger] lacks_char(ps[i], c),
    ensures
        split_on(join_with(ps, seq![c]), c) == ps,
    decreases ps.len(),
{
    if ps.len() == 1 {
        assert(lacks_char(ps[0], c));
        lemma_run_len_concat(ps[0], seq![], c);
        assert(ps[0] + seq![] =~= ps[0]);
        assert(split_on(ps[0], c) =~= ps);
    } else {
        let front = ps.drop_last();
        assert forall|i: int| 0 <= i < front.len() implies #[trigger] lacks_char(front[i], c) by {
            assert(front[i] == ps[i]);
        }
        lemma_split_join(front, c);
        assert(lacks_char(ps.last(), c));
        lemma_split_on_append(join_with(front, seq![c]), ps.last(), c);
        assert(front.push(ps.last()) =~= ps);
    }
}

/// Joining two non-empty lists of pieces is joining each, with a separator
/// between.
pub proof fn lemma_join_append(a: Seq<Seq<char>>, b: Seq<Seq<char>>, sep: Seq<char>)
    requires
        a.len() >= 1,
        b.len() >= 1,
    ensures
        join_with(a + b, sep) == join_with(a, sep) + sep + join_with(b, sep),
    decreases b.len(),
{
    if b.len() == 1 {
        assert((a + b).drop_last() =~= a);
        assert((a + b).last() == b[0]);
    } else {
        assert((a + b).drop_last() =~= a + b.drop_last());
        assert((a + b).last() == b.last());
        lemma_join_append(a, b.drop_last(), sep);
        assert(join_with(a + b, sep) =~= join_with(a, sep) + sep + join_with(b, sep));
    }
}

} // verus!
