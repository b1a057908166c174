//! Character-level text operations with exact specifications.
//!
//! Texts are handled as sequences of `char`.  Ranges `lo..hi` into a
//! `Vec<char>` stand for sub-texts, so that parsers can work without copying.

use vstd::prelude::*;

verus! {

/// Unicode `White_Space`, the property that `char::is_whitespace`,
/// `str::trim` and `str::split_whitespace` use.
pub open spec fn is_ws(c: char) -> bool {
    ||| ('\u{9}' <= c && c <= '\u{d}')
    ||| c == ' '
    ||| c == '\u{85}'
    ||| c == '\u{a0}'
    ||| c == '\u{1680}'
    ||| ('\u{2000}' <= c && c <= '\u{200a}')
    ||| c == '\u{2028}'
    ||| c == '\u{2029}'
    ||| c == '\u{202f}'
    ||| c == '\u{205f}'
    ||| c == '\u{3000}'
}

/// A class of characters: whitespace, or one given character.
#[derive(Clone, Copy)]
pub enum CharClass {
    Whitespace,
    Exactly(char),
}

impl CharClass {
    pub open spec fn has(self, c: char) -> bool {
        match self {
            CharClass::Whitespace => is_ws(c),
            CharClass::Exactly(x) => c == x,
        }
    }

    pub fn contains(&self, c: char) -> (r: bool)
        ensures
            r == self.has(c),
    {
        match self {
            CharClass::Whitespace => is_whitespace(c),
            CharClass::Exactly(x) => c == *x,
        }
    }
}

/// Executable whitespace test.
pub fn is_whitespace(c: char) -> (r: bool)
    ensures
        r == is_ws(c),
{
    ('\u{9}' <= c && c <= '\u{d}') || c == ' ' || c == '\u{85}' || c == '\u{a0}' || c
        == '\u{1680}' || ('\u{2000}' <= c && c <= '\u{200a}') || c == '\u{2028}' || c
        == '\u{2029}' || c == '\u{202f}' || c == '\u{205f}' || c == '\u{3000}'
}

/// `s` without its leading characters of class `cls`.
pub open spec fn strip_left(s: Seq<char>, cls: CharClass) -> Seq<char>
    decreases s.len(),
{
    if s.len() > 0 && cls.has(s[0]) {
        strip_left(s.drop_first(), cls)
    } else {
        s
    }
}

/// `s` without its trailing characters of class `cls`.
pub open spec fn strip_right(s: Seq<char>, cls: CharClass) -> Seq<char>
    decreases s.len(),
{
    if s.len() > 0 && cls.has(s.last()) {
        strip_right(s.drop_last(), cls)
    } else {
        s
    }
}

/// `s` without its leading and trailing characters of class `cls`
/// (std's `trim_matches`).
pub open spec fn strip_both(s: Seq<char>, cls: CharClass) -> Seq<char> {
    strip_right(strip_left(s, cls), cls)
}

/// `s` without leading and trailing whitespace (std's `str::trim`).
pub open spec fn trim(s: Seq<char>) -> Seq<char> {
    strip_both(s, CharClass::Whitespace)
}

/// A text is blank when trimming leaves nothing.
pub open spec fn is_blank(s: Seq<char>) -> bool {
    trim(s).len() == 0
}

/// The pieces of `s` between the characters of class `cls` (std's
/// `str::split` with a character pattern): one more piece than separators.
pub open spec fn split_on(s: Seq<char>, cls: CharClass) -> Seq<Seq<char>>
    decreases s.len(),
{
    if s.len() == 0 {
        seq![Seq::<char>::empty()]
    } else {
        let p = split_on(s.drop_last(), cls);
        if cls.has(s.last()) {
            p.push(Seq::<char>::empty())
        } else {
            p.update(p.len() - 1, p.last().push(s.last()))
        }
    }
}

/// The lines of `s`: the pieces between `'\n'` characters.
pub open spec fn lines(s: Seq<char>) -> Seq<Seq<char>> {
    split_on(s, CharClass::Exactly('\n'))
}

/// `Some(w)` when `w` is not empty.
pub open spec fn non_empty(w: Seq<char>) -> Option<Seq<char>> {
    if w.len() > 0 {
        Some(w)
    } else {
        None
    }
}

/// The non-empty pieces between whitespace (std's `split_whitespace`).
pub open spec fn words(s: Seq<char>) -> Seq<Seq<char>> {
    split_on(s, CharClass::Whitespace).filter_map(|w: Seq<char>| non_empty(w))
}

/// `p` occurs in `s` at some position (std's `str::contains` with a string).
pub open spec fn has_substring(s: Seq<char>, p: Seq<char>) -> bool {
    exists|i: int| 0 <= i && i + p.len() <= s.len() && #[trigger] s.subrange(i, i + p.len()) == p
}

/// Appending text after a string keeps every substring it had.
pub proof fn lemma_has_substring_append(x: Seq<char>, y: Seq<char>, p: Seq<char>)
    requires
        has_substring(x, p),
    ensures
        has_substring(x + y, p),
{
    let i = choose|i: int| 0 <= i && i + p.len() <= x.len() && #[trigger] x.subrange(i, i + p.len()) == p;
    assert((x + y).subrange(i, i + p.len()) =~= x.subrange(i, i + p.len()));
}

/// A string is found right after any text that precedes it.
pub proof fn lemma_has_substring_at_end(x: Seq<char>, p: Seq<char>)
    ensures
        has_substring(x + p, p),
{
    assert((x + p).subrange(x.len() as int, (x.len() + p.len()) as int) =~= p);
}

/// `s` with the prefix `p` removed, where `s` starts with `p`
/// (std's `str::strip_prefix`).
pub open spec fn strip_prefix(s: Seq<char>, p: Seq<char>) -> Option<Seq<char>> {
    if p.len() <= s.len() && s.take(p.len() as int) == p {
        Some(s.skip(p.len() as int))
    } else {
        None
    }
}

/// The decimal digit character for `d < 10`.
pub open spec fn digit(d: nat) -> char {
    ((48 + d) as u8) as char
}

/// The decimal notation of `n`, without leading zeros.
pub open spec fn decimal(n: nat) -> Seq<char>
    decreases n,
{
    if n < 10 {
        seq![digit(n)]
    } else {
        decimal(n / 10).push(digit(n % 10))
    }
}

/// `s` padded on the left with `'0'` to at least `w` characters.
pub open spec fn zero_pad(s: Seq<char>, w: nat) -> Seq<char> {
    if s.len() >= w {
        s
    } else {
        Seq::new((w - s.len()) as nat, |i: int| '0') + s
    }
}

// ---------------------------------------------------------------------------
// Lemmas
// ---------------------------------------------------------------------------

pub proof fn lemma_split_on_nonempty(s: Seq<char>, cls: CharClass)
    ensures
        split_on(s, cls).len() >= 1,
    decreases s.len(),
{
    if s.len() > 0 {
        lemma_split_on_nonempty(s.drop_last(), cls);
    }
}

/// A text that neither starts nor ends with whitespace is its own trim.
pub proof fn lemma_trim_fixed(s: Seq<char>)
    requires
        s.len() > 0,
        !is_ws(s[0]),
        !is_ws(s.last()),
    ensures
        trim(s) == s,
{
}

/// One leading whitespace character is trimmed away.
pub proof fn lemma_trim_leading_space(s: Seq<char>)
    requires
        s.len() > 0,
        !is_ws(s[0]),
        !is_ws(s.last()),
    ensures
        trim(seq![' '] + s) == s,
{
    let t = seq![' '] + s;
    assert(t.drop_first() =~= s);
    assert(strip_left(t, CharClass::Whitespace) == strip_left(s, CharClass::Whitespace));
}

/// Without separators there is one piece, the whole text.
pub proof fn lemma_split_on_without_separator(s: Seq<char>, cls: CharClass)
    requires
        forall|i: int| 0 <= i < s.len() ==> !cls.has(#[trigger] s[i]),
    ensures
        split_on(s, cls) == seq![s],
    decreases s.len(),
{
    if s.len() > 0 {
        let t = s.drop_last();
        assert forall|i: int| 0 <= i < t.len() implies !cls.has(#[trigger] t[i]) by {
            assert(t[i] == s[i]);
        }
        lemma_split_on_without_separator(t, cls);
        assert(t.push(s.last()) =~= s);
    } else {
        assert(s =~= Seq::<char>::empty());
    }
}

/// Split at a separator, a text's pieces are those before it followed by
/// those after it.
pub proof fn lemma_split_on_concat(a: Seq<char>, sep: char, b: Seq<char>, cls: CharClass)
    requires
        cls.has(sep),
    ensures
        split_on(a.push(sep) + b, cls) == split_on(a, cls) + split_on(b, cls),
    decreases b.len(),
{
    if b.len() == 0 {
        assert(a.push(sep) + b =~= a.push(sep));
        assert(a.push(sep).drop_last() =~= a);
        assert(split_on(a, cls).push(Seq::<char>::empty()) =~= split_on(a, cls) + seq![
            Seq::<char>::empty(),
        ]);
    } else {
        let b1 = b.drop_last();
        let c = b.last();
        lemma_split_on_concat(a, sep, b1, cls);
        lemma_split_on_nonempty(b1, cls);
        let whole = a.push(sep) + b;
        assert(whole.drop_last() =~= a.push(sep) + b1);
        assert(whole.last() == c);
        let pa = split_on(a, cls);
        let pb = split_on(b1, cls);
        if cls.has(c) {
            assert((pa + pb).push(Seq::<char>::empty()) =~= pa + pb.push(Seq::<char>::empty()));
        } else {
            let p = pa + pb;
            assert(p.update(p.len() - 1, p.last().push(c)) =~= pa + pb.update(
                pb.len() - 1,
                pb.last().push(c),
            ));
        }
    }
}

/// `filter_map` of a concatenation is the concatenation of the two.
pub proof fn lemma_filter_map_concat<A, B>(x: Seq<A>, y: Seq<A>, f: spec_fn(A) -> Option<B>)
    ensures
        (x + y).filter_map(f) == x.filter_map(f) + y.filter_map(f),
    decreases y.len(),
{
    if y.len() == 0 {
        assert(x + y =~= x);
        assert(x.filter_map(f) + y.filter_map(f) =~= x.filter_map(f));
    } else {
        lemma_filter_map_concat(x, y.drop_last(), f);
        assert((x + y).drop_last() =~= x + y.drop_last());
        assert((x + y).last() == y.last());
        match f(y.last()) {
            Some(v) => {
                assert(x.filter_map(f) + y.drop_last().filter_map(f) + seq![v] =~= x.filter_map(f)
                    + (y.drop_last().filter_map(f) + seq![v]));
            },
            None => {},
        }
    }
}

/// The words of two texts joined by a space are the words of the first
/// followed by those of the second.
pub proof fn lemma_words_concat(a: Seq<char>, b: Seq<char>)
    ensures
        words(a + seq![' '] + b) == words(a) + words(b),
{
    lemma_split_on_concat(a, ' ', b, CharClass::Whitespace);
    assert(a + seq![' '] + b =~= a.push(' ') + b);
    lemma_filter_map_concat(
        split_on(a, CharClass::Whitespace),
        split_on(b, CharClass::Whitespace),
        |w: Seq<char>| non_empty(w),
    );
}

/// The characters of a decimal notation are the digits `'0'` to `'9'`.
pub proof fn lemma_decimal_digits(n: nat)
    ensures
        decimal(n).len() >= 1,
        forall|i: int| 0 <= i < decimal(n).len() ==> '0' <= #[trigger] decimal(n)[i] <= '9',
    decreases n,
{
    lemma_digit_range(n % 10);
    if n >= 10 {
        lemma_decimal_digits(n / 10);
        let d = decimal(n / 10);
        assert forall|i: int| 0 <= i < decimal(n).len() implies '0' <= #[trigger] decimal(n)[i]
            <= '9' by {
            if i < d.len() {
                assert(decimal(n)[i] == d[i]);
            }
        }
    } else {
        lemma_digit_range(n);
    }
}

pub proof fn lemma_digit_range(d: nat)
    requires
        d < 10,
    ensures
        '0' <= digit(d) <= '9',
{
    let b = (48 + d) as u8;
    assert(48 <= b <= 57);
    assert(b as char == digit(d));
}

// ---------------------------------------------------------------------------
// Executable operations
// ---------------------------------------------------------------------------

/// The characters of a string slice, in order.
pub fn chars_of(s: &str) -> (v: Vec<char>)
    ensures
        v@ == s@,
{
    let mut v: Vec<char> = Vec::new();
    for c in it: s.chars()
        invariant
            it.seq() == s@,
            v@ == it.seq().take(it.index() as int),
    {
        v.push(c);
        assert(v@ =~= it.seq().take(it.index() + 1));
    }
    assert(v@ =~= s@);
    v
}

/// Appends one character (std's `String::push`).
#[verifier::external_body]
pub fn push_char(s: &mut String, c: char)
    ensures
        final(s)@ == old(s)@.push(c),
{
    s.push(c);
}

/// Appends the characters `v[lo..hi]` to `out`.
pub fn push_range(out: &mut String, v: &Vec<char>, lo: usize, hi: usize)
    requires
        lo <= hi <= v@.len(),
    ensures
        final(out)@ == old(out)@ + v@.subrange(lo as int, hi as int),
{
    let mut i = lo;
    while i < hi
        invariant
            lo <= i <= hi <= v@.len(),
            out@ == old(out)@ + v@.subrange(lo as int, i as int),
        decreases hi - i,
    {
        push_char(out, v[i]);
        assert(v@.subrange(lo as int, i + 1) =~= v@.subrange(lo as int, i as int).push(v@[i as int]));
        i = i + 1;
    }
}

/// A new string holding the characters `v[lo..hi]`.
pub fn string_of_range(v: &Vec<char>, lo: usize, hi: usize) -> (r: String)
    requires
        lo <= hi <= v@.len(),
    ensures
        r@ == v@.subrange(lo as int, hi as int),
{
    let mut r = String::new();
    push_range(&mut r, v, lo, hi);
    assert(r@ =~= v@.subrange(lo as int, hi as int));
    r
}

/// A new string with the characters of `s`.
pub fn string_of_str(s: &str) -> (r: String)
    ensures
        r@ == s@,
{
    let mut r = String::new();
    push_str(&mut r, s);
    assert(r@ =~= s@);
    r
}

/// Appends `s` to `out` (std's `push_str`).
pub fn push_str(out: &mut String, s: &str)
    ensures
        final(out)@ == old(out)@ + s@,
{
    out.append(s);
}

/// The index just past the leading characters of class `cls` in `v[lo..hi]`.
pub fn skip_left(v: &Vec<char>, lo: usize, hi: usize, cls: CharClass) -> (r: usize)
    requires
        lo <= hi <= v@.len(),
    ensures
        lo <= r <= hi,
        v@.subrange(r as int, hi as int) == strip_left(v@.subrange(lo as int, hi as int), cls),
{
    let mut i = lo;
    while i < hi && cls.contains(v[i])
        invariant
            lo <= i <= hi <= v@.len(),
            strip_left(v@.subrange(lo as int, hi as int), cls) == strip_left(
                v@.subrange(i as int, hi as int),
                cls,
            ),
        decreases hi - i,
    {
        assert(v@.subrange(i as int, hi as int).drop_first() =~= v@.subrange(i + 1, hi as int));
        i = i + 1;
    }
    i
}

/// The index just before the trailing characters of class `cls` in `v[lo..hi]`.
pub fn skip_right(v: &Vec<char>, lo: usize, hi: usize, cls: CharClass) -> (r: usize)
    requires
        lo <= hi <= v@.len(),
    ensures
        lo <= r <= hi,
        v@.subrange(lo as int, r as int) == strip_right(v@.subrange(lo as int, hi as int), cls),
{
    let mut j = hi;
    while j > lo && cls.contains(v[j - 1])
        invariant
            lo <= j <= hi <= v@.len(),
            strip_right(v@.subrange(lo as int, hi as int), cls) == strip_right(
                v@.subrange(lo as int, j as int),
                cls,
            ),
        decreases j - lo,
    {
        assert(v@.subrange(lo as int, j as int).drop_last() =~= v@.subrange(lo as int, j - 1));
        j = j - 1;
    }
    j
}

/// The range of `v[lo..hi]` that remains after stripping characters of
/// class `cls` at both ends.
pub fn strip_range(v: &Vec<char>, lo: usize, hi: usize, cls: CharClass) -> (r: (usize, usize))
    requires
        lo <= hi <= v@.len(),
    ensures
        lo <= r.0 <= r.1 <= hi,
        v@.subrange(r.0 as int, r.1 as int) == strip_both(v@.subrange(lo as int, hi as int), cls),
{
    let a = skip_left(v, lo, hi, cls);
    let b = skip_right(v, a, hi, cls);
    (a, b)
}

/// The range of `v[lo..hi]` without leading and trailing whitespace.
pub fn trim_range(v: &Vec<char>, lo: usize, hi: usize) -> (r: (usize, usize))
    requires
        lo <= hi <= v@.len(),
    ensures
        lo <= r.0 <= r.1 <= hi,
        v@.subrange(r.0 as int, r.1 as int) == trim(v@.subrange(lo as int, hi as int)),
{
    strip_range(v, lo, hi, CharClass::Whitespace)
}

/// `s` with leading and trailing whitespace removed.
pub fn trim_str(s: &str) -> (r: String)
    ensures
        r@ == trim(s@),
{
    let v = chars_of(s);
    let (a, b) = trim_range(&v, 0, v.len());
    assert(v@.subrange(0, v@.len() as int) =~= v@);
    string_of_range(&v, a, b)
}

/// Whether `s` is empty after trimming.
pub fn blank(s: &str) -> (r: bool)
    ensures
        r == is_blank(s@),
{
    let v = chars_of(s);
    let (a, b) = trim_range(&v, 0, v.len());
    assert(v@.subrange(0, v@.len() as int) =~= v@);
    a == b
}

/// The pieces of `v[lo..hi]` between characters of class `cls`, as ranges.
pub fn split_ranges(v: &Vec<char>, lo: usize, hi: usize, cls: CharClass) -> (r: Vec<(usize, usize)>)
    requires
        lo <= hi <= v@.len(),
    ensures
        r@.len() == split_on(v@.subrange(lo as int, hi as int), cls).len(),
        forall|k: int|
            0 <= k < r@.len() ==> lo <= (#[trigger] r@[k]).0 <= r@[k].1 <= hi && v@.subrange(
                r@[k].0 as int,
                r@[k].1 as int,
            ) == split_on(v@.subrange(lo as int, hi as int), cls)[k],
{
    let mut r: Vec<(usize, usize)> = Vec::new();
    let mut start = lo;
    let mut i = lo;
    proof {
        assert(v@.subrange(lo as int, lo as int) =~= Seq::<char>::empty());
    }
    while i < hi
        invariant
            lo <= start <= i <= hi <= v@.len(),
            split_on(v@.subrange(lo as int, i as int), cls).len() == r@.len() + 1,
            split_on(v@.subrange(lo as int, i as int), cls)[r@.len() as int] == v@.subrange(
                start as int,
                i as int,
            ),
            forall|k: int|
                0 <= k < r@.len() ==> lo <= (#[trigger] r@[k]).0 <= r@[k].1 <= i && v@.subrange(
                    r@[k].0 as int,
                    r@[k].1 as int,
                ) == split_on(v@.subrange(lo as int, i as int), cls)[k],
        decreases hi - i,
    {
        proof {
            let s = v@.subrange(lo as int, i + 1);
            assert(s.drop_last() =~= v@.subrange(lo as int, i as int));
            assert(s.last() == v@[i as int]);
        }
        if cls.contains(v[i]) {
            r.push((start, i));
            start = i + 1;
            proof {
                assert(v@.subrange(start as int, start as int) =~= Seq::<char>::empty());
            }
        } else {
            proof {
                assert(v@.subrange(start as int, i + 1) =~= v@.subrange(start as int, i as int).push(
                    v@[i as int],
                ));
            }
        }
        i = i + 1;
    }
    r.push((start, hi));
    r
}

/// The index of the first character of class `cls` in `v[lo..hi]`, if any.
pub fn find_in_range(v: &Vec<char>, lo: usize, hi: usize, cls: CharClass) -> (r: Option<usize>)
    requires
        lo <= hi <= v@.len(),
    ensures
        match r {
            Some(i) => lo <= i < hi && cls.has(v@[i as int]) && forall|j: int|
                lo <= j < i ==> !cls.has(#[trigger] v@[j]),
            None => forall|j: int| lo <= j < hi ==> !cls.has(#[trigger] v@[j]),
        },
{
    let mut i = lo;
    while i < hi
        invariant
            lo <= i <= hi <= v@.len(),
            forall|j: int| lo <= j < i ==> !cls.has(#[trigger] v@[j]),
        decreases hi - i,
    {
        if cls.contains(v[i]) {
            return Some(i);
        }
        i = i + 1;
    }
    None
}

/// Whether `v[lo..hi]` starts with the characters of `p`.
pub fn range_starts_with(v: &Vec<char>, lo: usize, hi: usize, p: &Vec<char>) -> (r: bool)
    requires
        lo <= hi <= v@.len(),
    ensures
        r == (p@.len() <= hi - lo && v@.subrange(lo as int, lo + p@.len()) == p@),
{
    if p.len() > hi - lo {
        return false;
    }
    let mut k: usize = 0;
    while k < p.len()
        invariant
            lo <= hi <= v@.len(),
            p@.len() <= hi - lo,
            0 <= k <= p@.len(),
            forall|j: int| 0 <= j < k ==> v@[lo + j] == p@[j],
        decreases p@.len() - k,
    {
        if v[lo + k] != p[k] {
            assert(v@.subrange(lo as int, lo + p@.len())[k as int] != p@[k as int]);
            return false;
        }
        k = k + 1;
    }
    assert(v@.subrange(lo as int, lo + p@.len()) =~= p@);
    true
}

/// Whether `p` occurs in `s` (std's `str::contains`).
pub fn contains_seq(s: &Vec<char>, p: &Vec<char>) -> (r: bool)
    ensures
        r == has_substring(s@, p@),
{
    if p.len() > s.len() {
        return false;
    }
    if p.len() == 0 {
        assert(s@.subrange(0, 0int + p@.len()) =~= p@);
        return true;
    }
    let last = s.len() - p.len();
    let mut i: usize = 0;
    while i <= last
        invariant
            1 <= p@.len() <= s@.len(),
            last == s@.len() - p@.len(),
            0 <= i <= last + 1,
            forall|j: int| 0 <= j < i ==> #[trigger] s@.subrange(j, j + p@.len()) != p@,
        decreases last + 1 - i,
    {
        if range_starts_with(s, i, s.len(), p) {
            return true;
        }
        i = i + 1;
    }
    false
}

/// The decimal digit character for `d < 10`.
pub fn digit_char(d: usize) -> (c: char)
    requires
        d < 10,
    ensures
        c == digit(d as nat),
{
    ((48 + d) as u8) as char
}

/// Appends the decimal notation of `n`.
pub fn push_decimal(out: &mut String, n: u64)
    ensures
        final(out)@ == old(out)@ + decimal(n as nat),
    decreases n,
{
    if n >= 10 {
        push_decimal(out, n / 10);
    }
    push_char(out, digit_char((n % 10) as usize));
    assert(out@ =~= old(out)@ + decimal(n as nat));
}

/// Appends the decimal notation of `n`, padded with `'0'` to `w` digits.
pub fn push_decimal_padded(out: &mut String, n: u64, w: usize)
    ensures
        final(out)@ == old(out)@ + zero_pad(decimal(n as nat), w as nat),
{
    let mut digits = String::new();
    push_decimal(&mut digits, n);
    let dv = chars_of(digits.as_str());
    let ghost d = decimal(n as nat);
    assert(dv@ =~= d);
    if dv.len() < w {
        let mut k: usize = 0;
        let pad = w - dv.len();
        while k < pad
            invariant
                k <= pad,
                out@ == old(out)@ + Seq::new(k as nat, |i: int| '0'),
            decreases pad - k,
        {
            push_char(out, '0');
            assert(Seq::new((k + 1) as nat, |i: int| '0') =~= Seq::new(k as nat, |i: int| '0').push('0'));
            k = k + 1;
        }
        push_str(out, digits.as_str());
        assert(out@ =~= old(out)@ + zero_pad(decimal(n as nat), w as nat));
    } else {
        push_str(out, digits.as_str());
    }
}

/// The name that the library gives to what std's `str::to_lowercase`
/// returns: the Unicode lowercase mapping of the text (context-dependent
/// where Unicode says so, as for a final sigma).
pub uninterp spec fn spec_to_lowercase(s: Seq<char>) -> Seq<char>;

/// Calls std's `str::to_lowercase`.  It claims only that the result is
/// the named lowercase mapping of the argument, which depends on nothing
/// else.
#[verifier::external_body]
pub fn to_lowercase(s: &str) -> (r: String)
    ensures
        r@ == spec_to_lowercase(s@),
{
    s.to_lowercase()
}

} // verus!
