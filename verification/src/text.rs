//! Character-level text operations on which the rest of the library is built.
//!
//! Every function here works on the `Seq<char>` view of a string and states its
//! result over that view.
use vstd::prelude::*;

verus! {

// ---------------------------------------------------------------------------
// Specifications
// ---------------------------------------------------------------------------

/// `p` is a prefix of `s`.
pub open spec fn has_prefix(s: Seq<char>, p: Seq<char>) -> bool {
    &&& p.len() <= s.len()
    &&& forall|i: int| 0 <= i < p.len() ==> #[trigger] s[i] == p[i]
}

/// `p` is a suffix of `s`.
pub open spec fn has_suffix(s: Seq<char>, p: Seq<char>) -> bool {
    &&& p.len() <= s.len()
    &&& forall|i: int| 0 <= i < p.len() ==> #[trigger] s[s.len() - p.len() + i] == p[i]
}

/// `p` occurs in `s` starting at index `k`.
pub open spec fn occurs_at(s: Seq<char>, p: Seq<char>, k: int) -> bool {
    &&& 0 <= k
    &&& k + p.len() <= s.len()
    &&& forall|i: int| 0 <= i < p.len() ==> #[trigger] s[k + i] == p[i]
}

/// `p` occurs somewhere in `s` (the empty sequence occurs in every sequence).
pub open spec fn contains_seq(s: Seq<char>, p: Seq<char>) -> bool {
    exists|k: int| occurs_at(s, p, k)
}

/// `s` with every `from` replaced by `to`.
pub open spec fn replace_char(s: Seq<char>, from: char, to: char) -> Seq<char> {
    s.map_values(|c: char| if c == from { to } else { c })
}

/// The pieces of `s` between occurrences of `sep`, as `str::split` gives them:
/// there is always one piece more than there are separators.
pub open spec fn split_on(s: Seq<char>, sep: char) -> Seq<Seq<char>>
    decreases s.len(),
{
    if s.len() == 0 {
        seq![Seq::<char>::empty()]
    } else {
        let r = split_on(s.drop_last(), sep);
        if s.last() == sep {
            r.push(Seq::<char>::empty())
        } else {
            r.update(r.len() - 1, r.last().push(s.last()))
        }
    }
}

/// The pieces of `parts` joined with `sep` between each two of them.
pub open spec fn join_with(parts: Seq<Seq<char>>, sep: char) -> Seq<char>
    decreases parts.len(),
{
    if parts.len() == 0 {
        Seq::<char>::empty()
    } else if parts.len() == 1 {
        parts[0]
    } else {
        join_with(parts.drop_last(), sep).push(sep) + parts.last()
    }
}

/// `s` without all the leading and trailing occurrences of `c`.
pub open spec fn trim_char(s: Seq<char>, c: char) -> Seq<char>
    decreases s.len(),
{
    if s.len() > 0 && s[0] == c {
        trim_char(s.drop_first(), c)
    } else if s.len() > 0 && s.last() == c {
        trim_char(s.drop_last(), c)
    } else {
        s
    }
}

/// `s` with `p` removed from its front as many times as it is there, as
/// `str::trim_start_matches` does.
pub open spec fn trim_start_seq(s: Seq<char>, p: Seq<char>) -> Seq<char>
    decreases s.len(),
{
    if p.len() > 0 && has_prefix(s, p) {
        trim_start_seq(s.skip(p.len() as int), p)
    } else {
        s
    }
}

/// `s` with `p` removed from its end as many times as it is there, as
/// `str::trim_end_matches` does.
pub open spec fn trim_end_seq(s: Seq<char>, p: Seq<char>) -> Seq<char>
    decreases s.len(),
{
    if p.len() > 0 && has_suffix(s, p) {
        trim_end_seq(s.take(s.len() - p.len()), p)
    } else {
        s
    }
}

/// The Unicode `White_Space` property, by which `str::trim` decides.
pub open spec fn is_white_space(c: char) -> bool {
    ||| ('\u{9}' <= c && c <= '\u{d}')
    ||| c == ' '
    ||| c == '\u{85}'
    ||| c == '\u{a0}'
    ||| c == '\u{1680}'
    ||| ('\u{2000}' <= c && c <= '\u{200a}')
    ||| c == '\u{2028}'
    ||| c == '\u{2029}'
    ||| c == '\u{202f}'
    ||| c == '\u{205f}'
    ||| c == '\u{3000}'
}

/// `s` without leading and trailing white space, as `str::trim` gives it.
pub open spec fn trim_white(s: Seq<char>) -> Seq<char>
    decreases s.len(),
{
    if s.len() > 0 && is_white_space(s[0]) {
        trim_white(s.drop_first())
    } else if s.len() > 0 && is_white_space(s.last()) {
        trim_white(s.drop_last())
    } else {
        s
    }
}

/// An ASCII decimal digit.
pub open spec fn is_digit(c: char) -> bool {
    '0' <= c && c <= '9'
}

/// The number that the decimal digits of `s` stand for.
pub open spec fn decimal_value(s: Seq<char>) -> nat
    decreases s.len(),
{
    if s.len() == 0 {
        0
    } else {
        decimal_value(s.drop_last()) * 10 + ((s.last() as int - '0' as int) as nat)
    }
}

/// What `str::parse` gives for an unsigned integer type whose largest value is
/// `max`: an optional `+` followed by at least one ASCII digit, and a value
/// that fits.
pub open spec fn parse_unsigned(s: Seq<char>, max: nat) -> Option<nat> {
    let digits = unsigned_digits(s);
    if digits.len() > 0 && all_digits(digits) && decimal_value(digits) <= max {
        Some(decimal_value(digits))
    } else {
        None
    }
}

/// `s` without one leading `+`.
pub open spec fn unsigned_digits(s: Seq<char>) -> Seq<char> {
    if s.len() > 0 && s[0] == '+' {
        s.drop_first()
    } else {
        s
    }
}

/// Every character of `s` is an ASCII digit.
pub open spec fn all_digits(s: Seq<char>) -> bool {
    forall|i: int| 0 <= i < s.len() ==> is_digit(#[trigger] s[i])
}

// ---------------------------------------------------------------------------
// Conversions between strings and character vectors
// ---------------------------------------------------------------------------

/// The characters of `s`, in order.
pub fn chars_of(s: &str) -> (v: Vec<char>)
    ensures
        v@ == s@,
{
    let mut v: Vec<char> = Vec::new();
    for c in it: s.chars()
        invariant
            v@ == it.seq().take(it.index() as int),
            it.seq() == s@,
    {
        v.push(c);
    }
    v
}

/// `String::push`: appends one character.
#[verifier::external_body]
pub(crate) fn push_char(s: &mut String, c: char)
    ensures
        final(s)@ == old(s)@.push(c),
{
    s.push(c);
}

/// The string made of the characters of `v`.
pub fn string_of(v: &[char]) -> (s: String)
    ensures
        s@ == v@,
{
    let mut s = String::new();
    for i in 0..v.len()
        invariant
            s@ == v@.take(i as int),
    {
        push_char(&mut s, v[i]);
        assert(v@.take(i + 1) == v@.take(i as int).push(v@[i as int]));
    }
    assert(v@.take(v@.len() as int) == v@);
    s
}

/// A copy of the characters of `v`.
pub fn copy_chars(v: &[char]) -> (r: Vec<char>)
    ensures
        r@ == v@,
{
    let mut r: Vec<char> = Vec::new();
    for i in 0..v.len()
        invariant
            r@ == v@.take(i as int),
    {
        r.push(v[i]);
        assert(r@ =~= v@.take(i + 1));
    }
    assert(v@.take(v@.len() as int) =~= v@);
    r
}

/// Appends the characters of `v` to `s`.
pub fn append_chars(s: &mut String, v: &[char])
    ensures
        final(s)@ == old(s)@ + v@,
{
    let ghost start = s@;
    for i in 0..v.len()
        invariant
            s@ == start + v@.take(i as int),
    {
        push_char(s, v[i]);
        assert(v@.take(i + 1) == v@.take(i as int).push(v@[i as int]));
    }
    assert(v@.take(v@.len() as int) == v@);
}

/// Appends the string `t` to `s`.
pub fn append_str(s: &mut String, t: &str)
    ensures
        final(s)@ == old(s)@ + t@,
{
    let v = chars_of(t);
    append_chars(s, v.as_slice());
}

/// A fresh copy of `s`.
pub fn copy_str(s: &str) -> (r: String)
    ensures
        r@ == s@,
{
    let v = chars_of(s);
    string_of(v.as_slice())
}

// ---------------------------------------------------------------------------
// Queries
// ---------------------------------------------------------------------------

/// Whether the two character sequences are equal.
pub fn chars_equal(a: &[char], b: &[char]) -> (r: bool)
    ensures
        r == (a@ == b@),
{
    if a.len() != b.len() {
        return false;
    }
    for i in 0..a.len()
        invariant
            a@.len() == b@.len(),
            forall|j: int| 0 <= j < i ==> a@[j] == b@[j],
    {
        if a[i] != b[i] {
            return false;
        }
    }
    assert(a@ =~= b@);
    true
}

/// Whether the two strings are equal.
pub fn str_equal(a: &str, b: &str) -> (r: bool)
    ensures
        r == (a@ == b@),
{
    let va = chars_of(a);
    let vb = chars_of(b);
    chars_equal(va.as_slice(), vb.as_slice())
}

/// Whether `p` occurs in `s` at index `k`.
pub fn occurs_at_exec(s: &[char], p: &[char], k: usize) -> (r: bool)
    ensures
        r == occurs_at(s@, p@, k as int),
{
    let n = s.len();
    if k > n || p.len() > n - k {
        return false;
    }
    for i in 0..p.len()
        invariant
            n == s@.len(),
            k + p@.len() <= n,
            i <= p@.len(),
            forall|j: int| 0 <= j < i ==> s@[k + j] == p@[j],
    {
        assert(k + i < s@.len());
        if s[k + i] != p[i] {
            return false;
        }
    }
    true
}

/// Whether `s` begins with `p`.
pub fn starts_with(s: &[char], p: &[char]) -> (r: bool)
    ensures
        r == has_prefix(s@, p@),
{
    let r = occurs_at_exec(s, p, 0);
    assert(r == has_prefix(s@, p@)) by {
        if has_prefix(s@, p@) {
            assert forall|i: int| 0 <= i < p@.len() implies #[trigger] s@[0 + i] == p@[i] by {
                assert(s@[i] == p@[i]);
            }
        }
        if r {
            assert forall|i: int| 0 <= i < p@.len() implies #[trigger] s@[i] == p@[i] by {
                assert(s@[0 + i] == p@[i]);
            }
        }
    }
    r
}

/// Whether `s` ends with `p`.
pub fn ends_with(s: &[char], p: &[char]) -> (r: bool)
    ensures
        r == has_suffix(s@, p@),
{
    if p.len() > s.len() {
        return false;
    }
    let k = s.len() - p.len();
    let r = occurs_at_exec(s, p, k);
    assert(r == has_suffix(s@, p@)) by {
        if has_suffix(s@, p@) {
            assert forall|i: int| 0 <= i < p@.len() implies #[trigger] s@[k + i] == p@[i] by {
                assert(s@[s@.len() - p@.len() + i] == p@[i]);
            }
        }
        if r {
            assert forall|i: int| 0 <= i < p@.len() implies #[trigger] s@[s@.len() - p@.len()
                + i] == p@[i] by {
                assert(s@[k + i] == p@[i]);
            }
        }
    }
    r
}

/// Whether `p` occurs anywhere in `s`.
pub fn contains_chars(s: &[char], p: &[char]) -> (r: bool)
    ensures
        r == contains_seq(s@, p@),
{
    if p.len() > s.len() {
        return false;
    }
    let last = s.len() - p.len();
    let mut k: usize = 0;
    while k <= last
        invariant_except_break
            last == s@.len() - p@.len(),
            k <= last,
            forall|j: int| 0 <= j < k ==> !occurs_at(s@, p@, j),
        ensures
            forall|j: int| 0 <= j <= last ==> !occurs_at(s@, p@, j),
        decreases last + 1 - k,
    {
        if occurs_at_exec(s, p, k) {
            return true;
        }
        if k == last {
            break;
        }
        k = k + 1;
    }
    assert forall|j: int| !occurs_at(s@, p@, j) by {
        if 0 <= j && j <= last {
        }
    }
    false
}

/// Whether the character `c` occurs in `s`.
pub fn contains_char(s: &[char], c: char) -> (r: bool)
    ensures
        r == s@.contains(c),
{
    for i in 0..s.len()
        invariant
            forall|j: int| 0 <= j < i ==> s@[j] != c,
    {
        if s[i] == c {
            assert(s@[i as int] == c);
            return true;
        }
    }
    false
}


/// `str::lines` split into the pieces that `lines` gives: the text between line
/// feeds, each without one carriage return before its line feed, and no empty
/// piece after a final line feed.
pub open spec fn lines_of(s: Seq<char>) -> Seq<Seq<char>> {
    let parts = split_on(s, '\n');
    let ended = parts.drop_last().map_values(|l: Seq<char>| strip_cr(l));
    if parts.last().len() == 0 {
        ended
    } else {
        ended.push(parts.last())
    }
}

/// `line` without one trailing carriage return.
pub open spec fn strip_cr(line: Seq<char>) -> Seq<char> {
    if line.len() > 0 && line.last() == '\r' {
        line.drop_last()
    } else {
        line
    }
}

/// The views of a sequence of character vectors.
pub open spec fn views_of(parts: Seq<Vec<char>>) -> Seq<Seq<char>> {
    parts.map_values(|v: Vec<char>| v@)
}

/// Lowercase as `str::to_lowercase` defines it (Unicode's `Lowercase` mapping).
pub uninterp spec fn lowercase_of(s: Seq<char>) -> Seq<char>;

/// `str::to_lowercase`; its result is named `lowercase_of` of the input.
#[verifier::external_body]
pub(crate) fn to_lowercase(s: &str) -> (r: String)
    ensures
        r@ == lowercase_of(s@),
{
    s.to_lowercase()
}

/// Uppercase as `str::to_uppercase` defines it (Unicode's `Uppercase` mapping).
pub uninterp spec fn uppercase_of(s: Seq<char>) -> Seq<char>;

/// `str::to_uppercase`; its result is named `uppercase_of` of the input.
#[verifier::external_body]
pub(crate) fn to_uppercase(s: &str) -> (r: String)
    ensures
        r@ == uppercase_of(s@),
{
    s.to_uppercase()
}

/// `s` split at every `sep`, as `str::split` gives it.
pub fn split_chars(s: &[char], sep: char) -> (parts: Vec<Vec<char>>)
    ensures
        views_of(parts@) == split_on(s@, sep),
{
    let mut parts: Vec<Vec<char>> = Vec::new();
    let mut cur: Vec<char> = Vec::new();
    assert(s@.take(0) =~= Seq::<char>::empty());
    assert(views_of(parts@).push(cur@) =~= split_on(s@.take(0), sep));
    for i in 0..s.len()
        invariant
            views_of(parts@).push(cur@) == split_on(s@.take(i as int), sep),
    {
        let c = s[i];
        let ghost before = s@.take(i as int);
        assert(s@.take(i + 1).drop_last() =~= before);
        assert(s@.take(i + 1).last() == c);
        if c == sep {
            parts.push(cur);
            cur = Vec::new();
            assert(views_of(parts@).push(cur@) =~= split_on(before, sep).push(Seq::<char>::empty()));
        } else {
            let ghost old_parts = views_of(parts@);
            let ghost old_cur = cur@;
            cur.push(c);
            assert(views_of(parts@).push(cur@) =~= old_parts.push(old_cur).update(
                old_parts.len() as int,
                old_cur.push(c),
            ));
        }
    }
    assert(s@.take(s@.len() as int) =~= s@);
    parts.push(cur);
    parts
}

/// `parts` joined with `sep`.
pub fn join_chars(parts: &[Vec<char>], sep: char) -> (r: Vec<char>)
    ensures
        r@ == join_with(views_of(parts@), sep),
{
    let mut r: Vec<char> = Vec::new();
    for i in 0..parts.len()
        invariant
            r@ == join_with(views_of(parts@.take(i as int)), sep),
    {
        let ghost prev = views_of(parts@.take(i as int));
        let ghost next = views_of(parts@.take(i + 1));
        assert(next.drop_last() =~= prev);
        assert(next.last() == parts@[i as int]@);
        if i > 0 {
            r.push(sep);
        }
        let mut j: usize = 0;
        let ghost start = r@;
        while j < parts[i].len()
            invariant
                0 <= i < parts@.len(),
                j <= parts@[i as int]@.len(),
                r@ == start + parts@[i as int]@.take(j as int),
            decreases parts@[i as int]@.len() - j,
        {
            r.push(parts[i][j]);
            assert(parts@[i as int]@.take(j + 1) =~= parts@[i as int]@.take(j as int).push(
                parts@[i as int]@[j as int],
            ));
            j = j + 1;
        }
        assert(parts@[i as int]@.take(j as int) =~= parts@[i as int]@);
        if i == 0 {
            assert(r@ =~= next[0]);
        } else {
            assert(r@ =~= join_with(prev, sep).push(sep) + next.last());
        }
    }
    assert(parts@.take(parts@.len() as int) =~= parts@);
    r
}

/// `s` with every `from` replaced by `to`.
pub fn replace_chars(s: &[char], from: char, to: char) -> (r: Vec<char>)
    ensures
        r@ == replace_char(s@, from, to),
{
    let mut r: Vec<char> = Vec::new();
    for i in 0..s.len()
        invariant
            r@ == replace_char(s@.take(i as int), from, to),
    {
        let c = s[i];
        if c == from {
            r.push(to);
        } else {
            r.push(c);
        }
        assert(r@ =~= replace_char(s@.take(i + 1), from, to));
    }
    assert(s@.take(s@.len() as int) =~= s@);
    r
}

/// `s` without leading and trailing occurrences of `c`, as `str::trim_matches` gives it.
pub fn trim_chars(s: &[char], c: char) -> (r: Vec<char>)
    ensures
        r@ == trim_char(s@, c),
{
    let n = s.len();
    let mut i: usize = 0;
    assert(s@.subrange(0, n as int) =~= s@);
    while i < n && s[i] == c
        invariant
            i <= n,
            n == s@.len(),
            trim_char(s@, c) == trim_char(s@.subrange(i as int, n as int), c),
        decreases n - i,
    {
        assert(s@.subrange(i as int, n as int).drop_first() =~= s@.subrange(i + 1, n as int));
        i = i + 1;
    }
    let mut j: usize = n;
    while j > i && s[j - 1] == c
        invariant
            i <= j <= n,
            n == s@.len(),
            i < j ==> s@[i as int] != c,
            trim_char(s@, c) == trim_char(s@.subrange(i as int, j as int), c),
        decreases j - i,
    {
        assert(s@.subrange(i as int, j as int).drop_last() =~= s@.subrange(i as int, j - 1));
        j = j - 1;
    }
    let mut r: Vec<char> = Vec::new();
    for k in i..j
        invariant
            i <= j <= n,
            n == s@.len(),
            r@ == s@.subrange(i as int, k as int),
    {
        r.push(s[k]);
        assert(r@ =~= s@.subrange(i as int, k + 1));
    }
    r
}

/// `s` with `p` removed from its front as often as it is there, as
/// `str::trim_start_matches` gives it.
pub fn trim_start_chars(s: &[char], p: &[char]) -> (r: Vec<char>)
    ensures
        r@ == trim_start_seq(s@, p@),
{
    let n = s.len();
    let mut i: usize = 0;
    assert(s@.skip(0) =~= s@);
    if p.len() > 0 {
        while occurs_at_exec(s, p, i)
            invariant
                p@.len() > 0,
                i <= n,
                n == s@.len(),
                trim_start_seq(s@, p@) == trim_start_seq(s@.skip(i as int), p@),
            decreases n - i,
        {
            assert(has_prefix(s@.skip(i as int), p@)) by {
                assert forall|k: int| 0 <= k < p@.len() implies #[trigger] s@.skip(i as int)[k]
                    == p@[k] by {
                    assert(s@[i + k] == p@[k]);
                }
            }
            assert(s@.skip(i as int).skip(p@.len() as int) =~= s@.skip(i + p@.len()));
            i = i + p.len();
        }
        assert(!has_prefix(s@.skip(i as int), p@)) by {
            if has_prefix(s@.skip(i as int), p@) {
                assert forall|k: int| 0 <= k < p@.len() implies #[trigger] s@[i + k] == p@[k] by {
                    assert(s@.skip(i as int)[k] == p@[k]);
                }
            }
        }
    }
    let mut r: Vec<char> = Vec::new();
    for k in i..n
        invariant
            i <= n,
            n == s@.len(),
            r@ == s@.subrange(i as int, k as int),
    {
        r.push(s[k]);
        assert(r@ =~= s@.subrange(i as int, k + 1));
    }
    assert(r@ =~= s@.skip(i as int));
    r
}

/// `s` with `p` removed from its end as often as it is there, as
/// `str::trim_end_matches` gives it.
pub fn trim_end_chars(s: &[char], p: &[char]) -> (r: Vec<char>)
    ensures
        r@ == trim_end_seq(s@, p@),
{
    let n = s.len();
    let mut j: usize = n;
    assert(s@.take(n as int) =~= s@);
    if p.len() > 0 {
        while j >= p.len() && occurs_at_exec(s, p, j - p.len())
            invariant
                p@.len() > 0,
                j <= n,
                n == s@.len(),
                trim_end_seq(s@, p@) == trim_end_seq(s@.take(j as int), p@),
            decreases j,
        {
            assert(has_suffix(s@.take(j as int), p@)) by {
                assert forall|k: int| 0 <= k < p@.len() implies #[trigger] s@.take(j as int)[j
                    - p@.len() + k] == p@[k] by {
                    assert(s@[(j - p@.len()) + k] == p@[k]);
                }
            }
            assert(s@.take(j as int).take(j - p@.len()) =~= s@.take(j - p@.len()));
            j = j - p.len();
        }
        assert(!has_suffix(s@.take(j as int), p@)) by {
            if has_suffix(s@.take(j as int), p@) {
                assert forall|k: int| 0 <= k < p@.len() implies #[trigger] s@[(j - p@.len()) + k]
                    == p@[k] by {
                    assert(s@.take(j as int)[j - p@.len() + k] == p@[k]);
                }
            }
        }
    }
    let mut r: Vec<char> = Vec::new();
    for k in 0..j
        invariant
            j <= n,
            n == s@.len(),
            r@ == s@.take(k as int),
    {
        r.push(s[k]);
        assert(r@ =~= s@.take(k + 1));
    }
    r
}

/// Whether `c` is Unicode white space.
pub fn is_white_space_exec(c: char) -> (r: bool)
    ensures
        r == is_white_space(c),
{
    ('\u{9}' <= c && c <= '\u{d}') || c == ' ' || c == '\u{85}' || c == '\u{a0}' || c == '\u{1680}'
        || ('\u{2000}' <= c && c <= '\u{200a}') || c == '\u{2028}' || c == '\u{2029}' || c
        == '\u{202f}' || c == '\u{205f}' || c == '\u{3000}'
}

/// `s` without leading and trailing white space, as `str::trim` gives it.
pub fn trim_white_chars(s: &[char]) -> (r: Vec<char>)
    ensures
        r@ == trim_white(s@),
{
    let n = s.len();
    let mut i: usize = 0;
    assert(s@.subrange(0, n as int) =~= s@);
    while i < n && is_white_space_exec(s[i])
        invariant
            i <= n,
            n == s@.len(),
            trim_white(s@) == trim_white(s@.subrange(i as int, n as int)),
        decreases n - i,
    {
        assert(s@.subrange(i as int, n as int).drop_first() =~= s@.subrange(i + 1, n as int));
        i = i + 1;
    }
    let mut j: usize = n;
    while j > i && is_white_space_exec(s[j - 1])
        invariant
            i <= j <= n,
            n == s@.len(),
            i < j ==> !is_white_space(s@[i as int]),
            trim_white(s@) == trim_white(s@.subrange(i as int, j as int)),
        decreases j - i,
    {
        assert(s@.subrange(i as int, j as int).drop_last() =~= s@.subrange(i as int, j - 1));
        j = j - 1;
    }
    let mut r: Vec<char> = Vec::new();
    for k in i..j
        invariant
            i <= j <= n,
            n == s@.len(),
            r@ == s@.subrange(i as int, k as int),
    {
        r.push(s[k]);
        assert(r@ =~= s@.subrange(i as int, k + 1));
    }
    r
}

/// The decimal value of digits only grows as digits are added.
proof fn lemma_decimal_value_prefix(s: Seq<char>, k: int)
    requires
        0 <= k <= s.len(),
        forall|i: int| 0 <= i < s.len() ==> is_digit(#[trigger] s[i]),
    ensures
        decimal_value(s.take(k)) <= decimal_value(s),
    decreases s.len(),
{
    if k < s.len() {
        assert(s.drop_last().take(k) =~= s.take(k));
        lemma_decimal_value_prefix(s.drop_last(), k);
    } else {
        assert(s.take(k) =~= s);
    }
}

/// `str::parse` for an unsigned integer type whose largest value is `max`.
pub fn parse_unsigned_chars(s: &[char], max: u64) -> (r: Option<u64>)
    ensures
        r matches Some(v) ==> parse_unsigned(s@, max as nat) == Some(v as nat),
        r is None ==> parse_unsigned(s@, max as nat) is None,
{
    let n = s.len();
    let start: usize = if n > 0 && s[0] == '+' {
        1
    } else {
        0
    };
    let ghost digits = unsigned_digits(s@);
    assert(digits =~= s@.skip(start as int));
    if start == n {
        return None;
    }
    let mut acc: u128 = 0;
    let mut i: usize = start;
    assert(digits.take(0) =~= Seq::<char>::empty());
    while i < n
        invariant
            start <= i <= n,
            n == s@.len(),
            digits == s@.skip(start as int),
            digits == unsigned_digits(s@),
            forall|k: int| start <= k < i ==> is_digit(#[trigger] s@[k]),
            acc == decimal_value(digits.take(i - start)),
            acc <= max,
        decreases n - i,
    {
        let c = s[i];
        if !('0' <= c && c <= '9') {
            assert(!is_digit(digits[i - start]));
            assert(!all_digits(digits));
            assert(parse_unsigned(s@, max as nat) is None);
            return None;
        }
        let d = (c as u32 - '0' as u32) as u128;
        assert(digits.take(i + 1 - start).drop_last() =~= digits.take(i - start));
        assert(digits.take(i + 1 - start).last() == c);
        acc = acc * 10 + d;
        assert(acc == decimal_value(digits.take(i + 1 - start)));
        if acc > max as u128 {
            assert forall|k: int| 0 <= k < i + 1 - start implies is_digit(
                #[trigger] digits.take(i + 1 - start)[k],
            ) by {
                assert(s@[start + k] == digits[k]);
            }
            proof {
                if all_digits(digits) {
                    lemma_decimal_value_prefix(digits, i + 1 - start);
                }
            }
            assert(parse_unsigned(s@, max as nat) is None);
            return None;
        }
        i = i + 1;
    }
    assert(digits.take(n - start) =~= digits);
    assert forall|k: int| 0 <= k < digits.len() implies is_digit(#[trigger] digits[k]) by {
        assert(s@[start + k] == digits[k]);
    }
    Some(acc as u64)
}

/// The lines of `s`, as `str::lines` gives them.
pub fn lines_chars(s: &[char]) -> (r: Vec<Vec<char>>)
    ensures
        views_of(r@) == lines_of(s@),
{
    let parts = split_chars(s, '\n');
    let ghost sp = split_on(s@, '\n');
    proof {
        lemma_split_nonempty(s@, '\n');
    }
    let m = parts.len();
    let mut r: Vec<Vec<char>> = Vec::new();
    for i in 0..m - 1
        invariant
            m == parts@.len(),
            m >= 1,
            views_of(parts@) == sp,
            views_of(r@) == sp.drop_last().take(i as int).map_values(|l: Seq<char>| strip_cr(l)),
    {
        let part = &parts[i];
        let k = part.len();
        let mut line: Vec<char> = Vec::new();
        let end = if k > 0 && part[k - 1] == '\r' {
            k - 1
        } else {
            k
        };
        for q in 0..end
            invariant
                end <= k,
                k == part@.len(),
                line@ == part@.take(q as int),
        {
            line.push(part[q]);
            assert(line@ =~= part@.take(q + 1));
        }
        assert(line@ =~= strip_cr(sp[i as int]));
        let ghost old_views = views_of(r@);
        r.push(line);
        assert(views_of(r@) =~= old_views.push(strip_cr(sp[i as int])));
        assert(sp.drop_last().take(i + 1) =~= sp.drop_last().take(i as int).push(sp[i as int]));
        assert(views_of(r@) =~= sp.drop_last().take(i + 1).map_values(|l: Seq<char>| strip_cr(l)));
    }
    assert(sp.drop_last().take(m - 1) =~= sp.drop_last());
    let last = &parts[m - 1];
    if last.len() > 0 {
        let mut line: Vec<char> = Vec::new();
        for q in 0..last.len()
            invariant
                line@ == last@.take(q as int),
        {
            line.push(last[q]);
            assert(line@ =~= last@.take(q + 1));
        }
        assert(line@ =~= last@);
        let ghost old_views = views_of(r@);
        r.push(line);
        assert(views_of(r@) =~= old_views.push(last@));
        assert(views_of(r@) =~= lines_of(s@));
    }
    r
}

/// `split_on` always gives at least one piece.
pub proof fn lemma_split_nonempty(s: Seq<char>, sep: char)
    ensures
        split_on(s, sep).len() >= 1,
    decreases s.len(),
{
    if s.len() > 0 {
        lemma_split_nonempty(s.drop_last(), sep);
    }
}


/// `a` comes strictly before `b` in lexicographic order of code points, which
/// is how `str` and `String` are ordered.
pub open spec fn seq_lt(a: Seq<char>, b: Seq<char>) -> bool
    decreases a.len(),
{
    if a.len() == 0 {
        b.len() > 0
    } else if b.len() == 0 {
        false
    } else if a[0] != b[0] {
        (a[0] as u32) < (b[0] as u32)
    } else {
        seq_lt(a.drop_first(), b.drop_first())
    }
}

/// No sequence comes before itself.
pub proof fn lemma_seq_lt_irreflexive(a: Seq<char>)
    ensures
        !seq_lt(a, a),
    decreases a.len(),
{
    if a.len() > 0 {
        lemma_seq_lt_irreflexive(a.drop_first());
    }
}

/// Lexicographic order is transitive.
pub proof fn lemma_seq_lt_transitive(a: Seq<char>, b: Seq<char>, c: Seq<char>)
    requires
        seq_lt(a, b),
        seq_lt(b, c),
    ensures
        seq_lt(a, c),
    decreases a.len(),
{
    if a.len() > 0 && b.len() > 0 && c.len() > 0 && a[0] == b[0] && b[0] == c[0] {
        lemma_seq_lt_transitive(a.drop_first(), b.drop_first(), c.drop_first());
    }
}

/// Of two different sequences, one comes before the other.
pub proof fn lemma_seq_lt_total(a: Seq<char>, b: Seq<char>)
    requires
        a != b,
    ensures
        seq_lt(a, b) || seq_lt(b, a),
    decreases a.len(),
{
    if a.len() > 0 && b.len() > 0 && a[0] == b[0] {
        if a.drop_first() == b.drop_first() {
            assert(a.drop_first().len() == a.len() - 1);
            assert(b.drop_first().len() == b.len() - 1);
            assert(a =~= b) by {
                assert forall|i: int| 0 <= i < a.len() implies a[i] == b[i] by {
                    if i > 0 {
                        assert(a[i] == a.drop_first()[i - 1]);
                        assert(b[i] == b.drop_first()[i - 1]);
                    }
                }
            }
        }
        lemma_seq_lt_total(a.drop_first(), b.drop_first());
    } else if a.len() > 0 && b.len() > 0 {
        let x = a[0];
        let y = b[0];
        vstd::utf8::char_u32_cast(x, x as u32);
        vstd::utf8::char_u32_cast(y, y as u32);
    } else if a.len() == 0 && b.len() == 0 {
        assert(a =~= b);
    }
}

/// "Does not come before" is transitive.
pub proof fn lemma_seq_le_transitive(a: Seq<char>, b: Seq<char>, c: Seq<char>)
    requires
        !seq_lt(b, a),
        !seq_lt(c, b),
    ensures
        !seq_lt(c, a),
{
    if seq_lt(c, a) {
        if a == b {
        } else {
            lemma_seq_lt_total(a, b);
            lemma_seq_lt_transitive(c, a, b);
        }
    }
}

// ---------------------------------------------------------------------------
// UTF-8 lengths
// ---------------------------------------------------------------------------

/// The number of bytes that UTF-8 takes for `c`.
pub open spec fn char_utf8_len(c: char) -> nat {
    if (c as u32) < 0x80 {
        1
    } else if (c as u32) < 0x800 {
        2
    } else if (c as u32) < 0x10000 {
        3
    } else {
        4
    }
}

/// The number of bytes that UTF-8 takes for `s`.
pub open spec fn utf8_len(s: Seq<char>) -> nat
    decreases s.len(),
{
    if s.len() == 0 {
        0
    } else {
        utf8_len(s.drop_last()) + char_utf8_len(s.last())
    }
}

/// A prefix takes no more bytes than the whole.
pub proof fn lemma_utf8_len_prefix(s: Seq<char>, i: int)
    requires
        0 <= i <= s.len(),
    ensures
        utf8_len(s.take(i)) <= utf8_len(s),
    decreases s.len(),
{
    if i < s.len() {
        assert(s.drop_last().take(i) =~= s.take(i));
        lemma_utf8_len_prefix(s.drop_last(), i);
    } else {
        assert(s.take(i) =~= s);
    }
}

/// Each step of a prefix adds the bytes of one more character.
pub proof fn lemma_utf8_len_step(s: Seq<char>, k: int)
    requires
        0 <= k < s.len(),
    ensures
        utf8_len(s.take(k + 1)) == utf8_len(s.take(k)) + char_utf8_len(s[k]),
{
    assert(s.take(k + 1).drop_last() =~= s.take(k));
}

/// A longer prefix takes more bytes.
pub proof fn lemma_utf8_len_strict(s: Seq<char>, j: int, k: int)
    requires
        0 <= j < k <= s.len(),
    ensures
        utf8_len(s.take(j)) < utf8_len(s.take(k)),
    decreases k - j,
{
    lemma_utf8_len_step(s, k - 1);
    if j < k - 1 {
        lemma_utf8_len_strict(s, j, k - 1);
    }
}

/// The bytes of a sequence are those of its front and those of its back.
pub proof fn lemma_utf8_len_split(s: Seq<char>, j: int)
    requires
        0 <= j <= s.len(),
    ensures
        utf8_len(s) == utf8_len(s.take(j)) + utf8_len(s.skip(j)),
    decreases s.len(),
{
    if j == s.len() {
        assert(s.take(j) =~= s);
        assert(s.skip(j) =~= Seq::<char>::empty());
    } else {
        let d = s.drop_last();
        lemma_utf8_len_split(d, j);
        assert(d.take(j) =~= s.take(j));
        assert(s.skip(j).drop_last() =~= d.skip(j));
        assert(s.skip(j).last() == s.last());
    }
}

/// The number of bytes that UTF-8 takes for `c`.
pub fn char_utf8_len_exec(c: char) -> (n: usize)
    ensures
        n == char_utf8_len(c),
{
    let x = c as u32;
    if x < 0x80 {
        1
    } else if x < 0x800 {
        2
    } else if x < 0x10000 {
        3
    } else {
        4
    }
}

/// Whether `s` takes at most `max` bytes in UTF-8.
pub fn utf8_len_at_most(s: &[char], max: usize) -> (r: bool)
    ensures
        r == (utf8_len(s@) <= max),
{
    let mut total: usize = 0;
    for i in 0..s.len()
        invariant
            total == utf8_len(s@.take(i as int)),
            total <= max,
    {
        let w = char_utf8_len_exec(s[i]);
        assert(s@.take(i + 1).drop_last() =~= s@.take(i as int));
        if w > max - total {
            proof {
                lemma_utf8_len_prefix(s@, i + 1);
            }
            return false;
        }
        total = total + w;
    }
    assert(s@.take(s@.len() as int) =~= s@);
    true
}

/// Whether `a` comes strictly before `b` in lexicographic order.
pub fn chars_lt(a: &[char], b: &[char]) -> (r: bool)
    ensures
        r == seq_lt(a@, b@),
{
    let mut i: usize = 0;
    assert(a@.skip(0) =~= a@);
    assert(b@.skip(0) =~= b@);
    while i < a.len() && i < b.len() && a[i] == b[i]
        invariant
            i <= a@.len(),
            i <= b@.len(),
            seq_lt(a@, b@) == seq_lt(a@.skip(i as int), b@.skip(i as int)),
        decreases a@.len() - i,
    {
        assert(a@.skip(i as int).drop_first() =~= a@.skip(i + 1));
        assert(b@.skip(i as int).drop_first() =~= b@.skip(i + 1));
        i = i + 1;
    }
    if i == a.len() {
        i < b.len()
    } else if i == b.len() {
        false
    } else {
        (a[i] as u32) < (b[i] as u32)
    }
}

/// Whether string `a` comes strictly before string `b`.
pub fn str_lt(a: &str, b: &str) -> (r: bool)
    ensures
        r == seq_lt(a@, b@),
{
    let va = chars_of(a);
    let vb = chars_of(b);
    chars_lt(va.as_slice(), vb.as_slice())
}

/// The index just after the last slash of `p`, or 0 where it has none.
pub open spec fn last_slash_end(p: Seq<char>) -> int
    decreases p.len(),
{
    if p.len() == 0 {
        0
    } else if p.last() == '/' {
        p.len() as int
    } else {
        last_slash_end(p.drop_last())
    }
}

/// `last_slash_end` lies within the sequence, and no slash follows it.
pub proof fn lemma_last_slash_end(p: Seq<char>)
    ensures
        0 <= last_slash_end(p) <= p.len(),
        forall|i: int| last_slash_end(p) <= i < p.len() ==> p[i] != '/',
        last_slash_end(p) > 0 ==> p[last_slash_end(p) - 1] == '/',
    decreases p.len(),
{
    if p.len() > 0 && p.last() != '/' {
        lemma_last_slash_end(p.drop_last());
        assert forall|i: int| last_slash_end(p) <= i < p.len() implies p[i] != '/' by {
            if i < p.len() - 1 {
                assert(p.drop_last()[i] == p[i]);
            }
        }
    }
}

/// The index just after the last slash of `p`, or 0 where it has none.
pub fn last_slash_end_exec(p: &[char]) -> (r: usize)
    ensures
        r as int == last_slash_end(p@),
{
    let mut j = p.len();
    assert(p@.take(j as int) =~= p@);
    while j > 0 && p[j - 1] != '/'
        invariant
            j <= p@.len(),
            last_slash_end(p@) == last_slash_end(p@.take(j as int)),
        decreases j,
    {
        assert(p@.take(j as int).drop_last() =~= p@.take(j - 1));
        j = j - 1;
    }
    j
}

} // verus!
