//! The user's saved settings.
use vstd::prelude::*;

use crate::text::{
    append_str, char_utf8_len_exec, chars_of, copy_str, lemma_utf8_len_split, lemma_utf8_len_step,
    lemma_utf8_len_strict, push_char, utf8_len, utf8_len_at_most,
};

verus! {

/// Saved settings: a GitHub token and a download folder, each optional.
#[derive(Debug)]
pub struct Config {
    pub github_token: Option<String>,
    pub download_path: Option<String>,
}

impl Default for Config {
    /// No token and no download folder.
    fn default() -> (r: Self)
        ensures
            r.github_token is None,
            r.download_path is None,
    {
        Config { github_token: None, download_path: None }
    }
}

/// The number of characters at the front of `t` that take `n` bytes.
pub open spec fn front_chars(t: Seq<char>, n: nat) -> int {
    choose|i: int| 0 <= i <= t.len() && utf8_len(t.take(i)) == n
}

/// The index from which the characters at the end of `t` take `n` bytes.
pub open spec fn back_start(t: Seq<char>, n: nat) -> int {
    choose|j: int| 0 <= j <= t.len() && utf8_len(t.skip(j)) == n
}

/// Four bytes from the front and four from the back of `t` fall between
/// characters.
pub open spec fn cuts_at_char_boundaries(t: Seq<char>) -> bool {
    &&& exists|i: int| 0 <= i <= t.len() && utf8_len(t.take(i)) == 4
    &&& exists|j: int| 0 <= j <= t.len() && utf8_len(t.skip(j)) == 4
}

/// How a saved token is shown: where it is longer than eight bytes, its first
/// four bytes and its last four around `...`; else eight stars.
pub open spec fn masked_token(t: Seq<char>) -> Seq<char> {
    if utf8_len(t) > 8 {
        t.take(front_chars(t, 4)) + "..."@ + t.skip(back_start(t, 4))
    } else {
        "********"@
    }
}

/// The token as `config list` shows it. Its length is counted in bytes; a
/// token of more than eight bytes must be cut four bytes from each end between
/// characters (which every ASCII token is).
pub fn mask_token(token: &str) -> (r: String)
    requires
        utf8_len(token@) > 8 ==> cuts_at_char_boundaries(token@),
    ensures
        r@ == masked_token(token@),
{
    let v = chars_of(token);
    if utf8_len_at_most(v.as_slice(), 8) {
        return copy_str("********");
    }
    let ghost t = v@;
    let ghost i0 = front_chars(t, 4);
    let ghost j0 = back_start(t, 4);
    let n = v.len();
    // The front: characters until four bytes are reached.
    let mut i: usize = 0;
    let mut total: usize = 0;
    assert(t.take(0) =~= Seq::<char>::empty());
    while total < 4
        invariant
            t == v@,
            n == t.len(),
            0 <= i <= i0 <= t.len(),
            utf8_len(t.take(i0)) == 4,
            total == utf8_len(t.take(i as int)),
            total <= 4,
        decreases i0 - i,
    {
        assert(i < i0);
        let w = char_utf8_len_exec(v[i]);
        proof {
            lemma_utf8_len_step(t, i as int);
            if i + 1 < i0 {
                lemma_utf8_len_strict(t, i + 1, i0);
            }
        }
        total = total + w;
        i = i + 1;
    }
    proof {
        if i < i0 {
            lemma_utf8_len_strict(t, i as int, i0);
        }
    }
    assert(i == i0);
    // The back: characters from the end until four bytes are reached.
    let mut j: usize = n;
    let mut back: usize = 0;
    assert(t.skip(n as int) =~= Seq::<char>::empty());
    while back < 4
        invariant
            t == v@,
            n == t.len(),
            0 <= j0 <= j <= n,
            utf8_len(t.skip(j0)) == 4,
            back == utf8_len(t.skip(j as int)),
            back <= 4,
        decreases j - j0,
    {
        assert(j > j0);
        let w = char_utf8_len_exec(v[j - 1]);
        proof {
            lemma_utf8_len_split(t, j as int);
            lemma_utf8_len_split(t, j - 1);
            lemma_utf8_len_step(t, j - 1);
            lemma_utf8_len_split(t, j0);
            if j0 < j - 1 {
                lemma_utf8_len_strict(t, j0, j - 1);
            }
        }
        back = back + w;
        j = j - 1;
    }
    proof {
        lemma_utf8_len_split(t, j as int);
        lemma_utf8_len_split(t, j0);
        if j0 < j {
            lemma_utf8_len_strict(t, j0, j as int);
        }
    }
    assert(j == j0);
    let mut r = String::new();
    for k in 0..i
        invariant
            t == v@,
            i <= t.len(),
            r@ == t.take(k as int),
    {
        push_char(&mut r, v[k]);
        assert(t.take(k + 1) == t.take(k as int).push(t[k as int]));
    }
    append_str(&mut r, "...");
    let ghost before = r@;
    for k in j..n
        invariant
            t == v@,
            n == t.len(),
            j <= n,
            r@ == before + t.subrange(j as int, k as int),
    {
        push_char(&mut r, v[k]);
        assert(t.subrange(j as int, k + 1) == t.subrange(j as int, k as int).push(t[k as int]));
    }
    assert(t.subrange(j as int, n as int) =~= t.skip(j as int));
    r
}

} // verus!
