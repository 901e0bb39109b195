//! Escaping of path tokens.
//!
//! Path-like tokens (outputs, inputs, implicit and order-only inputs,
//! implicit outputs) must have `$`, space and `:` rewritten before they are
//! placed on a `build` line, so that the build-syntax parser reads them
//! literally: `$` becomes `$$`, a space becomes `$ `, and `:` becomes `$:`.
//! No other character is altered. Rule commands, variable values and pool
//! names are emitted verbatim and never pass through here.

use vstd::prelude::*;

verus! {

/// A character that escaping rewrites.
pub open spec fn is_special(c: char) -> bool {
    c == '$' || c == ' ' || c == ':'
}

/// What a single character becomes under escaping.
pub open spec fn escape_char(c: char) -> Seq<char> {
    if c == '$' {
        seq!['$', '$']
    } else if c == ' ' {
        seq!['$', ' ']
    } else if c == ':' {
        seq!['$', ':']
    } else {
        seq![c]
    }
}

/// The escaped form of the suffix of `s` that starts at index `i`.
pub open spec fn escape_from(s: Seq<char>, i: int) -> Seq<char>
    decreases s.len() - i,
{
    if i < 0 || i >= s.len() {
        Seq::empty()
    } else {
        escape_char(s[i]) + escape_from(s, i + 1)
    }
}

/// The escaped form of a whole token: each character rewritten by
/// `escape_char`, in order.
pub open spec fn escape_spec(s: Seq<char>) -> Seq<char> {
    escape_from(s, 0)
}

/// How many characters of the suffix of `s` starting at `i` are special.
pub open spec fn count_special_from(s: Seq<char>, i: int) -> int
    decreases s.len() - i,
{
    if i < 0 || i >= s.len() {
        0
    } else {
        (if is_special(s[i]) {
            1int
        } else {
            0int
        }) + count_special_from(s, i + 1)
    }
}

/// Escaping a token grows it by exactly one character per special character.
pub proof fn lemma_escape_len(s: Seq<char>, i: int)
    requires
        0 <= i <= s.len(),
    ensures
        escape_from(s, i).len() == s.len() - i + count_special_from(s, i),
    decreases s.len() - i,
{
    if i < s.len() {
        lemma_escape_len(s, i + 1);
    }
}

/// Every special character of the input puts two special characters (a `$`
/// and the character it precedes) into the escaped form.
pub proof fn lemma_escape_count_special(s: Seq<char>, i: int)
    requires
        0 <= i <= s.len(),
    ensures
        count_special_from(escape_from(s, i), 0) == 2 * count_special_from(s, i),
    decreases s.len() - i,
{
    if i < s.len() {
        lemma_escape_count_special(s, i + 1);
        lemma_count_special_concat(escape_char(s[i]), escape_from(s, i + 1));
        assert(count_special_from(escape_char(s[i]), 0) == if is_special(s[i]) {
            2int
        } else {
            0int
        }) by {
            reveal_with_fuel(count_special_from, 3);
        }
    }
}

/// Special-character counts add up over concatenation.
proof fn lemma_count_special_concat(a: Seq<char>, b: Seq<char>)
    ensures
        count_special_from(a + b, 0) == count_special_from(a, 0) + count_special_from(b, 0),
{
    lemma_count_special_concat_from(a, b, 0);
}

proof fn lemma_count_special_concat_from(a: Seq<char>, b: Seq<char>, i: int)
    requires
        0 <= i <= a.len(),
    ensures
        count_special_from(a + b, i) == count_special_from(a, i) + count_special_from(b, 0),
    decreases a.len() - i,
{
    if i < a.len() {
        lemma_count_special_concat_from(a, b, i + 1);
    } else {
        lemma_count_special_shift(a, b, 0);
    }
}

proof fn lemma_count_special_shift(a: Seq<char>, b: Seq<char>, j: int)
    requires
        0 <= j <= b.len(),
    ensures
        count_special_from(a + b, a.len() + j) == count_special_from(b, j),
    decreases b.len() - j,
{
    if j < b.len() {
        lemma_count_special_shift(a, b, j + 1);
    }
}

/// Escaping is applied at most once per emission, and applying it twice is
/// never a silent no-op: on any token that holds a character escaping
/// rewrites, the doubly escaped form is strictly longer than the escaped
/// form, so the two always differ.
pub proof fn lemma_escape_strict_expansion(t: Seq<char>)
    requires
        exists|i: int| 0 <= i < t.len() && is_special(t[i]),
    ensures
        escape_spec(escape_spec(t)).len() > escape_spec(t).len(),
        escape_spec(escape_spec(t)) != escape_spec(t),
{
    let i = choose|i: int| 0 <= i < t.len() && is_special(t[i]);
    lemma_count_special_pos(t, 0, i);
    lemma_escape_len(t, 0);
    lemma_escape_count_special(t, 0);
    lemma_escape_len(escape_spec(t), 0);
}

/// A suffix that contains a special character has a positive count.
proof fn lemma_count_special_pos(s: Seq<char>, i: int, k: int)
    requires
        0 <= i <= k < s.len(),
        is_special(s[k]),
    ensures
        count_special_from(s, i) >= 1,
    decreases k - i,
{
    if i < k {
        lemma_count_special_pos(s, i + 1, k);
    } else {
        lemma_count_special_nonneg(s, k + 1);
    }
}

/// A special-character count is never negative.
proof fn lemma_count_special_nonneg(s: Seq<char>, i: int)
    ensures
        count_special_from(s, i) >= 0,
    decreases s.len() - i,
{
    if 0 <= i < s.len() {
        lemma_count_special_nonneg(s, i + 1);
    }
}

/// The escaped forms of a sequence of path tokens.
pub open spec fn escape_all(ts: Seq<Seq<char>>) -> Seq<Seq<char>> {
    ts.map_values(|t: Seq<char>| escape_spec(t))
}

/// Rewrites `$`, space and `:` in a path token, in that order, leaving every
/// other character alone.
pub fn escape_path(word: &str) -> (r: String)
    ensures
        r@ == escape_spec(word@),
{
    let out = escape_chars(word);
    crate::text::chars_to_string(&out)
}

/// The escaped form of a path token, as characters.
pub fn escape_chars(word: &str) -> (r: Vec<char>)
    ensures
        r@ == escape_spec(word@),
{
    let chars = crate::text::str_to_chars(word);
    let mut out: Vec<char> = Vec::new();
    let mut i: usize = 0;
    let n = chars.len();
    while i < n
        invariant
            i <= n,
            n == chars.len(),
            chars@ == word@,
            out@ + escape_from(word@, i as int) == escape_spec(word@),
        decreases n - i,
    {
        let ghost pre = out@;
        let c = chars[i];
        if c == '$' {
            out.push('$');
            out.push('$');
        } else if c == ' ' {
            out.push('$');
            out.push(' ');
        } else if c == ':' {
            out.push('$');
            out.push(':');
        } else {
            out.push(c);
        }
        proof {
            assert(out@ =~= pre + escape_char(word@[i as int]));
            assert(out@ + escape_from(word@, i + 1) =~= pre + escape_from(word@, i as int));
        }
        i = i + 1;
    }
    out
}

} // verus!
