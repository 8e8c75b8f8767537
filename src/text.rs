//! Character buffers and whitespace trimming.
use vstd::prelude::*;

verus! {

/// Unicode's `White_Space` property, as listed in the Unicode Character
/// Database (PropList.txt).
pub open spec fn white_space(c: char) -> bool {
    let u = c as u32;
    ||| 0x09 <= u <= 0x0D
    ||| u == 0x20
    ||| u == 0x85
    ||| u == 0xA0
    ||| u == 0x1680
    ||| 0x2000 <= u <= 0x200A
    ||| u == 0x2028
    ||| u == 0x2029
    ||| u == 0x202F
    ||| u == 0x205F
    ||| u == 0x3000
}

/// Relies on `char::is_whitespace`: true exactly for the characters with the
/// Unicode `White_Space` property.
#[verifier::external_body]
fn is_white_space(c: char) -> (r: bool)
    ensures
        r == white_space(c),
{
    c.is_whitespace()
}

/// Relies on `String::push`: appends one character at the end of the string.
#[verifier::external_body]
fn push_to_string(s: &mut String, c: char)
    ensures
        final(s)@ == old(s)@.push(c),
{
    s.push(c)
}

/// A sequence with no whitespace at either end.
pub open spec fn is_trimmed(s: Seq<char>) -> bool {
    s.len() == 0 || (!white_space(s.first()) && !white_space(s.last()))
}

/// The sequence with its leading and trailing whitespace removed.
pub open spec fn trimmed(s: Seq<char>) -> Seq<char>
    decreases s.len(),
{
    if s.len() > 0 && white_space(s.first()) {
        trimmed(s.drop_first())
    } else if s.len() > 0 && white_space(s.last()) {
        trimmed(s.drop_last())
    } else {
        s
    }
}

/// Trimming yields the part of `s` between its first and last non-whitespace
/// characters.
pub proof fn lemma_trimmed_between(s: Seq<char>, i: int, j: int)
    requires
        0 <= i <= j <= s.len(),
        forall|k: int| 0 <= k < i ==> white_space(#[trigger] s[k]),
        forall|k: int| j <= k < s.len() ==> white_space(#[trigger] s[k]),
        i < j ==> !white_space(s[i]) && !white_space(s[j - 1]),
    ensures
        trimmed(s) == s.subrange(i, j),
    decreases s.len(),
{
    if s.len() > 0 && white_space(s.first()) {
        let t = s.drop_first();
        let i2 = if i > 0 { i - 1 } else { 0 };
        let j2 = if j > 0 { j - 1 } else { 0 };
        assert forall|k: int| 0 <= k < i2 implies white_space(#[trigger] t[k]) by {
            assert(t[k] == s[k + 1]);
        }
        assert forall|k: int| j2 <= k < t.len() implies white_space(#[trigger] t[k]) by {
            assert(t[k] == s[k + 1]);
        }
        if i2 < j2 {
            assert(t[i2] == s[i2 + 1]);
            assert(t[j2 - 1] == s[j2]);
        }
        lemma_trimmed_between(t, i2, j2);
        assert(s.subrange(i, j) =~= t.subrange(i2, j2));
    } else if s.len() > 0 && white_space(s.last()) {
        let t = s.drop_last();
        if i == j && j == s.len() {
            assert(white_space(s[0]));
        }
        assert(j < s.len());
        let i2 = if i > t.len() { t.len() as int } else { i };
        assert forall|k: int| 0 <= k < i2 implies white_space(#[trigger] t[k]) by {
            assert(t[k] == s[k]);
        }
        assert forall|k: int| j <= k < t.len() implies white_space(#[trigger] t[k]) by {
            assert(t[k] == s[k]);
        }
        lemma_trimmed_between(t, i2, j);
        assert(s.subrange(i, j) =~= t.subrange(i2, j));
    } else if s.len() > 0 {
        if i > 0 {
            assert(white_space(s[0]));
        }
        if j < s.len() {
            assert(white_space(s[s.len() - 1]));
        }
        if i == j {
            assert(white_space(s[0]));
        }
        assert(s.subrange(i, j) =~= s);
    } else {
        assert(s.subrange(i, j) =~= s);
    }
}

/// A trimmed sequence has no whitespace at either end.
pub proof fn lemma_trimmed_is_trimmed(s: Seq<char>)
    ensures
        is_trimmed(trimmed(s)),
    decreases s.len(),
{
    if s.len() > 0 && white_space(s.first()) {
        lemma_trimmed_is_trimmed(s.drop_first());
    } else if s.len() > 0 && white_space(s.last()) {
        lemma_trimmed_is_trimmed(s.drop_last());
    }
}

/// A sequence without whitespace at its ends is left as it is.
pub proof fn lemma_trimmed_same(s: Seq<char>)
    requires
        is_trimmed(s),
    ensures
        trimmed(s) == s,
{
}

/// Whitespace in front of a sequence makes no difference once it is trimmed.
pub proof fn lemma_trimmed_skips_prefix(w: Seq<char>, x: Seq<char>)
    requires
        forall|i: int| 0 <= i < w.len() ==> white_space(#[trigger] w[i]),
    ensures
        trimmed(w + x) == trimmed(x),
    decreases w.len(),
{
    if w.len() == 0 {
        assert(w + x =~= x);
    } else {
        let v = w.drop_first();
        assert forall|i: int| 0 <= i < v.len() implies white_space(#[trigger] v[i]) by {
            assert(v[i] == w[i + 1]);
        }
        assert((w + x).first() == w[0]);
        assert((w + x).drop_first() =~= v + x);
        lemma_trimmed_skips_prefix(v, x);
    }
}

/// A sequence that ends in a character other than whitespace does not trim
/// to nothing.
pub proof fn lemma_trimmed_keeps_last(x: Seq<char>)
    requires
        x.len() > 0,
        !white_space(x.last()),
    ensures
        trimmed(x).len() > 0,
    decreases x.len(),
{
    if white_space(x.first()) {
        assert(x.len() > 1);
        assert(x.drop_first().last() == x.last());
        lemma_trimmed_keeps_last(x.drop_first());
    }
}

/// A sequence of whitespace trims to nothing.
pub proof fn lemma_trimmed_blank(x: Seq<char>)
    requires
        forall|i: int| 0 <= i < x.len() ==> white_space(#[trigger] x[i]),
    ensures
        trimmed(x).len() == 0,
{
    lemma_trimmed_between(x, 0, 0);
}

/// The characters of `chars` from `from` up to `to`, as a string.
pub fn string_of_range(chars: &Vec<char>, from: usize, to: usize) -> (r: String)
    requires
        from <= to <= chars.len(),
    ensures
        r@ == chars@.subrange(from as int, to as int),
{
    let mut r = String::new();
    let mut i: usize = from;
    while i < to
        invariant
            from <= i <= to <= chars.len(),
            r@ == chars@.subrange(from as int, i as int),
        decreases to - i,
    {
        push_to_string(&mut r, chars[i]);
        assert(chars@.subrange(from as int, i + 1) =~= chars@.subrange(from as int, i as int).push(
            chars@[i as int],
        ));
        i = i + 1;
    }
    r
}

/// The characters of `chars` without leading and trailing whitespace.
pub fn trim_chars(chars: &Vec<char>) -> (r: String)
    ensures
        r@ == trimmed(chars@),
{
    let mut i: usize = 0;
    while i < chars.len() && is_white_space(chars[i])
        invariant
            i <= chars.len(),
            forall|k: int| 0 <= k < i ==> white_space(#[trigger] chars@[k]),
        decreases chars.len() - i,
    {
        i = i + 1;
    }
    let mut j: usize = chars.len();
    while j > i && is_white_space(chars[j - 1])
        invariant
            i <= j <= chars.len(),
            forall|k: int| j <= k < chars.len() ==> white_space(#[trigger] chars@[k]),
        decreases j - i,
    {
        j = j - 1;
    }
    proof {
        lemma_trimmed_between(chars@, i as int, j as int);
    }
    string_of_range(chars, i, j)
}

} // verus!
