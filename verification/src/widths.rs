//! Display-width model: the number of terminal columns a character or a
//! string occupies, following the Unicode East-Asian-width tables of the
//! `unicode_width` crate. Characters without a defined width (control and
//! malformed input) count as zero columns; the width of a string is the sum
//! of the widths of its characters.

use vstd::prelude::*;

verus! {

/// The column width that `unicode_width` assigns to a character: `None` for
/// control characters, otherwise a small count of columns (zero for
/// combining characters, two for East-Asian wide characters). The tables
/// take pages to state, so the result is only named here; the space
/// character is pinned to one column because the padding logic depends on it.
pub uninterp spec fn unicode_char_width(c: char) -> Option<usize>;

/// Display width of one character: the `unicode_width` column count, with
/// undefined widths degrading to zero columns.
pub open spec fn char_width(c: char) -> nat {
    if c == ' ' {
        1nat
    } else {
        match unicode_char_width(c) {
            Some(w) => w as nat,
            None => 0nat,
        }
    }
}

/// Display width of a string: the sum of its characters' widths.
pub open spec fn str_width(s: Seq<char>) -> nat
    decreases s.len(),
{
    if s.len() == 0 {
        0nat
    } else {
        str_width(s.drop_last()) + char_width(s.last())
    }
}

/// A run of `n` space characters.
pub open spec fn spaces(n: nat) -> Seq<char> {
    Seq::new(n, |i: int| ' ')
}

/// Width is additive over concatenation.
pub proof fn lemma_str_width_concat(a: Seq<char>, b: Seq<char>)
    ensures
        str_width(a + b) == str_width(a) + str_width(b),
    decreases b.len(),
{
    if b.len() == 0 {
        assert(a + b =~= a);
    } else {
        lemma_str_width_concat(a, b.drop_last());
        assert((a + b).drop_last() =~= a + b.drop_last());
        assert((a + b).last() == b.last());
    }
}

/// Appending one character adds that character's width.
pub proof fn lemma_str_width_push(s: Seq<char>, c: char)
    ensures
        str_width(s.push(c)) == str_width(s) + char_width(c),
{
    assert(s.push(c).drop_last() =~= s);
    assert(s.push(c).last() == c);
}

/// A one-character string is as wide as its character.
pub proof fn lemma_str_width_singleton(c: char)
    ensures
        str_width(seq![c]) == char_width(c),
{
    assert(seq![c].drop_last() =~= Seq::<char>::empty());
    assert(seq![c].last() == c);
    assert(str_width(Seq::<char>::empty()) == 0);
}

/// Extending a prefix by its next character adds that character's width.
pub proof fn lemma_str_width_take_succ(s: Seq<char>, i: int)
    requires
        0 <= i < s.len(),
    ensures
        str_width(s.take(i + 1)) == str_width(s.take(i)) + char_width(s[i]),
{
    assert(s.take(i + 1).drop_last() =~= s.take(i));
    assert(s.take(i + 1).last() == s[i]);
}

/// A prefix is never wider than the whole string.
pub proof fn lemma_str_width_prefix_le(s: Seq<char>, i: int)
    requires
        0 <= i <= s.len(),
    ensures
        str_width(s.take(i)) <= str_width(s),
{
    assert(s =~= s.take(i) + s.skip(i));
    lemma_str_width_concat(s.take(i), s.skip(i));
}

/// A run of `n` spaces is exactly `n` columns wide.
pub proof fn lemma_spaces_width(n: nat)
    ensures
        str_width(spaces(n)) == n,
    decreases n,
{
    if n > 0 {
        lemma_spaces_width((n - 1) as nat);
        assert(spaces(n).drop_last() =~= spaces((n - 1) as nat));
        assert(spaces(n).last() == ' ');
    }
}

/// Relies on `unicode_width::UnicodeWidthChar::width`: a pure table lookup,
/// so the width depends on the character alone; the table gives a space one
/// column.
#[verifier::external_body]
fn lookup_char_width(c: char) -> (w: Option<usize>)
    ensures
        w == unicode_char_width(c),
        c == ' ' ==> w == Some(1usize),
{
    unicode_width::UnicodeWidthChar::width(c)
}

/// Display width of one character, with undefined widths counting as zero.
pub fn measure_char(c: char) -> (w: usize)
    ensures
        w as nat == char_width(c),
{
    match lookup_char_width(c) {
        Some(w) => w,
        None => 0,
    }
}

/// Relies on `alloc::string::String::push`: appends the given character to
/// the end of the string.
pub assume_specification[ String::push ](s: &mut String, c: char)
    ensures
        final(s)@ == old(s)@.push(c),
;

/// Display width of a string, measured only up to a cap: `Some(w)` when the
/// whole string is `w <= cap` columns wide, `None` when the string is wider
/// than `cap`. The running total never leaves `0 ..= cap`, so the sum cannot
/// overflow.
pub fn width_within(s: &str, cap: usize) -> (r: Option<usize>)
    ensures
        match r {
            Some(w) => w as nat == str_width(s@) && w <= cap,
            None => str_width(s@) > cap,
        },
{
    let n = s.unicode_len();
    let mut total: usize = 0;
    let mut i: usize = 0;
    while i < n
        invariant
            i <= n,
            n == s@.len(),
            total as nat == str_width(s@.take(i as int)),
            total <= cap,
        decreases n - i,
    {
        let c = s.get_char(i);
        let cw = measure_char(c);
        proof {
            lemma_str_width_take_succ(s@, i as int);
        }
        if cw > cap - total {
            proof {
                lemma_str_width_prefix_le(s@, i + 1);
            }
            return None;
        }
        total = total + cw;
        i = i + 1;
    }
    proof {
        assert(s@.take(n as int) =~= s@);
    }
    Some(total)
}

/// Builds a run of `n` space characters.
pub fn make_spaces(n: usize) -> (r: String)
    ensures
        r@ == spaces(n as nat),
{
    let mut r = String::new();
    let mut i: usize = 0;
    while i < n
        invariant
            i <= n,
            r@ == spaces(i as nat),
        decreases n - i,
    {
        r.push(' ');
        proof {
            assert(spaces(i as nat).push(' ') =~= spaces((i + 1) as nat));
        }
        i = i + 1;
    }
    r
}

} // verus!
