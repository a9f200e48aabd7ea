//! Laying out text for the terminal.
use crate::text::{chars_of, push_char};
use vstd::prelude::*;

verus! {

/// The columns that unicode-width gives a character; `None` for a control
/// character.
pub uninterp spec fn char_width_of(c: char) -> Option<usize>;

/// The columns that unicode-width gives a string.
pub uninterp spec fn str_width_of(s: Seq<char>) -> usize;

/// Relies on unicode_width::UnicodeWidthChar::width: the displayed width of
/// a character, a function of the character alone.
#[verifier::external_body]
fn char_width(c: char) -> (r: Option<usize>)
    ensures
        r == char_width_of(c),
{
    unicode_width::UnicodeWidthChar::width(c)
}

/// Relies on unicode_width::UnicodeWidthStr::width: the displayed width of
/// a string, a function of its characters alone; the empty string takes no
/// column.
#[verifier::external_body]
fn str_width(s: &str) -> (r: usize)
    ensures
        r == str_width_of(s@),
        s@.len() == 0 ==> r == 0,
{
    unicode_width::UnicodeWidthStr::width(s)
}

/// The columns a character takes when a string is cut: a control character
/// takes none.
pub open spec fn cols(c: char) -> int {
    match char_width_of(c) {
        Some(w) => w as int,
        None => 0,
    }
}

/// The columns of the characters of `s`, one by one.
pub open spec fn cols_sum(s: Seq<char>) -> int
    decreases s.len(),
{
    if s.len() == 0 {
        0
    } else {
        cols_sum(s.drop_last()) + cols(s.last())
    }
}

/// How many leading characters of `s` fit in `budget` columns, stopping at
/// the first one that does not.
pub open spec fn fit_len(s: Seq<char>, budget: int) -> nat
    decreases s.len(),
{
    if s.len() == 0 || cols(s[0]) > budget {
        0
    } else {
        1 + fit_len(s.drop_first(), budget - cols(s[0]))
    }
}

/// `n` spaces.
pub open spec fn spaces(n: int) -> Seq<char> {
    Seq::new(n as nat, |i: int| ' ')
}

/// `s` laid out in exactly `width` columns: padded with spaces when it fits,
/// otherwise cut to the characters that fit in `width - 1` columns, followed
/// by `…` and padding.
pub open spec fn fitted(s: Seq<char>, width: int) -> Seq<char> {
    if str_width_of(s) <= width {
        s + spaces(width - str_width_of(s))
    } else {
        let k = fit_len(s, width - 1) as int;
        s.take(k) + seq!['…'] + spaces(width - 1 - cols_sum(s.take(k)))
    }
}

fn push_spaces(out: &mut String, n: usize)
    ensures
        final(out)@ == old(out)@ + spaces(n as int),
{
    let ghost start = out@;
    let mut i: usize = 0;
    while i < n
        invariant
            i <= n,
            out@ == start + spaces(i as int),
        decreases n - i,
    {
        push_char(out, ' ');
        i = i + 1;
        assert(out@ =~= start + spaces(i as int));
    }
}

/// Truncates `s` to `width` columns, ending it with `…` when it was cut, and
/// pads it with spaces to fill the width.
pub fn fit_to_width(s: &str, width: usize) -> (r: String)
    requires
        width >= 1,
    ensures
        r@ == fitted(s@, width as int),
{
    let total = str_width(s);
    if total <= width {
        let mut out = s.to_owned();
        push_spaces(&mut out, width - total);
        return out;
    }
    let cs = chars_of(s);
    let budget = width - 1;
    let mut out = String::new();
    let mut used: usize = 0;
    let mut i: usize = 0;
    assert(cs@.subrange(0, cs@.len() as int) =~= cs@);
    assert(cs@.take(0) =~= Seq::<char>::empty());
    while i < cs.len()
        invariant
            cs@ == s@,
            i <= cs@.len(),
            budget == width - 1,
            out@ == cs@.take(i as int),
            used == cols_sum(cs@.take(i as int)),
            used <= budget,
            fit_len(cs@, budget as int) == i + fit_len(
                cs@.subrange(i as int, cs@.len() as int),
                budget - used,
            ),
        ensures
            out@ == cs@.take(i as int),
            used == cols_sum(cs@.take(i as int)),
            used <= budget,
            fit_len(cs@, budget as int) == i,
        decreases cs@.len() - i,
    {
        let c = cs[i];
        let cw: usize = match char_width(c) {
            Some(w) => w,
            None => 0,
        };
        let ghost rest = cs@.subrange(i as int, cs@.len() as int);
        assert(rest[0] == c);
        if cw > budget - used {
            assert(fit_len(rest, budget - used) == 0);
            break ;
        }
        push_char(&mut out, c);
        proof {
            assert(rest.drop_first() =~= cs@.subrange(i + 1, cs@.len() as int));
            assert(cs@.take(i + 1).drop_last() =~= cs@.take(i as int));
            assert(out@ =~= cs@.take(i + 1));
        }
        used = used + cw;
        i = i + 1;
    }
    proof {
        if i == cs.len() {
            assert(cs@.subrange(i as int, cs@.len() as int).len() == 0);
        }
    }
    push_char(&mut out, '…');
    push_spaces(&mut out, budget - used);
    out
}

} // verus!
