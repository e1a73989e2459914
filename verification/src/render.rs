//! Rendering counts and lines as text: decimal digits, right-justified
//! fixed-width fields, the per-run presentation, and joining words.

use vstd::prelude::*;

use crate::lines::lines_view;
use crate::lines::push_char;
use vstd::string::StringExecFns;

verus! {

/// The character for one decimal digit.
pub open spec fn digit_char(d: int) -> char {
    if d == 0 {
        '0'
    } else if d == 1 {
        '1'
    } else if d == 2 {
        '2'
    } else if d == 3 {
        '3'
    } else if d == 4 {
        '4'
    } else if d == 5 {
        '5'
    } else if d == 6 {
        '6'
    } else if d == 7 {
        '7'
    } else if d == 8 {
        '8'
    } else {
        '9'
    }
}

/// The decimal digits of a number, most significant first, no leading zeros
/// (the number zero is the single digit `'0'`).
pub open spec fn dec_digits(n: nat) -> Seq<char>
    decreases n,
{
    if n < 10 {
        seq![digit_char(n as int)]
    } else {
        dec_digits(n / 10).push(digit_char((n % 10) as int))
    }
}

/// `k` spaces.
pub open spec fn spaces(k: nat) -> Seq<char> {
    Seq::new(k, |j: int| ' ')
}

/// `s` right-justified in a field of `width` characters; wider content is
/// kept whole.
pub open spec fn right_justify(s: Seq<char>, width: nat) -> Seq<char> {
    if s.len() >= width {
        s
    } else {
        spaces((width - s.len()) as nat) + s
    }
}

/// A number has at most one decimal digit more than its tenth.
proof fn lemma_dec_digits_len(n: nat)
    ensures
        1 <= dec_digits(n).len() <= n + 1,
    decreases n,
{
    if n < 10 {
    } else {
        lemma_dec_digits_len(n / 10);
    }
}

/// The character for one decimal digit.
fn digit_char_of(d: usize) -> (c: char)
    requires
        d < 10,
    ensures
        c == digit_char(d as int),
{
    if d == 0 {
        '0'
    } else if d == 1 {
        '1'
    } else if d == 2 {
        '2'
    } else if d == 3 {
        '3'
    } else if d == 4 {
        '4'
    } else if d == 5 {
        '5'
    } else if d == 6 {
        '6'
    } else if d == 7 {
        '7'
    } else if d == 8 {
        '8'
    } else {
        '9'
    }
}

/// Append the decimal digits of `n` to `out`.
fn push_digits(n: usize, out: &mut String)
    ensures
        final(out)@ == old(out)@ + dec_digits(n as nat),
    decreases n,
{
    if n >= 10 {
        push_digits(n / 10, out);
        push_char(out, digit_char_of(n % 10));
        proof {
            assert(out@ =~= old(out)@ + dec_digits(n as nat));
        }
    } else {
        push_char(out, digit_char_of(n));
        proof {
            assert(out@ =~= old(out)@ + dec_digits(n as nat));
        }
    }
}

/// How many decimal digits `n` has.
fn digit_count(n: usize) -> (c: usize)
    ensures
        c == dec_digits(n as nat).len(),
    decreases n,
{
    if n < 10 {
        1
    } else {
        proof {
            lemma_dec_digits_len((n / 10) as nat);
        }
        1 + digit_count(n / 10)
    }
}

/// The decimal digits of `value`, right-justified in a field of `width`
/// characters.
pub fn format_count(value: usize, width: usize) -> (r: String)
    ensures
        r@ == right_justify(dec_digits(value as nat), width as nat),
{
    let nd = digit_count(value);
    let mut r = String::new();
    if nd < width {
        let pad = width - nd;
        let mut j: usize = 0;
        proof {
            assert(r@ =~= spaces(0));
        }
        while j < pad
            invariant
                j <= pad,
                r@ == spaces(j as nat),
            decreases pad - j,
        {
            push_char(&mut r, ' ');
            proof {
                assert(r@ =~= spaces(j as nat + 1));
            }
            j = j + 1;
        }
    }
    push_digits(value, &mut r);
    r
}

/// What the counter column shows: the value right-justified in a five
/// character field when it is shown at all, nothing otherwise.
pub open spec fn spec_format_string(value: nat, show: bool) -> Seq<char> {
    if show {
        right_justify(dec_digits(value), 5)
    } else {
        Seq::empty()
    }
}

/// Render one counter column entry: the value right-justified in a five
/// character field when `show` is set, the empty string otherwise.
pub fn format_string(value: usize, show: bool) -> (r: String)
    ensures
        r@ == spec_format_string(value as nat, show),
{
    if show {
        format_count(value, 5)
    } else {
        let r = String::new();
        proof {
            assert(r@ =~= Seq::<char>::empty());
        }
        r
    }
}

/// What one rendered run looks like: with the count shown, the count
/// right-justified in a seven character field, a space, then the line;
/// without it, the line alone.
pub open spec fn spec_format_run(count: nat, line: Seq<char>, show_count: bool) -> Seq<char> {
    if show_count {
        right_justify(dec_digits(count), 7) + seq![' '] + line
    } else {
        line
    }
}

/// Render one run for output.
pub fn format_run(count: usize, line: &String, show_count: bool) -> (r: String)
    ensures
        r@ == spec_format_run(count as nat, line@, show_count),
{
    if show_count {
        let mut r = format_count(count, 7);
        push_char(&mut r, ' ');
        r.append(line.as_str());
        proof {
            assert(r@ =~= spec_format_run(count as nat, line@, show_count));
        }
        r
    } else {
        line.clone()
    }
}

/// The words joined by single spaces.
pub open spec fn joined(s: Seq<Seq<char>>) -> Seq<char>
    decreases s.len(),
{
    if s.len() == 0 {
        Seq::empty()
    } else if s.len() == 1 {
        s[0]
    } else {
        joined(s.drop_last()) + seq![' '] + s.last()
    }
}

/// Join the given words with single spaces between them.
pub fn join_with_spaces(words: &Vec<String>) -> (r: String)
    ensures
        r@ == joined(lines_view(words@)),
{
    let mut r = String::new();
    let mut i: usize = 0;
    proof {
        assert(lines_view(words@).take(0) =~= Seq::<Seq<char>>::empty());
        assert(r@ =~= joined(lines_view(words@).take(0)));
    }
    while i < words.len()
        invariant
            i <= words.len(),
            r@ == joined(lines_view(words@).take(i as int)),
        decreases words.len() - i,
    {
        let ghost w = lines_view(words@);
        if i > 0 {
            push_char(&mut r, ' ');
        }
        r.append(words[i].as_str());
        proof {
            assert(w[i as int] == words@[i as int]@);
            let t = w.take(i as int + 1);
            assert(t.drop_last() =~= w.take(i as int));
            assert(t.last() == w[i as int]);
            if i == 0 {
                assert(t.len() == 1);
                assert(t[0] == w[0]);
                assert(r@ =~= joined(t));
            } else {
                assert(r@ =~= joined(t));
            }
        }
        i = i + 1;
    }
    proof {
        assert(lines_view(words@).take(words@.len() as int) =~= lines_view(words@));
    }
    r
}

} // verus!
