//! Splitting a text into its lines.
//!
//! A line ends at a `'\n'` or at a `"\r\n"` pair; the terminator is not part
//! of the line, and a final terminator is optional. A lone `'\r'` is ordinary
//! line content.

use vstd::prelude::*;
use vstd::string::StrSliceExecFns;

verus! {

/// Remove one trailing carriage return, if present: the half of a `"\r\n"`
/// terminator that was accumulated before the `'\n'` was seen.
pub open spec fn strip_cr(l: Seq<char>) -> Seq<char> {
    if l.len() > 0 && l.last() == '\r' {
        l.drop_last()
    } else {
        l
    }
}

/// The lines of `s`, with `cur` the partial line accumulated so far.
/// Each `'\n'` closes a line (dropping a preceding `'\r'`); a non-empty
/// partial line at the end of the text counts as a final line.
pub open spec fn lines_from(s: Seq<char>, cur: Seq<char>) -> Seq<Seq<char>>
    decreases s.len(),
{
    if s.len() == 0 {
        if cur.len() == 0 {
            Seq::empty()
        } else {
            seq![cur]
        }
    } else if s[0] == '\n' {
        seq![strip_cr(cur)] + lines_from(s.drop_first(), Seq::empty())
    } else {
        lines_from(s.drop_first(), cur.push(s[0]))
    }
}

/// The lines of a text.
pub open spec fn spec_lines(s: Seq<char>) -> Seq<Seq<char>> {
    lines_from(s, Seq::empty())
}

/// Mathematical value of a vector of lines.
pub open spec fn lines_view(v: Seq<String>) -> Seq<Seq<char>> {
    v.map_values(|x: String| x@)
}

/// Relies on `String::push`: appends the given character to the end of the
/// string.
#[verifier::external_body]
pub(crate) fn push_char(s: &mut String, c: char)
    ensures
        final(s)@ == old(s)@.push(c),
{
    s.push(c);
}

/// Split a text into its lines.
pub fn split_lines(s: &str) -> (lines: Vec<String>)
    ensures
        lines_view(lines@) == spec_lines(s@),
{
    let n = s.unicode_len();
    let mut lines: Vec<String> = Vec::new();
    let mut cur = String::new();
    let mut i: usize = 0;
    proof {
        assert(lines_view(lines@) =~= Seq::<Seq<char>>::empty());
        assert(s@.skip(0) =~= s@);
    }
    while i < n
        invariant
            i <= n,
            n == s@.len(),
            lines_view(lines@) + lines_from(s@.skip(i as int), cur@) == spec_lines(s@),
            cur@.len() > 0 && cur@.last() == '\r' && i < n ==> s@[i as int] != '\n',
        decreases n - i,
    {
        let c = s.get_char(i);
        let ghost rest = s@.skip(i as int);
        proof {
            assert(rest[0] == s@[i as int]);
            assert(rest.drop_first() =~= s@.skip(i as int + 1));
        }
        if c == '\n' {
            proof {
                assert(strip_cr(cur@) == cur@);
                assert(lines_from(rest, cur@) == seq![cur@] + lines_from(
                    s@.skip(i as int + 1),
                    Seq::empty(),
                ));
            }
            let ghost done = lines@;
            let ghost closed = cur@;
            lines.push(cur);
            cur = String::new();
            proof {
                assert(lines_view(lines@) =~= lines_view(done).push(closed));
                assert(lines_view(lines@) + lines_from(s@.skip(i as int + 1), cur@) =~= spec_lines(
                    s@,
                ));
            }
            i = i + 1;
        } else if c == '\r' && i + 1 < n && s.get_char(i + 1) == '\n' {
            proof {
                let rest2 = s@.skip(i as int + 1);
                assert(rest2[0] == s@[i as int + 1]);
                assert(rest2.drop_first() =~= s@.skip(i as int + 2));
                assert(lines_from(rest, cur@) == lines_from(rest2, cur@.push('\r')));
                assert(strip_cr(cur@.push('\r')) =~= cur@);
                assert(lines_from(rest2, cur@.push('\r')) == seq![cur@] + lines_from(
                    s@.skip(i as int + 2),
                    Seq::empty(),
                ));
            }
            let ghost done = lines@;
            let ghost closed = cur@;
            lines.push(cur);
            cur = String::new();
            proof {
                assert(lines_view(lines@) =~= lines_view(done).push(closed));
                assert(lines_view(lines@) + lines_from(s@.skip(i as int + 2), cur@) =~= spec_lines(
                    s@,
                ));
            }
            i = i + 2;
        } else {
            proof {
                assert(lines_from(rest, cur@) == lines_from(s@.skip(i as int + 1), cur@.push(c)));
            }
            push_char(&mut cur, c);
            i = i + 1;
        }
    }
    proof {
        assert(s@.skip(n as int) =~= Seq::<char>::empty());
    }
    if cur.as_str().unicode_len() > 0 {
        let ghost done = lines@;
        let ghost closed = cur@;
        lines.push(cur);
        proof {
            assert(lines_view(lines@) =~= lines_view(done).push(closed));
            assert(lines_view(lines@) =~= spec_lines(s@));
        }
    } else {
        proof {
            assert(cur@.len() == 0);
            assert(lines_view(lines@) =~= spec_lines(s@));
        }
    }
    lines
}

/// The first `n` lines, or all of them when there are fewer.
pub fn head_lines(lines: &Vec<String>, n: usize) -> (r: Vec<String>)
    ensures
        r@ == lines@.take(
            if n <= lines@.len() {
                n as int
            } else {
                lines@.len() as int
            },
        ),
{
    let count = if n <= lines.len() {
        n
    } else {
        lines.len()
    };
    let mut r: Vec<String> = Vec::new();
    let mut i: usize = 0;
    proof {
        assert(r@ =~= lines@.take(0));
    }
    while i < count
        invariant
            i <= count,
            count <= lines@.len(),
            count == if n <= lines@.len() {
                n as int
            } else {
                lines@.len() as int
            },
            r@ == lines@.take(i as int),
        decreases count - i,
    {
        r.push(lines[i].clone());
        proof {
            assert(r@ =~= lines@.take(i as int + 1));
        }
        i = i + 1;
    }
    r
}

} // verus!
