//! Counting lines, words, bytes and characters of a text, and totalling the
//! counts of several texts.

use vstd::prelude::*;
use vstd::string::StrSliceExecFns;
use vstd::string::StringSliceAdditionalSpecFns;

use crate::lines::spec_lines;
use crate::lines::split_lines;

verus! {

/// Whether a character has the Unicode `White_Space` property.
pub uninterp spec fn is_unicode_space(c: char) -> bool;

/// Relies on `char::is_whitespace`: whether the character has the Unicode
/// `White_Space` property, a function of the character alone.
#[verifier::external_body]
fn is_space(c: char) -> (r: bool)
    ensures
        r == is_unicode_space(c),
{
    c.is_whitespace()
}

/// How many words the text holds: maximal runs of non-whitespace characters,
/// counted by their first character.
pub open spec fn word_count(s: Seq<char>) -> int
    decreases s.len(),
{
    if s.len() == 0 {
        0
    } else {
        word_count(s.drop_last()) + if !is_unicode_space(s.last()) && (s.len() == 1
            || is_unicode_space(s[s.len() - 2])) {
            1int
        } else {
            0int
        }
    }
}

/// Count the words of a text.
fn count_words(s: &str) -> (count: usize)
    ensures
        count == word_count(s@),
{
    let n = s.unicode_len();
    let mut count: usize = 0;
    let mut prev_space = true;
    let mut i: usize = 0;
    proof {
        assert(s@.take(0) =~= Seq::<char>::empty());
    }
    while i < n
        invariant
            i <= n,
            n == s@.len(),
            count == word_count(s@.take(i as int)),
            count <= i,
            prev_space == (i == 0 || is_unicode_space(s@[i as int - 1])),
        decreases n - i,
    {
        let c = s.get_char(i);
        let sp = is_space(c);
        if !sp && prev_space {
            count = count + 1;
        }
        proof {
            let t = s@.take(i as int + 1);
            assert(t.drop_last() =~= s@.take(i as int));
            assert(t.last() == s@[i as int]);
            if i > 0 {
                assert(t[i as int - 1] == s@[i as int - 1]);
            }
        }
        prev_space = sp;
        i = i + 1;
    }
    proof {
        assert(s@.take(n as int) =~= s@);
    }
    count
}

/// The line, word, byte and character counts of one text.
#[derive(Clone, Copy, Debug, PartialEq, Eq, Structural)]
pub struct FileInfo {
    pub number_lines: usize,
    pub number_words: usize,
    pub number_bytes: usize,
    pub number_chars: usize,
}

/// Componentwise totals of a sequence of counts: lines, words, bytes,
/// characters.
pub open spec fn spec_totals(s: Seq<FileInfo>) -> (int, int, int, int)
    decreases s.len(),
{
    if s.len() == 0 {
        (0int, 0int, 0int, 0int)
    } else {
        let t = spec_totals(s.drop_last());
        let x = s.last();
        (
            t.0 + x.number_lines,
            t.1 + x.number_words,
            t.2 + x.number_bytes,
            t.3 + x.number_chars,
        )
    }
}

/// A prefix never exceeds the whole in any component.
proof fn lemma_totals_prefix(s: Seq<FileInfo>, i: int)
    requires
        0 <= i <= s.len(),
    ensures
        0 <= spec_totals(s.take(i)).0 <= spec_totals(s).0,
        0 <= spec_totals(s.take(i)).1 <= spec_totals(s).1,
        0 <= spec_totals(s.take(i)).2 <= spec_totals(s).2,
        0 <= spec_totals(s.take(i)).3 <= spec_totals(s).3,
    decreases s.len() - i,
{
    if i == s.len() {
        assert(s.take(i) =~= s);
        lemma_totals_nonneg(s);
    } else {
        lemma_totals_prefix(s, i + 1);
        lemma_totals_nonneg(s.take(i));
        let t = s.take(i + 1);
        assert(t.drop_last() =~= s.take(i));
        assert(t.last() == s[i]);
    }
}

/// Totals are never negative.
proof fn lemma_totals_nonneg(s: Seq<FileInfo>)
    ensures
        spec_totals(s).0 >= 0,
        spec_totals(s).1 >= 0,
        spec_totals(s).2 >= 0,
        spec_totals(s).3 >= 0,
    decreases s.len(),
{
    if s.len() == 0 {
    } else {
        lemma_totals_nonneg(s.drop_last());
    }
}

impl FileInfo {
    /// Count the lines, words, bytes and characters of a text.
    pub fn new(contents: &str) -> (info: FileInfo)
        ensures
            info.number_lines == spec_lines(contents@).len(),
            info.number_words == word_count(contents@),
            info.number_bytes == contents.spec_bytes().len() as usize,
            info.number_chars == contents@.len(),
    {
        let lines = split_lines(contents);
        proof {
            assert(crate::lines::lines_view(lines@).len() == lines@.len());
        }
        FileInfo {
            number_lines: lines.len(),
            number_words: count_words(contents),
            number_bytes: contents.len(),
            number_chars: contents.unicode_len(),
        }
    }

    /// Componentwise sum of two counts.
    pub fn add(self, rhs: FileInfo) -> (r: FileInfo)
        requires
            self.number_lines + rhs.number_lines <= usize::MAX,
            self.number_words + rhs.number_words <= usize::MAX,
            self.number_bytes + rhs.number_bytes <= usize::MAX,
            self.number_chars + rhs.number_chars <= usize::MAX,
        ensures
            r.number_lines == self.number_lines + rhs.number_lines,
            r.number_words == self.number_words + rhs.number_words,
            r.number_bytes == self.number_bytes + rhs.number_bytes,
            r.number_chars == self.number_chars + rhs.number_chars,
    {
        FileInfo {
            number_lines: self.number_lines + rhs.number_lines,
            number_words: self.number_words + rhs.number_words,
            number_bytes: self.number_bytes + rhs.number_bytes,
            number_chars: self.number_chars + rhs.number_chars,
        }
    }

    /// Componentwise total of the given counts.
    pub fn sum(infos: &Vec<FileInfo>) -> (r: FileInfo)
        requires
            spec_totals(infos@).0 <= usize::MAX,
            spec_totals(infos@).1 <= usize::MAX,
            spec_totals(infos@).2 <= usize::MAX,
            spec_totals(infos@).3 <= usize::MAX,
        ensures
            r.number_lines == spec_totals(infos@).0,
            r.number_words == spec_totals(infos@).1,
            r.number_bytes == spec_totals(infos@).2,
            r.number_chars == spec_totals(infos@).3,
    {
        let mut acc = FileInfo { number_lines: 0, number_words: 0, number_bytes: 0, number_chars: 0 };
        let mut i: usize = 0;
        proof {
            assert(infos@.take(0) =~= Seq::<FileInfo>::empty());
        }
        while i < infos.len()
            invariant
                i <= infos.len(),
                spec_totals(infos@).0 <= usize::MAX,
                spec_totals(infos@).1 <= usize::MAX,
                spec_totals(infos@).2 <= usize::MAX,
                spec_totals(infos@).3 <= usize::MAX,
                acc.number_lines == spec_totals(infos@.take(i as int)).0,
                acc.number_words == spec_totals(infos@.take(i as int)).1,
                acc.number_bytes == spec_totals(infos@.take(i as int)).2,
                acc.number_chars == spec_totals(infos@.take(i as int)).3,
            decreases infos.len() - i,
        {
            proof {
                lemma_totals_prefix(infos@, i as int + 1);
                let t = infos@.take(i as int + 1);
                assert(t.drop_last() =~= infos@.take(i as int));
                assert(t.last() == infos@[i as int]);
            }
            acc = acc.add(infos[i]);
            i = i + 1;
        }
        proof {
            assert(infos@.take(infos@.len() as int) =~= infos@);
        }
        acc
    }
}

} // verus!
