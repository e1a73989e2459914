//! Run-length grouping of adjacent equal items.
//!
//! The engine consumes an ordered sequence of text lines and groups maximal
//! adjacent runs of equal lines, emitting one `(count, representative)` pair
//! per run, in first-seen order. It is offered both as an incremental
//! transducer (`Grouper`) and as batch functions (`group_runs`, `count_lines`).

use vstd::prelude::*;

use crate::lines::lines_view;
use crate::lines::spec_lines;
use crate::lines::split_lines;

verus! {

/// Mathematical value of one emitted run: its length and its representative.
pub open spec fn run_view(r: (usize, String)) -> (int, Seq<char>) {
    (r.0 as int, r.1@)
}

/// Mathematical value of an emitted run sequence.
pub open spec fn runs_view(rs: Seq<(usize, String)>) -> Seq<(int, Seq<char>)> {
    rs.map_values(|r: (usize, String)| run_view(r))
}

/// The run-length grouping of a sequence: one `(count, representative)` pair
/// per maximal adjacent run of equal items, in first-seen order. Appending an
/// item either lengthens the last run (when the item equals its
/// representative) or opens a new run of length one.
pub open spec fn runs_of(s: Seq<Seq<char>>) -> Seq<(int, Seq<char>)>
    decreases s.len(),
{
    if s.len() == 0 {
        Seq::empty()
    } else {
        let prev = runs_of(s.drop_last());
        let x = s.last();
        if prev.len() > 0 && prev.last().1 == x {
            prev.update(prev.len() - 1, (prev.last().0 + 1, x))
        } else {
            prev.push((1int, x))
        }
    }
}

/// A run that is open but not yet emitted, as a one-element sequence; the
/// empty sequence when no run is open.
pub open spec fn open_seq(o: Option<(int, Seq<char>)>) -> Seq<(int, Seq<char>)> {
    match o {
        Some(p) => seq![p],
        None => Seq::empty(),
    }
}

/// Incremental run-length grouping transducer.
///
/// Two states: no run open (right after construction or `finish`), or one run
/// open with its representative and a positive count. Feeding an item either
/// extends the open run, or completes it and opens a new one; `finish`
/// completes the trailing run, so the final run is never silently dropped.
pub struct Grouper {
    rep: Option<String>,
    count: usize,
}

impl Grouper {
    /// The counter is positive exactly while a run is open.
    pub closed spec fn wf(self) -> bool {
        match self.rep {
            Some(_) => self.count >= 1,
            None => self.count == 0,
        }
    }

    /// The run currently open: its length so far and its representative.
    pub closed spec fn open_run(self) -> Option<(int, Seq<char>)> {
        match self.rep {
            Some(r) => Some((self.count as int, r@)),
            None => None,
        }
    }

    /// A fresh engine with no run open.
    pub fn new() -> (g: Grouper)
        ensures
            g.wf(),
            g.open_run() is None,
    {
        Grouper { rep: None, count: 0 }
    }

    /// Consume one item. Returns the completed run when the item differs from
    /// the open run's representative; returns `None` when it merely opens or
    /// extends a run.
    pub fn feed(&mut self, item: String) -> (emitted: Option<(usize, String)>)
        requires
            old(self).wf(),
            old(self).open_run() matches Some(p) ==> p.0 < usize::MAX,
        ensures
            final(self).wf(),
            match old(self).open_run() {
                None => emitted is None && final(self).open_run() == Some((1int, item@)),
                Some(p) => if p.1 == item@ {
                    &&& emitted is None
                    &&& final(self).open_run() == Some((p.0 + 1, p.1))
                } else {
                    &&& final(self).open_run() == Some((1int, item@))
                    &&& emitted matches Some(e) && run_view(e) == p
                },
            },
    {
        if self.rep.is_none() {
            self.rep = Some(item);
            self.count = 1;
            return None;
        }
        let same = match &self.rep {
            Some(r) => *r == item,
            None => false,
        };
        if same {
            self.count = self.count + 1;
            None
        } else {
            let c = self.count;
            let prev = self.rep.take();
            self.rep = Some(item);
            self.count = 1;
            match prev {
                Some(r) => Some((c, r)),
                None => None,
            }
        }
    }

    /// Close the input: emit the trailing run if one is open, and return to
    /// the no-run-open state.
    pub fn finish(&mut self) -> (emitted: Option<(usize, String)>)
        requires
            old(self).wf(),
        ensures
            final(self).wf(),
            final(self).open_run() is None,
            match old(self).open_run() {
                None => emitted is None,
                Some(p) => emitted matches Some(e) && run_view(e) == p,
            },
    {
        let c = self.count;
        self.count = 0;
        match self.rep.take() {
            Some(r) => Some((c, r)),
            None => None,
        }
    }
}

/// Batch form of the engine: feed every item, then flush the trailing run.
pub fn group_runs(items: &Vec<String>) -> (runs: Vec<(usize, String)>)
    ensures
        runs_view(runs@) == runs_of(lines_view(items@)),
{
    let ghost all: Seq<Seq<char>> = lines_view(items@);
    let mut g = Grouper::new();
    let mut out: Vec<(usize, String)> = Vec::new();
    let mut i: usize = 0;
    proof {
        assert(runs_view(out@) + open_seq(g.open_run()) =~= runs_of(all.take(0)));
    }
    while i < items.len()
        invariant
            i <= items.len(),
            all == lines_view(items@),
            g.wf(),
            g.open_run() is None ==> i == 0,
            g.open_run() matches Some(p) ==> p.0 <= i,
            runs_view(out@) + open_seq(g.open_run()) == runs_of(all.take(i as int)),
        decreases items.len() - i,
    {
        let item = items[i].clone();
        proof {
            assert(item@ == all[i as int]);
        }
        let ghost prior = g.open_run();
        let ghost done = out@;
        let emitted = g.feed(item);
        match emitted {
            Some(e) => out.push(e),
            None => {},
        }
        proof {
            let t = all.take(i as int + 1);
            assert(t.drop_last() =~= all.take(i as int));
            assert(t.last() == all[i as int]);
            let prev = runs_of(all.take(i as int));
            match prior {
                None => {
                    assert(prev =~= Seq::<(int, Seq<char>)>::empty());
                    assert(runs_of(t) =~= prev.push((1int, item@)));
                    assert(runs_view(out@) + open_seq(g.open_run()) =~= runs_of(t));
                },
                Some(p) => {
                    assert(prev == runs_view(done) + seq![p]);
                    assert(prev.last() == p);
                    if p.1 == item@ {
                        assert(runs_of(t) == prev.update(prev.len() - 1, (p.0 + 1, item@)));
                        assert(runs_view(out@) + open_seq(g.open_run()) =~= runs_of(t));
                    } else {
                        assert(runs_of(t) == prev.push((1int, item@)));
                        let e = emitted.unwrap();
                        assert(runs_view(done.push(e)) =~= runs_view(done).push(run_view(e)));
                        assert(runs_view(out@) + open_seq(g.open_run()) =~= runs_of(t));
                    }
                },
            }
        }
        i = i + 1;
    }
    let ghost prior = g.open_run();
    let ghost done = out@;
    let last = g.finish();
    match last {
        Some(e) => out.push(e),
        None => {},
    }
    proof {
        assert(all.take(items@.len() as int) =~= all);
        match prior {
            None => {
                assert(runs_view(out@) =~= runs_of(all));
            },
            Some(p) => {
                let e = last.unwrap();
                assert(runs_view(done.push(e)) =~= runs_view(done).push(run_view(e)));
                assert(runs_view(out@) =~= runs_of(all));
            },
        }
    }
    out
}

/// Collapse adjacent duplicate lines of a text: split it into lines, then
/// group maximal adjacent runs of equal lines, returning one
/// `(count, line)` pair per run, in first-seen order.
pub fn count_lines(contents: String) -> (runs: Vec<(usize, String)>)
    ensures
        runs_view(runs@) == runs_of(spec_lines(contents@)),
{
    let lines = split_lines(contents.as_str());
    group_runs(&lines)
}

} // verus!
