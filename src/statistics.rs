//! Statistics of a transaction: named marks and named durations, in milliseconds.
use vstd::prelude::*;

use crate::text::str_eq;

verus! {

/// A named duration: when it started and, once it has, when it ended.
#[derive(Debug, Clone, PartialEq, Eq)]
pub struct Span {
    pub name: String,
    pub start: u64,
    pub end: Option<u64>,
}

/// The marks and durations recorded for a transaction, in the order they were recorded.
#[derive(Debug)]
pub struct TransactionStatistics {
    marks: Vec<(String, u64)>,
    spans: Vec<Span>,
}

/// The mathematical value of [`TransactionStatistics`].
pub struct StatsModel {
    pub marks: Seq<(Seq<char>, u64)>,
    pub spans: Seq<(Seq<char>, u64, Option<u64>)>,
}

/// The position of the first duration named `name` that has not ended.
pub open spec fn open_span(spans: Seq<(Seq<char>, u64, Option<u64>)>, name: Seq<char>) -> Option<int> {
    if exists|k: int| 0 <= k < spans.len() && spans[k].0 == name && spans[k].2 is None {
        Some(
            choose|k: int|
                0 <= k < spans.len() && spans[k].0 == name && spans[k].2 is None && forall|j: int|
                    0 <= j < k ==> !(spans[j].0 == name && spans[j].2 is None),
        )
    } else {
        None
    }
}

impl StatsModel {
    /// No marks and no durations.
    pub open spec fn empty() -> StatsModel {
        StatsModel { marks: Seq::empty(), spans: Seq::empty() }
    }

    /// The statistics after mark `name` at time `at`.
    pub open spec fn marked(self, name: Seq<char>, at: u64) -> StatsModel {
        StatsModel { marks: self.marks.push((name, at)), ..self }
    }

    /// The statistics after duration `name` starts at time `at`.
    pub open spec fn started(self, name: Seq<char>, at: u64) -> StatsModel {
        StatsModel { spans: self.spans.push((name, at, None)), ..self }
    }

    /// The statistics after the first open duration named `name`, if any, ends at `at`.
    pub open spec fn ended(self, name: Seq<char>, at: u64) -> StatsModel {
        match open_span(self.spans, name) {
            Some(k) => StatsModel { spans: self.spans.update(k, (name, self.spans[k].1, Some(at))), ..self },
            None => self,
        }
    }
}

impl View for TransactionStatistics {
    type V = StatsModel;

    closed spec fn view(&self) -> StatsModel {
        StatsModel {
            marks: self.marks@.map_values(|m: (String, u64)| (m.0@, m.1)),
            spans: self.spans@.map_values(|s: Span| (s.name@, s.start, s.end)),
        }
    }
}

impl TransactionStatistics {
    /// No marks and no durations.
    pub fn new() -> (r: TransactionStatistics)
        ensures
            r@ == StatsModel::empty(),
    {
        let r = TransactionStatistics { marks: Vec::new(), spans: Vec::new() };
        assert(r@.marks =~= Seq::<(Seq<char>, u64)>::empty());
        assert(r@.spans =~= Seq::<(Seq<char>, u64, Option<u64>)>::empty());
        r
    }

    /// Records mark `name` at time `at`.
    pub fn mark(&mut self, name: &str, at: u64)
        ensures
            final(self)@ == old(self)@.marked(name@, at),
    {
        let ghost before = self.marks@;
        self.marks.push((name.to_owned(), at));
        assert(self@.marks =~= old(self)@.marks.push((name@, at)));
        assert(self@.spans =~= old(self)@.spans);
    }

    /// Starts duration `name` at time `at`.
    pub fn start(&mut self, name: &str, at: u64)
        ensures
            final(self)@ == old(self)@.started(name@, at),
    {
        self.spans.push(Span { name: name.to_owned(), start: at, end: None });
        assert(self@.spans =~= old(self)@.spans.push((name@, at, None)));
        assert(self@.marks =~= old(self)@.marks);
    }

    /// Ends the first open duration named `name` at time `at`; `false` if there is none.
    pub fn end(&mut self, name: &str, at: u64) -> (r: bool)
        ensures
            final(self)@ == old(self)@.ended(name@, at),
            r == open_span(old(self)@.spans, name@) is Some,
    {
        let ghost sp = self@.spans;
        let mut k: usize = 0;
        while k < self.spans.len()
            invariant
                self@ == old(self)@,
                sp == self@.spans,
                k <= self.spans.len(),
                forall|j: int| 0 <= j < k ==> !(sp[j].0 == name@ && sp[j].2 is None),
            decreases self.spans.len() - k,
        {
            assert(sp[k as int] == (self.spans@[k as int].name@, self.spans@[k as int].start, self.spans@[k as int].end));
            if self.spans[k].end.is_none() && str_eq(self.spans[k].name.as_str(), name) {
                proof {
                    let c = open_span(sp, name@)->Some_0;
                    assert(c == k as int) by {
                        if c < k as int {
                        } else if c > k as int {
                        }
                    }
                }
                let start = self.spans[k].start;
                self.spans.set(k, Span { name: name.to_owned(), start, end: Some(at) });
                assert(self@.spans =~= sp.update(k as int, (name@, sp[k as int].1, Some(at))));
                assert(self@.marks =~= old(self)@.marks);
                return true;
            }
            k = k + 1;
        }
        false
    }

    /// The marks, in the order they were recorded.
    pub fn marks(&self) -> (r: &Vec<(String, u64)>)
        ensures
            r@.map_values(|m: (String, u64)| (m.0@, m.1)) == self@.marks,
    {
        &self.marks
    }

    /// The durations, in the order they started.
    pub fn spans(&self) -> (r: &Vec<Span>)
        ensures
            r@.map_values(|s: Span| (s.name@, s.start, s.end)) == self@.spans,
    {
        &self.spans
    }
}

} // verus!
