//! Bounded history of one metric, oldest point first.
use vstd::prelude::*;
use vstd::string::*;

verus! {

/// Time-series buffer for a single metric: at most `max_points` points are
/// kept; pushing beyond that drops the oldest.
#[derive(Debug, Clone)]
pub struct TimeSeries<T> {
    pub name: String,
    pub unit: String,
    pub points: Vec<T>,
    pub max_points: usize,
}

/// The points after pushing `v`: appended, then the oldest dropped when
/// there are more than `max`.
pub open spec fn pushed<T>(points: Seq<T>, v: T, max: int) -> Seq<T> {
    let p = points.push(v);
    if p.len() > max {
        p.drop_first()
    } else {
        p
    }
}

/// The last `n` points (all of them when there are fewer), oldest first.
pub open spec fn last_points<T>(points: Seq<T>, n: int) -> Seq<T> {
    if n >= points.len() {
        points
    } else {
        points.skip(points.len() - n)
    }
}

impl<T> TimeSeries<T> {
    /// An empty series.
    pub fn new(name: &str, unit: &str, max_points: usize) -> (ts: TimeSeries<T>)
        ensures
            ts.name@ == name@,
            ts.unit@ == unit@,
            ts.points@.len() == 0,
            ts.max_points == max_points,
    {
        TimeSeries {
            name: String::from_str(name),
            unit: String::from_str(unit),
            points: Vec::new(),
            max_points,
        }
    }

    /// Appends a point, dropping the oldest one when the series is over its
    /// limit.
    pub fn push(&mut self, v: T)
        ensures
            final(self).points@ == pushed(old(self).points@, v, old(self).max_points as int),
            final(self).max_points == old(self).max_points,
            final(self).name == old(self).name,
            final(self).unit == old(self).unit,
    {
        self.points.push(v);
        if self.points.len() > self.max_points {
            self.points.remove(0);
            assert(self.points@ =~= pushed(old(self).points@, v, old(self).max_points as int));
        }
    }

    /// Number of points held.
    pub fn len(&self) -> (n: usize)
        ensures
            n == self.points@.len(),
    {
        self.points.len()
    }
}

impl<T: Copy> TimeSeries<T> {
    /// The newest point.
    pub fn latest(&self) -> (r: Option<T>)
        ensures
            r == (if self.points@.len() > 0 {
                Some(self.points@.last())
            } else {
                None::<T>
            }),
    {
        let n = self.points.len();
        if n > 0 {
            Some(self.points[n - 1])
        } else {
            None
        }
    }

    /// The last `n` points, oldest first.
    pub fn last_n(&self, n: usize) -> (r: Vec<T>)
        ensures
            r@ == last_points(self.points@, n as int),
    {
        let len = self.points.len();
        let start: usize = if n >= len {
            0
        } else {
            len - n
        };
        let mut r: Vec<T> = Vec::new();
        let mut i: usize = start;
        while i < len
            invariant
                start <= i <= len,
                len == self.points@.len(),
                r@ == self.points@.subrange(start as int, i as int),
            decreases len - i,
        {
            r.push(self.points[i]);
            i = i + 1;
            assert(r@ =~= self.points@.subrange(start as int, i as int));
        }
        assert(r@ =~= last_points(self.points@, n as int));
        r
    }
}

/// A series never grows past its limit: if it held at most `max` points,
/// it still does after a push, and the pushed point is the newest.
pub proof fn lemma_push_bounded<T>(points: Seq<T>, v: T, max: int)
    requires
        points.len() <= max,
        max >= 1,
    ensures
        pushed(points, v, max).len() <= max,
        pushed(points, v, max).last() == v,
        pushed(points, v, max).len() == (if points.len() < max {
            points.len() + 1int
        } else {
            max
        }),
{
}

/// Pushing keeps the newest points in their order: the series after a
/// push is its last points before, followed by the new one.
pub proof fn lemma_push_keeps_suffix<T>(points: Seq<T>, v: T, max: int)
    requires
        points.len() <= max,
        max >= 1,
    ensures
        pushed(points, v, max) == last_points(points, max - 1).push(v),
{
    let p = points.push(v);
    if p.len() > max {
        assert(p.drop_first() =~= points.skip(1).push(v));
        assert(points.skip(1) =~= points.skip(points.len() - (max - 1)));
    }
}

} // verus!
