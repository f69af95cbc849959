//! The stroke store: the stroke being drawn and the committed strokes, with
//! their aging.

use vstd::prelude::*;
use crate::geometry::Point;

verus! {

/// What a store holds: the active stroke, if one is being drawn, and the
/// committed strokes in the order they were committed.
pub struct StoreView {
    pub active: Option<Seq<Point>>,
    pub committed: Seq<Vec<Point>>,
}

impl StoreView {
    /// Every committed stroke has at least one point.
    pub open spec fn wf(self) -> bool {
        forall|i: int| 0 <= i < self.committed.len() ==> #[trigger] self.committed[i]@.len() >= 1
    }
}

/// Age in milliseconds at `now` of a stroke whose last point has time `t`.
pub open spec fn age(now: u64, t: u64) -> int {
    now - t
}

/// A stroke survives at `now` when it has a last point and that point is
/// younger than `ttl`.
pub open spec fn alive(s: Seq<Point>, now: u64, ttl: u64) -> bool {
    s.len() >= 1 && age(now, s.last().t) < ttl
}

/// The test that a committed stroke passes to survive aging at `now`.
pub open spec fn survives(now: u64, ttl: u64) -> spec_fn(Vec<Point>) -> bool {
    |s: Vec<Point>| alive(s@, now, ttl)
}

/// The committed strokes that survive aging at `now`, in their order.
pub open spec fn survivors(committed: Seq<Vec<Point>>, now: u64, ttl: u64) -> Seq<Vec<Point>> {
    committed.filter(survives(now, ttl))
}

/// After aging at `now`, a committed stroke with at least one point is still
/// there exactly when its last point is younger than `ttl`.
pub proof fn lemma_aging(committed: Seq<Vec<Point>>, now: u64, ttl: u64, s: Vec<Point>)
    requires
        committed.contains(s),
        s@.len() >= 1,
    ensures
        survivors(committed, now, ttl).contains(s) <==> age(now, s@.last().t) < ttl,
{
    broadcast use vstd::seq_lib::group_filter_ensures;

    if age(now, s@.last().t) < ttl {
        committed.lemma_filter_contains_rev(survives(now, ttl), s);
    }
}

/// Strokes of the overlay: zero or one active stroke and the committed ones.
pub struct StrokeStore {
    drawing: bool,
    current: Vec<Point>,
    strokes: Vec<Vec<Point>>,
}

impl View for StrokeStore {
    type V = StoreView;

    closed spec fn view(&self) -> StoreView {
        StoreView {
            active: if self.drawing {
                Some(self.current@)
            } else {
                None
            },
            committed: self.strokes@,
        }
    }
}

impl StrokeStore {
    /// An empty store: no active stroke, nothing committed.
    pub fn new() -> (r: StrokeStore)
        ensures
            r@.active is None,
            r@.committed.len() == 0,
            r@.wf(),
    {
        StrokeStore { drawing: false, current: Vec::new(), strokes: Vec::new() }
    }

    /// Whether a stroke is being drawn.
    pub fn is_drawing(&self) -> (r: bool)
        ensures
            r == self@.active is Some,
    {
        self.drawing
    }

    /// The points of the active stroke, if there is one.
    pub fn active_points(&self) -> (r: Option<&Vec<Point>>)
        ensures
            r is Some <==> self@.active is Some,
            r is Some ==> r->0@ == self@.active->0,
    {
        if self.drawing {
            Some(&self.current)
        } else {
            None
        }
    }

    /// The committed strokes, oldest first.
    pub fn committed(&self) -> (r: &Vec<Vec<Point>>)
        ensures
            r@ == self@.committed,
    {
        &self.strokes
    }

    /// Starts a new, empty active stroke, dropping any stroke in progress.
    pub fn begin_stroke(&mut self)
        ensures
            final(self)@.active == Some(Seq::<Point>::empty()),
            final(self)@.committed == old(self)@.committed,
    {
        self.drawing = true;
        self.current.clear();
    }

    /// Appends `p` to the active stroke; without an active stroke nothing
    /// changes.
    pub fn append_point(&mut self, p: Point)
        ensures
            final(self)@.active == (match old(self)@.active {
                Some(s) => Some(s.push(p)),
                None => None,
            }),
            final(self)@.committed == old(self)@.committed,
    {
        if self.drawing {
            self.current.push(p);
        }
    }

    /// Moves the active stroke into the committed strokes when it has at
    /// least one point; the active slot is empty afterwards.
    pub fn commit_active(&mut self)
        requires
            old(self)@.wf(),
        ensures
            final(self)@.active is None,
            final(self)@.wf(),
            match old(self)@.active {
                Some(s) => if s.len() >= 1 {
                    final(self)@.committed.len() == old(self)@.committed.len() + 1
                        && final(self)@.committed.drop_last() == old(self)@.committed
                        && final(self)@.committed.last()@ == s
                } else {
                    final(self)@.committed == old(self)@.committed
                },
                None => final(self)@.committed == old(self)@.committed,
            },
    {
        if self.drawing && self.current.len() >= 1 {
            let mut stroke: Vec<Point> = Vec::new();
            std::mem::swap(&mut stroke, &mut self.current);
            self.strokes.push(stroke);
            assert(self.strokes@.drop_last() =~= old(self).strokes@);
            assert forall|i: int| 0 <= i < self.strokes@.len() implies #[trigger] self.strokes@[i]@.len()
                >= 1 by {
                if i < old(self).strokes@.len() {
                    assert(old(self)@.committed[i]@.len() >= 1);
                    assert(self.strokes@[i] == old(self).strokes@[i]);
                }
            }
        }
        self.drawing = false;
        self.current.clear();
    }

    /// Drops the active stroke without committing it.
    pub fn discard_active(&mut self)
        ensures
            final(self)@.active is None,
            final(self)@.committed == old(self)@.committed,
    {
        self.drawing = false;
        self.current.clear();
    }

    /// Removes every committed stroke whose last point is `ttl` or more
    /// milliseconds older than `now`, keeping the others in order.
    pub fn age_and_evict(&mut self, now: u64, ttl: u64)
        requires
            old(self)@.wf(),
        ensures
            final(self)@.active == old(self)@.active,
            final(self)@.committed == survivors(old(self)@.committed, now, ttl),
            final(self)@.wf(),
    {
        let ghost orig = self.strokes@;
        let mut pending: Vec<Vec<Point>> = Vec::new();
        std::mem::swap(&mut pending, &mut self.strokes);
        let n = pending.len();
        let ghost pred = survives(now, ttl);
        while pending.len() > 0
            invariant
                n == orig.len(),
                pred == survives(now, ttl),
                pending.len() <= n,
                self.drawing == old(self).drawing,
                self.current@ == old(self).current@,
                pending@ == orig.subrange(n - pending.len(), n as int),
                self.strokes@ == orig.subrange(0, n - pending.len()).filter(pred),
            decreases pending.len(),
        {
            let ghost k = n - pending.len();
            let s = pending.remove(0);
            assert(orig.subrange(0, k + 1).drop_last() =~= orig.subrange(0, k));
            assert(orig.subrange(0, k + 1).last() == s);
            proof {
                reveal(Seq::filter);
            }
            let ghost before = self.strokes@;
            let len = s.len();
            let mut keep = false;
            if len >= 1 {
                let last_t = s[len - 1].t;
                keep = now < last_t || now - last_t < ttl;
            }
            assert(keep == pred(s));
            if keep {
                self.strokes.push(s);
            }
            assert(orig.subrange(0, k + 1).filter(pred) == if pred(s) {
                before.push(s)
            } else {
                before
            });
            assert(pending@ =~= orig.subrange(n - pending.len(), n as int));
        }
        assert(orig.subrange(0, n as int) =~= orig);
        proof {
            broadcast use vstd::seq_lib::group_filter_ensures;
        }
    }
}

} // verus!
