//! The search for NLSF indices: which candidates are tried and which is settled on.
//!
//! How well a candidate fits a frame is measured on samples and is the caller's to say.
use vstd::prelude::*;

use crate::silk::shell::signed_ints;

verus! {

/// The stage-1 index to use where `best` fits best. The index of the frame before is kept unless
/// `best` fits clearly better. In a first frame, index 0 is kept unless `best` fits much better.
pub open spec fn settled_stage1(
    best: int,
    prev: Option<usize>,
    clearly_better: bool,
    much_better: bool,
) -> int {
    match prev {
        Some(p) if p < 32 => if best != p && !clearly_better {
            p as int
        } else {
            best
        },
        _ => if best != 0 && !much_better {
            0
        } else {
            best
        },
    }
}

/// The stage-1 index to use where `best` fits best.
pub fn settle_stage1(
    best: usize,
    prev: Option<usize>,
    clearly_better: bool,
    much_better: bool,
) -> (idx: usize)
    ensures
        idx == settled_stage1(best as int, prev, clearly_better, much_better),
{
    match prev {
        Some(p) => {
            if p < 32 {
                if best != p && !clearly_better {
                    return p;
                }
                return best;
            }
        },
        None => {},
    }
    if best != 0 && !much_better {
        0
    } else {
        best
    }
}

/// Where a search for residuals stands: it goes twice through the coefficients from the last to
/// the first and tries the values from -4 to 4 but for the one that the coefficient had.
pub struct DescentView {
    pub res: Seq<int>,
    pub pass: int,
    pub k: int,
    pub value: int,
    pub had: int,
    pub best: int,
}

/// The first value from `v` on that is not `had`.
pub open spec fn other_value(v: int, had: int) -> int {
    if v == had {
        v + 1
    } else {
        v
    }
}

impl DescentView {
    /// The search is over.
    pub open spec fn over(self) -> bool {
        self.pass >= 2
    }

    /// The residuals to try.
    pub open spec fn tried(self) -> Seq<int> {
        self.res.update(self.k, self.value)
    }

    /// The search at coefficient `k` of pass `pass`.
    pub open spec fn at(res: Seq<int>, pass: int, k: int) -> DescentView {
        DescentView { res, pass, k, value: other_value(-4, res[k]), had: res[k], best: res[k] }
    }

    /// The search after the residuals were found better than all before or not.
    pub open spec fn after(self, better: bool) -> DescentView {
        let best = if better {
            self.value
        } else {
            self.best
        };
        let v = other_value(self.value + 1, self.had);
        if v <= 4 {
            DescentView { value: v, best, ..self }
        } else {
            let res = self.res.update(self.k, best);
            if self.k > 0 {
                DescentView::at(res, self.pass, self.k - 1)
            } else {
                DescentView::at(res, self.pass + 1, res.len() - 1)
            }
        }
    }

    /// Bound on the number of trials that are left.
    pub open spec fn trials_left(self) -> int {
        9 * (self.res.len() * (2 - self.pass) - (self.res.len() - 1 - self.k)) - (self.value + 4)
    }

    /// Everything is in range.
    pub open spec fn sound(self) -> bool {
        &&& self.res.len() > 0
        &&& 0 <= self.pass <= 2
        &&& 0 <= self.k < self.res.len()
        &&& -4 <= self.value <= 4
        &&& self.value != self.had
        &&& -4 <= self.had <= 4
        &&& -4 <= self.best <= 4
        &&& self.res[self.k] == self.had
        &&& forall|i: int| 0 <= i < self.res.len() ==> -4 <= #[trigger] self.res[i] <= 4
    }
}

/// The search keeps to its range, and every trial brings it closer to its end.
pub proof fn law_descent_goes_on(d: DescentView, better: bool)
    requires
        d.sound(),
        !d.over(),
    ensures
        d.after(better).sound(),
        d.after(better).res.len() == d.res.len(),
        d.after(better).trials_left() < d.trials_left(),
        d.trials_left() > 0,
{
    let n = d.res.len() as int;
    assert(n * (2 - d.pass) >= n) by (nonlinear_arith)
        requires
            d.pass <= 1,
            n >= 1,
    ;
    assert(n * (2 - (d.pass + 1)) == n * (2 - d.pass) - n) by (nonlinear_arith);
    let best = if better {
        d.value
    } else {
        d.best
    };
    let res = d.res.update(d.k, best);
    assert forall|i: int| 0 <= i < res.len() implies -4 <= #[trigger] res[i] <= 4 by {
        if i != d.k {
            assert(-4 <= d.res[i] <= 4);
        }
    }
    if d.k > 0 {
        assert(-4 <= res[d.k - 1] <= 4);
    }
    assert(-4 <= res[n - 1] <= 4);
}

/// A search for NLSF residuals.
#[derive(Debug)]
pub struct Stage2Search {
    res: Vec<i32>,
    pass: u32,
    k: usize,
    value: i32,
    had: i32,
    best: i32,
}

impl Stage2Search {
    #[verifier::type_invariant]
    spec fn wf(self) -> bool {
        self@.sound() && self.res@.len() <= 16
    }

    /// Where the search stands.
    pub closed spec fn view(&self) -> DescentView {
        DescentView {
            res: signed_ints(self.res@),
            pass: self.pass as int,
            k: self.k as int,
            value: self.value as int,
            had: self.had as int,
            best: self.best as int,
        }
    }

    /// A search that starts from residuals of zero.
    pub fn new(order: usize) -> (s: Self)
        requires
            1 <= order <= 16,
        ensures
            s@ == DescentView::at(Seq::new(order as nat, |i: int| 0int), 0, order - 1),
            s@.sound(),
    {
        let res: Vec<i32> = vec![0i32; order];
        assert(signed_ints(res@) =~= Seq::new(order as nat, |i: int| 0int));
        Stage2Search { res, pass: 0, k: order - 1, value: -4, had: 0, best: 0 }
    }

    /// The residuals to try next; none once the search is over.
    pub fn candidate(&self) -> (c: Option<Vec<i32>>)
        ensures
            match c {
                Some(r) => !self@.over() && signed_ints(r@) == self@.tried(),
                None => self@.over(),
            },
    {
        proof {
            use_type_invariant(self);
        }
        if self.pass >= 2 {
            return None;
        }
        let mut r: Vec<i32> = Vec::new();
        for i in 0..self.res.len()
            invariant
                r@.len() == i,
                i <= self.res@.len(),
                forall|j: int|
                    0 <= j < i ==> #[trigger] r@[j] == (if j == self.k {
                        self.value
                    } else {
                        self.res@[j]
                    }),
        {
            if i == self.k {
                r.push(self.value);
            } else {
                r.push(self.res[i]);
            }
        }
        assert(signed_ints(r@) =~= self@.tried());
        Some(r)
    }

    /// Goes on, told whether the residuals that were tried are better than all before.
    pub fn answer(&mut self, better: bool)
        requires
            !old(self)@.over(),
        ensures
            final(self)@ == old(self)@.after(better),
            final(self)@.trials_left() < old(self)@.trials_left(),
    {
        proof {
            use_type_invariant(&*self);
            law_descent_goes_on(self@, better);
        }
        let ghost was = self@;
        let best: i32 = if better {
            self.value
        } else {
            self.best
        };
        let mut v: i32 = self.value + 1;
        if v == self.had {
            v = v + 1;
        }
        if v <= 4 {
            *self = Stage2Search {
                res: copy_residuals(&self.res),
                pass: self.pass,
                k: self.k,
                value: v,
                had: self.had,
                best,
            };
        } else {
            let mut res: Vec<i32> = copy_residuals(&self.res);
            let n: usize = res.len();
            let k: usize = self.k;
            res.set(k, best);
            proof {
                assert(signed_ints(res@) =~= was.res.update(k as int, best as int));
            }
            let (pass, next): (u32, usize) = if k > 0 {
                (self.pass, k - 1)
            } else {
                (self.pass + 1, n - 1)
            };
            let had: i32 = res[next];
            assert(signed_ints(res@)[next as int] == had);
            let value: i32 = if had == -4 {
                -3
            } else {
                -4
            };
            *self = Stage2Search { res, pass, k: next, value, had, best: had };
        }
    }

    /// The residuals that were settled on: those that were found, or zeros where they are not
    /// `worthwhile`.
    pub fn finish(&self, worthwhile: bool) -> (r: Vec<i32>)
        requires
            self@.over(),
        ensures
            r@.len() == self@.res.len(),
            worthwhile ==> signed_ints(r@) == self@.res,
            !worthwhile ==> forall|i: int| 0 <= i < r@.len() ==> #[trigger] r@[i] == 0,
            forall|i: int| 0 <= i < r@.len() ==> -4 <= #[trigger] r@[i] <= 4,
    {
        proof {
            use_type_invariant(self);
        }
        if worthwhile {
            proof {
                assert forall|i: int| 0 <= i < self.res@.len() implies -4 <= #[trigger] self.res@[i]
                    <= 4 by {
                    assert(-4 <= self@.res[i] <= 4);
                }
            }
            copy_residuals(&self.res)
        } else {
            vec![0i32; self.res.len()]
        }
    }
}

fn copy_residuals(res: &Vec<i32>) -> (r: Vec<i32>)
    ensures
        r@ == res@,
{
    let mut r: Vec<i32> = Vec::new();
    for i in 0..res.len()
        invariant
            r@ == res@.take(i as int),
    {
        r.push(res[i]);
        assert(r@ =~= res@.take(i + 1));
    }
    assert(r@ =~= res@);
    r
}

/// What fits best is used where it fits better by enough: clearly better than a known index of the
/// frame before, much better than index 0 where there is none. Otherwise that one is kept.
pub proof fn law_settled_index(
    best: int,
    prev: Option<usize>,
    clearly_better: bool,
    much_better: bool,
)
    ensures
        ({
            let i = settled_stage1(best, prev, clearly_better, much_better);
            let known = prev is Some && prev->0 < 32;
            &&& known && clearly_better ==> i == best
            &&& known && !clearly_better ==> i == prev->0
            &&& !known && much_better ==> i == best
            &&& !known && !much_better ==> i == 0
        }),
{
}

/// One residual is tried at a time; the others are as they were found.
pub proof fn law_one_residual_tried(d: DescentView, i: int)
    requires
        d.sound(),
        0 <= i < d.res.len(),
    ensures
        d.tried().len() == d.res.len(),
        d.tried()[d.k] == d.value,
        d.value != d.res[d.k],
        i != d.k ==> d.tried()[i] == d.res[i],
{
}

/// No value from -4 to 4 is passed over but the one that the coefficient had: where one is left,
/// the next trial is the least of those left. The best value is the last that was found better.
pub proof fn law_every_value_tried(d: DescentView, better: bool, v: int)
    requires
        d.sound(),
        d.value < v <= 4,
        v != d.had,
    ensures
        ({
            let n = d.after(better);
            &&& d.value < n.value <= v
            &&& n.value != n.had
            &&& n.k == d.k && n.pass == d.pass && n.res == d.res && n.had == d.had
            &&& better ==> n.best == d.value
            &&& !better ==> n.best == d.best
        }),
{
}

/// Once no value is left, the best one stays and the coefficient before is tried from its least
/// value on; after the first coefficient comes the last, in the next pass.
pub proof fn law_next_coefficient(d: DescentView, better: bool, i: int)
    requires
        d.sound(),
        d.value == 4 || (d.value == 3 && d.had == 4),
        0 <= i < d.res.len(),
    ensures
        ({
            let n = d.after(better);
            &&& n.res.len() == d.res.len()
            &&& i != d.k ==> n.res[i] == d.res[i]
            &&& better ==> n.res[d.k] == d.value
            &&& !better ==> n.res[d.k] == d.best
            &&& d.k > 0 ==> n.k == d.k - 1 && n.pass == d.pass
            &&& d.k == 0 ==> n.k == d.res.len() - 1 && n.pass == d.pass + 1
            &&& n.had == n.best == n.res[n.k]
            &&& n.had == -4 ==> n.value == -3
            &&& n.had != -4 ==> n.value == -4
        }),
{
}

/// A search is over after two passes.
pub proof fn law_two_passes(d: DescentView)
    requires
        d.sound(),
    ensures
        d.over() <==> d.pass == 2,
{
}

} // verus!
