//! Delayed-decision quantisation of the excitation: the candidates that are followed in parallel.
//!
//! Several paths through a frame are followed at once, each from a dither seed of its own. At every
//! sample each path forks on candidate values; the forks that cost least so far survive. At the end
//! of the frame the cheapest path wins, and its seed is the one that is coded. What a fork costs is
//! the caller's to say, as a key that orders as the cost does.
use vstd::prelude::*;

use crate::error::SilkError;
use crate::silk::dither::{
    lcg_flips, lcg_pre_flip, lcg_step_q23, lemma_scaled, reconstructed, state_before,
};
use crate::silk::shell::signed_ints;
use crate::silk_frame::{SignalType, SilkFrameSize};
use crate::silk_resampler::internal_rate_of;
use crate::silk_synthesis::{num_subframes, silk_frame_internal_samples, subframe_count};
use crate::toc::Bandwidth;

verus! {

/// Most paths that are followed at once: one per dither seed.
pub const MAX_DEL_DEC_STATES: usize = 4;

/// What a frame's quantisation is asked for, as far as it can be refused.
#[derive(Debug, Clone, Copy, PartialEq, Eq, Structural)]
pub struct DelDecRequest {
    /// Bandwidth.
    pub bandwidth: Bandwidth,
    /// Duration.
    pub frame_size: SilkFrameSize,
    /// What the frame holds.
    pub signal_type: SignalType,
    /// Dither seed of the first path.
    pub base_seed: u8,
    /// Number of paths.
    pub n_states: usize,
    /// Number of gains.
    pub gains: usize,
    /// Number of filter coefficients.
    pub coefficients: usize,
    /// Order of the prediction filter.
    pub order: usize,
    /// Number of shaping coefficients, where the noise is shaped.
    pub shaping: Option<usize>,
    /// Whether long-term prediction parameters are given.
    pub has_ltp: bool,
    /// Number of samples.
    pub samples: usize,
}

impl DelDecRequest {
    /// The request can be served.
    pub open spec fn valid(self) -> bool {
        &&& internal_rate_of(self.bandwidth) is Some
        &&& self.base_seed <= 3
        &&& 1 <= self.n_states <= 4
        &&& self.gains == subframe_count(self.frame_size)
        &&& 200 * self.samples == internal_rate_of(self.bandwidth)->0 * subframe_count(
            self.frame_size,
        )
        &&& (self.signal_type is Voiced) == self.has_ltp
        &&& self.coefficients == self.order
        &&& self.shaping matches Some(n) ==> n == self.order
    }

    /// Checks the request.
    pub fn check(&self) -> (r: Result<(), SilkError>)
        ensures
            match r {
                Ok(_) => self.valid(),
                Err(e) => !self.valid() && e == SilkError::MalformedPacket,
            },
    {
        let frame_len: usize = match silk_frame_internal_samples(self.bandwidth, self.frame_size) {
            Ok(n) => n,
            Err(e) => {
                return Err(e);
            },
        };
        let voiced: bool = self.signal_type == SignalType::Voiced;
        if self.base_seed > 3 || self.n_states < 1 || self.n_states > MAX_DEL_DEC_STATES
            || self.gains != num_subframes(self.frame_size) || self.samples != frame_len || voiced
            != self.has_ltp {
            return Err(SilkError::MalformedPacket);
        }
        if self.coefficients != self.order {
            return Err(SilkError::MalformedPacket);
        }
        match self.shaping {
            Some(n) => {
                if n != self.order {
                    return Err(SilkError::MalformedPacket);
                }
            },
            None => {},
        }
        Ok(())
    }
}

/// One way to go on: from which path, with which sample, at which cost in all.
#[derive(Debug, Clone, Copy, PartialEq, Eq, Structural)]
pub struct Fork {
    /// The path that is continued.
    pub path: usize,
    /// The sample.
    pub e_raw: i32,
    /// Key that orders as the cost of the path with the sample.
    pub cost: i64,
}

/// The samples that can be scaled without loss.
pub open spec fn moderate(e: i32) -> bool {
    -0x40_0000 <= e <= 0x40_0000
}

/// A path through the frame so far.
#[derive(Debug)]
pub struct TrellisPath {
    seed_init: u8,
    seed: u32,
    e_raw: Vec<i32>,
    e_q23: Vec<i32>,
    cost: i64,
}

/// What a path stands for: its seed, its samples and its cost.
#[verifier::ext_equal]
pub struct PathView {
    pub seed: int,
    pub samples: Seq<i32>,
    pub cost: int,
}

impl TrellisPath {
    /// What the path stands for.
    pub closed spec fn view(&self) -> PathView {
        PathView {
            seed: self.seed_init as int,
            samples: self.e_raw@,
            cost: self.cost as int,
        }
    }

    /// The generator stands where the samples leave it, and the reconstruction is theirs.
    pub closed spec fn consistent(self, offset: int) -> bool {
        &&& self.seed_init <= 3
        &&& self.seed == state_before(self.e_raw@, self.seed_init as u32, self.e_raw@.len() as int)
        &&& signed_ints(self.e_q23@) == reconstructed(self.e_raw@, offset, self.seed_init as u32)
    }
}

/// `i` is the first of the cheapest forks that are not in `taken`.
pub open spec fn next_best(costs: Seq<int>, taken: Seq<int>, i: int) -> bool {
    &&& 0 <= i < costs.len()
    &&& !taken.contains(i)
    &&& forall|j: int|
        0 <= j < costs.len() && !taken.contains(j) ==> costs[i] < #[trigger] costs[j] || costs[i]
            == costs[j] && i <= j
}

/// `chosen` are the cheapest forks in rising order of cost, those of equal cost in their order.
pub open spec fn elected(costs: Seq<int>, chosen: Seq<int>) -> bool {
    forall|k: int|
        0 <= k < chosen.len() ==> next_best(costs, chosen.take(k), #[trigger] chosen[k])
}

/// Indices as mathematical integers.
pub open spec fn indices(s: Seq<usize>) -> Seq<int> {
    Seq::new(s.len(), |k: int| s[k] as int)
}

/// The costs of forks.
pub open spec fn fork_costs(forks: Seq<Fork>) -> Seq<int> {
    Seq::new(forks.len(), |i: int| forks[i].cost as int)
}

/// A path continued by a fork.
pub open spec fn continued(path: PathView, fork: Fork) -> PathView {
    PathView {
        seed: path.seed,
        samples: path.samples.push(fork.e_raw),
        cost: fork.cost as int,
    }
}

/// `now` are the survivors of `forks` from the paths `was`.
pub open spec fn survived(
    was: Seq<PathView>,
    forks: Seq<Fork>,
    now: Seq<PathView>,
    chosen: Seq<int>,
) -> bool {
    &&& elected(fork_costs(forks), chosen)
    &&& now.len() == chosen.len()
    &&& forall|k: int|
        0 <= k < now.len() ==> #[trigger] now[k] == continued(
            was[forks[chosen[k]].path as int],
            forks[chosen[k]],
        )
}

/// No fork that was left out costs less than one that was chosen, and the chosen ones stand in
/// rising order of cost.
pub proof fn law_survivors_cheapest(costs: Seq<int>, chosen: Seq<int>, k: int, i: int)
    requires
        elected(costs, chosen),
        0 <= k < chosen.len(),
        0 <= i < costs.len(),
        !chosen.take(k).contains(i),
    ensures
        costs[chosen[k]] <= costs[i],
{
    assert(next_best(costs, chosen.take(k), chosen[k]));
}

/// Which forks are chosen is fixed.
pub proof fn law_election_fixed(costs: Seq<int>, a: Seq<int>, b: Seq<int>)
    requires
        elected(costs, a),
        elected(costs, b),
        a.len() == b.len(),
    ensures
        a == b,
    decreases a.len(),
{
    if a.len() > 0 {
        let n = a.len() - 1;
        assert(elected(costs, a.drop_last())) by {
            assert forall|k: int| 0 <= k < n implies next_best(
                costs,
                a.drop_last().take(k),
                #[trigger] a.drop_last()[k],
            ) by {
                assert(a.drop_last().take(k) =~= a.take(k));
                assert(next_best(costs, a.take(k), a[k]));
            }
        }
        assert(elected(costs, b.drop_last())) by {
            assert forall|k: int| 0 <= k < n implies next_best(
                costs,
                b.drop_last().take(k),
                #[trigger] b.drop_last()[k],
            ) by {
                assert(b.drop_last().take(k) =~= b.take(k));
                assert(next_best(costs, b.take(k), b[k]));
            }
        }
        law_election_fixed(costs, a.drop_last(), b.drop_last());
        assert(a.take(n as int) =~= a.drop_last());
        assert(b.take(n as int) =~= b.drop_last());
        assert(next_best(costs, a.take(n as int), a[n as int]));
        assert(next_best(costs, b.take(n as int), b[n as int]));
        assert(a =~= a.drop_last().push(a.last()));
        assert(b =~= b.drop_last().push(b.last()));
    } else {
        assert(a =~= b);
    }
}

/// The seed of path `k` where the first path has the seed `base`.
pub open spec fn path_seed(base: int, k: int) -> int {
    (base + k) % 4
}

/// A path that has not begun.
pub open spec fn fresh_path(seed: int) -> PathView {
    PathView { seed, samples: Seq::empty(), cost: 0 }
}

/// The first of the cheapest forks.
pub open spec fn first_cheapest(forks: Seq<Fork>) -> Fork {
    forks[choose|i: int| next_best(fork_costs(forks), Seq::empty(), i)]
}

/// A single path that goes on, at each of `n` samples, by the first of the cheapest forks that are
/// offered to it.
pub open spec fn greedy(offer: spec_fn(PathView) -> Seq<Fork>, seed: int, n: int) -> PathView
    decreases n,
{
    if n <= 0 {
        fresh_path(seed)
    } else {
        let p = greedy(offer, seed, n - 1);
        continued(p, first_cheapest(offer(p)))
    }
}

/// With room for one path, the survivor is that path, continued by the first of the cheapest forks.
proof fn lemma_one_survivor(path: PathView, forks: Seq<Fork>, now: Seq<PathView>, chosen: Seq<int>)
    requires
        survived(seq![path], forks, now, chosen),
        chosen.len() == 1,
        forall|i: int| 0 <= i < forks.len() ==> (#[trigger] forks[i]).path == 0,
    ensures
        now == seq![continued(path, first_cheapest(forks))],
{
    let costs = fork_costs(forks);
    assert(chosen.take(0) =~= Seq::<int>::empty());
    assert(next_best(costs, chosen.take(0), chosen[0]));
    let i = choose|i: int| next_best(costs, Seq::empty(), i);
    assert(next_best(costs, Seq::empty(), chosen[0]));
    assert(next_best(costs, Seq::empty(), i));
    let none = Seq::<int>::empty();
    assert(!none.contains(i) && !none.contains(chosen[0]));
    assert(costs[i] <= costs[chosen[0]] && costs[chosen[0]] <= costs[i]);
    assert(i == chosen[0]);
    assert(forks[i].path == 0);
    assert(now[0] == continued(seq![path][0], forks[i]));
    assert(now =~= seq![continued(path, first_cheapest(forks))]);
}

/// One path alone is followed greedily: whatever forks are offered to it, at every sample it goes
/// on by the first of the cheapest, and it keeps its seed. So a trellis with room for one path
/// quantises as one sample after another would be, from the same seed.
pub proof fn law_one_path_is_greedy(
    offer: spec_fn(PathView) -> Seq<Fork>,
    seed: int,
    runs: Seq<Seq<PathView>>,
    chosen: Seq<Seq<int>>,
)
    requires
        runs.len() == chosen.len() + 1,
        runs[0] == seq![fresh_path(seed)],
        forall|t: int|
            0 <= t < chosen.len() ==> {
                &&& #[trigger] chosen[t].len() == 1
                &&& survived(runs[t], offer(runs[t][0]), runs[t + 1], chosen[t])
                &&& forall|i: int|
                    0 <= i < offer(runs[t][0]).len() ==> (#[trigger] offer(runs[t][0])[i]).path == 0
            },
    ensures
        runs.last() == seq![greedy(offer, seed, chosen.len() as int)],
        runs.last()[0].seed == seed,
        runs.last()[0].samples.len() == chosen.len(),
    decreases chosen.len(),
{
    let n = chosen.len() as int;
    if n > 0 {
        let (r, c) = (runs.drop_last(), chosen.drop_last());
        assert forall|t: int| 0 <= t < c.len() implies {
            &&& #[trigger] c[t].len() == 1
            &&& survived(r[t], offer(r[t][0]), r[t + 1], c[t])
            &&& forall|i: int|
                0 <= i < offer(r[t][0]).len() ==> (#[trigger] offer(r[t][0])[i]).path == 0
        } by {
            assert(chosen[t].len() == 1);
        }
        law_one_path_is_greedy(offer, seed, r, c);
        assert(runs[n - 1] == r.last());
        assert(chosen[n - 1].len() == 1);
        lemma_one_survivor(runs[n - 1][0], offer(runs[n - 1][0]), runs[n], chosen[n - 1]);
    }
}

/// The paths that are followed.
#[derive(Debug)]
pub struct DelDecTrellis {
    n_states: usize,
    offset_q23: i32,
    paths: Vec<TrellisPath>,
}

/// What the paths stand for.
pub open spec fn path_views(paths: Seq<TrellisPath>) -> Seq<PathView> {
    Seq::new(paths.len(), |i: int| paths[i]@)
}

impl DelDecTrellis {
    #[verifier::type_invariant]
    spec fn wf(self) -> bool {
        &&& 1 <= self.paths@.len() <= self.n_states <= 4
        &&& 0 <= self.offset_q23 <= 60
        &&& forall|i: int|
            0 <= i < self.paths@.len() ==> (#[trigger] self.paths@[i]).consistent(
                self.offset_q23 as int,
            )
    }

    /// What the paths stand for.
    pub closed spec fn view(&self) -> Seq<PathView> {
        path_views(self.paths@)
    }

    /// Most paths that are followed.
    pub closed spec fn width(&self) -> int {
        self.n_states as int
    }

    /// Offset of the reconstruction (Q23).
    pub closed spec fn offset(&self) -> int {
        self.offset_q23 as int
    }

    /// Paths that have not begun, each from a seed of its own, counting on from `base_seed`.
    pub fn new(base_seed: u8, n_states: usize, offset_q23: i32) -> (t: Self)
        requires
            base_seed <= 3,
            1 <= n_states <= 4,
            0 <= offset_q23 <= 60,
        ensures
            t.width() == n_states,
            t.offset() == offset_q23,
            t@.len() == n_states,
            forall|k: int|
                0 <= k < n_states ==> #[trigger] t@[k] == fresh_path((base_seed + k) % 4),
            forall|k: int|
                0 <= k < n_states ==> (#[trigger] t@[k]).seed == path_seed(base_seed as int, k),
    {
        let mut paths: Vec<TrellisPath> = Vec::new();
        for k in 0..n_states
            invariant
                base_seed <= 3,
                n_states <= 4,
                0 <= offset_q23 <= 60,
                paths@.len() == k,
                forall|i: int|
                    0 <= i < k ==> (#[trigger] paths@[i]).consistent(offset_q23 as int) && paths@[
                        i
                    ]@ == fresh_path((base_seed + i) % 4),
        {
            let seed: u8 = (base_seed + k as u8) % 4;
            let p: TrellisPath = TrellisPath {
                seed_init: seed,
                seed: seed as u32,
                e_raw: Vec::new(),
                e_q23: Vec::new(),
                cost: 0,
            };
            proof {
                assert(signed_ints(p.e_q23@) =~= reconstructed(
                    p.e_raw@,
                    offset_q23 as int,
                    seed as u32,
                ));
                assert(p@ =~= fresh_path((base_seed + k) % 4));
            }
            paths.push(p);
        }
        DelDecTrellis { n_states, offset_q23, paths }
    }

    /// Number of paths.
    pub fn len(&self) -> (n: usize)
        ensures
            n == self@.len(),
            1 <= n <= self.width(),
    {
        proof {
            use_type_invariant(self);
        }
        self.paths.len()
    }

    /// Whether the generator will negate the next sample of a path.
    pub fn flips(&self, path: usize) -> (b: bool)
        requires
            path < self@.len(),
        ensures
            b == lcg_flips(
                state_before(
                    self@[path as int].samples,
                    self@[path as int].seed as u32,
                    self@[path as int].samples.len() as int,
                ),
            ),
    {
        proof {
            use_type_invariant(self);
            assert(self.paths@[path as int].consistent(self.offset_q23 as int));
        }
        lcg_pre_flip(self.paths[path].seed)
    }

    /// The reconstruction (Q23) of a path's last sample.
    pub fn last_q23(&self, path: usize) -> (e: Option<i32>)
        requires
            path < self@.len(),
        ensures
            ({
                let p = self@[path as int];
                let r = reconstructed(p.samples, self.offset(), p.seed as u32);
                match e {
                    Some(v) => r.len() > 0 && v == r.last(),
                    None => r.len() == 0,
                }
            }),
    {
        proof {
            use_type_invariant(self);
            let p = self.paths@[path as int];
            assert(p.consistent(self.offset_q23 as int));
            assert(signed_ints(p.e_q23@).len() == p.e_q23@.len());
        }
        let row: &Vec<i32> = &self.paths[path].e_q23;
        if row.len() == 0 {
            None
        } else {
            assert(signed_ints(row@)[row@.len() - 1] == row@[row@.len() - 1]);
            Some(row[row.len() - 1])
        }
    }

    /// The cheapest fork that is not taken, the first of those where several cost the same.
    fn cheapest(forks: &[Fork], taken: &Vec<bool>, Ghost(chosen): Ghost<Seq<int>>) -> (i: usize)
        requires
            taken@.len() == forks@.len(),
            forall|i: int| 0 <= i < taken@.len() ==> #[trigger] taken@[i] == chosen.contains(i),
            exists|i: int| 0 <= i < taken@.len() && !#[trigger] taken@[i],
        ensures
            next_best(fork_costs(forks@), chosen, i as int),
    {
        let ghost costs = fork_costs(forks@);
        let mut best: usize = 0;
        let mut found: bool = false;
        for i in 0..forks.len()
            invariant
                taken@.len() == forks@.len(),
                costs == fork_costs(forks@),
                forall|j: int| 0 <= j < taken@.len() ==> #[trigger] taken@[j] == chosen.contains(j),
                found ==> best < i && !taken@[best as int],
                !found ==> forall|j: int| 0 <= j < i ==> #[trigger] taken@[j],
                found ==> forall|j: int|
                    0 <= j < i && !#[trigger] chosen.contains(j) ==> costs[best as int] < costs[j]
                        || costs[best as int] == costs[j] && best <= j,
        {
            assert(taken@[i as int] == chosen.contains(i as int));
            if !taken[i] && (!found || forks[i].cost < forks[best].cost) {
                best = i;
                found = true;
            }
            proof {
                assert forall|j: int|
                    found && 0 <= j < i + 1 && !#[trigger] chosen.contains(j) implies costs[
                best as int] < costs[j] || costs[best as int] == costs[j] && best <= j by {
                    assert(taken@[j] == chosen.contains(j));
                }
            }
        }
        proof {
            assert(found);
            assert(!chosen.contains(best as int));
        }
        best
    }

    /// Continues a path by a fork.
    fn extend(path: &TrellisPath, fork: Fork, offset_q23: i32) -> (p: TrellisPath)
        requires
            path.consistent(offset_q23 as int),
            0 <= offset_q23 <= 60,
            moderate(fork.e_raw),
        ensures
            p.consistent(offset_q23 as int),
            p@ == continued(path@, fork),
    {
        proof {
            lemma_scaled(fork.e_raw);
            assert(signed_ints(path.e_q23@).len() == path.e_q23@.len());
        }
        let (e_q23, next): (i32, u32) = lcg_step_q23(path.seed, fork.e_raw, offset_q23);
        let n: usize = path.e_raw.len();
        let mut raw: Vec<i32> = Vec::new();
        let mut q23: Vec<i32> = Vec::new();
        for i in 0..n
            invariant
                n == path.e_raw@.len(),
                n == path.e_q23@.len(),
                raw@ == path.e_raw@.take(i as int),
                q23@ == path.e_q23@.take(i as int),
        {
            raw.push(path.e_raw[i]);
            q23.push(path.e_q23[i]);
            assert(raw@ =~= path.e_raw@.take(i + 1));
            assert(q23@ =~= path.e_q23@.take(i + 1));
        }
        assert(raw@ =~= path.e_raw@ && q23@ =~= path.e_q23@);
        raw.push(fork.e_raw);
        q23.push(e_q23);
        let p: TrellisPath = TrellisPath {
            seed_init: path.seed_init,
            seed: next,
            e_raw: raw,
            e_q23: q23,
            cost: fork.cost,
        };
        proof {
            let was = path.e_raw@;
            let now = p.e_raw@;
            let seed = path.seed_init as u32;
            let off = offset_q23 as int;
            assert(now == was.push(fork.e_raw));
            lemma_state_prefix(was, fork.e_raw, seed, n as int);
            assert forall|i: int| 0 <= i < now.len() implies signed_ints(p.e_q23@)[i]
                == reconstructed(now, off, seed)[i] by {
                lemma_state_prefix(was, fork.e_raw, seed, i);
                if i < n {
                    assert(signed_ints(path.e_q23@)[i] == reconstructed(was, off, seed)[i]);
                }
            }
            assert(signed_ints(p.e_q23@) =~= reconstructed(now, off, seed));
            assert(p@ =~= continued(path@, fork));
        }
        p
    }

    /// Goes on by one sample: of the given forks, the cheapest survive, as many as there may be
    /// paths. Gives the fork that each path now comes from.
    pub fn advance(&mut self, forks: &[Fork]) -> (origins: Vec<usize>)
        requires
            forks@.len() >= 1,
            forall|i: int|
                0 <= i < forks@.len() ==> (#[trigger] forks@[i]).path < old(self)@.len()
                    && moderate(forks@[i].e_raw),
        ensures
            final(self).width() == old(self).width(),
            final(self).offset() == old(self).offset(),
            final(self)@.len() == (if forks@.len() < old(self).width() {
                forks@.len() as int
            } else {
                old(self).width()
            }),
            forall|k: int|
                0 <= k < origins@.len() ==> (#[trigger] origins@[k]) < forks@.len(),
            survived(old(self)@, forks@, final(self)@, indices(origins@)),
    {
        proof {
            use_type_invariant(&*self);
        }
        let keep: usize = if forks.len() < self.n_states {
            forks.len()
        } else {
            self.n_states
        };
        let ghost costs = fork_costs(forks@);
        let ghost was = self@;
        let mut taken: Vec<bool> = vec![false; forks.len()];
        let mut next: Vec<TrellisPath> = Vec::new();
        let mut origins: Vec<usize> = Vec::new();
        let ghost mut chosen = Seq::<int>::empty();
        let offset: i32 = self.offset_q23;
        let mut k: usize = 0;
        while k < keep
            invariant
                k <= keep <= forks@.len(),
                keep <= self.n_states <= 4,
                offset == self.offset_q23,
                0 <= offset <= 60,
                costs == fork_costs(forks@),
                was == self@,
                forall|i: int|
                    0 <= i < self.paths@.len() ==> (#[trigger] self.paths@[i]).consistent(
                        offset as int,
                    ),
                forall|i: int|
                    0 <= i < forks@.len() ==> (#[trigger] forks@[i]).path < was.len() && moderate(
                        forks@[i].e_raw,
                    ),
                taken@.len() == forks@.len(),
                chosen.len() == k,
                chosen.no_duplicates(),
                forall|j: int| 0 <= j < k ==> 0 <= #[trigger] chosen[j] < forks@.len(),
                forall|i: int|
                    0 <= i < taken@.len() ==> #[trigger] taken@[i] == chosen.contains(i),
                elected(costs, chosen),
                chosen == indices(origins@),
                next@.len() == k,
                forall|j: int|
                    0 <= j < k ==> (#[trigger] next@[j]).consistent(offset as int) && next@[j]@
                        == continued(was[forks@[chosen[j]].path as int], forks@[chosen[j]]),
            decreases keep - k,
        {
            proof {
                lemma_one_left(chosen, taken@);
            }
            let i: usize = DelDecTrellis::cheapest(forks, &taken, Ghost(chosen));
            let fork: Fork = forks[i];
            let p: TrellisPath = DelDecTrellis::extend(&self.paths[fork.path], fork, offset);
            next.push(p);
            origins.push(i);
            let ghost before = chosen;
            taken.set(i, true);
            proof {
                chosen = chosen.push(i as int);
                assert(chosen =~= indices(origins@));
                assert forall|j: int| 0 <= j < taken@.len() implies #[trigger] taken@[j]
                    == chosen.contains(j) by {
                    if j == i {
                        assert(chosen[k as int] == j);
                    } else if before.contains(j) {
                        let m = before.index_of(j);
                        assert(chosen[m] == j);
                    } else if chosen.contains(j) {
                        let m = chosen.index_of(j);
                        assert(before[m] == j);
                    }
                }
                assert forall|j: int| 0 <= j < chosen.len() implies next_best(
                    costs,
                    chosen.take(j),
                    #[trigger] chosen[j],
                ) by {
                    if j < k {
                        assert(chosen.take(j) =~= before.take(j));
                        assert(next_best(costs, before.take(j), before[j]));
                    } else {
                        assert(chosen.take(j) =~= before);
                    }
                }
                assert(was[fork.path as int] == self.paths@[fork.path as int]@);
            }
            k = k + 1;
        }
        proof {
            assert forall|j: int| 0 <= j < next@.len() implies #[trigger] path_views(next@)[j]
                == continued(was[forks@[chosen[j]].path as int], forks@[chosen[j]]) by {
                assert(next@[j]@ == continued(
                    was[forks@[chosen[j]].path as int],
                    forks@[chosen[j]],
                ));
            }
        }
        *self = DelDecTrellis { n_states: self.n_states, offset_q23: self.offset_q23, paths: next };
        proof {
            assert(survived(was, forks@, self@, chosen));
            assert forall|k: int| 0 <= k < origins@.len() implies (#[trigger] origins@[k])
                < forks@.len() by {
                assert(chosen[k] == origins@[k]);
            }
        }
        origins
    }

    /// The first of the cheapest paths.
    pub fn winner(&self) -> (w: usize)
        ensures
            w < self@.len(),
            forall|i: int|
                0 <= i < self@.len() ==> self@[w as int].cost <= #[trigger] self@[i].cost,
            forall|i: int| 0 <= i < w ==> self@[w as int].cost < #[trigger] self@[i].cost,
    {
        proof {
            use_type_invariant(self);
        }
        let mut w: usize = 0;
        for i in 1..self.paths.len()
            invariant
                w < i,
                i <= self.paths@.len(),
                forall|j: int|
                    0 <= j < i ==> self.paths@[w as int].cost <= (#[trigger] self.paths@[j]).cost,
                forall|j: int|
                    0 <= j < w ==> self.paths@[w as int].cost < (#[trigger] self.paths@[j]).cost,
        {
            if self.paths[i].cost < self.paths[w].cost {
                w = i;
            }
        }
        proof {
            assert forall|i: int| 0 <= i < self@.len() implies self@[w as int].cost
                <= #[trigger] self@[i].cost by {
                assert(self.paths@[w as int].cost <= self.paths@[i].cost);
            }
            assert forall|i: int| 0 <= i < w implies self@[w as int].cost
                < #[trigger] self@[i].cost by {
                assert(self.paths@[w as int].cost < self.paths@[i].cost);
            }
        }
        w
    }

    /// The samples of a path, padded with zeros to `len`, and the seed that goes with them.
    pub fn excitation(&self, path: usize, len: usize) -> (r: DelDecQuantized)
        requires
            path < self@.len(),
            self@[path as int].samples.len() <= len,
        ensures
            r.lcg_seed == self@[path as int].seed,
            r.lcg_seed <= 3,
            r.e_raw@.len() == len,
            forall|i: int|
                0 <= i < len ==> #[trigger] r.e_raw@[i] == (if i
                    < self@[path as int].samples.len() {
                    self@[path as int].samples[i]
                } else {
                    0
                }),
            r.e_raw@.take(self@[path as int].samples.len() as int) == self@[path as int].samples,
    {
        proof {
            use_type_invariant(self);
            assert(self.paths@[path as int].consistent(self.offset_q23 as int));
        }
        let row: &Vec<i32> = &self.paths[path].e_raw;
        let mut e_raw: Vec<i32> = Vec::new();
        for i in 0..len
            invariant
                e_raw@.len() == i,
                forall|j: int|
                    0 <= j < i ==> #[trigger] e_raw@[j] == (if j < row@.len() {
                        row@[j]
                    } else {
                        0
                    }),
        {
            if i < row.len() {
                e_raw.push(row[i]);
            } else {
                e_raw.push(0);
            }
        }
        assert(e_raw@.take(row@.len() as int) =~= row@);
        DelDecQuantized { e_raw, lcg_seed: self.paths[path].seed_init }
    }
}

/// The excitation that was settled on and the dither seed that goes with it.
#[derive(Debug, Clone, PartialEq)]
pub struct DelDecQuantized {
    /// Samples, padded to whole blocks.
    pub e_raw: Vec<i32>,
    /// Dither seed.
    pub lcg_seed: u8,
}

/// As long as fewer are chosen than there are, one is left.
proof fn lemma_one_left(chosen: Seq<int>, taken: Seq<bool>)
    requires
        chosen.len() < taken.len(),
        chosen.no_duplicates(),
        forall|i: int| 0 <= i < taken.len() ==> #[trigger] taken[i] == chosen.contains(i),
    ensures
        exists|i: int| 0 <= i < taken.len() && !#[trigger] taken[i],
{
    if forall|i: int| 0 <= i < taken.len() ==> #[trigger] taken[i] {
        let all = Seq::new(taken.len(), |i: int| i);
        assert(all.to_set().subset_of(chosen.to_set())) by {
            assert forall|i: int| all.to_set().contains(i) implies chosen.to_set().contains(i) by {
                let m = all.index_of(i);
                assert(all[m] == i);
                assert(taken[i]);
            }
        }
        all.unique_seq_to_set();
        chosen.unique_seq_to_set();
        vstd::set_lib::lemma_len_subset(all.to_set(), chosen.to_set());
    }
}

/// The generator's state does not depend on later samples.
proof fn lemma_state_prefix(was: Seq<i32>, e: i32, seed: u32, i: int)
    requires
        i <= was.len(),
    ensures
        state_before(was.push(e), seed, i) == state_before(was, seed, i),
    decreases i,
{
    if i > 0 {
        lemma_state_prefix(was, e, seed, i - 1);
    }
}

/// What an excitation drives a signal to, one sample at a time. A step takes the signal, the number
/// of the sample and the sample of the excitation.
pub open spec fn driven<S>(step: spec_fn(S, int, int) -> S, start: S, e: Seq<int>) -> S
    decreases e.len(),
{
    if e.len() == 0 {
        start
    } else {
        step(driven(step, start, e.drop_last()), e.len() - 1, e.last())
    }
}

impl PathView {
    /// The excitation (Q23) that a decoder makes of the path.
    pub open spec fn excitation(self, offset: int) -> Seq<int> {
        reconstructed(self.samples, offset, self.seed as u32)
    }
}

/// Each signal is the one that a decoder's excitation drives to along its path.
pub open spec fn signals_follow<S>(
    step: spec_fn(S, int, int) -> S,
    start: S,
    offset: int,
    paths: Seq<PathView>,
    signals: Seq<S>,
) -> bool {
    &&& signals.len() == paths.len()
    &&& forall|k: int|
        0 <= k < paths.len() ==> #[trigger] signals[k] == driven(
            step,
            start,
            paths[k].excitation(offset),
        )
}

/// Before the first sample all signals stand where synthesis starts.
pub proof fn law_signals_start<S>(
    step: spec_fn(S, int, int) -> S,
    start: S,
    offset: int,
    paths: Seq<PathView>,
    signals: Seq<S>,
)
    requires
        signals.len() == paths.len(),
        forall|k: int| 0 <= k < paths.len() ==> (#[trigger] paths[k]).samples.len() == 0,
        forall|k: int| 0 <= k < signals.len() ==> #[trigger] signals[k] == start,
    ensures
        signals_follow(step, start, offset, paths, signals),
{
    assert forall|k: int| 0 <= k < paths.len() implies #[trigger] signals[k] == driven(
        step,
        start,
        paths[k].excitation(offset),
    ) by {
        assert(paths[k].samples.len() == 0);
    }
}

/// One sample further: `now` are the survivors of `forks` from the paths `was`, and each takes the
/// signal of the path it comes from one step further, by the reconstruction of its last sample.
pub open spec fn signals_advance<S>(
    step: spec_fn(S, int, int) -> S,
    offset: int,
    was: Seq<PathView>,
    forks: Seq<Fork>,
    now: Seq<PathView>,
    chosen: Seq<int>,
    before: Seq<S>,
    after: Seq<S>,
) -> bool {
    &&& survived(was, forks, now, chosen)
    &&& forall|i: int| 0 <= i < forks.len() ==> (#[trigger] forks[i]).path < was.len()
    &&& after.len() == now.len()
    &&& forall|k: int|
        0 <= k < now.len() ==> #[trigger] after[k] == step(
            before[forks[chosen[k]].path as int],
            now[k].samples.len() - 1,
            now[k].excitation(offset).last(),
        )
}

/// Signals keep to their paths, whatever the synthesis: where they advance with the paths, each is
/// the one that a decoder arrives at.
pub proof fn law_signals_follow_paths<S>(
    step: spec_fn(S, int, int) -> S,
    start: S,
    offset: int,
    was: Seq<PathView>,
    forks: Seq<Fork>,
    now: Seq<PathView>,
    chosen: Seq<int>,
    before: Seq<S>,
    after: Seq<S>,
)
    requires
        signals_advance(step, offset, was, forks, now, chosen, before, after),
        signals_follow(step, start, offset, was, before),
    ensures
        signals_follow(step, start, offset, now, after),
{
    assert forall|k: int| 0 <= k < now.len() implies #[trigger] after[k] == driven(
        step,
        start,
        now[k].excitation(offset),
    ) by {
        assert(next_best(fork_costs(forks), chosen.take(k), chosen[k]));
        let fork = forks[chosen[k]];
        let p = was[fork.path as int];
        assert(now[k] == continued(p, fork));
        let e = now[k].excitation(offset);
        assert forall|i: int| 0 <= i < p.samples.len() implies e[i] == p.excitation(offset)[i] by {
            lemma_state_prefix(p.samples, fork.e_raw, p.seed as u32, i);
        }
        assert(e.drop_last() =~= p.excitation(offset));
        assert(before[fork.path as int] == driven(step, start, p.excitation(offset)));
    }
}

proof fn lemma_state_of_prefix(v: Seq<i32>, n: int, seed: u32, i: int)
    requires
        0 <= n <= v.len(),
        i <= n,
    ensures
        state_before(v.take(n), seed, i) == state_before(v, seed, i),
    decreases i,
{
    if i > 0 {
        lemma_state_of_prefix(v, n, seed, i - 1);
    }
}

/// A decoder that reads the samples and the seed that were settled on arrives at the signal of the
/// path, whatever the synthesis.
pub proof fn law_decoder_arrives_at_the_path<S>(
    step: spec_fn(S, int, int) -> S,
    start: S,
    offset: int,
    path: PathView,
    coded: Seq<i32>,
)
    requires
        path.samples.len() <= coded.len(),
        coded.take(path.samples.len() as int) == path.samples,
    ensures
        reconstructed(coded, offset, path.seed as u32).take(path.samples.len() as int)
            == path.excitation(offset),
        driven(
            step,
            start,
            reconstructed(coded, offset, path.seed as u32).take(path.samples.len() as int),
        ) == driven(step, start, path.excitation(offset)),
{
    let n = path.samples.len() as int;
    let seed = path.seed as u32;
    let a = reconstructed(coded, offset, seed).take(n);
    assert forall|i: int| 0 <= i < n implies a[i] == path.excitation(offset)[i] by {
        lemma_state_of_prefix(coded, n, seed, i);
        assert(coded[i] == coded.take(n)[i]);
    }
    assert(a =~= path.excitation(offset));
}

/// Signals keep to their paths through a whole frame.
proof fn lemma_signals_follow_throughout<S>(
    step: spec_fn(S, int, int) -> S,
    start: S,
    offset: int,
    runs: Seq<Seq<PathView>>,
    forks: Seq<Seq<Fork>>,
    chosen: Seq<Seq<int>>,
    signals: Seq<Seq<S>>,
    n: int,
)
    requires
        0 <= n <= forks.len(),
        signals_follow(step, start, offset, runs[0], signals[0]),
        forall|t: int|
            0 <= t < forks.len() ==> signals_advance(
                step,
                offset,
                runs[t],
                #[trigger] forks[t],
                runs[t + 1],
                chosen[t],
                signals[t],
                signals[t + 1],
            ),
    ensures
        signals_follow(step, start, offset, runs[n], signals[n]),
    decreases n,
{
    if n > 0 {
        lemma_signals_follow_throughout(
            step,
            start,
            offset,
            runs,
            forks,
            chosen,
            signals,
            n - 1,
        );
        let t = n - 1;
        assert(signals_advance(
            step,
            offset,
            runs[t],
            forks[t],
            runs[t + 1],
            chosen[t],
            signals[t],
            signals[t + 1],
        ));
        law_signals_follow_paths(
            step,
            start,
            offset,
            runs[t],
            forks[t],
            runs[n],
            chosen[t],
            signals[t],
            signals[n],
        );
    }
}

/// Quantiser and decoder agree: where paths that have not begun are followed through a frame, each
/// with a signal that starts where synthesis starts, a decoder that reads the samples and the seed
/// of one of the last paths arrives at the signal of that path. So it is whatever the synthesis
/// makes of its state and of an excitation, and whatever forks were offered.
pub proof fn law_quantiser_and_decoder_agree<S>(
    step: spec_fn(S, int, int) -> S,
    start: S,
    offset: int,
    runs: Seq<Seq<PathView>>,
    forks: Seq<Seq<Fork>>,
    chosen: Seq<Seq<int>>,
    signals: Seq<Seq<S>>,
    w: int,
    coded: Seq<i32>,
)
    requires
        runs.len() == forks.len() + 1,
        signals.len() == runs.len(),
        signals[0].len() == runs[0].len(),
        forall|k: int| 0 <= k < runs[0].len() ==> (#[trigger] runs[0][k]).samples.len() == 0,
        forall|k: int| 0 <= k < signals[0].len() ==> #[trigger] signals[0][k] == start,
        forall|t: int|
            0 <= t < forks.len() ==> signals_advance(
                step,
                offset,
                runs[t],
                #[trigger] forks[t],
                runs[t + 1],
                chosen[t],
                signals[t],
                signals[t + 1],
            ),
        0 <= w < runs.last().len(),
        runs.last()[w].samples.len() <= coded.len(),
        coded.take(runs.last()[w].samples.len() as int) == runs.last()[w].samples,
    ensures
        ({
            let path = runs.last()[w];
            driven(
                step,
                start,
                reconstructed(coded, offset, path.seed as u32).take(path.samples.len() as int),
            ) == signals.last()[w]
        }),
{
    let n = forks.len() as int;
    law_signals_start(step, start, offset, runs[0], signals[0]);
    lemma_signals_follow_throughout(step, start, offset, runs, forks, chosen, signals, n);
    law_decoder_arrives_at_the_path(step, start, offset, runs.last()[w], coded);
    assert(signals[n][w] == driven(step, start, runs[n][w].excitation(offset)));
}

/// Of forks of equal cost the first is chosen: one that stands before a chosen one and was not
/// chosen before it costs more.
pub proof fn law_first_of_equals_elected(costs: Seq<int>, chosen: Seq<int>, k: int, i: int)
    requires
        elected(costs, chosen),
        0 <= k < chosen.len(),
        0 <= i < chosen[k],
        !chosen.take(k).contains(i),
    ensures
        costs[chosen[k]] < costs[i],
        0 <= chosen[k] < costs.len(),
{
    assert(next_best(costs, chosen.take(k), chosen[k]));
    assert(costs[i] == costs[i]);
}

/// No fork is chosen twice.
pub proof fn law_elected_once(costs: Seq<int>, chosen: Seq<int>, j: int, k: int)
    requires
        elected(costs, chosen),
        0 <= j < k < chosen.len(),
    ensures
        chosen[j] != chosen[k],
{
    assert(next_best(costs, chosen.take(k), chosen[k]));
    assert(chosen.take(k)[j] == chosen[j]);
}

/// A survivor is the path of its fork with the fork's sample appended, at the fork's cost and from
/// the path's seed.
pub proof fn law_survivor_goes_on(
    was: Seq<PathView>,
    forks: Seq<Fork>,
    now: Seq<PathView>,
    chosen: Seq<int>,
    k: int,
)
    requires
        survived(was, forks, now, chosen),
        0 <= k < now.len(),
    ensures
        ({
            let f = forks[chosen[k]];
            let from = was[f.path as int];
            &&& now[k].samples.len() == from.samples.len() + 1
            &&& now[k].samples.drop_last() == from.samples
            &&& now[k].samples.last() == f.e_raw
            &&& now[k].cost == f.cost
            &&& now[k].seed == from.seed
        }),
{
    let f = forks[chosen[k]];
    let from = was[f.path as int];
    assert(now[k] == continued(from, f));
    assert(now[k].samples.drop_last() =~= from.samples);
}

/// A path begins with its seed, without samples and at no cost.
pub proof fn law_path_begins(seed: int)
    ensures
        fresh_path(seed).seed == seed,
        fresh_path(seed).samples.len() == 0,
        fresh_path(seed).cost == 0,
{
}

/// An excitation drives a signal sample by sample, in order: one more sample is one more step, with
/// the number of samples before it.
pub proof fn law_driven_one_further<S>(
    step: spec_fn(S, int, int) -> S,
    start: S,
    e: Seq<int>,
    x: int,
)
    ensures
        driven(step, start, Seq::empty()) == start,
        driven(step, start, e.push(x)) == step(driven(step, start, e), e.len() as int, x),
{
    assert(e.push(x).drop_last() =~= e);
}

/// Which requests are served: one to four paths from one of four seeds, a gain per 5 ms, as many
/// samples as the bandwidth has in the frame, and long-term prediction exactly where the frame is
/// voiced.
pub proof fn law_served_requests(r: DelDecRequest)
    ensures
        r.valid() ==> {
            let n: int = if r.frame_size is TenMs {
                2
            } else {
                4
            };
            &&& r.base_seed < 4
            &&& 1 <= r.n_states <= 4
            &&& r.gains == n
            &&& r.bandwidth is Nb ==> r.samples == 40 * n
            &&& r.bandwidth is Mb ==> r.samples == 60 * n
            &&& r.bandwidth is Wb ==> r.samples == 80 * n
            &&& r.bandwidth is Nb || r.bandwidth is Mb || r.bandwidth is Wb
            &&& r.has_ltp == (r.signal_type is Voiced)
            &&& r.coefficients == r.order
            &&& r.shaping is Some ==> r.shaping->0 == r.order
        },
{
}

/// The seeds of the paths count up from that of the first, and from 3 on to 0, so that no two of
/// four paths have the same.
pub proof fn law_path_seeds(base: int, j: int, k: int)
    requires
        0 <= base <= 3,
        0 <= j < k <= 3,
    ensures
        path_seed(base, 0) == base,
        0 <= path_seed(base, k) <= 3,
        path_seed(base, k) != path_seed(base, j),
        path_seed(base, k - 1) < 3 ==> path_seed(base, k) == path_seed(base, k - 1) + 1,
        path_seed(base, k - 1) == 3 ==> path_seed(base, k) == 0,
{
}

} // verus!
