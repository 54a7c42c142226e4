//! The counters of a session.
use vstd::prelude::*;

use crate::model::{LayerSlot, ModelWeights, Weight, N_LAYER, N_SWA};
use crate::session::step::Step;

verus! {

/// The longest context: positions, rows and shared-memory sizes are 32-bit numbers.
pub const MAX_CTX: usize = 0x3FFF_FFF0;

/// Position and cache counters of a session.
#[derive(Debug)]
pub struct Session {
    /// Compressed rows in the cache of each layer.
    pub layer_n_comp: Vec<u32>,
    pub ctx_size: usize,
    /// Rows of the sliding window.
    pub raw_cap: usize,
    /// Compressed rows that a layer's cache can hold.
    pub comp_cap: usize,
    /// Number of tokens whose state is in the caches.
    pub n_filled: usize,
}

/// What the steps of a plan change of a session; its capacities never change.
pub struct Counters {
    pub n_comp: Seq<u32>,
    pub n_filled: int,
}

impl Session {
    /// The session's counters.
    pub open spec fn counters(&self) -> Counters {
        Counters { n_comp: self.layer_n_comp@, n_filled: self.n_filled as int }
    }

    /// Capacities follow from the context size, and no layer holds more rows than it can.
    pub open spec fn wf(&self) -> bool {
        &&& self.ctx_size <= MAX_CTX
        &&& self.raw_cap == N_SWA
        &&& self.comp_cap == self.ctx_size / 4 + 2
        &&& self.layer_n_comp@.len() == N_LAYER
        &&& forall|il: int|
            0 <= il < N_LAYER ==> #[trigger] self.layer_n_comp@[il] <= self.comp_cap
    }

    /// A fresh session for contexts of up to `ctx_size` tokens.
    pub fn new(ctx_size: usize) -> (r: Self)
        requires
            ctx_size <= MAX_CTX,
        ensures
            r.wf(),
            r.ctx_size == ctx_size,
            r.n_filled == 0,
            forall|il: int| 0 <= il < N_LAYER ==> #[trigger] r.layer_n_comp@[il] == 0,
    {
        Session {
            layer_n_comp: vec![0u32; N_LAYER],
            ctx_size,
            raw_cap: N_SWA,
            comp_cap: ctx_size / 4 + 2,
            n_filled: 0,
        }
    }

    /// Number of tokens whose state is in the caches.
    pub fn pos(&self) -> (r: usize)
        ensures
            r == self.n_filled,
    {
        self.n_filled
    }

    /// Brings the counters up to date after a step was performed.
    pub fn apply(&mut self, step: &Step)
        requires
            old(self).wf(),
            *step matches Step::EmitRow { layer } ==> layer < N_LAYER
                && old(self).layer_n_comp@[layer as int] < old(self).comp_cap,
            *step matches Step::Advance { n } ==> old(self).n_filled + n <= usize::MAX,
        ensures
            final(self).wf(),
            final(self).ctx_size == old(self).ctx_size,
            final(self).raw_cap == old(self).raw_cap,
            final(self).comp_cap == old(self).comp_cap,
            final(self).counters() == count(old(self).counters(), *step),
    {
        match *step {
            Step::EmitRow { layer } => {
                let n: u32 = self.layer_n_comp[layer];
                self.layer_n_comp.set(layer, n + 1);
            },
            Step::Advance { n } => {
                self.n_filled = self.n_filled + n;
            },
            _ => {},
        }
    }
}

/// The counters after a step.
pub open spec fn count(c: Counters, step: Step) -> Counters {
    match step {
        Step::EmitRow { layer } => Counters {
            n_comp: c.n_comp.update(layer as int, (c.n_comp[layer as int] + 1) as u32),
            ..c
        },
        Step::Advance { n } => Counters { n_filled: c.n_filled + n, ..c },
        _ => c,
    }
}

/// The counters after a list of steps.
pub open spec fn count_all(c: Counters, steps: Seq<Step>) -> Counters
    decreases steps.len(),
{
    if steps.len() == 0 {
        c
    } else {
        count(count_all(c, steps.drop_last()), steps.last())
    }
}

/// The file has the tensor in this slot of the layer.
pub open spec fn holds(w: ModelWeights, il: int, s: LayerSlot) -> bool {
    w.layers@[il].slot(s) is Some
}

/// Whether the file has the tensor in this slot of the layer.
pub fn has_slot(w: &ModelWeights, il: usize, s: LayerSlot) -> (r: bool)
    requires
        w.wf(),
        il < N_LAYER,
    ensures
        r == holds(*w, il as int, s),
{
    w.layers[il].get(s).is_some()
}

/// The first tensor that a list of steps needs and the file lacks, with the number of steps
/// before it.
pub open spec fn first_missing(w: ModelWeights, steps: Seq<Step>) -> Option<(int, Weight)>
    decreases steps.len(),
{
    if steps.len() == 0 {
        None
    } else {
        match first_missing(w, steps.drop_last()) {
            Some(m) => Some(m),
            None => match steps.last() {
                Step::Need(t) if w.weight(t) is None => Some((steps.len() - 1, t)),
                _ => None,
            },
        }
    }
}

/// A tensor that exists in the tables.
pub open spec fn in_table(t: Weight) -> bool {
    t matches Weight::Layer(il, _) ==> il < N_LAYER
}

/// The first tensor that a plan needs and the file lacks: how many steps come before it, and
/// which it is.
pub fn find_missing(w: &ModelWeights, steps: &Vec<Step>) -> (r: Option<(usize, Weight)>)
    requires
        w.wf(),
        forall|i: int|
            0 <= i < steps@.len() ==> (#[trigger] steps@[i] matches Step::Need(t) ==> in_table(t)),
    ensures
        match first_missing(*w, steps@) {
            Some((n, t)) => r matches Some((rn, rt)) && rn == n && rt == t,
            None => r is None,
        },
{
    let mut i: usize = 0;
    let mut found: Option<(usize, Weight)> = None;
    while i < steps.len()
        invariant
            i <= steps.len(),
            w.wf(),
            forall|i: int|
                0 <= i < steps@.len() ==> (#[trigger] steps@[i] matches Step::Need(t) ==> in_table(
                    t,
                )),
            match first_missing(*w, steps@.take(i as int)) {
                Some((n, t)) => found matches Some((rn, rt)) && rn == n && rt == t,
                None => found is None,
            },
        decreases steps.len() - i,
    {
        assert(steps@.take(i + 1).drop_last() =~= steps@.take(i as int));
        if found.is_none() {
            if let Step::Need(t) = steps[i] {
                if w.get(t).is_none() {
                    found = Some((i, t));
                }
            }
        }
        i = i + 1;
    }
    assert(steps@.take(i as int) =~= steps@);
    found
}

} // verus!
