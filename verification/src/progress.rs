use vstd::prelude::*;

verus! {

broadcast use vstd::std_specs::vec::axiom_spec_len;

/// One step of a multi-step process.
#[derive(Debug)]
pub struct Step {
    pub id: String,
    pub description: String,
}

impl Clone for Step {
    fn clone(&self) -> (r: Self)
        ensures
            r == *self,
    {
        Step { id: self.id.clone(), description: self.description.clone() }
    }
}

/// Progress through a list of steps; before the first step nothing has started.
#[derive(Debug)]
pub struct MultiStepProgress {
    current_step_index: Option<usize>,
    steps: Vec<Step>,
}

impl MultiStepProgress {
    #[verifier::type_invariant]
    spec fn inv(self) -> bool {
        self.current_step_index matches Some(i) ==> i < self.steps@.len()
    }

    /// The index of the current step, if started.
    pub closed spec fn current(self) -> Option<usize> {
        self.current_step_index
    }

    pub closed spec fn step_seq(self) -> Seq<Step> {
        self.steps@
    }

    pub fn for_steps_not_started(steps: Vec<Step>) -> (p: MultiStepProgress)
        ensures
            p.current() is None,
            p.step_seq() == steps@,
    {
        MultiStepProgress { current_step_index: None, steps }
    }

    pub fn get_current_step_value(&self) -> (r: Option<&Step>)
        ensures
            r == match self.current() {
                Some(i) => Some(&self.step_seq()[i as int]),
                None => None::<&Step>,
            },
    {
        proof {
            use_type_invariant(self);
        }
        match self.current_step_index {
            Some(idx) => Some(&self.steps[idx]),
            None => None,
        }
    }

    /// The current step, counted from 1: at most the number of steps.
    pub fn get_current_step_number(&self) -> (r: Option<usize>)
        ensures
            r == match self.current() {
                Some(i) => Some((i + 1) as usize),
                None => None::<usize>,
            },
            r matches Some(n) ==> 1 <= n <= self.step_seq().len(),
    {
        proof {
            use_type_invariant(self);
        }
        let n = self.steps.len();
        match self.current_step_index {
            Some(idx) => Some(idx + 1),
            None => None,
        }
    }

    /// Starts at the first step, or moves to the next one; stays put at the last step.
    pub fn next_step(&mut self)
        ensures
            final(self).step_seq() == old(self).step_seq(),
            final(self).current() == step_after(old(self).current(), old(self).step_seq().len()),
            final(self).current() matches Some(i) ==> i < final(self).step_seq().len(),
    {
        proof {
            use_type_invariant(&*self);
        }
        let step_count = self.steps.len();
        match self.current_step_index {
            Some(index) => {
                let next_index = index + 1;
                if step_count > next_index {
                    self.current_step_index = Some(next_index);
                }
            },
            None => {
                if self.steps.len() > 0 {
                    self.current_step_index = Some(0);
                }
            },
        }
    }

    pub fn step_count(&self) -> (r: usize)
        ensures
            r == self.step_seq().len(),
    {
        self.steps.len()
    }

    pub fn steps(&self) -> (r: &Vec<Step>)
        ensures
            r@ == self.step_seq(),
    {
        &self.steps
    }

    /// Whether the current step is the last one.
    pub fn is_done(&self) -> (r: bool)
        ensures
            r == (self.current() matches Some(i) && i == self.step_seq().len() - 1),
    {
        proof {
            use_type_invariant(self);
        }
        match self.current_step_index {
            Some(idx) => idx == self.step_count() - 1,
            None => false,
        }
    }

    /// `(100 / steps) * (current + 1)` once started, 0 before: at most 100.
    pub fn get_progress_percentage(&self) -> (r: usize)
        ensures
            r == match self.current() {
                Some(i) => (100nat / self.step_seq().len()) * (i + 1),
                None => 0,
            },
            r <= 100,
    {
        proof {
            use_type_invariant(self);
        }
        match self.current_step_index {
            Some(idx) => {
                let n = self.steps.len();
                let per = 100 / n;
                proof {
                    lemma_percentage_bound(per as int, idx as int, n as int);
                }
                per * (idx + 1)
            },
            None => 0,
        }
    }
}

/// The step that `next_step` moves to from `current` among `len` steps.
pub open spec fn step_after(current: Option<usize>, len: nat) -> Option<usize> {
    match current {
        Some(i) => if i + 1 < len { Some((i + 1) as usize) } else { Some(i) },
        None => if len > 0 { Some(0usize) } else { None::<usize> },
    }
}

/// The step reached from `current` after `k` calls of `next_step` among `len` steps.
pub open spec fn steps_from(current: Option<usize>, len: nat, k: nat) -> Option<usize>
    decreases k,
{
    if k == 0 {
        current
    } else {
        steps_from(step_after(current, len), len, (k - 1) as nat)
    }
}

/// Starting from no step, `k` calls of `next_step` among `len` steps (`len` fitting a `usize`)
/// reach step number `min(k, len)`, counted from 1, or no step at all when `k` or `len` is 0.
/// So the step number is `k` while `k <= len`, calls past the last step change nothing, the
/// progress is done exactly when `k >= len >= 1`, and the percentage shown is
/// `(100 / len) * min(k, len)`; an empty progress never starts.
pub proof fn lemma_repeated_steps(len: nat, k: nat)
    requires
        len <= usize::MAX,
    ensures
        steps_from(None, len, k) == if k == 0 || len == 0 {
            None::<usize>
        } else {
            Some((if k <= len { k - 1 } else { len - 1 }) as usize)
        },
        (steps_from(None, len, k) matches Some(i) && i == len - 1) <==> (len >= 1 && k >= len),
        (match steps_from(None, len, k) {
            Some(i) => (100nat / len) * (i + 1),
            None => 0,
        }) == if len == 0 { 0 } else { (100nat / len) * (if k <= len { k } else { len }) },
    decreases k,
{
    if k > 0 {
        if len > 0 {
            assert(step_after(None, len) == Some(0usize));
            lemma_steps_from_started(len, (k - 1) as nat, 0);
            assert(steps_from(None, len, k) == steps_from(Some(0usize), len, (k - 1) as nat));
        } else {
            lemma_repeated_steps(len, (k - 1) as nat);
        }
    }
}

/// From step `i`, `k` more calls of `next_step` reach step `min(i + k, len - 1)`.
proof fn lemma_steps_from_started(len: nat, k: nat, i: nat)
    requires
        i < len <= usize::MAX,
    ensures
        steps_from(Some(i as usize), len, k) == Some((if i + k < len { (i + k) as int } else { len - 1 }) as usize),
    decreases k,
{
    if k > 0 {
        if i + 1 < len {
            lemma_steps_from_started(len, (k - 1) as nat, i + 1);
        } else {
            lemma_steps_from_started(len, (k - 1) as nat, i);
        }
    }
}

proof fn lemma_percentage_bound(per: int, idx: int, n: int)
    requires
        0 <= idx < n,
        per == 100int / n,
    ensures
        0 <= per * (idx + 1) <= 100,
{
    assert(per * n <= 100) by (nonlinear_arith)
        requires per == 100int / n, n > 0;
    assert(per >= 0) by (nonlinear_arith)
        requires per == 100int / n, n > 0;
    assert(per * (idx + 1) <= per * n) by (nonlinear_arith)
        requires per >= 0, idx + 1 <= n;
    assert(per * (idx + 1) >= 0) by (nonlinear_arith)
        requires per >= 0, idx >= 0;
}

/// Stepping forward never moves past the last step, and the progress shown never exceeds 100%.
pub proof fn lemma_progress_stays_in_range(current: Option<usize>, len: nat)
    requires
        current matches Some(i) ==> i < len,
    ensures
        (match current {
            Some(i) => if i + 1 < len { Some((i + 1) as usize) } else { Some(i) },
            None => if len > 0 { Some(0usize) } else { None::<usize> },
        }) matches Some(j) ==> j < len,
{
}

/// Something whose progress through several steps can be reported.
pub trait Progressible {
    fn get_progress(&self) -> MultiStepProgress;
}

} // verus!
