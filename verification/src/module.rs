//! Module-level bookkeeping: processing status and owned buffer storage.
use vstd::prelude::*;
use core::marker::PhantomData;
use crate::enums::{CartesianProduct, Enum};

verus! {

/// Status reported by a module after processing a block.
#[derive(Debug, Copy, Clone, PartialEq, Eq)]
pub enum ProcessStatus {
    /// The module keeps producing output.
    Running,
    /// The module will output silence after this many samples, provided its
    /// input is silent too.
    Tail(u64),
    /// The module has finished.
    Done,
}

/// The status that merging two statuses gives.
///
/// Tails add up; a tail wins over anything else; then `Done` wins over
/// `Running`.
pub open spec fn spec_merge(a: ProcessStatus, b: ProcessStatus) -> ProcessStatus {
    match (a, b) {
        (ProcessStatus::Tail(x), ProcessStatus::Tail(y)) => ProcessStatus::Tail((x + y) as u64),
        (ProcessStatus::Tail(x), _) => ProcessStatus::Tail(x),
        (_, ProcessStatus::Tail(y)) => ProcessStatus::Tail(y),
        (ProcessStatus::Done, _) => ProcessStatus::Done,
        (_, ProcessStatus::Done) => ProcessStatus::Done,
        _ => ProcessStatus::Running,
    }
}

/// Whether merging two statuses stays within the range of tail lengths.
pub open spec fn merge_fits(a: ProcessStatus, b: ProcessStatus) -> bool {
    match (a, b) {
        (ProcessStatus::Tail(x), ProcessStatus::Tail(y)) => x + y <= u64::MAX,
        _ => true,
    }
}

impl ProcessStatus {
    /// Merges two statuses, keeping as much information as possible.
    ///
    /// Two tails merge into a tail of the summed length, which must fit in a
    /// `u64`.
    pub fn merge(&self, other: &Self) -> (r: Self)
        requires
            merge_fits(*self, *other),
        ensures
            r == spec_merge(*self, *other),
    {
        match (self, other) {
            (ProcessStatus::Tail(a), ProcessStatus::Tail(b)) => ProcessStatus::Tail(*a + *b),
            (ProcessStatus::Tail(a), _) => ProcessStatus::Tail(*a),
            (_, ProcessStatus::Tail(b)) => ProcessStatus::Tail(*b),
            (ProcessStatus::Done, _) => ProcessStatus::Done,
            (_, ProcessStatus::Done) => ProcessStatus::Done,
            _ => ProcessStatus::Running,
        }
    }
}

/// Merging statuses does not depend on their order.
pub proof fn lemma_merge_commutative(a: ProcessStatus, b: ProcessStatus)
    ensures
        merge_fits(a, b) == merge_fits(b, a),
        spec_merge(a, b) == spec_merge(b, a),
{
}

/// Merging statuses does not depend on their grouping, as long as the tail
/// lengths involved fit.
pub proof fn lemma_merge_associative(a: ProcessStatus, b: ProcessStatus, c: ProcessStatus)
    requires
        merge_fits(a, b),
        merge_fits(spec_merge(a, b), c),
    ensures
        merge_fits(b, c),
        merge_fits(a, spec_merge(b, c)),
        spec_merge(spec_merge(a, b), c) == spec_merge(a, spec_merge(b, c)),
{
}

/// `Running` is neutral for merging.
pub proof fn lemma_merge_running_neutral(a: ProcessStatus)
    ensures
        merge_fits(ProcessStatus::Running, a),
        spec_merge(ProcessStatus::Running, a) == a,
        spec_merge(a, ProcessStatus::Running) == a,
{
}

/// The tail length a status carries: its length for a tail, none otherwise.
pub open spec fn tail_samples(s: ProcessStatus) -> nat {
    match s {
        ProcessStatus::Tail(n) => n as nat,
        _ => 0,
    }
}

/// What merging two statuses gives, by kind: a tail whenever either status
/// is a tail, whose length is the sum of the tails merged; otherwise `Done`
/// whenever either is `Done`; and `Running` only when both are `Running`.
pub proof fn lemma_merge_outcome(a: ProcessStatus, b: ProcessStatus)
    requires
        merge_fits(a, b),
    ensures
        (spec_merge(a, b) is Tail) <==> (a is Tail || b is Tail),
        (spec_merge(a, b) is Done) <==> (!(a is Tail) && !(b is Tail) && (a is Done || b is Done)),
        (spec_merge(a, b) is Running) <==> (a is Running && b is Running),
        tail_samples(spec_merge(a, b)) == tail_samples(a) + tail_samples(b),
{
}

/// Input and output buffers owned by the storage itself.
#[derive(Debug, Clone)]
pub struct OwnedBufferStorage<T> {
    /// One buffer per input.
    pub inputs: Vec<Vec<T>>,
    /// One buffer per output.
    pub outputs: Vec<Vec<T>>,
}

/// A sequence of `n` buffers of `len` copies of `x`.
pub open spec fn filled_buffers<T>(n: nat, len: nat, x: T) -> Seq<Seq<T>> {
    Seq::new(n, |i: int| Seq::new(len, |j: int| x))
}

/// A buffer of `len` copies of `x`.
fn filled<T: Copy>(len: usize, x: T) -> (v: Vec<T>)
    ensures
        v@ == Seq::new(len as nat, |j: int| x),
{
    let mut v: Vec<T> = Vec::with_capacity(len);
    let mut i: usize = 0;
    while i < len
        invariant
            i <= len,
            v@ == Seq::new(i as nat, |j: int| x),
        decreases len - i,
    {
        v.push(x);
        i = i + 1;
        proof {
            assert(v@ =~= Seq::new(i as nat, |j: int| x));
        }
    }
    v
}

/// `n` buffers of `len` copies of `x`.
fn filled_vecs<T: Copy>(n: usize, len: usize, x: T) -> (v: Vec<Vec<T>>)
    ensures
        v@.len() == n,
        forall|i: int| 0 <= i < n ==> (#[trigger] v@[i])@ == Seq::new(len as nat, |j: int| x),
{
    let mut v: Vec<Vec<T>> = Vec::with_capacity(n);
    let mut i: usize = 0;
    while i < n
        invariant
            i <= n,
            v@.len() == i,
            forall|k: int| 0 <= k < i ==> (#[trigger] v@[k])@ == Seq::new(len as nat, |j: int| x),
        decreases n - i,
    {
        v.push(filled(len, x));
        i = i + 1;
    }
    v
}

/// Overwrites every sample of a buffer with `x`.
fn fill_buffer<T: Copy>(buf: &mut Vec<T>, x: T)
    ensures
        final(buf)@ == Seq::new(old(buf)@.len(), |j: int| x),
{
    let n = buf.len();
    let mut i: usize = 0;
    while i < n
        invariant
            i <= n,
            buf@.len() == n,
            forall|j: int| 0 <= j < i ==> #[trigger] buf@[j] == x,
        decreases n - i,
    {
        buf.set(i, x);
        i = i + 1;
    }
    proof {
        assert(buf@ =~= Seq::new(n as nat, |j: int| x));
    }
}

impl<T: Copy> OwnedBufferStorage<T> {
    /// Allocates `num_inputs` input buffers and `num_outputs` output buffers
    /// of `block_size` samples each, all filled with `zero`.
    pub fn new(num_inputs: usize, num_outputs: usize, block_size: usize, zero: T) -> (s: Self)
        ensures
            s.inputs@.len() == num_inputs,
            s.outputs@.len() == num_outputs,
            forall|i: int|
                0 <= i < num_inputs ==> (#[trigger] s.inputs@[i])@ == Seq::new(block_size as nat, |j: int| zero),
            forall|i: int|
                0 <= i < num_outputs ==> (#[trigger] s.outputs@[i])@ == Seq::new(block_size as nat, |j: int| zero),
    {
        OwnedBufferStorage {
            inputs: filled_vecs(num_inputs, block_size, zero),
            outputs: filled_vecs(num_outputs, block_size, zero),
        }
    }

    /// The buffer of input `input`.
    pub fn get_input_buffer(&self, input: usize) -> (r: &[T])
        requires
            input < self.inputs@.len(),
        ensures
            r@ == self.inputs@[input as int]@,
    {
        self.inputs[input].as_slice()
    }

    /// The buffer of output `output`, mutable.
    pub fn get_output_buffer(&mut self, output: usize) -> (r: &mut Vec<T>)
        requires
            output < old(self).outputs@.len(),
        ensures
            *r == old(self).outputs@[output as int],
            final(self).inputs == old(self).inputs,
            final(self).outputs@ == old(self).outputs@.update(output as int, *final(r)),
    {
        &mut self.outputs[output]
    }

    /// The buffer of input `input` and the buffer of output `output`, the
    /// latter mutable.
    pub fn get_inout_pair(&mut self, input: usize, output: usize) -> (r: (&[T], &mut Vec<T>))
        requires
            input < old(self).inputs@.len(),
            output < old(self).outputs@.len(),
        ensures
            r.0@ == old(self).inputs@[input as int]@,
            *r.1 == old(self).outputs@[output as int],
            final(self).inputs == old(self).inputs,
            final(self).outputs@ == old(self).outputs@.update(output as int, *final(r.1)),
    {
        (self.inputs[input].as_slice(), &mut self.outputs[output])
    }

    /// Fills every input and output buffer with `zero`.
    pub fn reset(&mut self, zero: T)
        ensures
            final(self).inputs@.len() == old(self).inputs@.len(),
            final(self).outputs@.len() == old(self).outputs@.len(),
            forall|i: int|
                0 <= i < old(self).inputs@.len() ==> (#[trigger] final(self).inputs@[i])@ == Seq::new(
                    old(self).inputs@[i]@.len(),
                    |j: int| zero,
                ),
            forall|i: int|
                0 <= i < old(self).outputs@.len() ==> (#[trigger] final(self).outputs@[i])@ == Seq::new(
                    old(self).outputs@[i]@.len(),
                    |j: int| zero,
                ),
    {
        let mut i: usize = 0;
        while i < self.inputs.len()
            invariant
                i <= self.inputs@.len(),
                self.inputs@.len() == old(self).inputs@.len(),
                self.outputs == old(self).outputs,
                forall|k: int|
                    0 <= k < i ==> (#[trigger] self.inputs@[k])@ == Seq::new(
                        old(self).inputs@[k]@.len(),
                        |j: int| zero,
                    ),
                forall|k: int| i <= k < self.inputs@.len() ==> #[trigger] self.inputs@[k] == old(self).inputs@[k],
            decreases self.inputs@.len() - i,
        {
            self.clear_input(i, zero);
            i = i + 1;
        }
        let mut i: usize = 0;
        while i < self.outputs.len()
            invariant
                i <= self.outputs@.len(),
                self.outputs@.len() == old(self).outputs@.len(),
                self.inputs@.len() == old(self).inputs@.len(),
                forall|k: int|
                    0 <= k < self.inputs@.len() ==> (#[trigger] self.inputs@[k])@ == Seq::new(
                        old(self).inputs@[k]@.len(),
                        |j: int| zero,
                    ),
                forall|k: int|
                    0 <= k < i ==> (#[trigger] self.outputs@[k])@ == Seq::new(
                        old(self).outputs@[k]@.len(),
                        |j: int| zero,
                    ),
                forall|k: int| i <= k < self.outputs@.len() ==> #[trigger] self.outputs@[k] == old(self).outputs@[k],
            decreases self.outputs@.len() - i,
        {
            self.clear_output(i, zero);
            i = i + 1;
        }
    }

    /// Fills the buffer of input `input` with `zero`.
    pub fn clear_input(&mut self, input: usize, zero: T)
        requires
            input < old(self).inputs@.len(),
        ensures
            final(self).outputs == old(self).outputs,
            final(self).inputs@ == old(self).inputs@.update(
                input as int,
                final(self).inputs@[input as int],
            ),
            final(self).inputs@[input as int]@ == Seq::new(
                old(self).inputs@[input as int]@.len(),
                |j: int| zero,
            ),
    {
        fill_buffer(&mut self.inputs[input], zero);
    }

    /// Fills the buffer of output `output` with `zero`.
    pub fn clear_output(&mut self, output: usize, zero: T)
        requires
            output < old(self).outputs@.len(),
        ensures
            final(self).inputs == old(self).inputs,
            final(self).outputs@ == old(self).outputs@.update(
                output as int,
                final(self).outputs@[output as int],
            ),
            final(self).outputs@[output as int]@ == Seq::new(
                old(self).outputs@[output as int]@.len(),
                |j: int| zero,
            ),
    {
        fill_buffer(&mut self.outputs[output], zero);
    }
}

/// Parameters of a [`SummingMatrix`]: one gain per pair of an input and an
/// output, numbered as their [`CartesianProduct`].
#[derive(Debug, Copy, Clone, PartialEq, Eq)]
pub struct SummingMatrixParams<In, Out>(pub CartesianProduct<In, Out>);

impl<In: Enum, Out: Enum> Enum for SummingMatrixParams<In, Out> {
    open spec fn spec_count() -> nat {
        CartesianProduct::<In, Out>::spec_count()
    }

    open spec fn spec_fits() -> bool {
        CartesianProduct::<In, Out>::spec_fits()
    }

    proof fn lemma_fits() {
        CartesianProduct::<In, Out>::lemma_fits();
    }

    open spec fn spec_index(self) -> nat {
        self.0.spec_index()
    }

    open spec fn spec_variant(i: nat) -> Self {
        SummingMatrixParams(CartesianProduct::<In, Out>::spec_variant(i))
    }

    proof fn lemma_variant_index(i: nat) {
        CartesianProduct::<In, Out>::lemma_variant_index(i);
    }

    open spec fn spec_name(self) -> Seq<char> {
        self.0.spec_name()
    }

    fn count() -> (n: usize) {
        CartesianProduct::<In, Out>::count()
    }

    fn from_usize(i: usize) -> (e: Self) {
        SummingMatrixParams(CartesianProduct::<In, Out>::from_usize(i))
    }

    fn to_usize(self) -> (i: usize) {
        self.0.to_usize()
    }

    fn name(&self) -> (s: String) {
        self.0.name()
    }
}

/// The parameters of a summing matrix are its input/output pairs, numbered
/// and named as the pairs are.
pub proof fn lemma_summing_matrix_params<In: Enum, Out: Enum>(p: CartesianProduct<In, Out>)
    ensures
        SummingMatrixParams::<In, Out>::spec_count() == In::spec_count() * Out::spec_count(),
        SummingMatrixParams(p).spec_index() == p.spec_index(),
        SummingMatrixParams(p).spec_name() == p.spec_name(),
{
}

/// A matrix summing its inputs into its outputs, weighted by one parameter
/// per input/output pair.
#[derive(Debug)]
pub struct SummingMatrix<T, In, Out> {
    __sample: PhantomData<(T, In, Out)>,
}

impl<T, In, Out> SummingMatrix<T, In, Out> {
    /// Creates a summing matrix.
    pub fn new() -> (m: Self) {
        SummingMatrix { __sample: PhantomData }
    }
}

} // verus!
