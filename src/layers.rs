use vstd::prelude::*;

use crate::error::NetError;
use ndarray_rand::rand_distr::Uniform;
use ndarray_rand::RandomExt;

verus! {

/// The element-wise function a layer applies after its affine map.
#[derive(Clone, Copy, Debug, PartialEq, Eq, Structural)]
pub enum Activation {
    /// Rectified linear: `max(0, v)`.
    Relu,
    /// Pass the affine result through unchanged.
    Identity,
}

/// Whether `v` can be held by an `i64`.
pub open spec fn in_i64(v: int) -> bool {
    i64::MIN <= v <= i64::MAX
}

/// The activation `a` applied to one value.
pub open spec fn activate(a: Activation, v: int) -> int {
    match a {
        Activation::Relu => if v > 0 { v } else { 0 },
        Activation::Identity => v,
    }
}

/// A vector of machine integers read as mathematical integers.
pub open spec fn ints(v: Seq<i64>) -> Seq<int> {
    v.map_values(|e: i64| e as int)
}

/// The sum of the first `m` products `w[k] * x[k]`.
pub open spec fn dot(w: Seq<i64>, x: Seq<int>, m: nat) -> int
    decreases m,
{
    if m == 0 {
        0
    } else {
        dot(w, x, (m - 1) as nat) + w[m - 1] * x[m - 1]
    }
}

/// The running value of one neuron after the bias and the first `m` products.
pub open spec fn partial(w: Seq<i64>, b: int, x: Seq<int>, m: nat) -> int {
    b + dot(w, x, m)
}

/// The `k`-th product of a weight row with an input.
pub open spec fn product(w: Seq<i64>, x: Seq<int>, k: int) -> int {
    w[k] * x[k]
}

/// Every product and every running sum of one neuron stays within `i64`.
pub open spec fn row_fits(w: Seq<i64>, b: int, x: Seq<int>) -> bool {
    &&& forall|m: nat| m <= x.len() ==> in_i64(#[trigger] partial(w, b, x, m))
    &&& forall|k: int| 0 <= k < x.len() ==> in_i64(#[trigger] product(w, x, k))
}

/// A successful result read over mathematical integers.
pub open spec fn ints_result(r: Result<Vec<i64>, NetError>) -> Result<Seq<int>, NetError> {
    match r {
        Ok(v) => Ok(ints(v@)),
        Err(e) => Err(e),
    }
}

/// The mathematical content of a layer.
pub struct LayerModel {
    pub input_size: nat,
    pub output_size: nat,
    /// One row per output, one column per input.
    pub weights: Seq<Seq<i64>>,
    pub biases: Seq<i64>,
    pub activation: Activation,
}

impl LayerModel {
    /// Positive sizes, and parameters shaped `output_size x input_size`.
    pub open spec fn wf(self) -> bool {
        &&& self.input_size > 0
        &&& self.output_size > 0
        &&& self.input_size <= usize::MAX
        &&& self.output_size <= usize::MAX
        &&& self.weights.len() == self.output_size
        &&& self.biases.len() == self.output_size
        &&& forall|j: int| 0 <= j < self.output_size ==> #[trigger] self.weights[j].len() == self.input_size
    }

    /// The affine value of output `j` on input `x`, before activation.
    pub open spec fn pre_activation(self, j: int, x: Seq<int>) -> int {
        partial(self.weights[j], self.biases[j] as int, x, self.input_size)
    }

    /// The layer's output on `x`: `activation(weights . x + biases)`.
    pub open spec fn forward(self, x: Seq<int>) -> Seq<int> {
        Seq::new(self.output_size, |j: int| activate(self.activation, self.pre_activation(j, x)))
    }

    /// Evaluating the layer on `x` stays within `i64` at every step.
    pub open spec fn fits(self, x: Seq<int>) -> bool {
        forall|j: int| 0 <= j < self.output_size ==> #[trigger] row_fits(self.weights[j], self.biases[j] as int, x)
    }

    /// What evaluating the layer on `x` gives: the output, or why there is none.
    pub open spec fn eval(self, x: Seq<int>) -> Result<Seq<int>, NetError> {
        if x.len() != self.input_size {
            Err(NetError::DimensionMismatch { expected: self.input_size as usize, actual: x.len() as usize })
        } else if !self.fits(x) {
            Err(NetError::Overflow)
        } else {
            Ok(self.forward(x))
        }
    }
}

impl Activation {
    /// Applies the activation to one value.
    pub fn apply(&self, v: i64) -> (r: i64)
        ensures
            r == activate(*self, v as int),
    {
        match self {
            Activation::Relu => if v > 0 { v } else { 0 },
            Activation::Identity => v,
        }
    }
}

/// Rows of a matrix read as sequences.
pub open spec fn matrix(m: Seq<Vec<i64>>) -> Seq<Seq<i64>> {
    m.map_values(|r: Vec<i64>| r@)
}

/// The length of the first row at or after `i` that does not have `cols` entries.
pub open spec fn ragged_from(w: Seq<Seq<i64>>, cols: nat, i: int) -> Option<nat>
    decreases w.len() - i,
{
    if i < 0 || i >= w.len() {
        None
    } else if w[i].len() != cols {
        Some(w[i].len())
    } else {
        ragged_from(w, cols, i + 1)
    }
}

/// The layer that weights `w` and biases `b` make, or why they make none.
/// The input size is read from the first row; the activation is rectified linear.
pub open spec fn layer_from(w: Seq<Seq<i64>>, b: Seq<i64>) -> Result<LayerModel, NetError> {
    if w.len() == 0 || w[0].len() == 0 {
        Err(NetError::InvalidSpec)
    } else if b.len() != w.len() {
        Err(NetError::ShapeMismatch { expected: w.len() as usize, actual: b.len() as usize })
    } else {
        match ragged_from(w, w[0].len(), 0) {
            Some(len) => Err(NetError::ShapeMismatch { expected: w[0].len() as usize, actual: len as usize }),
            None => Ok(LayerModel {
                input_size: w[0].len(),
                output_size: w.len(),
                weights: w,
                biases: b,
                activation: Activation::Relu,
            }),
        }
    }
}

/// Every weight and bias of `l` lies in `[-range, range]`.
pub open spec fn within(l: LayerModel, range: int) -> bool {
    &&& forall|j: int, k: int| 0 <= j < l.output_size && 0 <= k < l.input_size ==> -range <= #[trigger] l.weights[j][k] <= range
    &&& forall|j: int| 0 <= j < l.output_size ==> -range <= #[trigger] l.biases[j] <= range
}

/// The half-width of the interval that fresh parameters are drawn from.
pub const INIT_RANGE: i64 = 1;

/// A layer: an affine map from `input_size` to `output_size` values, then an activation.
/// Built by the constructors below, it is rectified linear unless another
/// activation is chosen.
#[derive(Clone, Debug)]
pub struct ReLuLayer {
    output_size: usize,
    input_size: usize,
    weights: Vec<Vec<i64>>,
    biases: Vec<i64>,
    activation: Activation,
}

impl View for ReLuLayer {
    type V = LayerModel;

    closed spec fn view(&self) -> LayerModel {
        LayerModel {
            input_size: self.input_size as nat,
            output_size: self.output_size as nat,
            weights: matrix(self.weights@),
            biases: self.biases@,
            activation: self.activation,
        }
    }
}

/// A built layer read through its view.
pub open spec fn layer_result(r: Result<ReLuLayer, NetError>) -> Result<LayerModel, NetError> {
    match r {
        Ok(l) => Ok(l@),
        Err(e) => Err(e),
    }
}

/// Relies on ndarray_rand's `RandomExt::random` with rand's `Uniform::new_inclusive`:
/// a `rows x cols` array whose every element is drawn from `[low, high]`.
/// `new_inclusive` panics where `low > high`; `random` panics where an axis
/// length or the product of the non-zero axis lengths exceeds `isize::MAX`.
/// All three are excluded by `requires`.
#[verifier::external_body]
fn random_matrix(rows: usize, cols: usize, low: i64, high: i64) -> (r: Vec<Vec<i64>>)
    requires
        low <= high,
        rows <= isize::MAX,
        cols <= isize::MAX,
        rows * cols <= isize::MAX,
    ensures
        r@.len() == rows,
        forall|j: int| 0 <= j < rows ==> #[trigger] r@[j]@.len() == cols,
        forall|j: int, k: int| 0 <= j < rows && 0 <= k < cols ==> low <= #[trigger] r@[j]@[k] <= high,
{
    let a = ndarray::Array2::<i64>::random((rows, cols), Uniform::new_inclusive(low, high));
    a.outer_iter().map(|row| row.to_vec()).collect()
}

impl ReLuLayer {
    /// The layer's invariant: its view is well formed.
    pub open spec fn wf(&self) -> bool {
        self@.wf()
    }

    /// A rectified-linear layer with parameters drawn uniformly from `[-INIT_RANGE, INIT_RANGE]`.
    pub fn new(output_size: usize, input_size: usize) -> (r: Self)
        requires
            output_size > 0,
            input_size > 0,
            output_size * input_size <= isize::MAX,
        ensures
            r.wf(),
            r@.input_size == input_size,
            r@.output_size == output_size,
            r@.activation == Activation::Relu,
            within(r@, INIT_RANGE as int),
    {
        Self::with_range(output_size, input_size, INIT_RANGE)
    }

    /// A rectified-linear layer with parameters drawn uniformly from `[-range, range]`.
    pub fn with_range(output_size: usize, input_size: usize, range: i64) -> (r: Self)
        requires
            output_size > 0,
            input_size > 0,
            range >= 0,
            output_size * input_size <= isize::MAX,
        ensures
            r.wf(),
            r@.input_size == input_size,
            r@.output_size == output_size,
            r@.activation == Activation::Relu,
            within(r@, range as int),
    {
        assert(output_size <= output_size * input_size && input_size <= output_size * input_size)
            by (nonlinear_arith)
            requires
                input_size > 0,
                output_size > 0,
        ;
        let weights = random_matrix(output_size, input_size, -range, range);
        let mut rows = random_matrix(1, output_size, -range, range);
        let biases = rows.remove(0);
        let r = ReLuLayer { output_size, input_size, weights, biases, activation: Activation::Relu };
        assert(forall|j: int| 0 <= j < output_size ==> #[trigger] r@.weights[j] == weights@[j]@);
        r
    }

    /// A rectified-linear layer with the given parameters; its sizes are read from `weights`.
    pub fn from_weights_and_biases(weights: Vec<Vec<i64>>, biases: Vec<i64>) -> (r: Result<Self, NetError>)
        ensures
            layer_result(r) == layer_from(matrix(weights@), biases@),
            r is Ok ==> r->Ok_0.wf(),
    {
        let ghost w = matrix(weights@);
        if weights.len() == 0 || weights[0].len() == 0 {
            return Err(NetError::InvalidSpec);
        }
        if biases.len() != weights.len() {
            return Err(NetError::ShapeMismatch { expected: weights.len(), actual: biases.len() });
        }
        let cols = weights[0].len();
        let mut i: usize = 0;
        while i < weights.len()
            invariant
                w == matrix(weights@),
                cols == w[0].len(),
                cols > 0,
                biases.len() == weights.len(),
                i <= weights.len(),
                ragged_from(w, cols as nat, 0) == ragged_from(w, cols as nat, i as int),
                forall|k: int| 0 <= k < i ==> #[trigger] w[k].len() == cols,
            decreases weights.len() - i,
        {
            assert(w[i as int] == weights@[i as int]@);
            if weights[i].len() != cols {
                assert(w.len() == weights.len());
                assert(ragged_from(w, cols as nat, i as int) == Some(w[i as int].len()));
                return Err(NetError::ShapeMismatch { expected: cols, actual: weights[i].len() });
            }
            i = i + 1;
        }
        let output_size = weights.len();
        Ok(ReLuLayer { output_size, input_size: cols, weights, biases, activation: Activation::Relu })
    }

    /// A copy of the layer.
    pub fn copy(&self) -> (r: Self)
        ensures
            r@ == self@,
    {
        let weights = copy_matrix(&self.weights);
        let biases = copy_vector(&self.biases);
        ReLuLayer {
            output_size: self.output_size,
            input_size: self.input_size,
            weights,
            biases,
            activation: self.activation,
        }
    }

    /// The length of the vectors the layer takes.
    pub fn input_size(&self) -> (r: usize)
        ensures
            r == self@.input_size,
    {
        self.input_size
    }

    /// The length of the vectors the layer gives.
    pub fn output_size(&self) -> (r: usize)
        ensures
            r == self@.output_size,
    {
        self.output_size
    }

    /// The weight matrix, one row per output.
    pub fn get_weights(&self) -> (r: &Vec<Vec<i64>>)
        ensures
            matrix(r@) == self@.weights,
    {
        &self.weights
    }

    /// The bias vector, one entry per output.
    pub fn get_biases(&self) -> (r: &Vec<i64>)
        ensures
            r@ == self@.biases,
    {
        &self.biases
    }

    /// The activation applied after the affine map.
    pub fn activation(&self) -> (r: Activation)
        ensures
            r == self@.activation,
    {
        self.activation
    }

    /// The same layer with another activation.
    pub fn with_activation(self, activation: Activation) -> (r: Self)
        ensures
            r@ == (LayerModel { activation, ..self@ }),
    {
        ReLuLayer { activation, ..self }
    }

    /// The layer's output on `input`: `activation(weights . input + biases)`.
    /// Fails where `input` has the wrong length or a step overflows `i64`.
    pub fn forward(&self, input: &Vec<i64>) -> (r: Result<Vec<i64>, NetError>)
        requires
            self.wf(),
        ensures
            ints_result(r) == self@.eval(ints(input@)),
    {
        let ghost x = ints(input@);
        if input.len() != self.input_size {
            return Err(NetError::DimensionMismatch { expected: self.input_size, actual: input.len() });
        }
        let mut out: Vec<i64> = Vec::new();
        let mut j: usize = 0;
        while j < self.output_size
            invariant
                self.wf(),
                x == ints(input@),
                input.len() == self.input_size,
                j <= self.output_size,
                out.len() == j,
                forall|i: int| 0 <= i < j ==> #[trigger] row_fits(self@.weights[i], self@.biases[i] as int, x),
                forall|i: int| 0 <= i < j ==> #[trigger] out@[i] == activate(self.activation, self@.pre_activation(i, x)),
            decreases self.output_size - j,
        {
            assert(self@.weights[j as int] == self.weights@[j as int]@);
            assert(self.weights@[j as int]@.len() == self.input_size);
            match neuron(&self.weights[j], self.biases[j], input) {
                Some(v) => {
                    out.push(self.activation.apply(v));
                },
                None => {
                    return Err(NetError::Overflow);
                },
            }
            j = j + 1;
        }
        assert(ints(out@) =~= self@.forward(x));
        Ok(out)
    }
}

/// A copy of a vector.
pub(crate) fn copy_vector(v: &Vec<i64>) -> (r: Vec<i64>)
    ensures
        r@ == v@,
{
    let r = v.clone();
    assert(r@ =~= v@);
    r
}

/// A copy of a matrix, row by row.
pub(crate) fn copy_matrix(m: &Vec<Vec<i64>>) -> (r: Vec<Vec<i64>>)
    ensures
        matrix(r@) == matrix(m@),
{
    let mut r: Vec<Vec<i64>> = Vec::new();
    let mut i: usize = 0;
    while i < m.len()
        invariant
            i <= m.len(),
            r.len() == i,
            forall|k: int| 0 <= k < i ==> #[trigger] r@[k]@ == m@[k]@,
        decreases m.len() - i,
    {
        r.push(copy_vector(&m[i]));
        i = i + 1;
    }
    assert(matrix(r@) =~= matrix(m@));
    r
}

/// Whether two vectors hold the same entries.
pub(crate) fn vectors_equal(a: &Vec<i64>, b: &Vec<i64>) -> (r: bool)
    ensures
        r == (a@ == b@),
{
    if a.len() != b.len() {
        return false;
    }
    let mut i: usize = 0;
    while i < a.len()
        invariant
            a.len() == b.len(),
            i <= a.len(),
            forall|k: int| 0 <= k < i ==> a@[k] == b@[k],
        decreases a.len() - i,
    {
        if a[i] != b[i] {
            return false;
        }
        i = i + 1;
    }
    assert(a@ =~= b@);
    true
}

/// Whether two matrices hold the same rows.
pub(crate) fn matrices_equal(a: &Vec<Vec<i64>>, b: &Vec<Vec<i64>>) -> (r: bool)
    ensures
        r == (matrix(a@) == matrix(b@)),
{
    if a.len() != b.len() {
        assert(matrix(a@).len() != matrix(b@).len());
        return false;
    }
    let mut i: usize = 0;
    while i < a.len()
        invariant
            a.len() == b.len(),
            i <= a.len(),
            forall|k: int| 0 <= k < i ==> #[trigger] a@[k]@ == b@[k]@,
        decreases a.len() - i,
    {
        if !vectors_equal(&a[i], &b[i]) {
            assert(matrix(a@)[i as int] != matrix(b@)[i as int]);
            return false;
        }
        i = i + 1;
    }
    assert(matrix(a@) =~= matrix(b@));
    true
}

impl PartialEq for ReLuLayer {
    fn eq(&self, other: &ReLuLayer) -> (r: bool) {
        self.input_size == other.input_size && self.output_size == other.output_size
            && self.activation == other.activation && matrices_equal(&self.weights, &other.weights)
            && vectors_equal(&self.biases, &other.biases)
    }
}

impl vstd::std_specs::cmp::PartialEqSpecImpl for ReLuLayer {
    open spec fn obeys_eq_spec() -> bool {
        true
    }

    open spec fn eq_spec(&self, other: &ReLuLayer) -> bool {
        self@ == other@
    }
}

/// The value of one neuron, `bias + row . input`, or `None` where a step overflows.
fn neuron(row: &Vec<i64>, bias: i64, input: &Vec<i64>) -> (r: Option<i64>)
    requires
        row.len() == input.len(),
    ensures
        r is Some <==> row_fits(row@, bias as int, ints(input@)),
        r is Some ==> r->0 == partial(row@, bias as int, ints(input@), input.len() as nat),
{
    let ghost x = ints(input@);
    let mut acc: i64 = bias;
    let mut k: usize = 0;
    while k < input.len()
        invariant
            row.len() == input.len(),
            x == ints(input@),
            k <= input.len(),
            acc == partial(row@, bias as int, x, k as nat),
            forall|m: nat| m <= k ==> in_i64(#[trigger] partial(row@, bias as int, x, m)),
            forall|i: int| 0 <= i < k ==> in_i64(#[trigger] product(row@, x, i)),
        decreases input.len() - k,
    {
        assert(x[k as int] == input@[k as int] as int);
        assert(partial(row@, bias as int, x, (k + 1) as nat) == acc + product(row@, x, k as int));
        let p = match row[k].checked_mul(input[k]) {
            Some(p) => p,
            None => {
                return None;
            },
        };
        acc = match acc.checked_add(p) {
            Some(a) => a,
            None => {
                return None;
            },
        };
        k = k + 1;
    }
    Some(acc)
}

} // verus!
