use vstd::prelude::*;

use crate::error::NetError;
use crate::layers::{
    copy_matrix, copy_vector, ints, ints_result, layer_from, matrix, ragged_from, within,
    Activation, LayerModel, ReLuLayer, INIT_RANGE,
};

verus! {

/// The mathematical content of a network: the size of its input placeholder and
/// its computing layers in order.
pub struct NetworkModel {
    pub input_size: nat,
    pub layers: Seq<LayerModel>,
}

/// The input size of layer `i` that the chain asks for: the placeholder's size
/// for the first layer, else the previous layer's output size.
pub open spec fn expected_input(input_size: nat, layers: Seq<LayerModel>, i: int) -> nat {
    if i == 0 {
        input_size
    } else {
        layers[i - 1].output_size
    }
}

/// The vector after the placeholder and the first `i` layers have run on `x`.
pub open spec fn run(layers: Seq<LayerModel>, i: int, x: Seq<int>) -> Seq<int>
    decreases i,
{
    if i <= 0 {
        x
    } else {
        layers[i - 1].forward(run(layers, i - 1, x))
    }
}

/// None of the first `n` layers overflows on what reaches it from `x`.
pub open spec fn run_fits(layers: Seq<LayerModel>, n: int, x: Seq<int>) -> bool {
    forall|j: int| 0 <= j < n ==> #[trigger] layers[j].fits(run(layers, j, x))
}

impl NetworkModel {
    /// Positive input size, well-formed layers, and each layer taking what the
    /// one before it gives.
    pub open spec fn wf(self) -> bool {
        &&& 0 < self.input_size <= usize::MAX
        &&& forall|i: int| 0 <= i < self.layers.len() ==> #[trigger] self.layers[i].wf()
        &&& forall|i: int|
            0 <= i < self.layers.len() ==> #[trigger] self.layers[i].input_size == expected_input(
                self.input_size,
                self.layers,
                i,
            )
    }

    /// The length of the vectors the network gives.
    pub open spec fn output_size(self) -> nat {
        if self.layers.len() == 0 {
            self.input_size
        } else {
            self.layers.last().output_size
        }
    }

    /// What predicting on `x` gives: the last layer's output, or why there is none.
    pub open spec fn eval(self, x: Seq<int>) -> Result<Seq<int>, NetError> {
        if x.len() != self.input_size {
            Err(NetError::DimensionMismatch { expected: self.input_size as usize, actual: x.len() as usize })
        } else if !run_fits(self.layers, self.layers.len() as int, x) {
            Err(NetError::Overflow)
        } else {
            Ok(run(self.layers, self.layers.len() as int, x))
        }
    }
}

/// The first adjacent pair at or after `i` whose sizes disagree, as
/// (output size of the earlier layer, input size of the later one).
pub open spec fn break_from(layers: Seq<LayerModel>, i: int) -> Option<(nat, nat)>
    decreases layers.len() - i,
{
    if i <= 0 || i >= layers.len() {
        None
    } else if layers[i].input_size != layers[i - 1].output_size {
        Some((layers[i - 1].output_size, layers[i].input_size))
    } else {
        break_from(layers, i + 1)
    }
}

/// The network that chains `layers`, or why they do not chain. The input
/// placeholder takes the first layer's input size.
pub open spec fn network_from_layers(layers: Seq<LayerModel>) -> Result<NetworkModel, NetError> {
    if layers.len() == 0 {
        Err(NetError::InvalidSpec)
    } else {
        match break_from(layers, 1) {
            Some(p) => Err(NetError::ShapeMismatch { expected: p.0 as usize, actual: p.1 as usize }),
            None => Ok(NetworkModel { input_size: layers[0].input_size, layers }),
        }
    }
}

/// The first `n` layers made from weights `w` and biases `b`, or the first reason
/// one of them cannot be made.
pub open spec fn layers_from(w: Seq<Seq<Seq<i64>>>, b: Seq<Seq<i64>>, n: int) -> Result<Seq<LayerModel>, NetError>
    decreases n,
{
    if n <= 0 {
        Ok(Seq::empty())
    } else {
        match layers_from(w, b, n - 1) {
            Err(e) => Err(e),
            Ok(ls) => match layer_from(w[n - 1], b[n - 1]) {
                Err(e) => Err(e),
                Ok(l) => Ok(ls.push(l)),
            },
        }
    }
}

/// Once building the layers has failed, building more of them fails the same way.
proof fn lemma_layers_from_err(w: Seq<Seq<Seq<i64>>>, b: Seq<Seq<i64>>, i: int, n: int)
    requires
        0 <= i <= n,
        layers_from(w, b, i) is Err,
    ensures
        layers_from(w, b, n) == layers_from(w, b, i),
    decreases n - i,
{
    if i < n {
        lemma_layers_from_err(w, b, i, n - 1);
    }
}

/// The network made from weights `w[i]` and biases `b[i]` for each layer `i`,
/// or why there is none.
pub open spec fn network_from_parameters(w: Seq<Seq<Seq<i64>>>, b: Seq<Seq<i64>>) -> Result<NetworkModel, NetError> {
    if w.len() == 0 {
        Err(NetError::InvalidSpec)
    } else if b.len() != w.len() {
        Err(NetError::ShapeMismatch { expected: w.len() as usize, actual: b.len() as usize })
    } else {
        match layers_from(w, b, w.len() as int) {
            Err(e) => Err(e),
            Ok(ls) => network_from_layers(ls),
        }
    }
}

/// The network's shape follows `dims`: `dims[0]` inputs, then one rectified-linear
/// layer from `dims[i]` to `dims[i + 1]` for each further entry.
pub open spec fn shaped_by(n: NetworkModel, dims: Seq<usize>) -> bool {
    &&& n.input_size == dims[0]
    &&& n.layers.len() + 1 == dims.len()
    &&& forall|i: int|
        0 <= i < n.layers.len() ==> {
            &&& (#[trigger] n.layers[i]).input_size == dims[i]
            &&& n.layers[i].output_size == dims[i + 1]
            &&& n.layers[i].activation == Activation::Relu
        }
}

/// What reaches layer `i` (or the output, for `i == layers.len()`) has the size
/// the chain gives it there.
pub proof fn lemma_run_length(n: NetworkModel, x: Seq<int>, i: int)
    requires
        n.wf(),
        x.len() == n.input_size,
        0 <= i <= n.layers.len(),
    ensures
        run(n.layers, i, x).len() == expected_input(n.input_size, n.layers, i),
    decreases i,
{
    if i > 0 {
        lemma_run_length(n, x, i - 1);
    }
}

/// On a network built from `dims` with at least two entries, an input of length
/// `dims[0]` is never refused for its length, the prediction has length
/// `dims[dims.len() - 1]`, and it succeeds whenever no step overflows.
pub proof fn lemma_prediction_length(n: NetworkModel, dims: Seq<usize>, x: Seq<int>)
    requires
        n.wf(),
        shaped_by(n, dims),
        dims.len() >= 2,
        x.len() == dims[0],
    ensures
        n.eval(x) is Ok || n.eval(x) == Err::<Seq<int>, NetError>(NetError::Overflow),
        n.eval(x) is Ok ==> n.eval(x)->Ok_0.len() == dims.last(),
        run_fits(n.layers, n.layers.len() as int, x) ==> n.eval(x) is Ok,
{
    lemma_run_length(n, x, n.layers.len() as int);
    assert(n.layers[n.layers.len() - 1].output_size == dims[n.layers.len() as int]);
}

/// In a one-layer rectified-linear network, an input whose affine values are
/// all negative predicts all zeros, and one whose affine values are all
/// positive predicts those values unchanged; the prediction succeeds whenever
/// the input has the right length and no step overflows.
pub proof fn lemma_relu_clamp(n: NetworkModel, x: Seq<int>)
    requires
        n.wf(),
        n.layers.len() == 1,
        n.layers[0].activation == Activation::Relu,
    ensures
        x.len() == n.input_size && run_fits(n.layers, 1, x) ==> n.eval(x) == Ok::<Seq<int>, NetError>(run(n.layers, 1, x)),
        (forall|j: int| 0 <= j < n.output_size() ==> #[trigger] n.layers[0].pre_activation(j, x) < 0)
            ==> run(n.layers, 1, x) == Seq::new(n.output_size(), |j: int| 0int),
        (forall|j: int| 0 <= j < n.output_size() ==> #[trigger] n.layers[0].pre_activation(j, x) > 0)
            ==> run(n.layers, 1, x) == Seq::new(n.output_size(), |j: int| n.layers[0].pre_activation(j, x)),
{
    let l = n.layers[0];
    assert(run(n.layers, 0, x) == x);
    if forall|j: int| 0 <= j < n.output_size() ==> #[trigger] l.pre_activation(j, x) < 0 {
        assert(run(n.layers, 1, x) =~= Seq::new(n.output_size(), |j: int| 0int));
    }
    if forall|j: int| 0 <= j < n.output_size() ==> #[trigger] l.pre_activation(j, x) > 0 {
        assert(run(n.layers, 1, x) =~= Seq::new(n.output_size(), |j: int| l.pre_activation(j, x)));
    }
}

/// Two predictions on the same network and input agree exactly.
pub proof fn lemma_prediction_deterministic(
    n: NetworkModel,
    input: Seq<i64>,
    r1: Result<Vec<i64>, NetError>,
    r2: Result<Vec<i64>, NetError>,
)
    requires
        ints_result(r1) == n.eval(ints(input)),
        ints_result(r2) == n.eval(ints(input)),
    ensures
        r1 is Ok <==> r2 is Ok,
        r1 is Ok ==> r1->Ok_0@ == r2->Ok_0@,
        r1 is Err ==> r1 == r2,
{
    if r1 is Ok {
        let a = r1->Ok_0@;
        let b = r2->Ok_0@;
        assert(ints(a) == ints(b));
        assert forall|k: int| 0 <= k < a.len() implies a[k] == b[k] by {
            assert(ints(a)[k] == ints(b)[k]);
        }
        assert(a =~= b);
    }
}

/// No row at or after `i` is ragged when every row has `cols` entries.
proof fn lemma_no_ragged(w: Seq<Seq<i64>>, cols: nat, i: int)
    requires
        0 <= i,
        forall|k: int| 0 <= k < w.len() ==> #[trigger] w[k].len() == cols,
    ensures
        ragged_from(w, cols, i) is None,
    decreases w.len() - i,
{
    if i < w.len() {
        lemma_no_ragged(w, cols, i + 1);
    }
}

/// Chaining the layers of a well-formed network with at least one layer gives
/// that network back.
pub proof fn lemma_chain_round_trip(n: NetworkModel)
    requires
        n.wf(),
        n.layers.len() > 0,
    ensures
        network_from_layers(n.layers) == Ok::<NetworkModel, NetError>(n),
{
    lemma_no_break(n, 1);
    assert(n.layers[0].input_size == expected_input(n.input_size, n.layers, 0));
}

/// No adjacent pair at or after `i` disagrees in a chained sequence of layers.
proof fn lemma_no_break(n: NetworkModel, i: int)
    requires
        n.wf(),
        1 <= i,
    ensures
        break_from(n.layers, i) is None,
    decreases n.layers.len() - i,
{
    if i < n.layers.len() {
        assert(n.layers[i].input_size == expected_input(n.input_size, n.layers, i));
        lemma_no_break(n, i + 1);
    }
}

/// A well-formed rectified-linear layer, rebuilt from the weights and biases
/// read out of it, is the same layer.
pub proof fn lemma_layer_round_trip(l: LayerModel)
    requires
        l.wf(),
        l.activation == Activation::Relu,
    ensures
        layer_from(l.weights, l.biases) == Ok::<LayerModel, NetError>(l),
{
    assert(l.weights[0].len() == l.input_size);
    lemma_no_ragged(l.weights, l.input_size, 0);
}

/// Rebuilding the first `k` layers from their own parameters gives them back.
proof fn lemma_layers_round_trip(n: NetworkModel, k: int)
    requires
        n.wf(),
        0 <= k <= n.layers.len(),
        forall|i: int| 0 <= i < n.layers.len() ==> (#[trigger] n.layers[i]).activation == Activation::Relu,
    ensures
        layers_from(
            n.layers.map_values(|l: LayerModel| l.weights),
            n.layers.map_values(|l: LayerModel| l.biases),
            k,
        ) == Ok::<Seq<LayerModel>, NetError>(n.layers.subrange(0, k)),
    decreases k,
{
    let w = n.layers.map_values(|l: LayerModel| l.weights);
    let b = n.layers.map_values(|l: LayerModel| l.biases);
    if k > 0 {
        lemma_layers_round_trip(n, k - 1);
        lemma_layer_round_trip(n.layers[k - 1]);
        assert(w[k - 1] == n.layers[k - 1].weights);
        assert(b[k - 1] == n.layers[k - 1].biases);
        assert(n.layers.subrange(0, k - 1).push(n.layers[k - 1]) =~= n.layers.subrange(0, k));
    } else {
        assert(n.layers.subrange(0, 0) =~= Seq::<LayerModel>::empty());
    }
}

/// A network of rectified-linear layers, rebuilt from the weights and biases
/// read out of it, is the same network: same input size, shapes and values.
pub proof fn lemma_round_trip(n: NetworkModel)
    requires
        n.wf(),
        n.layers.len() > 0,
        forall|i: int| 0 <= i < n.layers.len() ==> (#[trigger] n.layers[i]).activation == Activation::Relu,
    ensures
        network_from_parameters(
            n.layers.map_values(|l: LayerModel| l.weights),
            n.layers.map_values(|l: LayerModel| l.biases),
        ) == Ok::<NetworkModel, NetError>(n),
{
    lemma_layers_round_trip(n, n.layers.len() as int);
    assert(n.layers.subrange(0, n.layers.len() as int) =~= n.layers);
    lemma_chain_round_trip(n);
}

/// A sequence of weight matrices read as sequences.
pub open spec fn matrices(ws: Seq<Vec<Vec<i64>>>) -> Seq<Seq<Seq<i64>>> {
    ws.map_values(|m: Vec<Vec<i64>>| matrix(m@))
}

/// A sequence of bias vectors read as sequences.
pub open spec fn vectors(bs: Seq<Vec<i64>>) -> Seq<Seq<i64>> {
    bs.map_values(|v: Vec<i64>| v@)
}

/// The views of a sequence of layers.
pub open spec fn layer_views(ls: Seq<ReLuLayer>) -> Seq<LayerModel> {
    ls.map_values(|l: ReLuLayer| l@)
}

/// A network whose layers are each applied in order to an input vector.
#[derive(Clone, Debug)]
pub struct FeedForwardNetwork {
    input_size: usize,
    layers: Vec<ReLuLayer>,
}

impl View for FeedForwardNetwork {
    type V = NetworkModel;

    closed spec fn view(&self) -> NetworkModel {
        NetworkModel { input_size: self.input_size as nat, layers: layer_views(self.layers@) }
    }
}

/// A built network read through its view.
pub open spec fn network_result(r: Result<FeedForwardNetwork, NetError>) -> Result<NetworkModel, NetError> {
    match r {
        Ok(n) => Ok(n@),
        Err(e) => Err(e),
    }
}

impl PartialEq for FeedForwardNetwork {
    fn eq(&self, other: &FeedForwardNetwork) -> (r: bool) {
        if self.input_size != other.input_size || self.layers.len() != other.layers.len() {
            assert(self@.layers.len() == self.layers.len());
            return false;
        }
        let mut i: usize = 0;
        while i < self.layers.len()
            invariant
                self.layers.len() == other.layers.len(),
                i <= self.layers.len(),
                forall|k: int| 0 <= k < i ==> #[trigger] self.layers@[k]@ == other.layers@[k]@,
            decreases self.layers.len() - i,
        {
            if !(self.layers[i] == other.layers[i]) {
                assert(self@.layers[i as int] != other@.layers[i as int]);
                return false;
            }
            i = i + 1;
        }
        assert(self@.layers =~= other@.layers);
        true
    }
}

impl vstd::std_specs::cmp::PartialEqSpecImpl for FeedForwardNetwork {
    open spec fn obeys_eq_spec() -> bool {
        true
    }

    open spec fn eq_spec(&self, other: &FeedForwardNetwork) -> bool {
        self@ == other@
    }
}

impl FeedForwardNetwork {
    /// The network's invariant: its view is well formed.
    pub open spec fn wf(&self) -> bool {
        self@.wf()
    }

    /// The network that chains copies of `layers`, its input placeholder sized as
    /// the first layer's input. Fails where `layers` is empty or two neighbours
    /// disagree.
    pub fn new(layers: &[ReLuLayer]) -> (r: Result<Self, NetError>)
        requires
            forall|i: int| 0 <= i < layers@.len() ==> (#[trigger] layers@[i]).wf(),
        ensures
            network_result(r) == network_from_layers(layer_views(layers@)),
            r is Ok ==> r->Ok_0.wf(),
    {
        let mut owned: Vec<ReLuLayer> = Vec::new();
        let mut i: usize = 0;
        while i < layers.len()
            invariant
                i <= layers@.len(),
                owned.len() == i,
                forall|k: int| 0 <= k < i ==> (#[trigger] owned@[k])@ == layers@[k]@,
                forall|k: int| 0 <= k < layers@.len() ==> (#[trigger] layers@[k]).wf(),
            decreases layers@.len() - i,
        {
            owned.push(layers[i].copy());
            i = i + 1;
        }
        assert(layer_views(owned@) =~= layer_views(layers@));
        Self::chain(owned)
    }

    /// The network that chains `layers`, as `new` does, taking them over.
    #[verifier::rlimit(40)]
    fn chain(layers: Vec<ReLuLayer>) -> (r: Result<Self, NetError>)
        requires
            forall|i: int| 0 <= i < layers.len() ==> (#[trigger] layers@[i]).wf(),
        ensures
            network_result(r) == network_from_layers(layer_views(layers@)),
            r is Ok ==> r->Ok_0.wf(),
    {
        let ghost ls = layer_views(layers@);
        if layers.len() == 0 {
            return Err(NetError::InvalidSpec);
        }
        let mut i: usize = 1;
        while i < layers.len()
            invariant
                ls == layer_views(layers@),
                1 <= i <= layers.len(),
                break_from(ls, 1) == break_from(ls, i as int),
                forall|k: int| 1 <= k < i ==> (#[trigger] ls[k]).input_size == ls[k - 1].output_size,
            decreases layers.len() - i,
        {
            let expected = layers[i - 1].output_size();
            let actual = layers[i].input_size();
            if actual != expected {
                return Err(NetError::ShapeMismatch { expected, actual });
            }
            i = i + 1;
        }
        let input_size = layers[0].input_size();
        let r = FeedForwardNetwork { input_size, layers };
        assert(r@.layers == ls);
        assert forall|k: int| 0 <= k < ls.len() implies #[trigger] ls[k].wf() by {
            assert(ls[k] == layers@[k]@);
        }
        Ok(r)
    }

    /// The network made from weights `weights[i]` and biases `biases[i]` for each
    /// layer `i`; every layer is rectified linear. Fails where the lists are empty
    /// or differ in length, where a layer's parameters are empty or disagree in
    /// shape, or where neighbouring layers do not chain.
    pub fn build_from_parameters(weights: Vec<Vec<Vec<i64>>>, biases: Vec<Vec<i64>>) -> (r: Result<Self, NetError>)
        ensures
            network_result(r) == network_from_parameters(matrices(weights@), vectors(biases@)),
            r is Ok ==> r->Ok_0.wf(),
    {
        let ghost w = matrices(weights@);
        let ghost b = vectors(biases@);
        if weights.len() == 0 {
            return Err(NetError::InvalidSpec);
        }
        if biases.len() != weights.len() {
            return Err(NetError::ShapeMismatch { expected: weights.len(), actual: biases.len() });
        }
        let n = weights.len();
        let mut ws = weights;
        let mut bs = biases;
        let mut layers: Vec<ReLuLayer> = Vec::new();
        let mut i: usize = 0;
        assert(layer_views(layers@) =~= Seq::<LayerModel>::empty());
        while i < n
            invariant
                w == matrices(weights@),
                b == vectors(biases@),
                w.len() == n,
                b.len() == n,
                i <= n,
                ws.len() == n - i,
                bs.len() == n - i,
                forall|k: int| 0 <= k < n - i ==> #[trigger] matrix(ws@[k]@) == w[i + k],
                forall|k: int| 0 <= k < n - i ==> #[trigger] bs@[k]@ == b[i + k],
                layers_from(w, b, i as int) == Ok::<Seq<LayerModel>, NetError>(layer_views(layers@)),
                forall|k: int| 0 <= k < layers.len() ==> (#[trigger] layers@[k]).wf(),
            decreases n - i,
        {
            let ghost before = layers@;
            let wi = ws.remove(0);
            let bi = bs.remove(0);
            assert(matrix(wi@) == w[i as int]);
            assert(bi@ == b[i as int]);
            assert forall|k: int| 0 <= k < n - (i + 1) implies #[trigger] matrix(ws@[k]@) == w[i + 1 + k] by {
                assert(matrix(ws@[k]@) == w[i + (k + 1)]);
            }
            assert forall|k: int| 0 <= k < n - (i + 1) implies #[trigger] bs@[k]@ == b[i + 1 + k] by {
                assert(bs@[k]@ == b[i + (k + 1)]);
            }
            match ReLuLayer::from_weights_and_biases(wi, bi) {
                Ok(l) => {
                    layers.push(l);
                    assert(layer_views(layers@) =~= layer_views(before).push(l@));
                },
                Err(e) => {
                    proof {
                        assert(layer_from(w[i as int], b[i as int]) == Err::<LayerModel, NetError>(e));
                        assert(layers_from(w, b, i + 1) == Err::<Seq<LayerModel>, NetError>(e));
                        lemma_layers_from_err(w, b, i + 1, n as int);
                    }
                    return Err(e);
                },
            }
            i = i + 1;
        }
        Self::chain(layers)
    }

    /// A network of rectified-linear layers shaped by `dims`, with parameters drawn
    /// uniformly from `[-INIT_RANGE, INIT_RANGE]`: `dims[0]` is the input size, and
    /// each further entry adds a layer with that output size. Fails where `dims`
    /// is empty or holds a zero.
    pub fn build_from_dims(dims: &Vec<usize>) -> (r: Result<Self, NetError>)
        requires
            forall|i: int| 0 <= i < dims.len() - 1 ==> #[trigger] dims@[i] * dims@[i + 1] <= isize::MAX,
        ensures
            r is Ok <==> dims.len() > 0 && forall|i: int| 0 <= i < dims.len() ==> #[trigger] dims@[i] > 0,
            r is Err ==> r == Err::<Self, NetError>(NetError::InvalidSpec),
            r is Ok ==> {
                &&& r->Ok_0.wf()
                &&& shaped_by(r->Ok_0@, dims@)
                &&& forall|i: int| 0 <= i < dims.len() - 1 ==> within(#[trigger] r->Ok_0@.layers[i], INIT_RANGE as int)
            },
    {
        if dims.len() == 0 {
            return Err(NetError::InvalidSpec);
        }
        let mut k: usize = 0;
        while k < dims.len()
            invariant
                k <= dims.len(),
                forall|i: int| 0 <= i < k ==> #[trigger] dims@[i] > 0,
            decreases dims.len() - k,
        {
            if dims[k] == 0 {
                return Err(NetError::InvalidSpec);
            }
            k = k + 1;
        }
        let mut layers: Vec<ReLuLayer> = Vec::new();
        let mut i: usize = 1;
        while i < dims.len()
            invariant
                1 <= i <= dims.len(),
                forall|j: int| 0 <= j < dims.len() ==> #[trigger] dims@[j] > 0,
                forall|j: int| 0 <= j < dims.len() - 1 ==> #[trigger] dims@[j] * dims@[j + 1] <= isize::MAX,
                layers.len() == i - 1,
                forall|j: int| 0 <= j < i - 1 ==> {
                    &&& (#[trigger] layers@[j]).wf()
                    &&& layers@[j]@.input_size == dims@[j]
                    &&& layers@[j]@.output_size == dims@[j + 1]
                    &&& layers@[j]@.activation == Activation::Relu
                    &&& within(layers@[j]@, INIT_RANGE as int)
                },
            decreases dims.len() - i,
        {
            assert(dims@[i - 1] * dims@[i - 1 + 1] <= isize::MAX);
            layers.push(ReLuLayer::new(dims[i], dims[i - 1]));
            i = i + 1;
        }
        let r = FeedForwardNetwork { input_size: dims[0], layers };
        assert forall|j: int| 0 <= j < r@.layers.len() implies #[trigger] r@.layers[j] == layers@[j]@ by {}
        Ok(r)
    }

    /// The size of the input placeholder.
    pub fn input_size(&self) -> (r: usize)
        ensures
            r == self@.input_size,
    {
        self.input_size
    }

    /// The length of the vectors the network gives.
    pub fn output_size(&self) -> (r: usize)
        ensures
            r == self@.output_size(),
    {
        if self.layers.len() == 0 {
            self.input_size
        } else {
            self.layers[self.layers.len() - 1].output_size()
        }
    }

    /// The computing layers in order, for reading.
    pub fn layers(&self) -> (r: &Vec<ReLuLayer>)
        ensures
            layer_views(r@) == self@.layers,
    {
        &self.layers
    }

    /// Copies of each layer's weight matrix, in network order.
    pub fn get_weights(&self) -> (r: Vec<Vec<Vec<i64>>>)
        ensures
            matrices(r@) == self@.layers.map_values(|l: LayerModel| l.weights),
    {
        let mut r: Vec<Vec<Vec<i64>>> = Vec::new();
        let mut i: usize = 0;
        while i < self.layers.len()
            invariant
                i <= self.layers.len(),
                r.len() == i,
                forall|k: int| 0 <= k < i ==> #[trigger] matrix(r@[k]@) == self@.layers[k].weights,
            decreases self.layers.len() - i,
        {
            assert(self@.layers[i as int] == self.layers@[i as int]@);
            r.push(copy_matrix(self.layers[i].get_weights()));
            i = i + 1;
        }
        assert(matrices(r@) =~= self@.layers.map_values(|l: LayerModel| l.weights));
        r
    }

    /// Copies of each layer's bias vector, in network order.
    pub fn get_biases(&self) -> (r: Vec<Vec<i64>>)
        ensures
            vectors(r@) == self@.layers.map_values(|l: LayerModel| l.biases),
    {
        let mut r: Vec<Vec<i64>> = Vec::new();
        let mut i: usize = 0;
        while i < self.layers.len()
            invariant
                i <= self.layers.len(),
                r.len() == i,
                forall|k: int| 0 <= k < i ==> #[trigger] r@[k]@ == self@.layers[k].biases,
            decreases self.layers.len() - i,
        {
            assert(self@.layers[i as int] == self.layers@[i as int]@);
            r.push(copy_vector(self.layers[i].get_biases()));
            i = i + 1;
        }
        assert(vectors(r@) =~= self@.layers.map_values(|l: LayerModel| l.biases));
        r
    }

    /// The output on `input` of each layer in turn, fed the previous one's output.
    /// Fails where `input` does not have the network's input size, or where a
    /// step overflows `i64`.
    pub fn predict(&self, input: &Vec<i64>) -> (r: Result<Vec<i64>, NetError>)
        requires
            self.wf(),
        ensures
            ints_result(r) == self@.eval(ints(input@)),
    {
        let ghost x = ints(input@);
        let ghost ls = self@.layers;
        if input.len() != self.input_size {
            return Err(NetError::DimensionMismatch { expected: self.input_size, actual: input.len() });
        }
        let mut cur: Vec<i64> = input.clone();
        assert(cur@ =~= input@);
        let mut i: usize = 0;
        while i < self.layers.len()
            invariant
                self.wf(),
                ls == self@.layers,
                x == ints(input@),
                x.len() == self.input_size,
                i <= self.layers.len(),
                cur.len() == expected_input(self@.input_size, ls, i as int),
                ints(cur@) == run(ls, i as int, x),
                run_fits(ls, i as int, x),
            decreases self.layers.len() - i,
        {
            assert(ls[i as int] == self.layers@[i as int]@);
            assert(ls[i as int].wf());
            assert(ls[i as int].input_size == expected_input(self@.input_size, ls, i as int));
            match self.layers[i].forward(&cur) {
                Ok(v) => {
                    assert(ints(v@).len() == ls[i as int].output_size);
                    assert(run_fits(ls, i + 1, x)) by {
                        assert forall|j: int| 0 <= j < i + 1 implies #[trigger] ls[j].fits(run(ls, j, x)) by {
                            if j < i {
                                assert(run_fits(ls, i as int, x));
                            }
                        }
                    }
                    cur = v;
                },
                Err(e) => {
                    assert(!ls[i as int].fits(run(ls, i as int, x)));
                    return Err(e);
                },
            }
            i = i + 1;
        }
        Ok(cur)
    }
}

} // verus!
