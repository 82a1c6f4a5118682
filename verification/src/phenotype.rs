//! The phenotype: a flattened neural network built from a genome's enabled
//! link genes, evaluated either as a settling snapshot or one streaming step
//! at a time.
use vstd::prelude::*;

verus! {

use crate::genes::NeuronType;
use crate::params::{SCALE, HALF, RESP_MIN, RESP_CAP, WEIGHT_CAP};

/// A connection between two neurons, holding positions into the network's own
/// neuron array rather than genome neuron ids.
#[derive(Clone, Copy, PartialEq, Eq, Structural, Debug)]
pub struct Link {
    pub _in: usize,
    pub out: usize,
    pub weight: i64,
    pub recurrent: bool,
}

impl Link {
    pub fn new(w: i64, in_idx: usize, out_idx: usize, rec: bool) -> (r: Link)
        ensures
            r == (Link { _in: in_idx, out: out_idx, weight: w, recurrent: rec }),
    {
        Link { _in: in_idx, out: out_idx, weight: w, recurrent: rec }
    }
}

/// A neuron of the evaluator: its role, identity, sigmoid curvature, layout
/// coordinates, and the links that enter and leave it.
pub struct Neuron {
    pub links_in: Vec<Link>,
    pub links_out: Vec<Link>,
    pub neuron_type: NeuronType,
    pub neuron_id: i64,
    pub activation_response: i64,
    pub split_y: i64,
    pub split_x: i64,
}

impl Neuron {
    pub fn new(tp: NeuronType, id: i64, y: i64, x: i64, act_response: i64) -> (r: Neuron)
        ensures
            r.links_in@.len() == 0,
            r.links_out@.len() == 0,
            r.neuron_type == tp,
            r.neuron_id == id,
            r.activation_response == act_response,
            r.split_y == y,
            r.split_x == x,
    {
        Neuron {
            links_in: Vec::new(),
            links_out: Vec::new(),
            neuron_type: tp,
            neuron_id: id,
            activation_response: act_response,
            split_y: y,
            split_x: x,
        }
    }
}

/// How the network is driven: `Snapshot` runs `depth` passes and then resets
/// every neuron output, `Active` runs exactly one pass and keeps the state.
#[derive(Clone, Copy, PartialEq, Eq, Structural, Debug)]
pub enum RunType {
    Snapshot,
    Active,
}

/// The fixed-point response curve: a rational sigmoid
/// `1/2 + u / (2 * (1 + |u|))` of the rescaled net input `u = sum / resp`,
/// rising from 0 to 1 with value 1/2 at 0.
pub open spec fn sig(sum: int, resp: int) -> int {
    if sum >= 0 {
        let u = sum / resp;
        HALF + (u * SCALE) / (2 * (SCALE + u))
    } else {
        let v = (-sum) / resp;
        HALF - (v * SCALE) / (2 * (SCALE + v))
    }
}

/// S-shaped response curve applied to the weighted input sum of a neuron.
/// `netinput` is scaled by `SCALE * SCALE` (a product of two fixed-point
/// values), `response` by `SCALE`.
pub fn sigmoid(netinput: i128, response: i64) -> (r: i64)
    requires
        RESP_MIN <= response <= RESP_CAP,
        -0x1000_0000_0000_0000_0000_0000_0000 <= netinput <= 0x1000_0000_0000_0000_0000_0000_0000,
    ensures
        r == sig(netinput as int, response as int),
        0 < r < SCALE,
{
    let s128: i128 = SCALE as i128;
    if netinput >= 0 {
        let u = netinput / (response as i128);
        proof {
            vstd::arithmetic::div_mod::lemma_div_pos_is_pos(netinput as int, response as int);
            vstd::arithmetic::div_mod::lemma_fundamental_div_mod(netinput as int, response as int);
            vstd::arithmetic::div_mod::lemma_mod_bound(netinput as int, response as int);
            assert(u <= 0x1000_0000_0000_0000_0000_0000) by (nonlinear_arith)
                requires
                    0 <= u,
                    (response as int) * (u as int) <= 0x1000_0000_0000_0000_0000_0000_0000,
                    response >= 65536,
            ;
            assert(u * s128 >= 0 && u * s128 < 0x4000_0000_0000_0000_0000_0000_0000_0000)
                by (nonlinear_arith)
                requires
                    0 <= u <= 0x1000_0000_0000_0000_0000_0000,
                    s128 == 1048576,
            ;
        }
        let t = (u * s128) / (2 * (s128 + u));
        proof {
            assert(0 <= t < HALF) by (nonlinear_arith)
                requires
                    u >= 0,
                    s128 == SCALE,
                    t == (u * s128) / (2 * (s128 + u)),
            ;
        }
        (HALF as i128 + t) as i64
    } else {
        let v = (-netinput) / (response as i128);
        proof {
            vstd::arithmetic::div_mod::lemma_div_pos_is_pos(-(netinput as int), response as int);
            vstd::arithmetic::div_mod::lemma_fundamental_div_mod(-(netinput as int), response as int);
            vstd::arithmetic::div_mod::lemma_mod_bound(-(netinput as int), response as int);
            assert(v <= 0x1000_0000_0000_0000_0000_0000) by (nonlinear_arith)
                requires
                    0 <= v,
                    (response as int) * (v as int) <= 0x1000_0000_0000_0000_0000_0000_0000,
                    response >= 65536,
            ;
            assert(v * s128 >= 0 && v * s128 < 0x4000_0000_0000_0000_0000_0000_0000_0000)
                by (nonlinear_arith)
                requires
                    0 <= v <= 0x1000_0000_0000_0000_0000_0000,
                    s128 == 1048576,
            ;
        }
        let t = ((v * s128)) / (2 * (s128 + v));
        proof {
            assert(0 <= t < HALF) by (nonlinear_arith)
                requires
                    v >= 0,
                    s128 == SCALE,
                    t == (v * s128) / (2 * (s128 + v)),
            ;
        }
        (HALF as i128 - t) as i64
    }
}

/// Validity of a link inside a network of `count` neurons.
pub open spec fn link_pos_ok(l: Link, count: int) -> bool {
    &&& l._in < count
    &&& l.out < count
    &&& -WEIGHT_CAP <= l.weight <= WEIGHT_CAP
}

/// Validity of one neuron inside a network of `count` neurons.
pub open spec fn net_neuron_ok(n: Neuron, count: int) -> bool {
    &&& forall|k: int| 0 <= k < n.links_in@.len() ==> link_pos_ok(#[trigger] n.links_in@[k], count)
    &&& forall|k: int| 0 <= k < n.links_out@.len() ==> link_pos_ok(#[trigger] n.links_out@[k], count)
    &&& RESP_MIN <= n.activation_response <= RESP_CAP
}

/// How many neurons stand at the head of the array with the `Input` role:
/// the evaluator assigns the host's inputs to exactly these positions.
pub open spec fn is_leading(ns: Seq<Neuron>, lead: int) -> bool {
    &&& 0 <= lead <= ns.len()
    &&& forall|i: int| 0 <= i < lead ==> (#[trigger] ns[i]).neuron_type == NeuronType::Input
    &&& lead < ns.len() ==> ns[lead].neuron_type != NeuronType::Input
}

/// The length of the maximal input-typed prefix.
pub open spec fn leading_inputs(ns: Seq<Neuron>) -> int
    decreases ns.len(),
{
    if ns.len() == 0 {
        0
    } else if ns[0].neuron_type != NeuronType::Input {
        0
    } else {
        1 + leading_inputs(ns.drop_first())
    }
}

/// `leading_inputs` is the unique value satisfying `is_leading`.
pub proof fn lemma_leading(ns: Seq<Neuron>)
    ensures
        is_leading(ns, leading_inputs(ns)),
        forall|l: int| is_leading(ns, l) ==> l == leading_inputs(ns),
    decreases ns.len(),
{
    if ns.len() > 0 && ns[0].neuron_type == NeuronType::Input {
        lemma_leading(ns.drop_first());
        let sub = ns.drop_first();
        assert forall|i: int| 0 <= i < leading_inputs(ns) implies (#[trigger] ns[i]).neuron_type
            == NeuronType::Input by {
            if i > 0 {
                assert(sub[i - 1] == ns[i]);
            }
        }
        if leading_inputs(ns) < ns.len() {
            assert(sub[leading_inputs(ns) - 1] == ns[leading_inputs(ns)]);
        }
    }
    assert forall|l: int| is_leading(ns, l) implies l == leading_inputs(ns) by {
        let m = leading_inputs(ns);
        if l < m {
            assert(ns[l].neuron_type == NeuronType::Input);
        } else if l > m {
            assert(ns[m].neuron_type == NeuronType::Input);
        }
    }
}

/// The weighted sum of the source outputs over a list of incoming links.
pub open spec fn weighted_sum(outs: Seq<i64>, links: Seq<Link>) -> int
    decreases links.len(),
{
    if links.len() == 0 {
        0
    } else {
        weighted_sum(outs, links.drop_last()) + links.last().weight
            * outs[links.last()._in as int]
    }
}

/// The output a single pass gives the neuron at `idx`, reading the current
/// outputs `outs`: host input for the leading input block, 1.0 for the bias
/// position just after it, a sigmoid of the weighted input sum elsewhere.
pub open spec fn step_out(ns: Seq<Neuron>, outs: Seq<i64>, inputs: Seq<i64>, lead: int, idx: int) -> int {
    if idx < lead {
        inputs[idx] as int
    } else if idx == lead {
        SCALE as int
    } else {
        sig(weighted_sum(outs, ns[idx].links_in@), ns[idx].activation_response as int)
    }
}

/// The outputs after one pass has processed the first `j` neurons in order,
/// each reading the outputs as they stand when its turn comes.
pub open spec fn pass_upto(ns: Seq<Neuron>, outs: Seq<i64>, inputs: Seq<i64>, lead: int, j: int) -> Seq<i64>
    decreases j,
{
    if j <= 0 {
        outs
    } else {
        let prev = pass_upto(ns, outs, inputs, lead, j - 1);
        prev.update(j - 1, step_out(ns, prev, inputs, lead, j - 1) as i64)
    }
}

/// The outputs after `k` full passes over the network.
pub open spec fn net_passes(ns: Seq<Neuron>, outs: Seq<i64>, inputs: Seq<i64>, lead: int, k: int) -> Seq<i64>
    decreases k,
{
    if k <= 0 {
        outs
    } else {
        pass_upto(ns, net_passes(ns, outs, inputs, lead, k - 1), inputs, lead, ns.len() as int)
    }
}

/// The outputs a pass collects from the first `j` positions: the values of
/// `Output`-typed neurons past the bias position, in array order.
pub open spec fn collect_upto(ns: Seq<Neuron>, outs: Seq<i64>, lead: int, j: int) -> Seq<i64>
    decreases j,
{
    if j <= 0 || j <= lead + 1 {
        Seq::empty()
    } else if ns[j - 1].neuron_type == NeuronType::Output {
        collect_upto(ns, outs, lead, j - 1).push(outs[j - 1])
    } else {
        collect_upto(ns, outs, lead, j - 1)
    }
}

/// What an evaluation returns: the collected outputs of the final pass.
pub open spec fn collected(ns: Seq<Neuron>, outs: Seq<i64>, lead: int) -> Seq<i64> {
    collect_upto(ns, outs, lead, ns.len() as int)
}

/// Collection reads only positions below `j`.
proof fn lemma_collect_prefix(ns: Seq<Neuron>, o1: Seq<i64>, o2: Seq<i64>, lead: int, j: int)
    requires
        forall|i: int| 0 <= i < j ==> o1[i] == o2[i],
    ensures
        collect_upto(ns, o1, lead, j) == collect_upto(ns, o2, lead, j),
    decreases j,
{
    if j > 0 && j > lead + 1 {
        lemma_collect_prefix(ns, o1, o2, lead, j - 1);
    }
}

/// A full network, evaluated by passes over its neuron array; `outputs[i]` is
/// the current output of neuron `i`.
pub struct NeuralNet {
    pub neurons: Vec<Neuron>,
    pub outputs: Vec<i64>,
    pub depth: i64,
}

impl NeuralNet {
    /// Structural validity: positions in range, weights, responses and
    /// neuron outputs bounded, one output slot per neuron.
    pub open spec fn net_ok(self) -> bool {
        &&& self.outputs@.len() == self.neurons@.len()
        &&& forall|i: int|
            0 <= i < self.neurons@.len() ==> net_neuron_ok(
                #[trigger] self.neurons@[i],
                self.neurons@.len() as int,
            )
        &&& forall|i: int| 0 <= i < self.outputs@.len() ==> -SCALE <= #[trigger] self.outputs@[i] <= SCALE
        &&& 0 <= self.depth <= 16
    }

    /// The network with no neurons at all.
    pub fn empty() -> (r: NeuralNet)
        ensures
            r.neurons@.len() == 0,
            r.outputs@.len() == 0,
            r.depth == 0,
            r.net_ok(),
    {
        NeuralNet { neurons: Vec::new(), outputs: Vec::new(), depth: 0 }
    }

    pub fn new(neurons: Vec<Neuron>, depth: i64) -> (r: NeuralNet)
        requires
            0 <= depth <= 16,
            forall|i: int|
                0 <= i < neurons@.len() ==> net_neuron_ok(#[trigger] neurons@[i], neurons@.len() as int),
        ensures
            r.neurons@ == neurons@,
            r.depth == depth,
            r.net_ok(),
            forall|i: int| 0 <= i < r.outputs@.len() ==> r.outputs@[i] == 0,
    {
        let n = neurons.len();
        let mut outputs: Vec<i64> = Vec::new();
        let mut i: usize = 0;
        while i < n
            invariant
                0 <= i <= n,
                outputs@.len() == i,
                forall|k: int| 0 <= k < i ==> outputs@[k] == 0,
            decreases n - i,
        {
            outputs.push(0);
            i = i + 1;
        }
        NeuralNet { neurons, outputs, depth }
    }

    /// Runs the network: `depth` passes for a snapshot, one pass when active.
    /// Returns the output neurons' values from the final pass, each strictly
    /// inside `(0, 1)`; a snapshot resets every neuron output to 0 afterwards,
    /// while an active step keeps them for the next call.
    ///
    /// Inputs are fixed-point values in `[-1, 1]`, the same range every
    /// neuron output lives in: an input is a neuron output the host writes
    /// directly, and the bound is what keeps every weighted sum below the
    /// overflow-free limit of the fixed-point model. Hosts normalize their
    /// sensor readings into this range (the arithmetic model has no wider
    /// representation to offer them).
    pub fn update(&mut self, inputs: &Vec<i64>, run_type: RunType) -> (out: Vec<i64>)
        requires
            old(self).net_ok(),
            leading_inputs(old(self).neurons@) < old(self).neurons@.len(),
            leading_inputs(old(self).neurons@) <= inputs@.len(),
            forall|i: int| 0 <= i < inputs@.len() ==> -SCALE <= #[trigger] inputs@[i] <= SCALE,
        ensures
            final(self).net_ok(),
            final(self).neurons@ == old(self).neurons@,
            final(self).depth == old(self).depth,
            final(self).outputs@.len() == old(self).outputs@.len(),
            ({
                let lead = leading_inputs(old(self).neurons@);
                let flushes: int = if run_type == RunType::Snapshot {
                    old(self).depth as int
                } else {
                    1
                };
                let end = net_passes(old(self).neurons@, old(self).outputs@, inputs@, lead, flushes);
                &&& (flushes <= 0 ==> out@ == Seq::<i64>::empty())
                &&& (flushes > 0 ==> out@ == collected(old(self).neurons@, end, lead))
                &&& (run_type == RunType::Snapshot ==> forall|i: int|
                    0 <= i < final(self).outputs@.len() ==> final(self).outputs@[i] == 0)
                &&& (run_type == RunType::Active ==> final(self).outputs@ == end)
            }),
            forall|i: int| 0 <= i < out@.len() ==> 0 < #[trigger] out@[i] < SCALE,
    {
        let ghost ns = self.neurons@;
        let ghost lead = leading_inputs(ns);
        proof {
            lemma_leading(ns);
        }
        let n = self.neurons.len();
        let flush_count: i64 = if run_type == RunType::Snapshot {
            self.depth
        } else {
            1
        };
        let mut outputs: Vec<i64> = Vec::new();
        let mut pass: i64 = 0;
        while pass < flush_count
            invariant
                self.neurons@ == ns,
                self.depth == old(self).depth,
                ns == old(self).neurons@,
                lead == leading_inputs(ns),
                is_leading(ns, lead),
                lead < n,
                lead <= inputs@.len(),
                n == ns.len(),
                flush_count == if run_type == RunType::Snapshot {
                    old(self).depth as int
                } else {
                    1int
                },
                0 <= flush_count <= 16,
                0 <= pass <= if flush_count > 0 {
                    flush_count as int
                } else {
                    0int
                },
                self.outputs@.len() == n,
                forall|i: int| 0 <= i < n ==> -SCALE <= #[trigger] self.outputs@[i] <= SCALE,
                forall|i: int|
                    0 <= i < inputs@.len() ==> -SCALE <= #[trigger] inputs@[i] <= SCALE,
                forall|i: int|
                    0 <= i < ns.len() ==> net_neuron_ok(#[trigger] ns[i], ns.len() as int),
                self.outputs@ == net_passes(ns, old(self).outputs@, inputs@, lead, pass as int),
                pass > 0 ==> outputs@ == collected(ns, self.outputs@, lead),
                pass == 0 ==> outputs@ == Seq::<i64>::empty(),
                forall|i: int| 0 <= i < outputs@.len() ==> 0 < #[trigger] outputs@[i] < SCALE,
            decreases flush_count - pass,
        {
            outputs = Vec::new();
            let ghost start = self.outputs@;
            let mut neuron: usize = 0;
            while self.neurons[neuron].neuron_type == NeuronType::Input
                invariant
                    self.neurons@ == ns,
                    self.depth == old(self).depth,
                    n == ns.len(),
                    is_leading(ns, lead),
                    lead < n,
                    lead <= inputs@.len(),
                    0 <= neuron <= lead,
                    self.outputs@.len() == n,
                    forall|i: int|
                        0 <= i < inputs@.len() ==> -SCALE <= #[trigger] inputs@[i] <= SCALE,
                    forall|i: int| 0 <= i < n ==> -SCALE <= #[trigger] self.outputs@[i] <= SCALE,
                    self.outputs@ == pass_upto(ns, start, inputs@, lead, neuron as int),
                decreases lead - neuron,
            {
                proof {
                    assert(neuron < lead);
                }
                self.outputs[neuron] = inputs[neuron];
                neuron = neuron + 1;
            }
            proof {
                assert(neuron == lead);
            }
            self.outputs[neuron] = SCALE;
            proof {
                assert(self.outputs@ == pass_upto(ns, start, inputs@, lead, neuron + 1));
            }
            neuron = neuron + 1;
            while neuron < n
                invariant
                    self.neurons@ == ns,
                    self.depth == old(self).depth,
                    n == ns.len(),
                    is_leading(ns, lead),
                    lead == leading_inputs(ns),
                    lead < n,
                    lead <= inputs@.len(),
                    lead + 1 <= neuron <= n,
                    self.outputs@.len() == n,
                    forall|i: int|
                        0 <= i < inputs@.len() ==> -SCALE <= #[trigger] inputs@[i] <= SCALE,
                    forall|i: int|
                        0 <= i < ns.len() ==> net_neuron_ok(#[trigger] ns[i], ns.len() as int),
                    forall|i: int| 0 <= i < n ==> -SCALE <= #[trigger] self.outputs@[i] <= SCALE,
                    self.outputs@ == pass_upto(ns, start, inputs@, lead, neuron as int),
                    outputs@ == collect_upto(ns, self.outputs@, lead, neuron as int),
                    forall|i: int| 0 <= i < outputs@.len() ==> 0 < #[trigger] outputs@[i] < SCALE,
                decreases n - neuron,
            {
                let ghost before = self.outputs@;
                let links_len = self.neurons[neuron].links_in.len();
                let mut sum: i128 = 0;
                let mut k: usize = 0;
                while k < links_len
                    invariant
                        self.neurons@ == ns,
                        self.depth == old(self).depth,
                        n == ns.len(),
                        0 <= (neuron as int) < n,
                        links_len == ns[neuron as int].links_in@.len(),
                        net_neuron_ok(ns[neuron as int], n as int),
                        self.outputs@ == before,
                        self.outputs@.len() == n,
                        forall|i: int| 0 <= i < n ==> -SCALE <= #[trigger] self.outputs@[i] <= SCALE,
                        0 <= k <= links_len,
                        sum == weighted_sum(before, ns[neuron as int].links_in@.subrange(0, k as int)),
                        -(k as int) * 0x1000_0000_0000 <= sum <= (k as int) * 0x1000_0000_0000,
                    decreases links_len - k,
                {
                    let l = self.neurons[neuron].links_in[k];
                    proof {
                        assert(link_pos_ok(ns[neuron as int].links_in@[k as int], n as int));
                    }
                    let src = self.outputs[l._in];
                    proof {
                        assert(-0x1000_0000_0000 <= (l.weight as int) * (src as int)
                            <= 0x1000_0000_0000) by (nonlinear_arith)
                            requires
                                -WEIGHT_CAP <= l.weight <= WEIGHT_CAP,
                                -SCALE <= src <= SCALE,
                                WEIGHT_CAP == 16777216,
                                SCALE == 1048576,
                        ;
                        assert((k as int) * 0x1000_0000_0000 + 0x1000_0000_0000 == ((k
                            + 1) as int) * 0x1000_0000_0000) by (nonlinear_arith);
                        assert(((k + 1) as int) * 0x1000_0000_0000 <= (links_len as int)
                            * 0x1000_0000_0000) by (nonlinear_arith)
                            requires
                                k + 1 <= links_len,
                        ;
                        assert((links_len as int) * 0x1000_0000_0000
                            < 0x1000_0000_0000_0000_0000_0000_0000) by (nonlinear_arith)
                            requires
                                links_len <= 0xffff_ffff_ffff_ffff,
                        ;
                    }
                    let term: i128 = (l.weight as i128) * (src as i128);
                    sum = sum + term;
                    proof {
                        let sub1 = ns[neuron as int].links_in@.subrange(0, (k + 1) as int);
                        assert(sub1.drop_last() =~= ns[neuron as int].links_in@.subrange(0, k as int));
                        assert(sub1.last() == ns[neuron as int].links_in@[k as int]);
                    }
                    k = k + 1;
                }
                proof {
                    assert(ns[neuron as int].links_in@.subrange(0, links_len as int) =~= ns[neuron
                        as int].links_in@);
                    assert((links_len as int) * 0x1000_0000_0000
                        <= 0x1000_0000_0000_0000_0000_0000_0000) by (nonlinear_arith)
                        requires
                            links_len <= 0xffff_ffff_ffff_ffff,
                    ;
                }
                let sigmoid_output = sigmoid(sum, self.neurons[neuron].activation_response);
                self.outputs[neuron] = sigmoid_output;
                proof {
                    assert(step_out(ns, before, inputs@, lead, neuron as int) == sig(
                        weighted_sum(before, ns[neuron as int].links_in@),
                        ns[neuron as int].activation_response as int,
                    ));
                    assert(self.outputs@ == pass_upto(ns, start, inputs@, lead, neuron + 1));
                    lemma_collect_prefix(ns, before, self.outputs@, lead, neuron as int);
                }
                if self.neurons[neuron].neuron_type == NeuronType::Output {
                    outputs.push(sigmoid_output);
                }
                proof {
                    assert(outputs@ == collect_upto(ns, self.outputs@, lead, neuron + 1));
                }
                neuron = neuron + 1;
            }
            pass = pass + 1;
        }
        if run_type == RunType::Snapshot {
            let mut i: usize = 0;
            while i < n
                invariant
                    self.neurons@ == ns,
                    self.depth == old(self).depth,
                    n == ns.len(),
                    self.outputs@.len() == n,
                    0 <= i <= n,
                    forall|k: int| 0 <= k < i ==> #[trigger] self.outputs@[k] == 0,
                    forall|k: int| 0 <= k < n ==> -SCALE <= #[trigger] self.outputs@[k] <= SCALE,
                decreases n - i,
            {
                self.outputs[i] = 0;
                i = i + 1;
            }
        }
        outputs
    }
}

/// A snapshot evaluation is a pure function of the network topology and the
/// inputs whenever it starts from all-zero outputs — and a snapshot always
/// leaves all-zero outputs behind, so repeated snapshot evaluations of one
/// network with the same inputs return the same values.
pub proof fn lemma_snapshot_idempotent(
    ns: Seq<Neuron>,
    o1: Seq<i64>,
    o2: Seq<i64>,
    inputs: Seq<i64>,
    lead: int,
    k: int,
)
    requires
        o1.len() == o2.len(),
        forall|i: int| 0 <= i < o1.len() ==> #[trigger] o1[i] == 0,
        forall|i: int| 0 <= i < o2.len() ==> #[trigger] o2[i] == 0,
    ensures
        collected(ns, net_passes(ns, o1, inputs, lead, k), lead) == collected(
            ns,
            net_passes(ns, o2, inputs, lead, k),
            lead,
        ),
{
    assert(o1 =~= o2);
}

} // verus!
