//! The mixture-of-experts shape of a model, as far as the tensor directory reveals it.

use vstd::prelude::*;
use crate::model::experts::{self, expert_slice, stacked_layer, stacked_tensor_name};
use crate::model::gguf::{self, Gguf, GgufView, TensorView};
use crate::ratio::Ratio;

verus! {

/// A model's MoE shape, as far as the tensor directory reveals it.
#[derive(Debug, Clone, Copy, PartialEq, Eq, Structural)]
pub struct MoeShape {
    /// Number of transformer blocks carrying stacked expert tensors.
    pub moe_layers: u32,
    /// Routed experts per MoE layer.
    pub experts_per_layer: u64,
    /// Experts activated per token per layer (top-k).
    pub experts_per_token: u64,
    /// Bytes for one expert's three projections.
    pub bytes_per_expert: u64,
}

impl MoeShape {
    /// Bytes of routed-expert weights that `experts` experts of every layer take.
    pub open spec fn bytes_of(self, experts: int) -> int {
        self.bytes_per_expert * experts * self.moe_layers
    }

    /// Counting the expert bytes of a token and of the whole model stays within 64 bits.
    pub open spec fn fits(self) -> bool {
        &&& self.bytes_per_expert * self.experts_per_token <= u64::MAX
        &&& self.bytes_of(self.experts_per_token as int) <= u64::MAX
        &&& self.bytes_per_expert * self.experts_per_layer <= u64::MAX
        &&& self.bytes_of(self.experts_per_layer as int) <= u64::MAX
    }

    /// Bytes of routed-expert weights read per token, assuming every access misses.
    pub fn expert_bytes_per_token(&self) -> (r: u64)
        requires
            self.bytes_per_expert * self.experts_per_token <= u64::MAX,
            self.bytes_of(self.experts_per_token as int) <= u64::MAX,
        ensures
            r == self.bytes_of(self.experts_per_token as int),
    {
        self.bytes_per_expert * self.experts_per_token * self.moe_layers as u64
    }

    /// Total bytes of routed-expert weights in the whole model.
    pub fn total_expert_bytes(&self) -> (r: u64)
        requires
            self.bytes_per_expert * self.experts_per_layer <= u64::MAX,
            self.bytes_of(self.experts_per_layer as int) <= u64::MAX,
        ensures
            r == self.bytes_of(self.experts_per_layer as int),
    {
        self.bytes_per_expert * self.experts_per_layer * self.moe_layers as u64
    }

    /// Fraction of expert weights touched by a single token.
    ///
    /// This is the sparsity that makes the whole approach work: on a 128-expert top-8
    /// model it is 6.25%, so RAM demand tracks *activated* parameters rather than total.
    /// Nothing, for a model without experts.
    pub fn activation_ratio(&self) -> (r: Ratio)
        ensures
            self.experts_per_layer > 0 ==> r.numer == self.experts_per_token && r.denom
                == self.experts_per_layer,
            self.experts_per_layer == 0 ==> r.numer == 0 && r.denom == 1,
    {
        if self.experts_per_layer == 0 {
            return Ratio { numer: 0, denom: 1 };
        }
        Ratio { numer: self.experts_per_token as u128, denom: self.experts_per_layer as u128 }
    }

    /// Whether counting the expert bytes of a token and of the whole model stays within
    /// 64 bits.
    pub fn is_countable(&self) -> (r: bool)
        ensures
            r == self.fits(),
    {
        let layers = self.moe_layers as u64;
        let token = match self.bytes_per_expert.checked_mul(self.experts_per_token) {
            Some(n) => n.checked_mul(layers),
            None => None,
        };
        let all = match self.bytes_per_expert.checked_mul(self.experts_per_layer) {
            Some(n) => n.checked_mul(layers),
            None => None,
        };
        token.is_some() && all.is_some()
    }
}

/// A token reads the activation ratio of all expert bytes: what it reads is to all of them
/// as the experts it activates are to the experts there are.
pub proof fn lemma_a_token_reads_the_activation_ratio(shape: MoeShape)
    ensures
        shape.bytes_of(shape.experts_per_token as int) * shape.experts_per_layer
            == shape.bytes_of(shape.experts_per_layer as int) * shape.experts_per_token,
{
    let b = shape.bytes_per_expert as int;
    let k = shape.experts_per_token as int;
    let n = shape.experts_per_layer as int;
    let l = shape.moe_layers as int;
    assert(b * k * l * n == b * n * l * k) by (nonlinear_arith);
}

/// A tensor that is a stack: its third dimension counts the experts.
pub open spec fn is_stack(t: TensorView) -> bool {
    t.dims.len() == 3
}

/// The stacked expert tensor of a layer for one projection.
pub open spec fn stack_at(g: GgufView, layer: u32, projection: Seq<char>) -> Option<TensorView> {
    match g.find(experts::stacked_name(layer, projection)) {
        Some(t) => if is_stack(t) {
            Some(t)
        } else {
            None
        },
        None => None,
    }
}

/// The first stacked expert tensor of a layer among its three projections.
pub open spec fn stack_in(g: GgufView, layer: u32) -> Option<TensorView> {
    match stack_at(g, layer, "gate"@) {
        Some(t) => Some(t),
        None => match stack_at(g, layer, "up"@) {
            Some(t) => Some(t),
            None => stack_at(g, layer, "down"@),
        },
    }
}

/// The layer carries stacked expert tensors.
pub open spec fn carries(g: GgufView, layer: u32) -> bool {
    stack_in(g, layer) is Some
}

/// The layers that carry stacked expert tensors, wherever they stand.
pub open spec fn moe_layers(g: GgufView) -> Set<int> {
    Set::new(|layer: int| 0 <= layer < u32::MAX && carries(g, layer as u32))
}

/// The layer carries stacked expert tensors with at least one expert in them.
pub open spec fn has_experts(g: GgufView, layer: u32) -> bool {
    stack_in(g, layer) matches Some(t) && t.dims[2] != 0
}

/// The layer has experts, and none before it does.
pub open spec fn is_first_layer(g: GgufView, layer: u32) -> bool {
    &&& layer < u32::MAX
    &&& has_experts(g, layer)
    &&& forall|l: u32| l < layer ==> !#[trigger] has_experts(g, l)
}

/// The first layer that has experts, by which they are measured; none for a dense model.
pub open spec fn first_layer(g: GgufView) -> Option<u32> {
    if exists|layer: u32| is_first_layer(g, layer) {
        Some(choose|layer: u32| is_first_layer(g, layer))
    } else {
        None
    }
}

/// Bytes of the first expert for one projection; nothing where it has no byte range.
pub open spec fn projection_bytes(g: GgufView, layer: u32, projection: Seq<char>) -> int {
    match experts::slice_of(g, experts::stacked_name(layer, projection), 0) {
        Ok((_, len)) => len,
        Err(_) => 0,
    }
}

/// Bytes of the first expert of a layer: the three projections are added up rather than one of
/// them tripled, because they may differ in type.
pub open spec fn expert_bytes(g: GgufView, layer: u32) -> int {
    projection_bytes(g, layer, "gate"@) + projection_bytes(g, layer, "up"@) + projection_bytes(
        g,
        layer,
        "down"@,
    )
}

/// The MoE shape of a model; none for a dense model.
pub open spec fn moe_shape(g: GgufView) -> Option<MoeShape> {
    match first_layer(g) {
        Some(layer) => if expert_bytes(g, layer) == 0 {
            None
        } else {
            Some(
                MoeShape {
                    moe_layers: moe_layers(g).len() as u32,
                    experts_per_layer: stack_in(g, layer)->0.dims[2],
                    experts_per_token: match g.arch_uint("expert_used_count"@) {
                        Some(n) => n,
                        None => 8,
                    },
                    bytes_per_expert: expert_bytes(g, layer) as u64,
                },
            )
        },
        None => None,
    }
}

/// Measuring the first expert of a layer stays within 64 bits.
pub open spec fn layer_fits(g: GgufView, layer: u32) -> bool {
    &&& experts::slice_fits(g, experts::stacked_name(layer, "gate"@), 0)
    &&& experts::slice_fits(g, experts::stacked_name(layer, "up"@), 0)
    &&& experts::slice_fits(g, experts::stacked_name(layer, "down"@), 0)
    &&& expert_bytes(g, layer) <= u64::MAX
}

/// Measuring the first layer that has experts stays within 64 bits.
pub open spec fn shape_fits(g: GgufView) -> bool {
    first_layer(g) matches Some(layer) ==> layer_fits(g, layer)
}

/// Bytes of the first expert of a layer for one projection.
fn measure_projection(g: &Gguf, layer: u32, projection: &str) -> (r: u64)
    requires
        experts::slice_fits(g@, experts::stacked_name(layer, projection@), 0),
    ensures
        r == projection_bytes(g@, layer, projection@),
{
    match expert_slice(g, stacked_tensor_name(layer, projection).as_str(), 0) {
        Ok(s) => s.len,
        Err(_) => 0,
    }
}

/// How many experts the stacked tensor of a layer for one projection holds.
fn count_experts(g: &Gguf, layer: u32, projection: &str) -> (r: Option<u64>)
    ensures
        match r {
            Some(n) => stack_at(g@, layer, projection@) matches Some(t) && t.dims[2] == n,
            None => stack_at(g@, layer, projection@) is None,
        },
{
    match g.tensor(stacked_tensor_name(layer, projection).as_str()) {
        Some(t) => if t.dims.len() == 3 {
            Some(t.dims[2])
        } else {
            None
        },
        None => None,
    }
}

/// How many experts a layer holds, if it carries stacked expert tensors.
fn layer_experts(g: &Gguf, layer: u32) -> (r: Option<u64>)
    ensures
        match r {
            Some(n) => stack_in(g@, layer) matches Some(t) && t.dims[2] == n,
            None => !carries(g@, layer),
        },
{
    match count_experts(g, layer, "gate") {
        Some(n) => Some(n),
        None => match count_experts(g, layer, "up") {
            Some(n) => Some(n),
            None => count_experts(g, layer, "down"),
        },
    }
}

/// Whether a layer is among the given ones.
fn among(layers: &Vec<u32>, layer: u32) -> (r: bool)
    ensures
        r == layers@.contains(layer),
{
    let mut i: usize = 0;
    while i < layers.len()
        invariant
            i <= layers@.len(),
            forall|k: int| 0 <= k < i ==> #[trigger] layers@[k] != layer,
        decreases layers@.len() - i,
    {
        if layers[i] == layer {
            return true;
        }
        i += 1;
    }
    false
}

/// A layer that carries stacked expert tensors is named by one of the tensors.
pub proof fn lemma_carried_by_a_tensor(g: GgufView, layer: u32)
    requires
        carries(g, layer),
    ensures
        exists|i: int|
            0 <= i < g.tensors.len() && experts::is_stacked_name(
                (#[trigger] g.tensors[i]).name,
                layer,
            ),
{
    let t = stack_in(g, layer)->0;
    gguf::lemma_found_has_name(g.tensors, experts::stacked_name(layer, "gate"@));
    gguf::lemma_found_has_name(g.tensors, experts::stacked_name(layer, "up"@));
    gguf::lemma_found_has_name(g.tensors, experts::stacked_name(layer, "down"@));
    let i = choose|i: int| 0 <= i < g.tensors.len() && g.tensors[i] == t;
    assert(experts::is_stacked_name(g.tensors[i].name, layer));
}

/// The layers that carry stacked expert tensors, each once.
fn find_layers(g: &Gguf) -> (r: Vec<u32>)
    ensures
        r@.no_duplicates(),
        forall|layer: u32|
            #[trigger] r@.contains(layer) <==> layer < u32::MAX && carries(g@, layer),
{
    let ghost all = g@.tensors;
    let mut layers: Vec<u32> = Vec::new();
    let mut i: usize = 0;
    while i < g.tensors.len()
        invariant
            all == g@.tensors,
            all.len() == g.tensors@.len(),
            i <= g.tensors@.len(),
            layers@.no_duplicates(),
            forall|k: int|
                0 <= k < layers@.len() ==> #[trigger] layers@[k] < u32::MAX && carries(
                    g@,
                    layers@[k],
                ),
            forall|k: int, layer: u32|
                0 <= k < i && layer < u32::MAX && carries(g@, layer)
                    && #[trigger] experts::is_stacked_name(all[k].name, layer)
                    ==> layers@.contains(layer),
        decreases g.tensors@.len() - i,
    {
        let ghost before = layers@;
        let named = stacked_layer(g.tensors[i].name.as_str());
        assert(all[i as int] == g.tensors@[i as int]@);
        if let Some(layer) = named {
            if layer < u32::MAX && !among(&layers, layer) && layer_experts(g, layer).is_some() {
                layers.push(layer);
                assert(layers@[layers@.len() - 1] == layer);
            }
        }
        proof {
            assert forall|k: int, layer: u32|
                0 <= k < i + 1 && layer < u32::MAX && carries(g@, layer)
                    && #[trigger] experts::is_stacked_name(
                    all[k].name,
                    layer,
                ) implies layers@.contains(layer) by {
                if k == i {
                    experts::lemma_stacked_names_tell_layers(all[k].name, layer, named->0);
                }
                if before.contains(layer) {
                    let at = choose|at: int| 0 <= at < before.len() && before[at] == layer;
                    assert(layers@[at] == layer);
                }
            }
        }
        i += 1;
    }
    proof {
        assert forall|layer: u32| #[trigger]
            layers@.contains(layer) <==> layer < u32::MAX && carries(g@, layer) by {
            if layer < u32::MAX && carries(g@, layer) {
                lemma_carried_by_a_tensor(g@, layer);
            }
        }
    }
    layers
}

/// The number of layers found is the number of layers there are.
proof fn lemma_layers_counted(g: GgufView, layers: Seq<u32>)
    requires
        layers.no_duplicates(),
        forall|layer: u32|
            #[trigger] layers.contains(layer) <==> layer < u32::MAX && carries(g, layer),
    ensures
        moe_layers(g).len() == layers.len(),
        layers.len() <= u32::MAX,
{
    let numbers = layers.map_values(|l: u32| l as int);
    numbers.unique_seq_to_set();
    assert(numbers.to_set() =~= moe_layers(g)) by {
        assert forall|l: int| numbers.to_set().contains(l) <==> moe_layers(g).contains(l) by {
            if moe_layers(g).contains(l) {
                assert(layers.contains(l as u32));
                let k = choose|k: int| 0 <= k < layers.len() && layers[k] == l as u32;
                assert(numbers[k] == l);
            }
            if numbers.contains(l) {
                let k = choose|k: int| 0 <= k < numbers.len() && numbers[k] == l;
                assert(layers.contains(layers[k]));
            }
        }
    }
    let range = vstd::set_lib::set_int_range(0, u32::MAX as int);
    vstd::set_lib::lemma_int_range(0, u32::MAX as int);
    vstd::set_lib::lemma_len_subset(moe_layers(g), range);
}

/// The first layer that has experts, and how many; `layers` are those that carry stacked expert
/// tensors.
fn find_first(g: &Gguf, layers: &Vec<u32>) -> (r: Option<(u32, u64)>)
    requires
        forall|layer: u32|
            #[trigger] layers@.contains(layer) <==> layer < u32::MAX && carries(g@, layer),
    ensures
        match r {
            Some((layer, n)) => {
                &&& is_first_layer(g@, layer)
                &&& stack_in(g@, layer)->0.dims[2] == n
            },
            None => forall|layer: u32| layer < u32::MAX ==> !#[trigger] has_experts(g@, layer),
        },
{
    let mut best: Option<(u32, u64)> = None;
    let mut i: usize = 0;
    while i < layers.len()
        invariant
            i <= layers@.len(),
            forall|layer: u32|
                #[trigger] layers@.contains(layer) <==> layer < u32::MAX && carries(g@, layer),
            match best {
                Some((layer, n)) => {
                    &&& layer < u32::MAX
                    &&& has_experts(g@, layer)
                    &&& stack_in(g@, layer)->0.dims[2] == n
                    &&& forall|k: int|
                        0 <= k < i && has_experts(g@, #[trigger] layers@[k]) ==> layer
                            <= layers@[k]
                },
                None => forall|k: int| 0 <= k < i ==> !has_experts(g@, #[trigger] layers@[k]),
            },
        decreases layers@.len() - i,
    {
        let layer = layers[i];
        assert(layers@.contains(layer));
        let earlier = match best {
            Some((b, _)) => layer < b,
            None => true,
        };
        if earlier {
            if let Some(n) = layer_experts(g, layer) {
                if n != 0 {
                    best = Some((layer, n));
                }
            }
        }
        i += 1;
    }
    proof {
        assert forall|layer: u32| layer < u32::MAX && #[trigger] has_experts(
            g@,
            layer,
        ) implies best matches Some((b, _)) && b <= layer by {
            assert(layers@.contains(layer));
            let k = choose|k: int| 0 <= k < layers@.len() && layers@[k] == layer;
            assert(has_experts(g@, layers@[k]));
        }
    }
    best
}

/// Infer a model's MoE shape from its tensor directory.
///
/// Returns `None` for dense models, which have no stacked expert tensors. The blocks that carry
/// them may stand anywhere: many mixtures start with dense blocks.
///
/// `experts_per_token` comes from metadata (`{arch}.expert_used_count`) because it is a
/// routing decision, not a property of the stored weights — nothing in the tensor shapes
/// reveals it. Absent that key we assume 8, the near-universal default, and callers that
/// care should check metadata themselves.
pub fn infer_moe_shape(g: &Gguf) -> (r: Option<MoeShape>)
    requires
        shape_fits(g@),
    ensures
        r == moe_shape(g@),
{
    let layers = find_layers(g);
    proof {
        lemma_layers_counted(g@, layers@);
    }
    let (layer, experts_per_layer) = match find_first(g, &layers) {
        Some(found) => found,
        None => return None,
    };
    proof {
        lemma_first_layer(g@, layer);
    }
    // Sum the three projections rather than tripling gate: down is stored
    // transposed and a model could in principle size it differently.
    let gate = measure_projection(g, layer, "gate");
    let up = measure_projection(g, layer, "up");
    let down = measure_projection(g, layer, "down");
    let bytes_per_expert = gate + up + down;
    if bytes_per_expert == 0 {
        return None;
    }
    let experts_per_token = match g.arch_u64("expert_used_count") {
        Some(n) => n,
        None => 8,
    };
    Some(
        MoeShape {
            moe_layers: layers.len() as u32,
            experts_per_layer,
            experts_per_token,
            bytes_per_expert,
        },
    )
}

/// There is one first layer at most.
proof fn lemma_first_layer(g: GgufView, layer: u32)
    requires
        is_first_layer(g, layer),
    ensures
        first_layer(g) == Some(layer),
{
    let other = choose|l: u32| is_first_layer(g, l);
    assert(is_first_layer(g, other));
    if other < layer {
        assert(!has_experts(g, other));
    }
    if layer < other {
        assert(!has_experts(g, layer));
    }
}

/// Dense layers hide no experts: wherever a layer carries stacked expert tensors, it is counted,
/// and wherever one has experts, they are measured by the first that does.
pub proof fn lemma_dense_blocks_hide_no_experts(g: GgufView, layer: u32)
    requires
        layer < u32::MAX,
        carries(g, layer),
    ensures
        moe_layers(g).contains(layer as int),
        has_experts(g, layer) ==> (first_layer(g) matches Some(first) && first <= layer
            && is_first_layer(g, first)),
    decreases layer,
{
    if has_experts(g, layer) {
        if forall|l: u32| l < layer ==> !#[trigger] has_experts(g, l) {
            assert(is_first_layer(g, layer));
            lemma_first_layer(g, layer);
        } else {
            let l = choose|l: u32| l < layer && #[trigger] has_experts(g, l);
            lemma_dense_blocks_hide_no_experts(g, l);
        }
    }
}

/// The three stacked tensors of a layer have different names.
proof fn lemma_names_differ(layer: u32)
    ensures
        experts::stacked_name(layer, "gate"@) != experts::stacked_name(layer, "up"@),
        experts::stacked_name(layer, "gate"@) != experts::stacked_name(layer, "down"@),
        experts::stacked_name(layer, "up"@) != experts::stacked_name(layer, "down"@),
{
    reveal_strlit("gate");
    reveal_strlit("up");
    reveal_strlit("down");
    let head = "blk."@ + crate::text::decimal(layer as nat) + ".ffn_"@;
    let gate = experts::stacked_name(layer, "gate"@);
    let up = experts::stacked_name(layer, "up"@);
    let down = experts::stacked_name(layer, "down"@);
    assert(gate[head.len() as int] == 'g');
    assert(up[head.len() as int] == 'u');
    assert(down[head.len() as int] == 'd');
}

/// What the first expert takes of a stacked tensor is no more than the tensor takes.
proof fn lemma_projection_part_of_tensor(g: GgufView, layer: u32, projection: Seq<char>)
    requires
        g.sized(),
    ensures
        0 <= projection_bytes(g, layer, projection),
        match g.find(experts::stacked_name(layer, projection)) {
            Some(t) => projection_bytes(g, layer, projection) <= t.known_size(),
            None => projection_bytes(g, layer, projection) == 0,
        },
{
    let name = experts::stacked_name(layer, projection);
    if let Some(t) = g.find(name) {
        if t.dims.len() == 3 {
            experts::lemma_expert_size(t);
        }
        gguf::lemma_size_not_negative(t);
        if experts::slice_of(g, name, 0) is Ok {
            let size = experts::expert_size(t)->0;
            let k = t.dims[2] as int;
            assert(size <= k * size) by (nonlinear_arith)
                requires
                    k >= 1,
                    size >= 0,
            ;
        }
    }
}

/// Measuring any layer of a model whose sizes stay within 64 bits stays within 64 bits.
proof fn lemma_sized_layer_fits(g: GgufView, layer: u32)
    requires
        g.sized(),
    ensures
        layer_fits(g, layer),
{
    let gate = experts::stacked_name(layer, "gate"@);
    let up = experts::stacked_name(layer, "up"@);
    let down = experts::stacked_name(layer, "down"@);
    lemma_names_differ(layer);
    experts::lemma_sized_slices_fit(g, gate, 0);
    experts::lemma_sized_slices_fit(g, up, 0);
    experts::lemma_sized_slices_fit(g, down, 0);
    lemma_projection_part_of_tensor(g, layer, "gate"@);
    lemma_projection_part_of_tensor(g, layer, "up"@);
    lemma_projection_part_of_tensor(g, layer, "down"@);
    gguf::lemma_found_has_name(g.tensors, gate);
    gguf::lemma_found_has_name(g.tensors, up);
    gguf::lemma_found_has_name(g.tensors, down);
    let i = choose|i: int|
        0 <= i < g.tensors.len() && g.find(gate) == Some(#[trigger] g.tensors[i]);
    let j = choose|j: int|
        0 <= j < g.tensors.len() && g.find(up) == Some(#[trigger] g.tensors[j]);
    let k = choose|k: int|
        0 <= k < g.tensors.len() && g.find(down) == Some(#[trigger] g.tensors[k]);
    if g.find(gate) is Some {
        gguf::lemma_one_of_total(g.tensors, i);
        if g.find(up) is Some {
            gguf::lemma_two_of_total(g.tensors, i, j);
            if g.find(down) is Some {
                gguf::lemma_three_of_total(g.tensors, i, j, k);
            }
        } else if g.find(down) is Some {
            gguf::lemma_two_of_total(g.tensors, i, k);
        }
    } else if g.find(up) is Some {
        gguf::lemma_one_of_total(g.tensors, j);
        if g.find(down) is Some {
            gguf::lemma_two_of_total(g.tensors, j, k);
        }
    } else if g.find(down) is Some {
        gguf::lemma_one_of_total(g.tensors, k);
    }
}

/// The MoE shape of a model can be inferred whenever its sizes stay within 64 bits.
pub proof fn lemma_sized_shape_fits(g: GgufView)
    requires
        g.sized(),
    ensures
        shape_fits(g),
{
    if let Some(layer) = first_layer(g) {
        lemma_sized_layer_fits(g, layer);
    }
}

/// The MoE shape is read off the tensors and the metadata alone: where the data starts does not
/// matter.
pub proof fn lemma_moe_shape_of_tensors(g: GgufView, h: GgufView)
    requires
        g.tensors == h.tensors,
        g.metadata == h.metadata,
    ensures
        moe_shape(g) == moe_shape(h),
{
    assert(moe_layers(g) =~= moe_layers(h));
    if let Some(layer) = first_layer(g) {
        lemma_first_layer_of_tensors(g, h, layer);
        lemma_first_layer(h, layer);
        assert(expert_bytes(g, layer) == expert_bytes(h, layer));
    } else if let Some(layer) = first_layer(h) {
        lemma_first_layer_of_tensors(h, g, layer);
    }
}

proof fn lemma_first_layer_of_tensors(g: GgufView, h: GgufView, layer: u32)
    requires
        g.tensors == h.tensors,
        is_first_layer(g, layer),
    ensures
        is_first_layer(h, layer),
{
    assert forall|l: u32| l < layer implies !#[trigger] has_experts(h, l) by {
        assert(!has_experts(g, l));
    }
}

/// What the shape of a mixture says: the experts of a layer are the third dimension of the first
/// stack of the first layer that has any; a token activates as many as the metadata states, or
/// eight; an expert takes what its three slices take together, where it has all three; and every
/// layer with a stack counts.
pub proof fn lemma_the_first_layer_measures_the_experts(g: GgufView, layer: u32)
    requires
        is_first_layer(g, layer),
        expert_bytes(g, layer) <= u64::MAX,
        moe_layers(g).len() <= u32::MAX,
    ensures
        moe_shape(g) is None <==> expert_bytes(g, layer) == 0,
        moe_shape(g) matches Some(shape) ==> {
            let gate = g.find(experts::stacked_name(layer, "gate"@));
            let up = g.find(experts::stacked_name(layer, "up"@));
            let down = g.find(experts::stacked_name(layer, "down"@));
            &&& gate matches Some(t) ==> t.dims.len() == 3 ==> shape.experts_per_layer == t.dims[2]
            &&& !(gate matches Some(t) && t.dims.len() == 3) ==> (up matches Some(t)
                ==> t.dims.len() == 3 ==> shape.experts_per_layer == t.dims[2])
            &&& !(gate matches Some(t) && t.dims.len() == 3) && !(up matches Some(t)
                && t.dims.len() == 3) ==> (down matches Some(t) && t.dims.len() == 3
                && shape.experts_per_layer == t.dims[2])
            &&& shape.experts_per_layer > 0
            &&& g.arch_uint("expert_used_count"@) matches Some(n) ==> shape.experts_per_token == n
            &&& g.arch_uint("expert_used_count"@) is None ==> shape.experts_per_token == 8
            &&& shape.moe_layers == moe_layers(g).len()
            &&& experts::ranges_of(g, layer, 0) matches Ok((a, b, c)) ==> shape.bytes_per_expert
                == a.1 + b.1 + c.1
        },
{
    lemma_first_layer(g, layer);
    lemma_projections_not_negative(g, layer);
}

proof fn lemma_projections_not_negative(g: GgufView, layer: u32)
    ensures
        0 <= projection_bytes(g, layer, "gate"@),
        0 <= projection_bytes(g, layer, "up"@),
        0 <= projection_bytes(g, layer, "down"@),
{
    lemma_projection_not_negative(g, layer, "gate"@);
    lemma_projection_not_negative(g, layer, "up"@);
    lemma_projection_not_negative(g, layer, "down"@);
}

proof fn lemma_projection_not_negative(g: GgufView, layer: u32, projection: Seq<char>)
    ensures
        0 <= projection_bytes(g, layer, projection),
{
    let name = experts::stacked_name(layer, projection);
    if experts::slice_of(g, name, 0) is Ok {
        experts::lemma_expert_size(g.find(name)->0);
    }
}

/// A layer counts as one with experts by a tensor of rank three under one of its three names,
/// and the count takes in nothing else.
pub proof fn lemma_layers_are_counted_by_their_stacks(g: GgufView, layer: u32)
    requires
        layer < u32::MAX,
    ensures
        moe_layers(g).contains(layer as int) <==> ((g.find(
            experts::stacked_name(layer, "gate"@),
        ) matches Some(t) && t.dims.len() == 3) || (g.find(
            experts::stacked_name(layer, "up"@),
        ) matches Some(t) && t.dims.len() == 3) || (g.find(
            experts::stacked_name(layer, "down"@),
        ) matches Some(t) && t.dims.len() == 3)),
{
}

/// A model without a stack under any layer's names has no shape of a mixture.
pub proof fn lemma_dense_models_have_no_experts(g: GgufView)
    requires
        forall|layer: u32|
            #![trigger experts::stacked_name(layer, "gate"@)]
            {
                &&& g.find(experts::stacked_name(layer, "gate"@)) is None
                &&& g.find(experts::stacked_name(layer, "up"@)) is None
                &&& g.find(experts::stacked_name(layer, "down"@)) is None
            },
    ensures
        moe_shape(g) is None,
{
    if first_layer(g) is Some {
        let layer = choose|layer: u32| is_first_layer(g, layer);
        assert(g.find(experts::stacked_name(layer, "gate"@)) is None);
    }
}

/// All experts of a mixture take what one takes, times the experts of a layer, times the layers;
/// what a token reads counts those it activates.
pub proof fn lemma_experts_multiply(shape: MoeShape)
    ensures
        shape.bytes_of(shape.experts_per_layer as int) == shape.bytes_per_expert
            * shape.experts_per_layer * shape.moe_layers,
        shape.bytes_of(shape.experts_per_token as int) == shape.bytes_per_expert
            * shape.experts_per_token * shape.moe_layers,
        shape.bytes_of(0) == 0,
{
    assert(shape.bytes_per_expert * 0 == 0) by (nonlinear_arith);
    assert(0 * shape.moe_layers == 0) by (nonlinear_arith);
}

} // verus!
