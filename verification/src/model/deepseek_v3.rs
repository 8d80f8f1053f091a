use vstd::prelude::*;

use crate::float_bits::{F32Bits, NEG_INFINITY};
use crate::text::{count_text, digits, join2, join3};

verus! {

/// The configuration of a DeepSeek checkpoint with latent attention.
#[derive(Debug, Clone)]
pub struct DeepseekV3Config {
    pub vocab_size: usize,
    pub hidden_size: usize,
    pub intermediate_size: usize,
    pub moe_intermediate_size: usize,
    pub num_hidden_layers: usize,
    pub num_attention_heads: usize,
    pub n_shared_experts: usize,
    pub n_routed_experts: usize,
    pub num_experts_per_tok: usize,
    pub first_k_dense_replace: usize,
    pub moe_layer_freq: usize,
    pub q_lora_rank: Option<usize>,
    pub kv_lora_rank: usize,
    pub qk_nope_head_dim: usize,
    pub qk_rope_head_dim: usize,
    pub v_head_dim: usize,
    pub n_group: usize,
    pub topk_group: usize,
    pub topk_method: String,
    pub norm_topk_prob: bool,
    pub max_position_embeddings: usize,
    pub tie_word_embeddings: bool,
    /// The height and width of the blocks that share a scale.
    pub weight_block_size: Option<(usize, usize)>,
}

/// Why a configuration is refused.
#[derive(Debug, Clone, Copy, PartialEq, Eq, Structural)]
pub enum DeepseekFault {
    ZeroSizes,
    ExpertGroups,
    TopGroups,
    ExpertsPerToken,
    HeadDims,
}

impl DeepseekV3Config {
    /// Why the configuration is refused, if it is: the first fault in this order.
    pub open spec fn fault(&self) -> Option<DeepseekFault> {
        if self.hidden_size == 0 || self.num_attention_heads == 0 {
            Some(DeepseekFault::ZeroSizes)
        } else if self.n_group == 0 || self.n_routed_experts % self.n_group != 0 {
            Some(DeepseekFault::ExpertGroups)
        } else if self.topk_group == 0 || self.topk_group > self.n_group {
            Some(DeepseekFault::TopGroups)
        } else if self.num_experts_per_tok == 0 || self.num_experts_per_tok
            > self.n_routed_experts {
            Some(DeepseekFault::ExpertsPerToken)
        } else if self.qk_nope_head_dim + self.qk_rope_head_dim == 0 || self.v_head_dim == 0 {
            Some(DeepseekFault::HeadDims)
        } else {
            None
        }
    }

    pub fn validate(&self) -> (result: Result<(), DeepseekFault>)
        ensures
            match result {
                Ok(()) => self.fault() is None,
                Err(fault) => self.fault() == Some(fault),
            },
    {
        if self.hidden_size == 0 || self.num_attention_heads == 0 {
            return Err(DeepseekFault::ZeroSizes);
        }
        if self.n_group == 0 || self.n_routed_experts % self.n_group != 0 {
            return Err(DeepseekFault::ExpertGroups);
        }
        if self.topk_group == 0 || self.topk_group > self.n_group {
            return Err(DeepseekFault::TopGroups);
        }
        if self.num_experts_per_tok == 0 || self.num_experts_per_tok > self.n_routed_experts {
            return Err(DeepseekFault::ExpertsPerToken);
        }
        if (self.qk_nope_head_dim == 0 && self.qk_rope_head_dim == 0) || self.v_head_dim == 0 {
            return Err(DeepseekFault::HeadDims);
        }
        Ok(())
    }

    /// The side of the square blocks that share a scale: 128 where the checkpoint
    /// does not say, and `None` where it asks for blocks that are not square.
    pub fn fp8_block_size(&self) -> (size: Option<usize>)
        ensures
            size == match self.weight_block_size {
                None => Some(128usize),
                Some((height, width)) => if height == width && height > 0 {
                    Some(height)
                } else {
                    None
                },
            },
    {
        match self.weight_block_size {
            None => Some(128),
            Some((height, width)) => if height == width && height > 0 {
                Some(height)
            } else {
                None
            },
        }
    }

    /// The layer has routed experts.
    pub open spec fn routed(&self, layer: nat) -> bool {
        layer >= self.first_k_dense_replace && layer % (self.moe_layer_freq as nat) == 0
    }

    /// Whether a layer has routed experts: every `moe_layer_freq`-th one after the
    /// first dense ones.
    pub fn is_moe_layer(&self, layer: usize) -> (r: bool)
        requires
            layer >= self.first_k_dense_replace ==> self.moe_layer_freq > 0,
        ensures
            r == self.routed(layer as nat),
    {
        layer >= self.first_k_dense_replace && layer % self.moe_layer_freq == 0
    }
}

impl DeepseekFault {
    pub open spec fn text(self) -> Seq<char> {
        match self {
            DeepseekFault::ZeroSizes =>
                "DeepSeek V3 hidden size and attention heads must be non-zero"@,
            DeepseekFault::ExpertGroups =>
                "DeepSeek V3 routed experts must be divisible by n_group"@,
            DeepseekFault::TopGroups => "DeepSeek V3 topk_group must be in 1..=n_group"@,
            DeepseekFault::ExpertsPerToken => "DeepSeek V3 num_experts_per_tok is invalid"@,
            DeepseekFault::HeadDims => "DeepSeek V3 MLA head dimensions must be non-zero"@,
        }
    }

    /// The reason in words.
    pub fn message(self) -> (text: String)
        ensures
            text@ == self.text(),
    {
        match self {
            DeepseekFault::ZeroSizes =>
                "DeepSeek V3 hidden size and attention heads must be non-zero".to_owned(),
            DeepseekFault::ExpertGroups =>
                "DeepSeek V3 routed experts must be divisible by n_group".to_owned(),
            DeepseekFault::TopGroups => "DeepSeek V3 topk_group must be in 1..=n_group".to_owned(),
            DeepseekFault::ExpertsPerToken =>
                "DeepSeek V3 num_experts_per_tok is invalid".to_owned(),
            DeepseekFault::HeadDims =>
                "DeepSeek V3 MLA head dimensions must be non-zero".to_owned(),
        }
    }
}

/// Why a router cannot be made.
#[derive(Debug, Clone, Copy, PartialEq, Eq, Structural)]
pub enum RouterFault {
    CorrectionBias { experts: usize },
    Groups,
    TopK { experts: usize },
    TopGroups { groups: usize },
}

impl RouterFault {
    pub open spec fn text(self) -> Seq<char> {
        match self {
            RouterFault::CorrectionBias { experts } => "router correction bias must have "@
                + digits(experts) + " elements"@,
            RouterFault::Groups => "router experts must be divisible by num_groups"@,
            RouterFault::TopK { experts } => "router top_k must be in 1..="@ + digits(experts),
            RouterFault::TopGroups { groups } => "router topk_groups must be in 1..="@ + digits(
                groups,
            ),
        }
    }

    /// The reason in words.
    pub fn message(self) -> (text: String)
        ensures
            text@ == self.text(),
    {
        match self {
            RouterFault::CorrectionBias { experts } => join3(
                "router correction bias must have ",
                count_text(experts).as_str(),
                " elements",
            ),
            RouterFault::Groups => "router experts must be divisible by num_groups".to_owned(),
            RouterFault::TopK { experts } => join2(
                "router top_k must be in 1..=",
                count_text(experts).as_str(),
            ),
            RouterFault::TopGroups { groups } => join2(
                "router topk_groups must be in 1..=",
                count_text(groups).as_str(),
            ),
        }
    }
}

/// The sizes of a router that picks experts by groups.
#[derive(Debug, Clone, Copy, PartialEq, Eq, Structural)]
pub struct NoAuxTcRouter {
    pub num_experts: usize,
    pub top_k: usize,
    pub num_groups: usize,
    pub topk_groups: usize,
}

impl NoAuxTcRouter {
    /// Groups are of equal size, and no more is picked than there is.
    pub open spec fn wf(&self) -> bool {
        &&& self.num_groups > 0
        &&& self.num_experts % self.num_groups == 0
        &&& 1 <= self.top_k <= self.num_experts
        &&& 1 <= self.topk_groups <= self.num_groups
    }

    pub open spec fn per_group(&self) -> int {
        self.num_experts as int / self.num_groups as int
    }

    /// A router for `num_experts` experts whose correction has the given shape.
    pub fn new(
        num_experts: usize,
        correction_bias: &[usize],
        top_k: usize,
        num_groups: usize,
        topk_groups: usize,
    ) -> (result: Result<Self, RouterFault>)
        ensures
            match result {
                Ok(router) => {
                    &&& router == (NoAuxTcRouter { num_experts, top_k, num_groups, topk_groups })
                    &&& router.wf()
                    &&& correction_bias@ == seq![num_experts]
                },
                Err(fault) => fault == if correction_bias@ != seq![num_experts] {
                    RouterFault::CorrectionBias { experts: num_experts }
                } else if num_groups == 0 || num_experts % num_groups != 0 {
                    RouterFault::Groups
                } else if top_k == 0 || top_k > num_experts {
                    RouterFault::TopK { experts: num_experts }
                } else {
                    RouterFault::TopGroups { groups: num_groups }
                } && !(correction_bias@ == seq![num_experts] && (NoAuxTcRouter {
                    num_experts,
                    top_k,
                    num_groups,
                    topk_groups,
                }).wf()),
            },
    {
        if correction_bias.len() != 1 || correction_bias[0] != num_experts {
            assert(correction_bias@ != seq![num_experts]);
            return Err(RouterFault::CorrectionBias { experts: num_experts });
        }
        assert(correction_bias@ =~= seq![num_experts]);
        if num_groups == 0 || num_experts % num_groups != 0 {
            return Err(RouterFault::Groups);
        }
        if top_k == 0 || top_k > num_experts {
            return Err(RouterFault::TopK { experts: num_experts });
        }
        if topk_groups == 0 || topk_groups > num_groups {
            return Err(RouterFault::TopGroups { groups: num_groups });
        }
        Ok(NoAuxTcRouter { num_experts, top_k, num_groups, topk_groups })
    }

    /// The scores of one token with those of the experts outside the selected groups
    /// put out of reach.
    pub fn mask_groups(&self, scores: &Vec<F32Bits>, selected: &Vec<u32>) -> (masked: Vec<F32Bits>)
        requires
            self.wf(),
            scores@.len() == self.num_experts,
        ensures
            masked@.len() == scores@.len(),
            forall|e: int|
                0 <= e < scores@.len() ==> #[trigger] masked@[e] == if exists|s: int|
                    0 <= s < selected@.len() && selected@[s] == e / self.per_group() {
                    scores@[e]
                } else {
                    NEG_INFINITY
                },
    {
        let per_group: usize = self.num_experts / self.num_groups;
        proof {
            lemma_group_size(self.num_experts as int, self.num_groups as int);
        }
        let mut masked: Vec<F32Bits> = Vec::new();
        let mut e: usize = 0;
        while e < scores.len()
            invariant
                e <= scores@.len(),
                scores@.len() == self.num_experts,
                per_group == self.per_group(),
                per_group > 0,
                masked@.len() == e,
                forall|d: int|
                    0 <= d < e ==> #[trigger] masked@[d] == if exists|s: int|
                        0 <= s < selected@.len() && selected@[s] == d / self.per_group() {
                        scores@[d]
                    } else {
                        NEG_INFINITY
                    },
            decreases scores@.len() - e,
        {
            let group: usize = e / per_group;
            let mut found = false;
            let mut s: usize = 0;
            while s < selected.len()
                invariant
                    s <= selected@.len(),
                    found == exists|t: int| 0 <= t < s && selected@[t] == group,
                decreases selected@.len() - s,
            {
                if selected[s] as usize == group {
                    assert(selected@[s as int] == group);
                    found = true;
                }
                s = s + 1;
            }
            if found {
                masked.push(scores[e]);
            } else {
                masked.push(NEG_INFINITY);
            }
            e = e + 1;
        }
        masked
    }
}

proof fn lemma_group_size(experts: int, groups: int)
    requires
        groups > 0,
        experts >= 1,
        experts % groups == 0,
    ensures
        experts / groups > 0,
{
    assert(experts == groups * (experts / groups) + experts % groups) by (nonlinear_arith)
        requires
            groups > 0,
    ;
    let q = experts / groups;
    assert(q <= 0 ==> groups * q <= 0) by (nonlinear_arith)
        requires
            groups > 0,
    ;
}

/// The smallest number of blocks that hold `n` things.
pub open spec fn blocks(n: int, size: int) -> int {
    (n + size - 1) / size
}

/// The number of blocks that cover `n` things.
pub fn block_count(n: usize, size: usize) -> (count: usize)
    requires
        size > 0,
    ensures
        count == blocks(n as int, size as int),
{
    let full: usize = n / size;
    let rest: usize = n % size;
    proof {
        let q = full as int;
        let r = rest as int;
        let s = size as int;
        assert(n == s * q + r) by (nonlinear_arith)
            requires
                q == n as int / s,
                r == n as int % s,
                s > 0,
        ;
        if r == 0 {
            assert((s * q + (s - 1)) / s == q) by (nonlinear_arith)
                requires
                    s > 0,
            ;
        } else {
            assert((s * q + r + s - 1) / s == q + 1) by (nonlinear_arith)
                requires
                    0 < r < s,
            ;
        }
        assert(full < n || n == 0 || size == 1) by {
            if n > 0 && size > 1 {
                assert(q < n) by (nonlinear_arith)
                    requires
                        n == s * q + r,
                        s > 1,
                        r >= 0,
                        n > 0,
                        q >= 0,
                ;
            }
        }
        assert(rest > 0 ==> size > 1);
    }
    if rest == 0 {
        full
    } else {
        full + 1
    }
}

/// A matrix in blocks that share a scale each.
#[derive(Debug, Clone, Copy, PartialEq, Eq, Structural)]
pub struct BlockFp8Linear {
    pub out_features: usize,
    pub in_features: usize,
    pub block_size: usize,
}

/// Why blocks do not fit a matrix.
#[derive(Debug, Clone, Copy, PartialEq, Eq, Structural)]
pub enum BlockFault {
    ElementType,
    ScaleShape,
}

impl BlockFp8Linear {
    pub open spec fn wf(&self) -> bool {
        self.block_size > 0
    }

    pub open spec fn out_blocks(&self) -> int {
        blocks(self.out_features as int, self.block_size as int)
    }

    pub open spec fn in_blocks(&self) -> int {
        blocks(self.in_features as int, self.block_size as int)
    }

    /// A matrix whose scales have the given shape.
    pub fn new(
        out_features: usize,
        in_features: usize,
        is_fp8: bool,
        scales: &[usize],
        block_size: usize,
    ) -> (result: Result<Self, BlockFault>)
        requires
            block_size > 0,
        ensures
            match result {
                Ok(linear) => {
                    &&& linear == (BlockFp8Linear { out_features, in_features, block_size })
                    &&& is_fp8
                    &&& scales@.len() == 2
                    &&& scales@[0] == linear.out_blocks()
                    &&& scales@[1] == linear.in_blocks()
                },
                Err(BlockFault::ElementType) => !is_fp8,
                Err(BlockFault::ScaleShape) => is_fp8 && !(scales@.len() == 2 && scales@[0]
                    == blocks(out_features as int, block_size as int) && scales@[1] == blocks(
                    in_features as int,
                    block_size as int,
                )),
            },
    {
        let rows: usize = block_count(out_features, block_size);
        let columns: usize = block_count(in_features, block_size);
        if !is_fp8 {
            return Err(BlockFault::ElementType);
        }
        if scales.len() != 2 || scales[0] != rows || scales[1] != columns {
            return Err(BlockFault::ScaleShape);
        }
        Ok(BlockFp8Linear { out_features, in_features, block_size })
    }

    /// The place of the scale of an element among the scales of one matrix.
    pub fn scale_index(&self, out: usize, column: usize) -> (index: usize)
        requires
            self.wf(),
            out < self.out_features,
            column < self.in_features,
            self.out_blocks() * self.in_blocks() <= usize::MAX,
        ensures
            index == (out as int / self.block_size as int) * self.in_blocks() + (column as int
                / self.block_size as int),
            index < self.out_blocks() * self.in_blocks(),
    {
        let in_blocks: usize = block_count(self.in_features, self.block_size);
        let row: usize = out / self.block_size;
        let block: usize = column / self.block_size;
        proof {
            let s = self.block_size as int;
            let r = row as int;
            let c = block as int;
            let w = in_blocks as int;
            let h = self.out_blocks();
            lemma_block_within(out as int, self.out_features as int, s);
            lemma_block_within(column as int, self.in_features as int, s);
            assert(r * w + c < h * w && 0 <= r * w) by (nonlinear_arith)
                requires
                    0 <= r < h,
                    0 <= c < w,
            ;
        }
        row * in_blocks + block
    }
}

proof fn lemma_block_within(i: int, n: int, size: int)
    requires
        0 <= i < n,
        size > 0,
    ensures
        0 <= i / size < blocks(n, size),
{
    assert(0 <= i / size) by (nonlinear_arith)
        requires
            0 <= i,
            size > 0,
    ;
    assert(i / size < (n + size - 1) / size) by (nonlinear_arith)
        requires
            0 <= i < n,
            size > 0,
    ;
}

/// Two elements share a scale exactly when they lie in the same block.
pub proof fn lemma_scale_index_by_block(
    linear: BlockFp8Linear,
    out1: usize,
    column1: usize,
    out2: usize,
    column2: usize,
)
    requires
        linear.wf(),
        out1 < linear.out_features,
        out2 < linear.out_features,
        column1 < linear.in_features,
        column2 < linear.in_features,
    ensures
        ({
            let s = linear.block_size as int;
            let w = linear.in_blocks();
            ((out1 as int / s) * w + column1 as int / s == (out2 as int / s) * w + column2 as int
                / s) <==> (out1 as int / s == out2 as int / s && column1 as int / s
                == column2 as int / s)
        }),
{
    let s = linear.block_size as int;
    let w = linear.in_blocks();
    lemma_block_within(column1 as int, linear.in_features as int, s);
    lemma_block_within(column2 as int, linear.in_features as int, s);
    let r1 = out1 as int / s;
    let r2 = out2 as int / s;
    let c1 = column1 as int / s;
    let c2 = column2 as int / s;
    assert(r1 * w + c1 == r2 * w + c2 ==> r1 == r2) by (nonlinear_arith)
        requires
            0 <= c1 < w,
            0 <= c2 < w,
    ;
}

/// The projections of the shared expert come together or not at all.
pub fn shared_expert_complete(gate: bool, up: bool, down: bool) -> (r: bool)
    ensures
        r == (gate == up && up == down),
{
    gate == up && up == down
}

/// Tokens that an expert serves, with the weight of each, in token order.
#[derive(Debug, Clone)]
pub struct ExpertRoutes {
    pub token_indices: Vec<u32>,
    pub weights: Vec<F32Bits>,
}

/// The places where a row of expert ids names the expert.
pub open spec fn row_routes(
    ids: Seq<u32>,
    weights: Seq<F32Bits>,
    expert: int,
    token: int,
    n: int,
) -> Seq<(int, F32Bits)>
    decreases n,
{
    if n <= 0 {
        Seq::empty()
    } else if ids[n - 1] == expert {
        row_routes(ids, weights, expert, token, n - 1).push((token, weights[n - 1]))
    } else {
        row_routes(ids, weights, expert, token, n - 1)
    }
}

/// The tokens that an expert serves among the first `n`, with their weights.
pub open spec fn routes_of(
    ids: Seq<Vec<u32>>,
    weights: Seq<Vec<F32Bits>>,
    expert: int,
    n: int,
) -> Seq<(int, F32Bits)>
    decreases n,
{
    if n <= 0 {
        Seq::empty()
    } else {
        routes_of(ids, weights, expert, n - 1) + row_routes(
            ids[n - 1]@,
            weights[n - 1]@,
            expert,
            n - 1,
            ids[n - 1]@.len() as int,
        )
    }
}

impl ExpertRoutes {
    pub open spec fn view(&self) -> Seq<(int, F32Bits)> {
        Seq::new(
            self.token_indices@.len(),
            |i: int| (self.token_indices@[i] as int, self.weights@[i]),
        )
    }
}

/// The tokens that one expert serves. `ids` and `weights` have a row per token with
/// the chosen experts and what each contributes.
pub fn expert_routes(ids: &Vec<Vec<u32>>, weights: &Vec<Vec<F32Bits>>, expert: u32) -> (routes:
    ExpertRoutes)
    requires
        ids@.len() == weights@.len(),
        ids@.len() <= u32::MAX,
        forall|t: int| 0 <= t < ids@.len() ==> (#[trigger] ids@[t])@.len() == weights@[t]@.len(),
    ensures
        routes.token_indices@.len() == routes.weights@.len(),
        routes@ == routes_of(ids@, weights@, expert as int, ids@.len() as int),
{
    let mut routes = ExpertRoutes { token_indices: Vec::new(), weights: Vec::new() };
    let mut t: usize = 0;
    assert(routes@ =~= Seq::<(int, F32Bits)>::empty());
    while t < ids.len()
        invariant
            t <= ids@.len(),
            ids@.len() == weights@.len(),
            ids@.len() <= u32::MAX,
            forall|t: int|
                0 <= t < ids@.len() ==> (#[trigger] ids@[t])@.len() == weights@[t]@.len(),
            routes.token_indices@.len() == routes.weights@.len(),
            routes@ == routes_of(ids@, weights@, expert as int, t as int),
        decreases ids@.len() - t,
    {
        let row = &ids[t];
        let shares = &weights[t];
        let ghost before = routes@;
        let mut k: usize = 0;
        assert(routes@ =~= before + row_routes(row@, shares@, expert as int, t as int, 0));
        while k < row.len()
            invariant
                k <= row@.len(),
                t < ids@.len() <= u32::MAX,
                row@.len() == shares@.len(),
                routes.token_indices@.len() == routes.weights@.len(),
                routes@ == before + row_routes(
                    row@,
                    shares@,
                    expert as int,
                    t as int,
                    k as int,
                ),
            decreases row@.len() - k,
        {
            if row[k] == expert {
                let ghost so_far = routes@;
                routes.token_indices.push(t as u32);
                routes.weights.push(shares[k]);
                assert(routes@ =~= so_far.push((t as int, shares@[k as int])));
            }
            k = k + 1;
            assert(routes@ =~= before + row_routes(
                row@,
                shares@,
                expert as int,
                t as int,
                k as int,
            ));
        }
        t = t + 1;
    }
    routes
}

/// Every route goes to an expert that the token chose: the expert's list holds a
/// token exactly where one of its ids names the expert.
pub proof fn lemma_routes_complete(
    ids: Seq<Vec<u32>>,
    weights: Seq<Vec<F32Bits>>,
    expert: int,
    n: int,
    token: int,
    k: int,
)
    requires
        0 <= token < n <= ids.len(),
        0 <= k < ids[token]@.len(),
        ids[token]@[k] == expert,
    ensures
        routes_of(ids, weights, expert, n).contains((token, weights[token]@[k])),
    decreases n,
{
    let row = row_routes(
        ids[n - 1]@,
        weights[n - 1]@,
        expert,
        n - 1,
        ids[n - 1]@.len() as int,
    );
    let front = routes_of(ids, weights, expert, n - 1);
    let all = routes_of(ids, weights, expert, n);
    let item = (token, weights[token]@[k]);
    if token == n - 1 {
        lemma_row_complete(ids[token]@, weights[token]@, expert, token, ids[token]@.len() as int, k);
        let i = choose|i: int| 0 <= i < row.len() && row[i] == item;
        assert(all[front.len() + i] == item);
    } else {
        lemma_routes_complete(ids, weights, expert, n - 1, token, k);
        let i = choose|i: int| 0 <= i < front.len() && front[i] == item;
        assert(all[i] == item);
    }
}

proof fn lemma_row_complete(
    ids: Seq<u32>,
    weights: Seq<F32Bits>,
    expert: int,
    token: int,
    n: int,
    k: int,
)
    requires
        0 <= k < n <= ids.len(),
        ids[k] == expert,
    ensures
        row_routes(ids, weights, expert, token, n).contains((token, weights[k])),
    decreases n,
{
    let row = row_routes(ids, weights, expert, token, n);
    let item = (token, weights[k]);
    if k == n - 1 {
        assert(row.last() == item);
        assert(row[row.len() - 1] == item);
    } else {
        lemma_row_complete(ids, weights, expert, token, n - 1, k);
        let front = row_routes(ids, weights, expert, token, n - 1);
        let i = choose|i: int| 0 <= i < front.len() && front[i] == item;
        assert(row[i] == item);
    }
}

/// Which configurations are accepted.
pub proof fn lemma_config_accepted(config: DeepseekV3Config)
    ensures
        config.fault() is None <==> {
            &&& config.hidden_size > 0
            &&& config.num_attention_heads > 0
            &&& config.n_group > 0
            &&& config.n_routed_experts % config.n_group == 0
            &&& 1 <= config.topk_group <= config.n_group
            &&& 1 <= config.num_experts_per_tok <= config.n_routed_experts
            &&& config.qk_nope_head_dim > 0 || config.qk_rope_head_dim > 0
            &&& config.v_head_dim > 0
        },
{
}

/// There are as few blocks as cover all elements.
pub proof fn lemma_blocks_cover(n: int, size: int)
    requires
        n > 0,
        size > 0,
    ensures
        (blocks(n, size) - 1) * size < n <= blocks(n, size) * size,
{
    let b = blocks(n, size);
    vstd::arithmetic::div_mod::lemma_fundamental_div_mod(n + size - 1, size);
    vstd::arithmetic::div_mod::lemma_mod_bound(n + size - 1, size);
    assert(b * size == size * b) by (nonlinear_arith);
    assert((b - 1) * size == b * size - size) by (nonlinear_arith);
}

/// The groups of a router split the experts evenly, in order.
pub proof fn lemma_groups_split_experts(router: NoAuxTcRouter, expert: int)
    requires
        router.wf(),
        0 <= expert < router.num_experts,
    ensures
        router.per_group() * router.num_groups == router.num_experts,
        0 <= expert / router.per_group() < router.num_groups,
        (expert / router.per_group()) * router.per_group() <= expert < (expert
            / router.per_group() + 1) * router.per_group(),
{
    let n = router.num_experts as int;
    let g = router.num_groups as int;
    let p = router.per_group();
    vstd::arithmetic::div_mod::lemma_fundamental_div_mod(n, g);
    assert(p * g == g * p) by (nonlinear_arith);
    lemma_group_size(n, g);
    vstd::arithmetic::div_mod::lemma_fundamental_div_mod(expert, p);
    vstd::arithmetic::div_mod::lemma_mod_bound(expert, p);
    let q = expert / p;
    assert(q * p == p * q) by (nonlinear_arith);
    assert((q + 1) * p == q * p + p) by (nonlinear_arith);
    assert(0 <= q < g) by (nonlinear_arith)
        requires
            p > 0,
            0 <= expert < g * p,
            expert == p * q + expert % p,
            0 <= expert % p < p,
    ;
}

/// What an expert is handed are the tokens that chose it, each with the weight of that
/// choice, in the order of the tokens.
pub proof fn lemma_routes_sound(
    ids: Seq<Vec<u32>>,
    weights: Seq<Vec<F32Bits>>,
    expert: int,
    n: int,
)
    requires
        0 <= n <= ids.len(),
    ensures
        ({
            let routes = routes_of(ids, weights, expert, n);
            &&& forall|r: int|
                0 <= r < routes.len() ==> chosen(ids, weights, expert, #[trigger] routes[r], n)
            &&& forall|r: int, s: int|
                0 <= r < s < routes.len() ==> (#[trigger] routes[r]).0 <= (#[trigger] routes[s]).0
        }),
    decreases n,
{
    if n > 0 {
        lemma_routes_sound(ids, weights, expert, n - 1);
        let m = ids[n - 1]@.len() as int;
        lemma_row_sound(ids[n - 1]@, weights[n - 1]@, expert, n - 1, m);
        let front = routes_of(ids, weights, expert, n - 1);
        let row = row_routes(ids[n - 1]@, weights[n - 1]@, expert, n - 1, m);
        let routes = routes_of(ids, weights, expert, n);
        assert forall|r: int| 0 <= r < routes.len() implies chosen(
            ids,
            weights,
            expert,
            #[trigger] routes[r],
            n,
        ) by {
            if r < front.len() {
                assert(chosen(ids, weights, expert, front[r], n - 1));
                let (t, k) = choose|t: int, k: int|
                    0 <= t < n - 1 && 0 <= k < ids[t]@.len() && #[trigger] ids[t]@[k] == expert
                        && front[r] == (t, weights[t]@[k]);
                assert(ids[t]@[k] == expert);
            } else {
                let k = lemma_row_choice(
                    ids[n - 1]@,
                    weights[n - 1]@,
                    expert,
                    n - 1,
                    m,
                    r - front.len(),
                );
                assert(ids[n - 1]@[k] == expert);
            }
        }
        assert forall|r: int, s: int| 0 <= r < s < routes.len() implies (#[trigger] routes[r]).0
            <= (#[trigger] routes[s]).0 by {
            if s < front.len() {
                assert(front[r].0 <= front[s].0);
            } else {
                assert(row[s - front.len()].0 == n - 1);
                if r < front.len() {
                    assert(chosen(ids, weights, expert, front[r], n - 1));
                } else {
                    assert(row[r - front.len()].0 == n - 1);
                }
            }
        }
    }
}

/// One of the first `n` tokens chose the expert, with this weight.
pub open spec fn chosen(
    ids: Seq<Vec<u32>>,
    weights: Seq<Vec<F32Bits>>,
    expert: int,
    route: (int, F32Bits),
    n: int,
) -> bool {
    exists|t: int, k: int|
        0 <= t < n && 0 <= k < ids[t]@.len() && #[trigger] ids[t]@[k] == expert && route == (
            t,
            weights[t]@[k],
        )
}

proof fn lemma_row_sound(
    ids: Seq<u32>,
    weights: Seq<F32Bits>,
    expert: int,
    token: int,
    n: int,
)
    requires
        0 <= n <= ids.len(),
    ensures
        forall|r: int|
            0 <= r < row_routes(ids, weights, expert, token, n).len() ==> (
            #[trigger] row_routes(ids, weights, expert, token, n)[r]).0 == token,
    decreases n,
{
    if n > 0 {
        lemma_row_sound(ids, weights, expert, token, n - 1);
        let front = row_routes(ids, weights, expert, token, n - 1);
        let row = row_routes(ids, weights, expert, token, n);
        assert forall|r: int| 0 <= r < row.len() implies (#[trigger] row[r]).0 == token by {
            if r < front.len() {
                assert(row[r] == front[r]);
            }
        }
    }
}

proof fn lemma_row_choice(
    ids: Seq<u32>,
    weights: Seq<F32Bits>,
    expert: int,
    token: int,
    n: int,
    r: int,
) -> (k: int)
    requires
        0 <= n <= ids.len(),
        0 <= r < row_routes(ids, weights, expert, token, n).len(),
    ensures
        0 <= k < n,
        ids[k] == expert,
        row_routes(ids, weights, expert, token, n)[r] == (token, weights[k]),
    decreases n,
{
    let front = row_routes(ids, weights, expert, token, n - 1);
    if r < front.len() {
        lemma_row_choice(ids, weights, expert, token, n - 1, r)
    } else {
        n - 1
    }
}

} // verus!
