//! Layer layout of the hierarchical VAE: which dimensions each dense layer maps
//! between, level by level, and how the levels are chained.
use vstd::prelude::*;

verus! {

/// Shape of a dense layer mapping `input_dim` features to `output_dim` features.
#[derive(Debug, Clone, Copy, PartialEq, Eq, Structural)]
pub struct LayerShape {
    pub input_dim: usize,
    pub output_dim: usize,
}

/// Shapes of the layers of one level of the hierarchy.
#[derive(Debug, Clone, Copy, PartialEq, Eq, Structural)]
pub struct LevelShape {
    /// Bottom-up feature extraction: level input to hidden features.
    pub bottom_up: LayerShape,
    /// Parent latent (or a single constant input at the top) to prior mean.
    pub prior_mu: LayerShape,
    /// Parent latent (or a single constant input at the top) to prior log-variance.
    pub prior_logvar: LayerShape,
    /// Hidden features to posterior mean contribution.
    pub posterior_mu: LayerShape,
    /// Hidden features to posterior log-variance contribution.
    pub posterior_logvar: LayerShape,
    /// Latent dimensionality at this level.
    pub latent_dim: usize,
    /// Whether this is the top level (standard normal prior).
    pub is_top: bool,
}

/// Layer layout of a whole model: its levels from bottom (0) to top, and the two
/// decoder layers that map the bottom latent back to the input.
#[derive(Debug, Clone)]
pub struct ArchitecturePlan {
    pub levels: Vec<LevelShape>,
    pub decoder_hidden: LayerShape,
    pub decoder_output: LayerShape,
}

pub open spec fn layer(input_dim: nat, output_dim: nat) -> LayerShape {
    LayerShape { input_dim: input_dim as usize, output_dim: output_dim as usize }
}

/// Layout of one level. The prior reads the parent's latent; the top level has no
/// parent and its prior layers read a single input.
pub open spec fn spec_level_shape(
    input_dim: nat,
    hidden_dim: nat,
    latent_dim: nat,
    parent_latent_dim: nat,
    is_top: bool,
) -> LevelShape {
    let prior_input: nat = if is_top { 1 } else { parent_latent_dim };
    LevelShape {
        bottom_up: layer(input_dim, hidden_dim),
        prior_mu: layer(prior_input, latent_dim),
        prior_logvar: layer(prior_input, latent_dim),
        posterior_mu: layer(hidden_dim, latent_dim),
        posterior_logvar: layer(hidden_dim, latent_dim),
        latent_dim: latent_dim as usize,
        is_top,
    }
}

/// Every level's layers fit its latent: the bottom-up layer maps the level input to
/// the hidden features; both prior layers have the same shape, reading the parent
/// latent (a single input at the top) and producing one value per latent dimension;
/// both posterior layers have the same shape, reading the hidden features and
/// producing one value per latent dimension.
pub proof fn lemma_level_layers_fit_latent(
    input_dim: nat,
    hidden_dim: nat,
    latent_dim: nat,
    parent_latent_dim: nat,
    is_top: bool,
)
    requires
        input_dim <= usize::MAX,
        hidden_dim <= usize::MAX,
        latent_dim <= usize::MAX,
        parent_latent_dim <= usize::MAX,
    ensures
        ({
            let s = spec_level_shape(input_dim, hidden_dim, latent_dim, parent_latent_dim, is_top);
            &&& s.bottom_up.input_dim == input_dim
            &&& s.bottom_up.output_dim == hidden_dim
            &&& s.prior_mu.input_dim == (if is_top {
                1
            } else {
                parent_latent_dim
            })
            &&& s.prior_mu.output_dim == latent_dim
            &&& s.prior_logvar == s.prior_mu
            &&& s.posterior_mu.input_dim == hidden_dim
            &&& s.posterior_mu.output_dim == latent_dim
            &&& s.posterior_logvar == s.posterior_mu
            &&& s.latent_dim == latent_dim
            &&& s.is_top == is_top
        }),
{
}

/// Builds the layout of one level (see `spec_level_shape`).
pub fn level_shape(
    input_dim: usize,
    hidden_dim: usize,
    latent_dim: usize,
    parent_latent_dim: usize,
    is_top: bool,
) -> (s: LevelShape)
    ensures
        s == spec_level_shape(
            input_dim as nat,
            hidden_dim as nat,
            latent_dim as nat,
            parent_latent_dim as nat,
            is_top,
        ),
        s.bottom_up == (LayerShape { input_dim, output_dim: hidden_dim }),
        s.prior_mu == (LayerShape {
            input_dim: if is_top {
                1
            } else {
                parent_latent_dim
            },
            output_dim: latent_dim,
        }),
        s.prior_logvar == s.prior_mu,
        s.posterior_mu == (LayerShape { input_dim: hidden_dim, output_dim: latent_dim }),
        s.posterior_logvar == s.posterior_mu,
        s.latent_dim == latent_dim,
        s.is_top == is_top,
{
    proof {
        lemma_level_layers_fit_latent(
            input_dim as nat,
            hidden_dim as nat,
            latent_dim as nat,
            parent_latent_dim as nat,
            is_top,
        );
    }
    let prior_input: usize = if is_top {
        1
    } else {
        parent_latent_dim
    };
    LevelShape {
        bottom_up: LayerShape { input_dim, output_dim: hidden_dim },
        prior_mu: LayerShape { input_dim: prior_input, output_dim: latent_dim },
        prior_logvar: LayerShape { input_dim: prior_input, output_dim: latent_dim },
        posterior_mu: LayerShape { input_dim: hidden_dim, output_dim: latent_dim },
        posterior_logvar: LayerShape { input_dim: hidden_dim, output_dim: latent_dim },
        latent_dim,
        is_top,
    }
}

/// Layout of level `l` of a model with the given dimensions: level 0 reads the
/// input, every other level reads the hidden features of the level below; every
/// level but the last conditions its prior on the latent of the level above.
pub open spec fn planned_level(
    input_dim: nat,
    latent_dims: Seq<usize>,
    hidden_dims: Seq<usize>,
    l: int,
) -> LevelShape {
    let n = latent_dims.len();
    let is_top = l == n - 1;
    let level_input: nat = if l == 0 { input_dim } else { hidden_dims[l - 1] as nat };
    let parent: nat = if is_top { 0 } else { latent_dims[l + 1] as nat };
    spec_level_shape(level_input, hidden_dims[l] as nat, latent_dims[l] as nat, parent, is_top)
}

/// Dimensions that a model can be built from: at least two levels, and a hidden
/// dimension for each of them.
pub open spec fn valid_dims(latent_dims: Seq<usize>, hidden_dims: Seq<usize>) -> bool {
    latent_dims.len() >= 2 && hidden_dims.len() >= latent_dims.len()
}

/// The layout that `plan_architecture` builds.
pub open spec fn planned(
    input_dim: nat,
    latent_dims: Seq<usize>,
    hidden_dims: Seq<usize>,
    plan: ArchitecturePlan,
) -> bool {
    &&& plan.levels.len() == latent_dims.len()
    &&& forall|l: int|
        0 <= l < latent_dims.len() ==> #[trigger] plan.levels@[l] == planned_level(
            input_dim,
            latent_dims,
            hidden_dims,
            l,
        )
    &&& plan.decoder_hidden == layer(latent_dims[0] as nat, hidden_dims[0] as nat)
    &&& plan.decoder_output == layer(hidden_dims[0] as nat, input_dim)
}

/// Level `l` of a layout, stated through the dimensions it is built from: its latent
/// is `latent_dims[l]`; it is the top exactly when it is the last level; its
/// bottom-up layer reads the input (level 0) or the hidden features of the level
/// below and produces `hidden_dims[l]` features; its two prior layers read the latent
/// of the level above (one input at the top); its two posterior layers read its
/// hidden features; all four produce one value per latent dimension of the level.
pub proof fn lemma_planned_level_fits(
    input_dim: nat,
    latent_dims: Seq<usize>,
    hidden_dims: Seq<usize>,
    l: int,
)
    requires
        valid_dims(latent_dims, hidden_dims),
        0 <= l < latent_dims.len(),
        input_dim <= usize::MAX,
    ensures
        ({
            let s = planned_level(input_dim, latent_dims, hidden_dims, l);
            &&& s.latent_dim == latent_dims[l]
            &&& s.is_top == (l == latent_dims.len() - 1)
            &&& s.bottom_up.input_dim == (if l == 0 {
                input_dim
            } else {
                hidden_dims[l - 1] as nat
            })
            &&& s.bottom_up.output_dim == hidden_dims[l]
            &&& s.prior_mu.input_dim == (if l == latent_dims.len() - 1 {
                1
            } else {
                latent_dims[l + 1] as nat
            })
            &&& s.prior_mu.output_dim == latent_dims[l]
            &&& s.prior_logvar == s.prior_mu
            &&& s.posterior_mu.input_dim == hidden_dims[l]
            &&& s.posterior_mu.output_dim == latent_dims[l]
            &&& s.posterior_logvar == s.posterior_mu
        }),
{
    let n = latent_dims.len();
    let is_top = l == n - 1;
    let level_input: nat = if l == 0 { input_dim } else { hidden_dims[l - 1] as nat };
    let parent: nat = if is_top { 0 } else { latent_dims[l + 1] as nat };
    lemma_level_layers_fit_latent(level_input, hidden_dims[l] as nat, latent_dims[l] as nat, parent, is_top);
}

/// Lays out a model with `latent_dims.len()` levels (bottom to top). Level `l` maps
/// its input (the data at level 0, the hidden features of level `l - 1` above that)
/// to `hidden_dims[l]` features and has `latent_dims[l]` latent dimensions; the last
/// level is the top. The decoder maps the bottom latent to `hidden_dims[0]` features
/// and those back to `input_dim`.
pub fn plan_architecture(input_dim: usize, latent_dims: &Vec<usize>, hidden_dims: &Vec<usize>) -> (plan:
    ArchitecturePlan)
    requires
        valid_dims(latent_dims@, hidden_dims@),
    ensures
        planned(input_dim as nat, latent_dims@, hidden_dims@, plan),
        plan.levels.len() == latent_dims.len(),
        forall|l: int|
            0 <= l < latent_dims.len() ==> {
                let s = #[trigger] plan.levels@[l];
                &&& s.latent_dim == latent_dims@[l]
                &&& s.is_top == (l == latent_dims.len() - 1)
                &&& s.bottom_up.input_dim == (if l == 0 {
                    input_dim
                } else {
                    hidden_dims@[l - 1]
                })
                &&& s.bottom_up.output_dim == hidden_dims@[l]
                &&& s.prior_mu.input_dim == (if l == latent_dims.len() - 1 {
                    1
                } else {
                    latent_dims@[l + 1]
                })
                &&& s.prior_mu.output_dim == latent_dims@[l]
                &&& s.prior_logvar == s.prior_mu
                &&& s.posterior_mu.input_dim == hidden_dims@[l]
                &&& s.posterior_mu.output_dim == latent_dims@[l]
                &&& s.posterior_logvar == s.posterior_mu
            },
        plan.decoder_hidden == (LayerShape { input_dim: latent_dims@[0], output_dim: hidden_dims@[0] }),
        plan.decoder_output == (LayerShape { input_dim: hidden_dims@[0], output_dim: input_dim }),
{
    let num_levels = latent_dims.len();
    let mut levels: Vec<LevelShape> = Vec::with_capacity(num_levels);
    let mut l: usize = 0;
    while l < num_levels
        invariant
            num_levels == latent_dims.len(),
            valid_dims(latent_dims@, hidden_dims@),
            l <= num_levels,
            levels.len() == l,
            forall|j: int|
                0 <= j < l ==> #[trigger] levels@[j] == planned_level(
                    input_dim as nat,
                    latent_dims@,
                    hidden_dims@,
                    j,
                ),
        decreases num_levels - l,
    {
        let is_top = l == num_levels - 1;
        let level_input = if l == 0 {
            input_dim
        } else {
            hidden_dims[l - 1]
        };
        let parent_latent_dim = if is_top {
            0
        } else {
            latent_dims[l + 1]
        };
        let s = level_shape(level_input, hidden_dims[l], latent_dims[l], parent_latent_dim, is_top);
        levels.push(s);
        l = l + 1;
    }
    proof {
        assert forall|j: int| 0 <= j < num_levels implies {
            let s = #[trigger] levels@[j];
            &&& s.latent_dim == latent_dims@[j]
            &&& s.is_top == (j == num_levels - 1)
            &&& s.bottom_up.input_dim == (if j == 0 {
                input_dim
            } else {
                hidden_dims@[j - 1]
            })
            &&& s.bottom_up.output_dim == hidden_dims@[j]
            &&& s.prior_mu.input_dim == (if j == num_levels - 1 {
                1
            } else {
                latent_dims@[j + 1]
            })
            &&& s.prior_mu.output_dim == latent_dims@[j]
            &&& s.prior_logvar == s.prior_mu
            &&& s.posterior_mu.input_dim == hidden_dims@[j]
            &&& s.posterior_mu.output_dim == latent_dims@[j]
            &&& s.posterior_logvar == s.posterior_mu
        } by {
            lemma_planned_level_fits(input_dim as nat, latent_dims@, hidden_dims@, j);
        }
    }
    ArchitecturePlan {
        levels,
        decoder_hidden: LayerShape { input_dim: latent_dims[0], output_dim: hidden_dims[0] },
        decoder_output: LayerShape { input_dim: hidden_dims[0], output_dim: input_dim },
    }
}

/// In every layout, exactly the last level is the top one.
pub proof fn lemma_only_last_level_is_top(
    input_dim: nat,
    latent_dims: Seq<usize>,
    hidden_dims: Seq<usize>,
    plan: ArchitecturePlan,
    l: int,
)
    requires
        valid_dims(latent_dims, hidden_dims),
        planned(input_dim, latent_dims, hidden_dims, plan),
        0 <= l < plan.levels.len(),
    ensures
        plan.levels@[l].is_top <==> l == plan.levels.len() - 1,
{
    assert(plan.levels@[l] == planned_level(input_dim, latent_dims, hidden_dims, l));
}

/// In every layout the layers fit together: each level's bottom-up layer reads what
/// the level below it produces (the input at level 0), each non-top level's prior
/// reads the latent of the level above, the top prior reads a single input, the
/// posterior layers read the level's hidden features and produce its latent, and the
/// decoder reads the bottom latent and produces an input-sized output.
pub proof fn lemma_layers_chain(
    input_dim: nat,
    latent_dims: Seq<usize>,
    hidden_dims: Seq<usize>,
    plan: ArchitecturePlan,
    l: int,
)
    requires
        valid_dims(latent_dims, hidden_dims),
        planned(input_dim, latent_dims, hidden_dims, plan),
        0 <= l < plan.levels.len(),
        input_dim <= usize::MAX,
    ensures
        l == 0 ==> plan.levels@[l].bottom_up.input_dim == input_dim,
        l > 0 ==> plan.levels@[l].bottom_up.input_dim == plan.levels@[l - 1].bottom_up.output_dim,
        l < plan.levels.len() - 1 ==> plan.levels@[l].prior_mu.input_dim == plan.levels@[l
            + 1].latent_dim && plan.levels@[l].prior_logvar.input_dim == plan.levels@[l
            + 1].latent_dim,
        l == plan.levels.len() - 1 ==> plan.levels@[l].prior_mu.input_dim == 1
            && plan.levels@[l].prior_logvar.input_dim == 1,
        plan.levels@[l].posterior_mu.input_dim == plan.levels@[l].bottom_up.output_dim,
        plan.levels@[l].posterior_logvar.input_dim == plan.levels@[l].bottom_up.output_dim,
        plan.levels@[l].posterior_mu.output_dim == plan.levels@[l].latent_dim,
        plan.levels@[l].posterior_logvar.output_dim == plan.levels@[l].latent_dim,
        plan.levels@[l].prior_mu.output_dim == plan.levels@[l].latent_dim,
        plan.levels@[l].prior_logvar.output_dim == plan.levels@[l].latent_dim,
        plan.decoder_hidden.input_dim == plan.levels@[0].latent_dim,
        plan.decoder_hidden.output_dim == plan.decoder_output.input_dim,
        plan.decoder_output.output_dim == input_dim,
{
    assert(plan.levels@[l] == planned_level(input_dim, latent_dims, hidden_dims, l));
    assert(plan.levels@[0] == planned_level(input_dim, latent_dims, hidden_dims, 0));
    if l > 0 {
        assert(plan.levels@[l - 1] == planned_level(input_dim, latent_dims, hidden_dims, l - 1));
    }
    if l < plan.levels.len() - 1 {
        assert(plan.levels@[l + 1] == planned_level(input_dim, latent_dims, hidden_dims, l + 1));
    }
}

} // verus!
