use hierarchical_vae_trading::{level_shape, plan_architecture, LayerShape};

fn shape(input_dim: usize, output_dim: usize) -> LayerShape {
    LayerShape { input_dim, output_dim }
}

#[test]
fn default_plan_has_three_levels_with_top_last() {
    let plan = plan_architecture(5, &vec![3, 2, 2], &vec![16, 12, 8]);
    assert_eq!(plan.levels.len(), 3);
    assert!(plan.levels[2].is_top);
    assert!(!plan.levels[0].is_top);
    assert!(!plan.levels[1].is_top);
}

#[test]
fn default_plan_chains_bottom_up_layers() {
    let plan = plan_architecture(5, &vec![3, 2, 2], &vec![16, 12, 8]);
    assert_eq!(plan.levels[0].bottom_up, shape(5, 16));
    assert_eq!(plan.levels[1].bottom_up, shape(16, 12));
    assert_eq!(plan.levels[2].bottom_up, shape(12, 8));
}

#[test]
fn default_plan_priors_read_parent_latents() {
    let plan = plan_architecture(5, &vec![3, 2, 2], &vec![16, 12, 8]);
    assert_eq!(plan.levels[0].prior_mu, shape(2, 3));
    assert_eq!(plan.levels[0].prior_logvar, shape(2, 3));
    assert_eq!(plan.levels[1].prior_mu, shape(2, 2));
    assert_eq!(plan.levels[2].prior_mu, shape(1, 2));
    assert_eq!(plan.levels[0].posterior_mu, shape(16, 3));
    assert_eq!(plan.levels[1].posterior_logvar, shape(12, 2));
    assert_eq!(plan.levels[2].posterior_mu, shape(8, 2));
    assert_eq!(plan.levels[0].latent_dim, 3);
    assert_eq!(plan.levels[2].latent_dim, 2);
}

#[test]
fn default_plan_decoder_maps_bottom_latent_to_input() {
    let plan = plan_architecture(5, &vec![3, 2, 2], &vec![16, 12, 8]);
    assert_eq!(plan.decoder_hidden, shape(3, 16));
    assert_eq!(plan.decoder_output, shape(16, 5));
}

#[test]
fn extra_hidden_dims_are_ignored() {
    let plan = plan_architecture(4, &vec![6, 3], &vec![10, 7, 99]);
    assert_eq!(plan.levels.len(), 2);
    assert_eq!(plan.levels[1].bottom_up, shape(10, 7));
    assert!(plan.levels[1].is_top);
}

#[test]
fn top_level_prior_reads_single_input() {
    let level = level_shape(5, 16, 3, 0, true);
    assert_eq!(level.prior_mu, shape(1, 3));
    assert_eq!(level.prior_logvar, shape(1, 3));
    assert_eq!(level.bottom_up, shape(5, 16));
    assert_eq!(level.latent_dim, 3);
    assert!(level.is_top);
}

#[test]
fn inner_level_prior_reads_parent_latent() {
    let level = level_shape(16, 12, 2, 3, false);
    assert_eq!(level.prior_mu, shape(3, 2));
    assert_eq!(level.prior_logvar, shape(3, 2));
    assert_eq!(level.posterior_mu, shape(12, 2));
    assert!(!level.is_top);
}
