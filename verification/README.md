# hierarchical_vae_trading

A hierarchical variational autoencoder for multi-scale trading data, split in two:

- `src/` is the library verified with Verus. It holds every decision of the toolkit
  that does not compute in floating point: market regimes and their labelling rule,
  the trailing windows that become training samples, the layer layout of the model
  and the laws that chain its levels, the KL warmup schedule (as an exact fraction)
  and the handling of Bybit kline responses (request URL, error code, close fields
  oldest first).
- `app/` holds the floating-point model (dense layers, sampling, KL divergence,
  finite-difference training, evaluation metrics) and the HTTP fetch; it calls the
  library for the decisions above.
- `tests/` exercises the library on concrete values.
