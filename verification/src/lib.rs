//! Verified core of a hierarchical VAE trading toolkit: market regime labelling,
//! sliding windows over return series, the layer layout of the model, the KL warmup
//! schedule and the handling of Bybit kline responses.
pub mod architecture;
pub mod bybit;
pub mod regime;
pub mod training;
pub mod windows;

pub use architecture::{level_shape, plan_architecture, ArchitecturePlan, LayerShape, LevelShape};
pub use bybit::{
    kline_close_fields, kline_url, write_decimal, BybitResponse, BybitResult, KlineError,
};
pub use regime::{
    classify_window, positions_with_regime, regimes_from_signals, MarketRegime, WindowSignal,
};
pub use training::{kl_weight, should_report_epoch, KlWeight};
pub use windows::{trailing_windows, windowed_samples};
