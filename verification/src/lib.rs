//! Reinforcement-learning and order-execution core of a quantitative trading engine.
pub mod base_price_aggregation;
pub mod day_map;
pub mod format_spec;
pub mod frequency;
pub mod indicator;
pub mod indicator_store;
pub mod integer;
pub mod level_indicator;
pub mod metric_snapshot;
pub mod number;
pub mod order;
pub mod order_indicator_run;
pub mod ordered;
pub mod random;
pub mod report_indicator;
pub mod resumable_nested_executor;
pub mod reward;
pub mod risk_analysis;
pub mod rl_candle_categorical;
pub mod rl_candle_checkpoint;
pub mod rl_candle_collector;
pub mod rl_candle_dqn;
pub mod rl_candle_dqn_policy;
pub mod rl_candle_heads;
pub mod rl_candle_loss;
pub mod rl_candle_network;
pub mod rl_candle_nstep;
pub mod rl_candle_optimizer;
pub mod rl_candle_policy;
pub mod rl_candle_ppo;
pub mod rl_candle_replay;
pub mod rl_candle_returns;
pub mod rl_candle_rollout;
pub mod rl_candle_vessel;
pub mod rl_checkpoint_callback;
pub mod rl_checkpoint_decimal;
pub mod rl_checkpoint_file;
pub mod rl_checkpoint_format;
pub mod rl_checkpoint_locale;
pub mod rl_checkpoint_name;
pub mod rl_checkpoint_numeric;
pub mod rl_checkpoint_template;
pub mod rl_checkpoint_text;
pub mod rl_checkpoint_text_format;
pub mod rl_checkpoint_text_name;
pub mod rl_checkpoint_text_template;
pub mod rl_early_stopping;
pub mod rl_episodic_return;
pub mod rl_log_writer;
pub mod rl_metrics_writer;
pub mod rl_policy_batch;
pub mod rl_policy_checkpoint;
pub mod rl_policy_update;
pub mod rl_policy_weight;
pub mod rl_replay_index;
pub mod rl_trainer_checkpoint;
pub mod rl_trainer_driver;
pub mod rl_trainer_state;
pub mod rl_training_vessel;
pub mod saoe;
pub mod saoe_adapter_factory;
pub mod saoe_backtest_data;
pub mod saoe_backtest_load;
pub mod saoe_child_assembly;
pub mod saoe_infrastructure;
pub mod saoe_int_strategy;
pub mod saoe_interpreter;
pub mod saoe_live_generation;
pub mod saoe_live_market;
pub mod text;
pub mod trade_report;
pub mod unicode;
