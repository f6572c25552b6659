# qlib_core

The core of a trading engine that learns to execute orders: reinforcement-learning trainers,
replay buffers, policies, checkpoints and their names, order indicators, risk statistics and the
execution of single-asset orders. The decisions of all of these are a library that Verus verifies;
what computes with tensors, files and clocks stands around it.

## Layout

- `src/` is the verified library. Each module states its model in spec functions, its functions in
  contracts over them, and its laws in public proof functions.
  - Numbers are abstract (`number`, `risk_analysis::Statistic` and the traits built on them), so
    that formulas are stated without floating point. `Ticks` is a number of the library's own;
    doubles come from outside.
  - Where plugins, files or networks take part, a module holds a state machine: it says what is
    done next, and takes the answer (`rl_trainer_driver`, `rl_checkpoint_callback`,
    `rl_early_stopping`, `resumable_nested_executor`, `rl_candle_collector`, `saoe_live_generation`
    and others).
  - Outside crates are called behind trusted wrappers. The doc comment of each names the function
    it calls and what is claimed of it.
- `tests/` runs the library on concrete values, with the outside crates linked.
- `app/` is ordinary Rust around the library: doubles, tensors, optimizers, files, clocks and the
  loops that drive the state machines.
