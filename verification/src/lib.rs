//! Decision logic of a stream-processing pipeline: its configuration, the
//! edges its stages exchange events over, the control loops that scale and
//! reshape it while it runs, and what it reports about itself.

pub mod text;
pub mod numtext;
pub mod payload;
pub mod inproc;
pub mod spsc;
pub mod eos;
pub mod hist;
pub mod timing;
pub mod topk;
pub mod window;
pub mod live;
pub mod live_laws;
pub mod fold;
pub mod stream_laws;
pub mod config;
pub mod morph;
pub mod morph_laws;
pub mod controller;
pub mod controller_laws;
pub mod transition;
pub mod control_loop;
pub mod autoscaler;
pub mod scaling_laws;
pub mod wiring;
pub mod wiring_laws;
pub mod startup;
pub mod loop_laws;
pub mod ordered;
pub mod pipeline_spec;
pub mod spec_laws;
pub mod toml_text;
pub mod codegen;
pub mod codegen_laws;
pub mod runtime_yaml;
pub mod runtime_laws;
pub mod scaffold;
pub mod generate;
pub mod json;
pub mod dispatcher;
pub mod dispatch_laws;
pub mod signature;
pub mod validator;
pub mod machine;
pub mod supervisor;
pub mod launch_laws;
pub mod orchestrate;
pub mod calendar;
pub mod logger;
pub mod wire;
pub mod envelope;
pub mod typed;
pub mod boundary;
pub mod telemetry;
pub mod stats;
pub mod summary;
pub mod report;
pub mod report_laws;
pub mod run_laws;
pub mod event_laws;
pub mod block_laws;
pub mod topology_laws;
pub mod text_laws;
pub mod day_laws;
