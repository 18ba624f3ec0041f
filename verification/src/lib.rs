//! The decision core of a small capability kernel.

pub mod artifact;
pub mod cap;
pub mod cap_laws;
pub mod caps;
pub mod cas;
pub mod chunk;
pub mod cleanup;
pub mod cleanup_codec;
pub mod cleanup_laws;
pub mod client;
pub mod clock;
pub mod codec_laws;
pub mod consent;
pub mod consent_laws;
pub mod declaration;
pub mod decode;
pub mod digest;
pub mod digits;
pub mod egress;
pub mod error;
pub mod eval;
pub mod eval_laws;
pub mod event_laws;
pub mod events;
pub mod flow_laws;
pub mod frag;
pub mod frame;
pub mod grants;
pub mod handle;
pub mod handshake;
pub mod host;
pub mod host_cleanup;
pub mod host_laws;
pub mod interp;
pub mod json;
pub mod label;
pub mod ledger_laws;
pub mod message_laws;
pub mod metrics;
pub mod migration_laws;
pub mod outcome_laws;
pub mod pattern;
pub mod plan;
pub mod plan_approval;
pub mod plan_demand;
pub mod plan_interp;
pub mod plan_ir;
pub mod plan_laws;
pub mod plan_lifecycle;
pub mod plan_runtime;
pub mod plan_service;
pub mod plan_types;
pub mod plancheck;
pub mod reach_laws;
pub mod reconcile;
pub mod record_laws;
pub mod records;
pub mod recovery;
pub mod resources;
pub mod retirement;
pub mod routing;
pub mod routing_laws;
pub mod run_laws;
pub mod segments;
pub mod service_laws;
pub mod step_laws;
pub mod store;
pub mod strmap;
pub mod substrate;
pub mod text;
pub mod wire;
pub mod world;
