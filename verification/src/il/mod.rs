//! Stack code.
pub mod codebuf;
pub mod dense;
pub mod flow;
pub mod heights;
pub mod loops;
pub mod op;
pub mod run;
pub mod sp;
pub mod strength;
pub mod strides;
pub mod tell;
pub mod treeshake;
