pub mod queue;
