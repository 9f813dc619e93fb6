pub mod rules;
pub mod typecheck;
