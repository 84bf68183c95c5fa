pub mod action;
pub mod connector;
pub mod naming;
pub mod reconcile;
pub mod registry;
pub mod relay;
