pub mod canon;
pub mod dns;
pub mod fetch;
pub mod parse;
pub mod persist;
pub mod recover;
pub mod run;
pub mod policy;
pub mod robots;
pub mod scheduler;
pub mod types;
pub mod urlparts;
