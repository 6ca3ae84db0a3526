pub mod generics;
pub mod lifetimes;
pub mod limit_tracker;
pub mod match_control_flow;
pub mod object_oriented;
pub mod references_borrowing;
pub mod slice;
pub mod smart_pointers;
pub mod structs;
pub mod summary;
pub mod tree;
pub mod tree_laws;
