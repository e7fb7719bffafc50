pub mod scope;
pub mod scope_manager;
pub mod stack;
pub mod stack_frame;
