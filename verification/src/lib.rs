pub mod basic_types;
pub mod blackboard;
pub mod strmap;
pub mod text;
pub mod value;
pub mod nodes;
pub mod node_registry;
pub mod error;
pub mod xml;
pub mod parser;
pub mod tree;
pub mod scripting;
