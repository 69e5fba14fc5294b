//! Static semantics of R programs: lowering of syntax trees, naming, type
//! inference, annotations, lints, and package metadata.
//!
//! An item's tree is lowered to an arena of expressions (`lowering`), its names
//! are resolved against the writes that reach them (`naming`), and its types
//! are inferred and checked (`check`). Each stage states what it computes over
//! a model of its own: `arena`, `walk`, and `inference`.

pub mod access;
pub mod agreement;
pub mod annotations;
pub mod arena;
pub mod arithmetic;
pub mod blame;
pub mod blocks;
pub mod building;
pub mod calls;
pub mod casing;
pub mod check;
pub mod checker;
pub mod checking;
pub mod choosing;
pub mod closing;
pub mod compatible;
pub mod declarations;
pub mod declared;
pub mod demands;
pub mod description;
pub mod diagnostics;
pub mod elements;
pub mod environment;
pub mod explain;
pub mod expressions;
pub mod findings;
pub mod fitting;
pub mod flow;
pub mod forms;
pub mod fx;
pub mod globals;
pub mod hir;
pub mod infer;
pub mod inference;
pub mod judgements;
pub mod lints;
pub mod literals;
pub mod lowering;
pub mod matching;
pub mod metadata;
pub mod naming;
pub mod narrowing;
pub mod naturals;
pub mod notations;
pub mod numbers;
pub mod operands;
pub mod operations;
pub mod order;
pub mod overloads;
pub mod packages;
pub mod pairing;
pub mod parts;
pub mod passes;
pub mod placement;
pub mod positions;
pub mod promotion;
pub mod reaching;
pub mod reading;
pub mod reads;
pub mod remarks;
pub mod replacing;
pub mod schemes;
pub mod sources;
pub mod spellings;
pub mod steps;
pub mod syntax;
pub mod table;
pub mod text;
pub mod trees;
pub mod type_ops;
pub mod types;
pub mod unify;
pub mod unions;
pub mod variables;
pub mod walk;
pub mod wordings;
