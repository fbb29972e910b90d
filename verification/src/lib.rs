//! The shader node graph model.
//!
//! A graph describes a *surface*, not a whole shader: nodes read what is known
//! of a fragment, compute, and end in the surface that a lighting model shades.
//! [`codegen`] wraps it in the entry points and imports of the shader interface
//! ([`abi`]) and writes one module per [`abi::MaterialStage`], so that one graph
//! drives every pipeline. A graph also says what it needs from outside itself:
//! uniform parameters, textures, samplers, attributes of the geometry, and a
//! block that the application supplies ([`resources::MaterialInterface`]).
//!
//! Every type has a view that the contracts speak of, and every function says
//! what it returns over those views. What holds across functions stands in
//! public proof functions: beside the functions they are about, or in
//! [`soundness`] (editing a graph), [`validate_laws`] and [`valid_laws`] (what
//! its problems mean, and what it means to have none), [`interface_laws`] (what
//! it asks to be bound), [`emit_laws`] (what its nodes write), [`head_laws`],
//! [`module_laws`] and [`codegen_laws`] (what stands in a module), [`parked`]
//! and [`pinned`] (what does not change one), [`layout_laws`] (buffers and
//! locations), [`lighting_laws`] and [`deferred_laws`] (shading), [`value_laws`]
//! (values) and [`tag_laws`] (writing and reading tag expressions).
//!
//! - The graph: [`ids`], [`value`], [`node`], [`macros`], [`graph`], [`wiring`],
//!   [`typing`], [`traversal`], [`topology`], [`outputs`], [`interface`],
//!   [`graph_macros`], [`stages`], [`validate`], [`wire`], [`error`].
//! - Compiling: [`expr`], [`emit`], [`partition`], [`assemble`], [`codegen`],
//!   [`lighting`], [`resources`], [`abi`], [`material`], [`pipeline`],
//!   [`template`], [`wxsl`].
//! - The scene: [`scene`], [`tags`], [`tag_expr`].
//! - What the rest is built of: [`text`], [`lists`], [`sorting`], [`copies`],
//!   [`idmap`], [`textmap`], [`float`], [`big`], [`literal`].

use vstd::prelude::*;

pub mod abi;
pub mod assemble;
pub mod big;
pub mod codegen;
pub mod codegen_laws;
pub mod copies;
pub mod deferred_laws;
pub mod emit;
pub mod emit_laws;
pub mod error;
pub mod expr;
pub mod float;
pub mod graph;
pub mod graph_macros;
pub mod head_laws;
pub mod idmap;
pub mod ids;
pub mod interface;
pub mod interface_laws;
pub mod layout_laws;
pub mod lighting;
pub mod lighting_laws;
pub mod lists;
pub mod literal;
pub mod macros;
pub mod material;
pub mod module_laws;
pub mod node;
pub mod outputs;
pub mod parked;
pub mod partition;
pub mod pinned;
pub mod pipeline;
pub mod resources;
pub mod scene;
pub mod sorting;
pub mod soundness;
pub mod stages;
pub mod tag_expr;
pub mod tag_laws;
pub mod tags;
pub mod template;
pub mod text;
pub mod textmap;
pub mod topology;
pub mod traversal;
pub mod typing;
pub mod valid_laws;
pub mod validate;
pub mod validate_laws;
pub mod value;
pub mod value_laws;
pub mod wire;
pub mod wiring;
pub mod wxsl;

pub use crate::error::{CodegenError, GraphError, GraphErrors};
pub use crate::graph::{Edge, Graph, Node, NodeId, SocketRef};
pub use crate::macros::{MacroDef, MacroKind, MacroSet, MacroValue};
pub use crate::node::{NodeDefinition, NodeRegistry, Socket, Value, ValueType, WxslFunction};
pub use crate::resources::{
    BufferLayout, FieldLayout, MaterialInterface, ResourceBinding, UserBlock,
};
pub use crate::scene::{Instance, MaterialEntry, MeshEntry, MeshSource, Scene, TagExpr, Tags};

verus! {

} // verus!
