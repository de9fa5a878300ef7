//! Rust: `#[repr(C)]` structs, tag modules and payload structs.
use vstd::prelude::*;
use crate::idl::ast::Schema;
use crate::idl::codegen;
use crate::idl::codegen::Target;
use crate::idl::layout::SchemaLayout;

verus! {

/// Generates the code for a schema whose types all have a layout.
pub fn generate(schema: &Schema, layout: &SchemaLayout) -> (code: String)
    requires
        layout.wf(),
        codegen::covers(layout@, schema@.items),
    ensures
        code@ == codegen::code_text(Target::Rust, schema@, layout@),
{
    codegen::generate(Target::Rust, schema, layout)
}

} // verus!
