//! An s-expression based html templating system: templates are parsed into
//! an expression tree and evaluated against a context of caller data, with
//! tags dispatched to standard or caller-supplied handlers.

pub mod template;
pub mod context;
pub mod value;
pub mod semantics;
pub mod renderer;
mod builtins;
pub mod laws;

pub use crate::renderer::{Renderer, RendererBuilder, Attribute, Attributes, RenderError, TagHandler, NoHandler};
pub use crate::value::RenderValue;
pub use crate::template::{Template, TemplateExprNode, TemplateTag, TemplateAttribute, TemplateError, ParseExprError};
pub use crate::context::{RenderContext, RenderContextBuilder, ContextValue};
