//! A pretty-printer in the style of Wadler and Leijen: documents describe
//! text together with the places where a line may break, and the renderer
//! picks, group by group, a layout that fits the page width when it can.
pub mod builder;
pub mod doc;
pub mod laws;
pub mod output;
pub mod render;

pub use crate::builder::{BoxAllocator, BuildDoc, DocAllocator, DocBuilder, RcAllocator};
pub use crate::doc::{ColumnFn, Doc, DocV, FnV};
pub use crate::output::Pretty;
pub use crate::render::{best, Cmd, CmdV, Emit, EmitV, Mode};
