pub mod args;
pub mod builder;
pub mod calls;
pub mod engine;
pub mod error;
pub mod laws;
pub mod merge;
pub mod path;
pub mod resolve;
pub mod templates;
pub mod text;
pub mod trusted;
pub mod value;

pub use builder::TomlBuilder;
pub use calls::Call;
pub use calls::Param;
pub use calls::ParamGuard;
pub use calls::TryCall;
pub use engine::Session;
pub use engine::Step;
pub use engine::Work;
pub use error::Error;
pub use merge::merge_use_second;
pub use path::Action;
pub use path::Operation;
pub use path::TomlPath;
pub use templates::FromFile;
pub use templates::GlobPattern;
pub use templates::RunCommand;
pub use templates::Templates;
pub use value::Node;
pub use value::Val;
