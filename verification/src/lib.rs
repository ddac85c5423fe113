//! Vector memory: what a memory is, how it is addressed, what is asked of the store that
//! keeps it, and what the answers mean.

pub mod asked;
pub mod collection;
pub mod embed;
pub mod error;
pub mod filter;
pub mod item;
pub mod json;
pub mod ollama;
pub mod onnx;
pub mod phases;
pub mod point_id;
pub mod reading;
pub mod request;
pub mod store;
pub mod text;

pub use embed::NoEmbed;
pub use embed::Role;
pub use filter::retention_filter;
pub use filter::Query;
pub use item::Item;
pub use ollama::Ollama;
pub use onnx::Onnx;
pub use reading::Hit;
pub use store::Config;
pub use store::Stats;
pub use store::Store;
