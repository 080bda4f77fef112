pub mod dispatch;
pub mod doc;
pub mod error;
pub mod model;
pub mod tree;
pub mod tsv;
