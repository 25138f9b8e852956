pub mod key_index;
pub mod indexed_store;
pub mod cache;
pub mod indexed_matrix;
