pub mod normalization;
pub mod parsing;
pub mod patterns;
