//! Attribution of collected news documents to the cities they speak of.

pub mod city_index;
pub mod doubles;
pub mod file_io;
pub mod gazetteer;
pub mod link_context;
pub mod models;
pub mod parallel_processing;
pub mod parts;
pub mod processing;
pub mod proximity;
pub mod sentences;
pub mod strings;
pub mod text_processing;
pub mod word_set;
