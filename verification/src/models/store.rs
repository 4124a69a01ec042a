//! The rules of the model file store: which files of a directory are
//! models, the order in which they are listed, and the errors for missing
//! files and for listings of something that is no directory.
use vstd::prelude::*;
use vstd::string::*;
use crate::error::Error;
use crate::listing::{scad_models, scad_models_of, sorted_names, sorted_texts};

verus! {

broadcast use vstd::string::group_string_axioms;

/// Model file store.
pub struct ModelStore;

impl ModelStore {
    /// The error for an operation on a model file that does not exist.
    pub fn missing_model(path: &str) -> (e: Error)
        ensures
            e matches Error::Validation(m) && m@ == "Model file not found: "@ + path@,
    {
        Error::Validation(String::from_str("Model file not found: ").concat(path))
    }

    /// The error for a listing of a path that exists and is no directory.
    pub fn not_a_directory() -> (e: Error)
        ensures
            e matches Error::Validation(m) && m@ == "Path is not a directory"@,
    {
        Error::Validation(String::from_str("Path is not a directory"))
    }

    /// The models among the names of the regular files of a directory: those
    /// with the extension `scad`, ordered.
    pub fn model_files(file_names: &Vec<String>) -> (r: Vec<String>)
        ensures
            sorted_texts(r.deep_view()),
            r.deep_view().to_multiset() == scad_models_of(file_names.deep_view()).to_multiset(),
    {
        let models = scad_models(file_names);
        sorted_names(&models)
    }
}

} // verus!
