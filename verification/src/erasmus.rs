//! The project files of the Erasmus installation: plain texts,
//! and every question with a fixed list of options.
use vstd::prelude::*;

verus! {

/// A poll of the Erasmus installation.
#[derive(Debug)]
pub struct Project {
    pub name: String,
    pub key: String,
    pub themes: Vec<Theme>,
}

/// A theme of the Erasmus installation.
#[derive(Debug)]
pub struct Theme {
    pub name: String,
    pub key: String,
    pub questions: Vec<Question>,
}

/// A question of the Erasmus installation.
#[derive(Debug)]
pub struct Question {
    pub title: String,
    pub key: String,
    pub options: Vec<Option>,
}

/// An answer that a question of the Erasmus installation offers.
#[derive(Debug)]
pub struct Option {
    pub key: String,
    pub value: String,
}

} // verus!
