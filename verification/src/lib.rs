//! Spotting loanwords in Russian text and suggesting native replacements.
pub mod answer;
pub mod glossary;
pub mod mode;
pub mod morpheme;
pub mod similarity;
pub mod text;
pub mod word;
