//! Exam-marks classification: the deterministic parts of a small
//! train / evaluate / predict pipeline.
//!
//! - `label`: the three classes and the exact rule that maps a raw target
//!   code to one of them.
//! - `dataset`: a two-column table of loaded cells and the split of it into a
//!   feature column and a class per sample.
//! - `evaluate`: the confusion matrix of predicted against true classes, with
//!   the parts of accuracy and of the Matthews correlation coefficient.
//! - `correlation`: the proof that the coefficient lies within −1 and 1.
//!
//! Numeric cells travel as the IEEE-754 binary64 bit patterns of the values
//! they hold, so that exact-equality rules on them are stated and proved over
//! plain integers.

pub mod label;
pub mod dataset;
pub mod evaluate;
pub mod correlation;
