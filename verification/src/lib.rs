//! Verified core of a federated-learning aggregation engine.
//!
//! The numerical kernels (training, clipping, distances) work on floating
//! point values and live outside this crate; what is proved here is the
//! structural logic around them: which indices a sparsified update carries,
//! what is banked as error-feedback residue, how flow records are cut into
//! training sequences, how the model's flat parameter vector is laid out,
//! when Krum may run and which submission it keeps, and how the anonymising
//! shuffler batches submissions.

pub mod krum;
pub mod protocol;
pub mod compression;
pub mod window;
pub mod shuffler;
pub mod layout;
pub mod flows;
