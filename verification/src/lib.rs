//! Sessions of a quiz that live in a signed token: nothing is kept between
//! requests. A session records the answers given quiz by quiz and the
//! points drawn from prize wheels; the catalog of quizzes, codes and wheels
//! says what they are worth.

pub mod assoc;
pub mod catalog;
pub mod chance;
pub mod codec;
pub mod controllers;
pub mod filters;
pub mod models;
pub mod progress;
pub mod redeem;
pub mod scoring;
pub mod text;
