//! Batch submission of image files to a remote endpoint: which directory
//! entries count as images, how an image travels as base64 text inside a
//! JSON request, how an answer becomes a row of the log, and the state
//! machines that drive one image and the whole run.

pub mod discovery;
pub mod encoding;
pub mod pipeline;
pub mod pool;
pub mod record;
pub mod request;
