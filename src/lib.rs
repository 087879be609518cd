//! Local transcription dispatcher: the payload codec and line framing of the
//! daemon protocol, the decisions of the daemon supervisor and of the client
//! dispatcher, and the vocabulary merge.

pub mod record;
pub mod request;
pub mod text;
pub mod vocab;
pub mod response;
pub mod supervisor;
pub mod dispatch;
pub mod frame;
