//! Recognizer for the envelope-address syntax of SMTP: the arguments of
//! `MAIL FROM` and `RCPT TO`, mailboxes, address literals and ESMTP
//! parameters, together with their canonical text form.

pub mod classes;
pub mod text;
pub mod model;
pub mod syntax;
pub mod parser;
pub mod render;
pub mod rfc5321;
pub mod laws;
pub mod shape;
