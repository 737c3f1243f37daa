//! Authentication core of a multi-role educational platform: password-based
//! registration and login, one-way password storage, stateless signed bearer
//! tokens, and token validation used as a request gate.
//!
//! The pieces, leaf first: [`bytestr`], [`b64`] and [`json`] hold the byte,
//! base64url and claims-body codecs; [`role`] and [`claims`] the data the
//! tokens carry; [`hasher`] the one-way password hashing; [`token`] mints and
//! opens tokens; [`user`] and [`directory`] hold the identity records with
//! their uniqueness invariant; [`service`] owns the business rules of
//! registration and login; [`gate`] turns an authorization header into
//! verified claims; [`settings`] is the process configuration.

pub mod b64;
pub mod bytestr;
pub mod claims;
pub mod directory;
pub mod errors;
pub mod gate;
pub mod hasher;
pub mod json;
pub mod role;
pub mod service;
pub mod settings;
pub mod token;
pub mod user;
