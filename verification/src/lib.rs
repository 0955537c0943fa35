//! Formchain: a form-submission ledger and a premium-user registry for
//! canisters on the Internet Computer.

pub mod encoding;
pub mod sealing;
pub mod text_map;
pub mod form;
pub mod ledger;
pub mod principal;
pub mod registry;
pub mod routes;
