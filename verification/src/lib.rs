//! Verified core of the MakePay SDK: checkout URLs and embed snippets,
//! webhook signature verification, client configuration and request planning.

pub mod error;
pub mod text;
pub mod url_model;
pub mod checkout;
pub mod html;
pub mod webhook;
pub mod json;
pub mod options;
pub mod client;
