//! Certificate issuance and renewal for an agent that runs inside a trusted
//! execution environment.

pub mod common_name;
pub mod csr;
pub mod der;
pub mod flow;
pub mod gpu;
pub mod ip;
pub mod ip_text;
pub mod json;
pub mod keygen;
pub mod outcome;
pub mod report_data;
pub mod runs;
pub mod san;
pub mod settings;
pub mod text;
