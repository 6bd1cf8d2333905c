pub mod scie_scanner;
pub mod utf_string;
