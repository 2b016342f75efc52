/// The library's JSON value and its text.
pub mod json;
/// Texts: their order, numbers in decimal and hexadecimal, upper case.
pub mod text;
/// The functions of a contract's ABI, their order and their overload names.
pub mod abi;
/// The header and router of each contract of a compiler output document.
pub mod emit;
/// Properties of the generated files.
pub mod laws;
