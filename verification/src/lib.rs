//! Conversion of vCard address books into a three-column CSV table.
//!
//! Every contact becomes one row: its e-mail address, its full name and a
//! JSON-like summary of its remaining properties.
//!
//! The way through the modules, from the bytes of a file to the table:
//! [`decode`] turns bytes into text, [`vcard`] reads the text into contacts,
//! [`extract`] takes the e-mail address and the full name out of a contact,
//! [`serialize`] writes what is left of it as one string, [`emit`] makes the
//! CSV lines, and [`pipeline`] runs all of it. [`model`] holds the data,
//! [`text`] what is said about sequences of characters, and [`reading`] how
//! serialized attributes are read back.

pub mod decode;
pub mod emit;
pub mod extract;
pub mod model;
pub mod pipeline;
pub mod reading;
pub mod serialize;
pub mod text;
pub mod vcard;
