//! Extraction of the typed argument signature declared in the variable header
//! of a GraphQL operation (`query($name: Type = default, ...)`).
//!
//! Declarations are recognised lexically anywhere in the text, leftmost first
//! and without overlap; each becomes an `Arg` whose kind comes from a small
//! scalar table and whose default is read as an integer or a float where the
//! kind asks for it and the token allows it.
pub mod declaration;
pub mod laws;
pub mod lexical;
pub mod numeric;
pub mod signature;
pub mod types;
