//! The kinds of token the grammar can request or receive.

use vstd::prelude::*;

verus! {

/// A token kind. Three families:
/// - literal-family markers (`NAME`, `NUMBER`, `STRING`, `CHAR`), used to
///   request a literal whose value is not known in advance;
/// - structural markers (`BEGIN`, `END`, `NEWLINE`), synthesized from layout;
/// - keyword and operator kinds (`LET`, `TYPE`, `PLUS`, `MUL`, `EQ`, `NEQ`,
///   `PRINT`), which carry no payload.
#[derive(Clone, Copy, PartialEq, Eq, Hash, Debug, Structural)]
#[allow(non_camel_case_types)]
pub enum TokenType {
    LET,
    TYPE,
    PLUS,
    MUL,
    EQ,
    NEQ,
    STRING,
    NUMBER,
    NAME,
    CHAR,
    BEGIN,
    END,
    NEWLINE,
    PRINT,
}

} // verus!
