//! The kinds of tokens and of tree nodes that the grammar speaks about.

use vstd::prelude::*;

verus! {

/// One shared vocabulary for token kinds (produced by the lexer) and node
/// kinds (assigned to completed event-log regions).  `Eof` is a sentinel the
/// cursor reports past the last token; it never occurs inside a token stream.
/// `Tombstone` marks an open-node placeholder whose kind is not decided yet,
/// or an abandoned one; the tree builder skips it.
#[derive(Clone, Copy, Debug, PartialEq, Eq, Structural)]
pub enum SyntaxKind {
    // Sentinels.
    Eof,
    Tombstone,
    // Tokens.
    Shebang,
    Ident,
    IntNumber,
    Str,
    LifetimeIdent,
    PubKw,
    CrateKw,
    SelfKw,
    SuperKw,
    InKw,
    AsKw,
    AbiKw,
    Underscore,
    Semicolon,
    PathSep,
    Plus,
    EqSign,
    ThinArrow,
    LParen,
    RParen,
    LCurly,
    RCurly,
    LBrack,
    RBrack,
    // Nodes.
    Error,
    SourceFile,
    MacroStmts,
    MacroItems,
    Visibility,
    Rename,
    Abi,
    RetType,
    Name,
    NameRef,
    Lifetime,
    Path,
    ParenType,
    WildcardPat,
    IdentPat,
    LiteralPat,
    ParenPat,
    BlockExpr,
    BinExpr,
    ParenExpr,
    ArrayExpr,
    Literal,
    ExprStmt,
    Item,
    Meta,
    TokenTree,
    RecordFieldList,
    RecordExprFieldList,
    VariantList,
    MatchArmList,
    UseTreeList,
    ForeignItemList,
    AssocItemList,
    ItemList,
    Impl,
    Trait,
}

} // verus!
