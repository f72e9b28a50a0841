//! A fixed-size bitset over token kinds, used for recovery stop-sets and
//! fast membership tests during lookahead.

use vstd::prelude::*;

use crate::syntax_kind::SyntaxKind;

verus! {

/// The bit position a kind occupies inside a `TokenSet`.
pub open spec fn spec_kind_bit(k: SyntaxKind) -> u128 {
    match k {
        SyntaxKind::Eof => 0,
        SyntaxKind::Tombstone => 1,
        SyntaxKind::Shebang => 2,
        SyntaxKind::Ident => 3,
        SyntaxKind::IntNumber => 4,
        SyntaxKind::Str => 5,
        SyntaxKind::LifetimeIdent => 6,
        SyntaxKind::PubKw => 7,
        SyntaxKind::CrateKw => 8,
        SyntaxKind::SelfKw => 9,
        SyntaxKind::SuperKw => 10,
        SyntaxKind::InKw => 11,
        SyntaxKind::AsKw => 12,
        SyntaxKind::AbiKw => 13,
        SyntaxKind::Underscore => 14,
        SyntaxKind::Semicolon => 15,
        SyntaxKind::PathSep => 16,
        SyntaxKind::Plus => 17,
        SyntaxKind::EqSign => 18,
        SyntaxKind::ThinArrow => 19,
        SyntaxKind::LParen => 20,
        SyntaxKind::RParen => 21,
        SyntaxKind::LCurly => 22,
        SyntaxKind::RCurly => 23,
        SyntaxKind::LBrack => 24,
        SyntaxKind::RBrack => 25,
        SyntaxKind::Error => 26,
        SyntaxKind::SourceFile => 27,
        SyntaxKind::MacroStmts => 28,
        SyntaxKind::MacroItems => 29,
        SyntaxKind::Visibility => 30,
        SyntaxKind::Rename => 31,
        SyntaxKind::Abi => 32,
        SyntaxKind::RetType => 33,
        SyntaxKind::Name => 34,
        SyntaxKind::NameRef => 35,
        SyntaxKind::Lifetime => 36,
        SyntaxKind::Path => 37,
        SyntaxKind::ParenType => 38,
        SyntaxKind::WildcardPat => 39,
        SyntaxKind::IdentPat => 40,
        SyntaxKind::LiteralPat => 41,
        SyntaxKind::ParenPat => 42,
        SyntaxKind::BlockExpr => 43,
        SyntaxKind::BinExpr => 44,
        SyntaxKind::ParenExpr => 45,
        SyntaxKind::ArrayExpr => 46,
        SyntaxKind::Literal => 47,
        SyntaxKind::ExprStmt => 48,
        SyntaxKind::Item => 49,
        SyntaxKind::Meta => 50,
        SyntaxKind::TokenTree => 51,
        SyntaxKind::RecordFieldList => 52,
        SyntaxKind::RecordExprFieldList => 53,
        SyntaxKind::VariantList => 54,
        SyntaxKind::MatchArmList => 55,
        SyntaxKind::UseTreeList => 56,
        SyntaxKind::ForeignItemList => 57,
        SyntaxKind::AssocItemList => 58,
        SyntaxKind::ItemList => 59,
        SyntaxKind::Impl => 60,
        SyntaxKind::Trait => 61,
    }
}

pub fn kind_bit(k: SyntaxKind) -> (b: u128)
    ensures
        b == spec_kind_bit(k),
        b < 128,
{
    match k {
        SyntaxKind::Eof => 0,
        SyntaxKind::Tombstone => 1,
        SyntaxKind::Shebang => 2,
        SyntaxKind::Ident => 3,
        SyntaxKind::IntNumber => 4,
        SyntaxKind::Str => 5,
        SyntaxKind::LifetimeIdent => 6,
        SyntaxKind::PubKw => 7,
        SyntaxKind::CrateKw => 8,
        SyntaxKind::SelfKw => 9,
        SyntaxKind::SuperKw => 10,
        SyntaxKind::InKw => 11,
        SyntaxKind::AsKw => 12,
        SyntaxKind::AbiKw => 13,
        SyntaxKind::Underscore => 14,
        SyntaxKind::Semicolon => 15,
        SyntaxKind::PathSep => 16,
        SyntaxKind::Plus => 17,
        SyntaxKind::EqSign => 18,
        SyntaxKind::ThinArrow => 19,
        SyntaxKind::LParen => 20,
        SyntaxKind::RParen => 21,
        SyntaxKind::LCurly => 22,
        SyntaxKind::RCurly => 23,
        SyntaxKind::LBrack => 24,
        SyntaxKind::RBrack => 25,
        SyntaxKind::Error => 26,
        SyntaxKind::SourceFile => 27,
        SyntaxKind::MacroStmts => 28,
        SyntaxKind::MacroItems => 29,
        SyntaxKind::Visibility => 30,
        SyntaxKind::Rename => 31,
        SyntaxKind::Abi => 32,
        SyntaxKind::RetType => 33,
        SyntaxKind::Name => 34,
        SyntaxKind::NameRef => 35,
        SyntaxKind::Lifetime => 36,
        SyntaxKind::Path => 37,
        SyntaxKind::ParenType => 38,
        SyntaxKind::WildcardPat => 39,
        SyntaxKind::IdentPat => 40,
        SyntaxKind::LiteralPat => 41,
        SyntaxKind::ParenPat => 42,
        SyntaxKind::BlockExpr => 43,
        SyntaxKind::BinExpr => 44,
        SyntaxKind::ParenExpr => 45,
        SyntaxKind::ArrayExpr => 46,
        SyntaxKind::Literal => 47,
        SyntaxKind::ExprStmt => 48,
        SyntaxKind::Item => 49,
        SyntaxKind::Meta => 50,
        SyntaxKind::TokenTree => 51,
        SyntaxKind::RecordFieldList => 52,
        SyntaxKind::RecordExprFieldList => 53,
        SyntaxKind::VariantList => 54,
        SyntaxKind::MatchArmList => 55,
        SyntaxKind::UseTreeList => 56,
        SyntaxKind::ForeignItemList => 57,
        SyntaxKind::AssocItemList => 58,
        SyntaxKind::ItemList => 59,
        SyntaxKind::Impl => 60,
        SyntaxKind::Trait => 61,
    }
}

/// A set of token kinds, one bit per kind.
#[derive(Clone, Copy, Debug)]
pub struct TokenSet {
    pub bits: u128,
}

impl TokenSet {
    /// Whether `k` belongs to the set.
    pub open spec fn has(self, k: SyntaxKind) -> bool {
        (self.bits >> spec_kind_bit(k)) & 1 == 1
    }

    /// The set with no kinds in it.
    pub fn empty() -> (r: TokenSet)
        ensures
            forall|k: SyntaxKind| !r.has(k),
    {
        let r = TokenSet { bits: 0 };
        proof {
            assert forall|k: SyntaxKind| !r.has(k) by {
                let b = spec_kind_bit(k);
                assert((0u128 >> b) & 1 == 0) by (bit_vector);
            }
        }
        r
    }

    /// The set extended with `k`.
    pub fn with(self, k: SyntaxKind) -> (r: TokenSet)
        ensures
            r.has(k),
            forall|k2: SyntaxKind| self.has(k2) ==> r.has(k2),
            forall|k2: SyntaxKind|
                r.has(k2) ==> self.has(k2) || spec_kind_bit(k2) == spec_kind_bit(k),
    {
        let b = kind_bit(k);
        let r = TokenSet { bits: self.bits | (1u128 << b) };
        proof {
            let bits = self.bits;
            assert forall|k2: SyntaxKind| #[trigger] r.has(k2) == (self.has(k2) || spec_kind_bit(
                k2,
            ) == b) by {
                let b2 = spec_kind_bit(k2);
                assert(b2 < 128);
                assert(b < 128 ==> b2 < 128 ==> (((bits | (1u128 << b)) >> b2) & 1 == 1) == ((
                (bits >> b2) & 1 == 1) || b2 == b)) by (bit_vector);
            }
        }
        r
    }

    /// Executable membership test.
    pub fn contains(&self, k: SyntaxKind) -> (r: bool)
        ensures
            r == self.has(k),
    {
        let b = kind_bit(k);
        (self.bits >> b) & 1 == 1
    }
}

} // verus!
