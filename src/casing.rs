use heck::ToKebabCase;
use vstd::prelude::*;

verus! {

/// The kebab-cased form of an identifier, as `heck` computes it: lowercase
/// words joined by hyphens.
pub uninterp spec fn kebab_of(s: Seq<char>) -> Seq<char>;

/// Relies on `heck::ToKebabCase::to_kebab_case` for `str`, whose result
/// depends on the characters of its input alone.
#[verifier::external_body]
pub(crate) fn kebab_case(s: &str) -> (r: String)
    ensures
        r@ == kebab_of(s@),
{
    s.to_kebab_case()
}

} // verus!
