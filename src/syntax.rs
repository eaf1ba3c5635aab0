use vstd::prelude::*;

verus! {

/// Whether the text parses as one Rust item.
pub uninterp spec fn item_parses(s: Seq<char>) -> bool;

/// Whether the text parses as one item of a trait body.
pub uninterp spec fn trait_member_parses(s: Seq<char>) -> bool;

/// Whether the text parses as one item of an impl block.
pub uninterp spec fn impl_member_parses(s: Seq<char>) -> bool;

/// The declared return type of a method, as token text; `None` when the text
/// is no method or declares no return type.
pub uninterp spec fn return_type_of(s: Seq<char>) -> Option<Seq<char>>;

/// The function or method that the text holds, printed as tokens with the
/// statements of its body removed; `None` when the text is no function.
pub uninterp spec fn stub_of(s: Seq<char>) -> Option<Seq<char>>;

/// The trait or impl block that the text holds, printed as tokens with its
/// members removed; `None` when the text is neither.
pub uninterp spec fn emptied_block_of(s: Seq<char>) -> Option<Seq<char>>;

pub open spec fn opt_text(r: Option<String>) -> Option<Seq<char>> {
    match r {
        Some(s) => Some(s@),
        None => None,
    }
}

/// Relies on `syn::parse_str::<syn::Item>`: whether the text is one item.
#[verifier::external_body]
pub(crate) fn parses_as_item(s: &str) -> (r: bool)
    ensures
        r == item_parses(s@),
{
    syn::parse_str::<syn::Item>(s).is_ok()
}

/// Relies on `syn::parse_str::<syn::TraitItem>`: whether the text is one trait item.
#[verifier::external_body]
pub(crate) fn parses_as_trait_member(s: &str) -> (r: bool)
    ensures
        r == trait_member_parses(s@),
{
    syn::parse_str::<syn::TraitItem>(s).is_ok()
}

/// Relies on `syn::parse_str::<syn::ImplItem>`: whether the text is one impl item.
#[verifier::external_body]
pub(crate) fn parses_as_impl_member(s: &str) -> (r: bool)
    ensures
        r == impl_member_parses(s@),
{
    syn::parse_str::<syn::ImplItem>(s).is_ok()
}

/// Relies on `syn::parse_str::<syn::ImplItemFn>` to read a method's signature,
/// and on `quote::ToTokens::to_token_stream` to print its return type.
#[verifier::external_body]
pub(crate) fn method_return_type(s: &str) -> (r: Option<String>)
    ensures
        opt_text(r) == return_type_of(s@),
{
    match syn::parse_str::<syn::ImplItemFn>(s) {
        Ok(f) => match f.sig.output {
            syn::ReturnType::Type(_, t) => Some(quote::ToTokens::to_token_stream(&*t).to_string()),
            syn::ReturnType::Default => None,
        },
        Err(_) => None,
    }
}

/// Relies on `syn::parse_str::<syn::ImplItemFn>` to read a function (a free
/// function reads as one too), on emptying its `block.stmts`, and on
/// `quote::ToTokens::to_token_stream` to print it again.
#[verifier::external_body]
pub(crate) fn function_stub(s: &str) -> (r: Option<String>)
    ensures
        opt_text(r) == stub_of(s@),
{
    match syn::parse_str::<syn::ImplItemFn>(s) {
        Ok(mut f) => {
            f.block.stmts.clear();
            Some(quote::ToTokens::to_token_stream(&f).to_string())
        },
        Err(_) => None,
    }
}

/// Relies on `syn::parse_str::<syn::Item>` to read a trait or impl block, on
/// emptying its `items`, and on `quote::ToTokens::to_token_stream` to print it again.
#[verifier::external_body]
pub(crate) fn emptied_block(s: &str) -> (r: Option<String>)
    ensures
        opt_text(r) == emptied_block_of(s@),
{
    match syn::parse_str::<syn::Item>(s) {
        Ok(syn::Item::Trait(mut t)) => {
            t.items.clear();
            Some(quote::ToTokens::to_token_stream(&t).to_string())
        },
        Ok(syn::Item::Impl(mut i)) => {
            i.items.clear();
            Some(quote::ToTokens::to_token_stream(&i).to_string())
        },
        Ok(_) => None,
        Err(_) => None,
    }
}

} // verus!
