//! Export names of the runtime ABI that generated modules must satisfy.

use vstd::prelude::*;
use crate::text::{from_chars, to_chars};

verus! {

/// The stable runtime entry point name.
pub open spec fn spec_entry_export() -> Seq<char> {
    seq!['a', 'x', 'i', 'o', 'm', '_', 'e', 'n', 't', 'r', 'y', '_', 'm', 'a', 'i', 'n']
}

/// The legacy module entry name.
pub open spec fn spec_legacy_entry_export() -> Seq<char> {
    seq!['m', 'a', 'i', 'n']
}

/// The namespace that prefixes every contract export.
pub open spec fn spec_contract_namespace() -> Seq<char> {
    seq!['a', 'x', 'i', 'o', 'm', '_', 'c', 'o', 'n', 't', 'r', 'a', 'c', 't']
}

/// The `::` path separator.
pub open spec fn spec_path_sep() -> Seq<char> {
    seq![':', ':']
}

/// `<Contract>::<function>`.
pub open spec fn spec_selector(contract: Seq<char>, function: Seq<char>) -> Seq<char> {
    contract + spec_path_sep() + function
}

/// `axiom_contract::<Contract>::<function>`.
pub open spec fn spec_contract_export(contract: Seq<char>, function: Seq<char>) -> Seq<char> {
    spec_contract_namespace() + spec_path_sep() + spec_selector(contract, function)
}

/// The stable runtime entry export, `axiom_entry_main`.
pub fn entry_export() -> (r: String)
    ensures
        r@ == spec_entry_export(),
{
    let cs: Vec<char> = vec!['a', 'x', 'i', 'o', 'm', '_', 'e', 'n', 't', 'r', 'y', '_', 'm', 'a', 'i', 'n'];
    assert(cs@ == spec_entry_export());
    from_chars(cs.as_slice())
}

/// The legacy entry export, `main`.
pub fn legacy_entry_export() -> (r: String)
    ensures
        r@ == spec_legacy_entry_export(),
{
    let cs: Vec<char> = vec!['m', 'a', 'i', 'n'];
    assert(cs@ == spec_legacy_entry_export());
    from_chars(cs.as_slice())
}

/// `<contract>::<function>`.
pub fn selector(contract: &str, function: &str) -> (r: String)
    ensures
        r@ == spec_selector(contract@, function@),
{
    let mut cs = to_chars(contract);
    cs.push(':');
    cs.push(':');
    let mut f = to_chars(function);
    cs.append(&mut f);
    assert(cs@ == spec_selector(contract@, function@));
    from_chars(cs.as_slice())
}

/// The runtime export name of a contract method: `axiom_contract::<contract>::<function>`.
pub fn contract_export(contract: &str, function: &str) -> (r: String)
    ensures
        r@ == spec_contract_export(contract@, function@),
{
    let mut cs: Vec<char> = vec!['a', 'x', 'i', 'o', 'm', '_', 'c', 'o', 'n', 't', 'r', 'a', 'c', 't', ':', ':'];
    let sel = selector(contract, function);
    let mut rest = to_chars(sel.as_str());
    cs.append(&mut rest);
    assert(cs@ == spec_contract_export(contract@, function@));
    from_chars(cs.as_slice())
}

} // verus!
