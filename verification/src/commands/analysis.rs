//! Analysis commands: symbol classification.
//!
//! A symbol found by search is classified from its name and from the
//! source contexts its occurrences were found in, exactly as the result
//! reports it.  The search over files itself is I/O and stays outside.

use vstd::prelude::*;
use crate::bytes::{contains, spec_contains, spec_starts_with, spec_ends_with, starts_with,
    ends_with};

verus! {

pub struct AnalysisCommands;

/// What a symbol looks like from its name and occurrences.
#[derive(Clone, Copy, PartialEq, Eq, Structural, Debug)]
pub enum SymbolKind {
    ErrorType,
    Struct,
    Enum,
    Trait,
    Type,
    PredicateFunction,
    MutableFunction,
    FunctionOrVariable,
}

/// Does any of the context lines contain `p`?
pub open spec fn spec_any_context_contains(ctxs: Seq<Vec<u8>>, p: Seq<u8>) -> bool {
    exists|k: int| 0 <= k < ctxs.len() && spec_contains(#[trigger] ctxs[k]@, p)
}

/// The classification: an upper-case initial names a type, refined by
/// error-looking names and by `struct` / `enum` / `trait` occurrence
/// contexts; a lower-case initial names a function or variable, refined
/// by predicate prefixes and a mutator suffix.
pub open spec fn spec_classify_symbol(name: Seq<u8>, ctxs: Seq<Vec<u8>>) -> SymbolKind {
    if name.len() > 0 && 65 <= name[0] <= 90 {
        if spec_contains(name, seq![69u8, 114, 114, 111, 114]) || spec_contains(
            name,
            seq![69u8, 120, 99, 101, 112, 116, 105, 111, 110],
        ) {
            SymbolKind::ErrorType
        } else if spec_any_context_contains(ctxs, seq![115u8, 116, 114, 117, 99, 116]) {
            SymbolKind::Struct
        } else if spec_any_context_contains(ctxs, seq![101u8, 110, 117, 109]) {
            SymbolKind::Enum
        } else if spec_any_context_contains(ctxs, seq![116u8, 114, 97, 105, 116]) {
            SymbolKind::Trait
        } else {
            SymbolKind::Type
        }
    } else if spec_starts_with(name, seq![105u8, 115, 95]) || spec_starts_with(
        name,
        seq![104u8, 97, 115, 95],
    ) || spec_starts_with(name, seq![99u8, 97, 110, 95]) {
        SymbolKind::PredicateFunction
    } else if spec_ends_with(name, seq![95u8, 109, 117, 116]) {
        SymbolKind::MutableFunction
    } else {
        SymbolKind::FunctionOrVariable
    }
}

fn any_context_contains(ctxs: &Vec<Vec<u8>>, p: &[u8]) -> (r: bool)
    ensures
        r == spec_any_context_contains(ctxs@, p@),
{
    let n = ctxs.len();
    let mut i: usize = 0;
    while i < n
        invariant
            0 <= i <= n,
            n == ctxs@.len(),
            forall|k: int| 0 <= k < i ==> !spec_contains(#[trigger] ctxs@[k]@, p@),
        decreases n - i,
    {
        if contains(ctxs[i].as_slice(), p) {
            return true;
        }
        i = i + 1;
    }
    proof {
        assert(!spec_any_context_contains(ctxs@, p@)) by {
            if spec_any_context_contains(ctxs@, p@) {
                let k = choose|k: int|
                    0 <= k < ctxs@.len() && spec_contains(#[trigger] ctxs@[k]@, p@);
                assert(!spec_contains(ctxs@[k]@, p@));
            }
        }
    }
    false
}

impl AnalysisCommands {
    /// Classify a symbol from its name and the contexts of its
    /// occurrences.
    pub fn classify_symbol(&self, name: &[u8], contexts: &Vec<Vec<u8>>) -> (r: SymbolKind)
        ensures
            r == spec_classify_symbol(name@, contexts@),
    {
        let upper = name.len() > 0 && {
            let b = *vstd::slice::slice_index_get(name, 0);
            65 <= b && b <= 90
        };
        if upper {
            let error_pat: Vec<u8> = vec![69u8, 114, 114, 111, 114];
            let exception_pat: Vec<u8> = vec![69u8, 120, 99, 101, 112, 116, 105, 111, 110];
            proof {
                assert(error_pat@ =~= seq![69u8, 114, 114, 111, 114]);
                assert(exception_pat@ =~= seq![69u8, 120, 99, 101, 112, 116, 105, 111, 110]);
            }
            if contains(name, error_pat.as_slice()) || contains(name, exception_pat.as_slice()) {
                return SymbolKind::ErrorType;
            }
            let struct_pat: Vec<u8> = vec![115u8, 116, 114, 117, 99, 116];
            proof {
                assert(struct_pat@ =~= seq![115u8, 116, 114, 117, 99, 116]);
            }
            if any_context_contains(contexts, struct_pat.as_slice()) {
                return SymbolKind::Struct;
            }
            let enum_pat: Vec<u8> = vec![101u8, 110, 117, 109];
            proof {
                assert(enum_pat@ =~= seq![101u8, 110, 117, 109]);
            }
            if any_context_contains(contexts, enum_pat.as_slice()) {
                return SymbolKind::Enum;
            }
            let trait_pat: Vec<u8> = vec![116u8, 114, 97, 105, 116];
            proof {
                assert(trait_pat@ =~= seq![116u8, 114, 97, 105, 116]);
            }
            if any_context_contains(contexts, trait_pat.as_slice()) {
                return SymbolKind::Trait;
            }
            return SymbolKind::Type;
        }
        let is_pat: Vec<u8> = vec![105u8, 115, 95];
        let has_pat: Vec<u8> = vec![104u8, 97, 115, 95];
        let can_pat: Vec<u8> = vec![99u8, 97, 110, 95];
        proof {
            assert(is_pat@ =~= seq![105u8, 115, 95]);
            assert(has_pat@ =~= seq![104u8, 97, 115, 95]);
            assert(can_pat@ =~= seq![99u8, 97, 110, 95]);
        }
        if starts_with(name, is_pat.as_slice()) || starts_with(name, has_pat.as_slice())
            || starts_with(name, can_pat.as_slice()) {
            return SymbolKind::PredicateFunction;
        }
        let mut_pat: Vec<u8> = vec![95u8, 109, 117, 116];
        proof {
            assert(mut_pat@ =~= seq![95u8, 109, 117, 116]);
        }
        if ends_with(name, mut_pat.as_slice()) {
            return SymbolKind::MutableFunction;
        }
        SymbolKind::FunctionOrVariable
    }
}

impl SymbolKind {
    /// The classification's report label.
    pub fn label(&self) -> (r: &'static str)
        ensures
            *self == SymbolKind::ErrorType ==> r@ == "Error Type"@,
            *self == SymbolKind::Struct ==> r@ == "Struct"@,
            *self == SymbolKind::Enum ==> r@ == "Enum"@,
            *self == SymbolKind::Trait ==> r@ == "Trait"@,
            *self == SymbolKind::Type ==> r@ == "Type"@,
            *self == SymbolKind::PredicateFunction ==> r@ == "Predicate Function"@,
            *self == SymbolKind::MutableFunction ==> r@ == "Mutable Function/Method"@,
            *self == SymbolKind::FunctionOrVariable ==> r@ == "Function/Variable"@,
    {
        match self {
            SymbolKind::ErrorType => "Error Type",
            SymbolKind::Struct => "Struct",
            SymbolKind::Enum => "Enum",
            SymbolKind::Trait => "Trait",
            SymbolKind::Type => "Type",
            SymbolKind::PredicateFunction => "Predicate Function",
            SymbolKind::MutableFunction => "Mutable Function/Method",
            SymbolKind::FunctionOrVariable => "Function/Variable",
        }
    }
}

} // verus!
