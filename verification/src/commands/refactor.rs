//! Refactor commands: the code-action requests they send.
//!
//! Each refactoring asks the backend for code actions of one kind over
//! a range; the parameter objects are built here, coordinates already
//! translated.

use vstd::prelude::*;
use crate::analyzer::{build_code_action_params, spec_code_action_params};
use crate::json::JsonValue;

verus! {

pub struct RefactorCommands;

/// `refactor.extract` as bytes.
pub open spec fn k_refactor_extract() -> Seq<u8> {
    seq![114u8, 101, 102, 97, 99, 116, 111, 114, 46, 101, 120, 116, 114, 97, 99, 116]
}

/// `refactor.inline` as bytes.
pub open spec fn k_refactor_inline() -> Seq<u8> {
    seq![114u8, 101, 102, 97, 99, 116, 111, 114, 46, 105, 110, 108, 105, 110, 101]
}

/// `source.organizeImports` as bytes.
pub open spec fn k_source_organize_imports() -> Seq<u8> {
    seq![
        115u8, 111, 117, 114, 99, 101, 46, 111, 114, 103, 97, 110, 105, 122, 101, 73, 109, 112,
        111, 114, 116, 115,
    ]
}

impl RefactorCommands {
    /// The code-action request asking to extract the given range into a
    /// function.
    pub fn extract_function_params(
        &self,
        uri: &[u8],
        start_line: u32,
        start_column: u32,
        end_line: u32,
        end_column: u32,
    ) -> (r: JsonValue)
        requires
            1 <= start_line,
            1 <= start_column,
            1 <= end_line,
            1 <= end_column,
        ensures
            r@ == spec_code_action_params(
                uri@,
                start_line,
                start_column,
                end_line,
                end_column,
                k_refactor_extract(),
            ),
    {
        let kind: Vec<u8> = vec![
            114u8, 101, 102, 97, 99, 116, 111, 114, 46, 101, 120, 116, 114, 97, 99, 116,
        ];
        proof {
            assert(kind@ =~= k_refactor_extract());
        }
        build_code_action_params(
            uri,
            start_line,
            start_column,
            end_line,
            end_column,
            kind.as_slice(),
        )
    }

    /// The code-action request asking to inline the symbol at a
    /// position; the range is that single position.
    pub fn inline_params(&self, uri: &[u8], line: u32, column: u32) -> (r: JsonValue)
        requires
            1 <= line,
            1 <= column,
        ensures
            r@ == spec_code_action_params(uri@, line, column, line, column, k_refactor_inline()),
    {
        let kind: Vec<u8> = vec![
            114u8, 101, 102, 97, 99, 116, 111, 114, 46, 105, 110, 108, 105, 110, 101,
        ];
        proof {
            assert(kind@ =~= k_refactor_inline());
        }
        build_code_action_params(uri, line, column, line, column, kind.as_slice())
    }

    /// The code-action request asking to organize a file's imports; by
    /// convention it points at the file's first position.
    pub fn organize_imports_params(&self, uri: &[u8]) -> (r: JsonValue)
        ensures
            r@ == spec_code_action_params(uri@, 1, 1, 1, 1, k_source_organize_imports()),
    {
        let kind: Vec<u8> = vec![
            115u8, 111, 117, 114, 99, 101, 46, 111, 114, 103, 97, 110, 105, 122, 101, 73, 109,
            112, 111, 114, 116, 115,
        ];
        proof {
            assert(kind@ =~= k_source_organize_imports());
        }
        build_code_action_params(uri, 1, 1, 1, 1, kind.as_slice())
    }
}

} // verus!
