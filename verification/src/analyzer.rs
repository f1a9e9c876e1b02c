//! The analyzer facade: coordinates, paths, and response shaping.
//!
//! Callers speak in editor terms: 1-based lines and columns, paths
//! relative to the project root.  The wire speaks in protocol terms:
//! 0-based positions and file URIs.  This module owns that translation,
//! the parameter objects of every position-based operation, and the
//! normalization of the heterogeneous response shapes the backend may
//! send back.  When the backend is disabled or unavailable every
//! operation degrades to its empty result instead of failing.

use vstd::prelude::*;
use vstd::slice::{slice_index_get, slice_to_vec};
use crate::json::{
    json_view, json_view_fields, json_view_list, lemma_view_fields_len, lemma_view_list_len,
    spec_obj_get, JsonVal, JsonValue,
};
use crate::lsp_client::{k_text_document, k_text_document_vec};

verus! {

/// `contents` as bytes.
pub open spec fn k_contents() -> Seq<u8> {
    seq![99u8, 111, 110, 116, 101, 110, 116, 115]
}

/// `contents` as bytes.
pub fn k_contents_vec() -> (r: Vec<u8>)
    ensures
        r@ == k_contents(),
{
    let r: Vec<u8> = vec![99u8, 111, 110, 116, 101, 110, 116, 115];
    proof {
        assert(r@ =~= k_contents());
    }
    r
}

/// `value` as bytes.
pub open spec fn k_value() -> Seq<u8> {
    seq![118u8, 97, 108, 117, 101]
}

/// `value` as bytes.
pub fn k_value_vec() -> (r: Vec<u8>)
    ensures
        r@ == k_value(),
{
    let r: Vec<u8> = vec![118u8, 97, 108, 117, 101];
    proof {
        assert(r@ =~= k_value());
    }
    r
}

/// `items` as bytes.
pub open spec fn k_items() -> Seq<u8> {
    seq![105u8, 116, 101, 109, 115]
}

/// `items` as bytes.
pub fn k_items_vec() -> (r: Vec<u8>)
    ensures
        r@ == k_items(),
{
    let r: Vec<u8> = vec![105u8, 116, 101, 109, 115];
    proof {
        assert(r@ =~= k_items());
    }
    r
}

/// `label` as bytes.
pub open spec fn k_label() -> Seq<u8> {
    seq![108u8, 97, 98, 101, 108]
}

/// `label` as bytes.
pub fn k_label_vec() -> (r: Vec<u8>)
    ensures
        r@ == k_label(),
{
    let r: Vec<u8> = vec![108u8, 97, 98, 101, 108];
    proof {
        assert(r@ =~= k_label());
    }
    r
}

/// `kind` as bytes.
pub open spec fn k_kind() -> Seq<u8> {
    seq![107u8, 105, 110, 100]
}

/// `kind` as bytes.
pub fn k_kind_vec() -> (r: Vec<u8>)
    ensures
        r@ == k_kind(),
{
    let r: Vec<u8> = vec![107u8, 105, 110, 100];
    proof {
        assert(r@ =~= k_kind());
    }
    r
}

/// `detail` as bytes.
pub open spec fn k_detail() -> Seq<u8> {
    seq![100u8, 101, 116, 97, 105, 108]
}

/// `detail` as bytes.
pub fn k_detail_vec() -> (r: Vec<u8>)
    ensures
        r@ == k_detail(),
{
    let r: Vec<u8> = vec![100u8, 101, 116, 97, 105, 108];
    proof {
        assert(r@ =~= k_detail());
    }
    r
}

/// `documentation` as bytes.
pub open spec fn k_documentation() -> Seq<u8> {
    seq![100u8, 111, 99, 117, 109, 101, 110, 116, 97, 116, 105, 111, 110]
}

/// `documentation` as bytes.
pub fn k_documentation_vec() -> (r: Vec<u8>)
    ensures
        r@ == k_documentation(),
{
    let r: Vec<u8> = vec![100u8, 111, 99, 117, 109, 101, 110, 116, 97, 116, 105, 111, 110];
    proof {
        assert(r@ =~= k_documentation());
    }
    r
}

/// `insertText` as bytes.
pub open spec fn k_insert_text() -> Seq<u8> {
    seq![105u8, 110, 115, 101, 114, 116, 84, 101, 120, 116]
}

/// `insertText` as bytes.
pub fn k_insert_text_vec() -> (r: Vec<u8>)
    ensures
        r@ == k_insert_text(),
{
    let r: Vec<u8> = vec![105u8, 110, 115, 101, 114, 116, 84, 101, 120, 116];
    proof {
        assert(r@ =~= k_insert_text());
    }
    r
}

/// `sortText` as bytes.
pub open spec fn k_sort_text() -> Seq<u8> {
    seq![115u8, 111, 114, 116, 84, 101, 120, 116]
}

/// `sortText` as bytes.
pub fn k_sort_text_vec() -> (r: Vec<u8>)
    ensures
        r@ == k_sort_text(),
{
    let r: Vec<u8> = vec![115u8, 111, 114, 116, 84, 101, 120, 116];
    proof {
        assert(r@ =~= k_sort_text());
    }
    r
}

/// `uri` as bytes.
pub open spec fn k_uri() -> Seq<u8> {
    seq![117u8, 114, 105]
}

/// `uri` as bytes.
pub fn k_uri_vec() -> (r: Vec<u8>)
    ensures
        r@ == k_uri(),
{
    let r: Vec<u8> = vec![117u8, 114, 105];
    proof {
        assert(r@ =~= k_uri());
    }
    r
}

/// `position` as bytes.
pub open spec fn k_position() -> Seq<u8> {
    seq![112u8, 111, 115, 105, 116, 105, 111, 110]
}

/// `position` as bytes.
pub fn k_position_vec() -> (r: Vec<u8>)
    ensures
        r@ == k_position(),
{
    let r: Vec<u8> = vec![112u8, 111, 115, 105, 116, 105, 111, 110];
    proof {
        assert(r@ =~= k_position());
    }
    r
}

/// `line` as bytes.
pub open spec fn k_line() -> Seq<u8> {
    seq![108u8, 105, 110, 101]
}

/// `line` as bytes.
pub fn k_line_vec() -> (r: Vec<u8>)
    ensures
        r@ == k_line(),
{
    let r: Vec<u8> = vec![108u8, 105, 110, 101];
    proof {
        assert(r@ =~= k_line());
    }
    r
}

/// `character` as bytes.
pub open spec fn k_character() -> Seq<u8> {
    seq![99u8, 104, 97, 114, 97, 99, 116, 101, 114]
}

/// `character` as bytes.
pub fn k_character_vec() -> (r: Vec<u8>)
    ensures
        r@ == k_character(),
{
    let r: Vec<u8> = vec![99u8, 104, 97, 114, 97, 99, 116, 101, 114];
    proof {
        assert(r@ =~= k_character());
    }
    r
}

/// `newName` as bytes.
pub open spec fn k_new_name() -> Seq<u8> {
    seq![110u8, 101, 119, 78, 97, 109, 101]
}

/// `newName` as bytes.
pub fn k_new_name_vec() -> (r: Vec<u8>)
    ensures
        r@ == k_new_name(),
{
    let r: Vec<u8> = vec![110u8, 101, 119, 78, 97, 109, 101];
    proof {
        assert(r@ =~= k_new_name());
    }
    r
}

/// `context` as bytes.
pub open spec fn k_context() -> Seq<u8> {
    seq![99u8, 111, 110, 116, 101, 120, 116]
}

/// `context` as bytes.
pub fn k_context_vec() -> (r: Vec<u8>)
    ensures
        r@ == k_context(),
{
    let r: Vec<u8> = vec![99u8, 111, 110, 116, 101, 120, 116];
    proof {
        assert(r@ =~= k_context());
    }
    r
}

/// `includeDeclaration` as bytes.
pub open spec fn k_include_declaration() -> Seq<u8> {
    seq![105u8, 110, 99, 108, 117, 100, 101, 68, 101, 99, 108, 97, 114, 97, 116, 105, 111, 110]
}

/// `includeDeclaration` as bytes.
pub fn k_include_declaration_vec() -> (r: Vec<u8>)
    ensures
        r@ == k_include_declaration(),
{
    let r: Vec<u8> = vec![105u8, 110, 99, 108, 117, 100, 101, 68, 101, 99, 108, 97, 114, 97, 116, 105, 111, 110];
    proof {
        assert(r@ =~= k_include_declaration());
    }
    r
}

/// `range` as bytes.
pub open spec fn k_range() -> Seq<u8> {
    seq![114u8, 97, 110, 103, 101]
}

/// `range` as bytes.
pub fn k_range_vec() -> (r: Vec<u8>)
    ensures
        r@ == k_range(),
{
    let r: Vec<u8> = vec![114u8, 97, 110, 103, 101];
    proof {
        assert(r@ =~= k_range());
    }
    r
}

/// `start` as bytes.
pub open spec fn k_start() -> Seq<u8> {
    seq![115u8, 116, 97, 114, 116]
}

/// `start` as bytes.
pub fn k_start_vec() -> (r: Vec<u8>)
    ensures
        r@ == k_start(),
{
    let r: Vec<u8> = vec![115u8, 116, 97, 114, 116];
    proof {
        assert(r@ =~= k_start());
    }
    r
}

/// `end` as bytes.
pub open spec fn k_end() -> Seq<u8> {
    seq![101u8, 110, 100]
}

/// `end` as bytes.
pub fn k_end_vec() -> (r: Vec<u8>)
    ensures
        r@ == k_end(),
{
    let r: Vec<u8> = vec![101u8, 110, 100];
    proof {
        assert(r@ =~= k_end());
    }
    r
}

/// `diagnostics` as bytes.
pub open spec fn k_diagnostics() -> Seq<u8> {
    seq![100u8, 105, 97, 103, 110, 111, 115, 116, 105, 99, 115]
}

/// `diagnostics` as bytes.
pub fn k_diagnostics_vec() -> (r: Vec<u8>)
    ensures
        r@ == k_diagnostics(),
{
    let r: Vec<u8> = vec![100u8, 105, 97, 103, 110, 111, 115, 116, 105, 99, 115];
    proof {
        assert(r@ =~= k_diagnostics());
    }
    r
}

/// `only` as bytes.
pub open spec fn k_only() -> Seq<u8> {
    seq![111u8, 110, 108, 121]
}

/// `only` as bytes.
pub fn k_only_vec() -> (r: Vec<u8>)
    ensures
        r@ == k_only(),
{
    let r: Vec<u8> = vec![111u8, 110, 108, 121];
    proof {
        assert(r@ =~= k_only());
    }
    r
}

/// `file://` as bytes.
pub open spec fn k_file_scheme() -> Seq<u8> {
    seq![102u8, 105, 108, 101, 58, 47, 47]
}

/// `file://` as bytes.
pub fn k_file_scheme_vec() -> (r: Vec<u8>)
    ensures
        r@ == k_file_scheme(),
{
    let r: Vec<u8> = vec![102u8, 105, 108, 101, 58, 47, 47];
    proof {
        assert(r@ =~= k_file_scheme());
    }
    r
}

// ---------------------------------------------------------------------
// Identifiers and ranges
// ---------------------------------------------------------------------

/// Why a local analysis operation could not run.
#[derive(Clone, Copy, PartialEq, Eq, Structural, Debug)]
pub enum AnalysisError {
    /// The operation is not available locally.
    Unavailable,
}

/// An opaque handle for a file known to the analysis.
#[derive(Clone, Copy, PartialEq, Eq, Structural, Debug)]
pub struct FileId(u32);

impl FileId {
    pub closed spec fn spec_index(self) -> u32 {
        self.0
    }

    pub fn from_index(index: u32) -> (r: FileId)
        ensures
            r.spec_index() == index,
    {
        FileId(index)
    }
}

/// An offset into a file's text.
#[derive(Clone, Copy, PartialEq, Eq, Structural, Debug)]
pub struct TextSize(u32);

impl TextSize {
    pub closed spec fn spec_offset(self) -> u32 {
        self.0
    }

    pub fn from_offset(offset: u32) -> (r: TextSize)
        ensures
            r.spec_offset() == offset,
    {
        TextSize(offset)
    }
}

/// A half-open span of text offsets.
#[derive(Clone, Copy, PartialEq, Eq, Structural, Debug)]
pub struct TextRange {
    start: TextSize,
    end: TextSize,
}

impl TextRange {
    pub closed spec fn spec_start(self) -> TextSize {
        self.start
    }

    pub closed spec fn spec_end(self) -> TextSize {
        self.end
    }

    pub fn new(start: TextSize, end: TextSize) -> (r: Self)
        ensures
            r.spec_start() == start,
            r.spec_end() == end,
    {
        Self { start, end }
    }
}

/// A position inside one file.
#[derive(Clone, Copy, PartialEq, Eq, Structural, Debug)]
pub struct FilePosition {
    pub file_id: FileId,
    pub offset: TextSize,
}

/// A span inside one file.
#[derive(Clone, Copy, PartialEq, Eq, Structural, Debug)]
pub struct FileRange {
    pub file_id: FileId,
    pub range: TextRange,
}

/// A handle to the analysis snapshot.
pub struct Analysis;

/// The host owning analysis inputs.
pub struct AnalysisHost;

/// The virtual file system the analysis reads from.
pub struct Vfs;

/// A path inside the virtual file system.
pub struct VfsPath;

// ---------------------------------------------------------------------
// Coordinates and paths
// ---------------------------------------------------------------------

/// Translate an editor position (1-based line and column) into a
/// protocol position (0-based line and character).
pub fn translate_position(line: u32, column: u32) -> (r: (u32, u32))
    requires
        1 <= line,
        1 <= column,
    ensures
        r.0 == line - 1,
        r.1 == column - 1,
{
    (line - 1, column - 1)
}

/// A path is absolute when it starts at the root.
pub open spec fn spec_is_absolute(path: Seq<u8>) -> bool {
    path.len() > 0 && path[0] == 47
}

/// The absolute form of `path`: itself when already absolute, otherwise
/// the path below the project root.
pub open spec fn spec_resolve_path(root: Seq<u8>, path: Seq<u8>) -> Seq<u8> {
    if spec_is_absolute(path) {
        path
    } else {
        root + seq![47u8] + path
    }
}

/// Resolve `path` against the project root.
pub fn resolve_path(root: &[u8], path: &[u8]) -> (r: Vec<u8>)
    ensures
        r@ == spec_resolve_path(root@, path@),
{
    if path.len() > 0 && *slice_index_get(path, 0) == 47 {
        slice_to_vec(path)
    } else {
        let mut out = slice_to_vec(root);
        out.push(47);
        let mut i: usize = 0;
        let ghost base = out@;
        while i < path.len()
            invariant
                0 <= i <= path@.len(),
                out@ == base + path@.subrange(0, i as int),
            decreases path@.len() - i,
        {
            out.push(*slice_index_get(path, i));
            i = i + 1;
            assert(out@ =~= base + path@.subrange(0, i as int));
        }
        proof {
            assert(path@.subrange(0, path@.len() as int) =~= path@);
            assert(base + path@ =~= root@ + seq![47u8] + path@);
        }
        out
    }
}

/// The `file://` URI of an absolute path.
pub open spec fn spec_file_uri(path: Seq<u8>) -> Seq<u8> {
    k_file_scheme() + path
}

/// Turn an absolute path into a `file://` URI.
pub fn file_uri(path: &[u8]) -> (r: Vec<u8>)
    ensures
        r@ == spec_file_uri(path@),
{
    let mut out = k_file_scheme_vec();
    let ghost base = out@;
    let mut i: usize = 0;
    while i < path.len()
        invariant
            0 <= i <= path@.len(),
            out@ == base + path@.subrange(0, i as int),
        decreases path@.len() - i,
    {
        out.push(*slice_index_get(path, i));
        i = i + 1;
        assert(out@ =~= base + path@.subrange(0, i as int));
    }
    proof {
        assert(path@.subrange(0, path@.len() as int) =~= path@);
    }
    out
}

// ---------------------------------------------------------------------
// Request parameters
// ---------------------------------------------------------------------

/// `{"textDocument": {"uri": u}, "position": {"line": l-1, "character": c-1}}`.
pub open spec fn spec_position_params(uri: Seq<u8>, line: u32, column: u32) -> JsonVal {
    JsonVal::Obj(
        seq![
            (k_text_document(), JsonVal::Obj(seq![(k_uri(), JsonVal::Str(uri))])),
            (
                k_position(),
                JsonVal::Obj(
                    seq![
                        (k_line(), JsonVal::Int(line - 1)),
                        (k_character(), JsonVal::Int(column - 1)),
                    ],
                ),
            ),
        ],
    )
}

/// Build the position parameters of a position-based operation, with
/// the editor coordinates translated to protocol coordinates.
pub fn build_position_params(uri: &[u8], line: u32, column: u32) -> (r: JsonValue)
    requires
        1 <= line,
        1 <= column,
    ensures
        r@ == spec_position_params(uri@, line, column),
{
    let (pline, pchar) = translate_position(line, column);
    let td = crate::lsp_client::obj1(k_uri_vec(), JsonValue::Str(slice_to_vec(uri)));
    let pos = crate::lsp_client::obj2(
        k_line_vec(),
        JsonValue::Int(pline as i64),
        k_character_vec(),
        JsonValue::Int(pchar as i64),
    );
    crate::lsp_client::obj2(k_text_document_vec(), td, k_position_vec(), pos)
}

/// Position parameters with `"context": {"includeDeclaration": true}`,
/// as the reference search wants them.
pub open spec fn spec_reference_params(uri: Seq<u8>, line: u32, column: u32) -> JsonVal {
    JsonVal::Obj(
        seq![
            (k_text_document(), JsonVal::Obj(seq![(k_uri(), JsonVal::Str(uri))])),
            (
                k_position(),
                JsonVal::Obj(
                    seq![
                        (k_line(), JsonVal::Int(line - 1)),
                        (k_character(), JsonVal::Int(column - 1)),
                    ],
                ),
            ),
            (k_context(), JsonVal::Obj(seq![(k_include_declaration(), JsonVal::Bool(true))])),
        ],
    )
}

pub fn build_reference_params(uri: &[u8], line: u32, column: u32) -> (r: JsonValue)
    requires
        1 <= line,
        1 <= column,
    ensures
        r@ == spec_reference_params(uri@, line, column),
{
    let (pline, pchar) = translate_position(line, column);
    let td = crate::lsp_client::obj1(k_uri_vec(), JsonValue::Str(slice_to_vec(uri)));
    let pos = crate::lsp_client::obj2(
        k_line_vec(),
        JsonValue::Int(pline as i64),
        k_character_vec(),
        JsonValue::Int(pchar as i64),
    );
    let ctx = crate::lsp_client::obj1(k_include_declaration_vec(), JsonValue::Bool(true));
    crate::lsp_client::obj3(
        k_text_document_vec(),
        td,
        k_position_vec(),
        pos,
        k_context_vec(),
        ctx,
    )
}

/// Position parameters with the symbol's new name, for a rename.
pub open spec fn spec_rename_params(
    uri: Seq<u8>,
    line: u32,
    column: u32,
    new_name: Seq<u8>,
) -> JsonVal {
    JsonVal::Obj(
        seq![
            (k_text_document(), JsonVal::Obj(seq![(k_uri(), JsonVal::Str(uri))])),
            (
                k_position(),
                JsonVal::Obj(
                    seq![
                        (k_line(), JsonVal::Int(line - 1)),
                        (k_character(), JsonVal::Int(column - 1)),
                    ],
                ),
            ),
            (k_new_name(), JsonVal::Str(new_name)),
        ],
    )
}

pub fn build_rename_params(uri: &[u8], line: u32, column: u32, new_name: &[u8]) -> (r: JsonValue)
    requires
        1 <= line,
        1 <= column,
    ensures
        r@ == spec_rename_params(uri@, line, column, new_name@),
{
    let (pline, pchar) = translate_position(line, column);
    let td = crate::lsp_client::obj1(k_uri_vec(), JsonValue::Str(slice_to_vec(uri)));
    let pos = crate::lsp_client::obj2(
        k_line_vec(),
        JsonValue::Int(pline as i64),
        k_character_vec(),
        JsonValue::Int(pchar as i64),
    );
    crate::lsp_client::obj3(
        k_text_document_vec(),
        td,
        k_position_vec(),
        pos,
        k_new_name_vec(),
        JsonValue::Str(slice_to_vec(new_name)),
    )
}

/// Range parameters with a code-action context asking for one action
/// kind, `{"diagnostics": [], "only": [kind]}`.
pub open spec fn spec_code_action_params(
    uri: Seq<u8>,
    start_line: u32,
    start_column: u32,
    end_line: u32,
    end_column: u32,
    only_kind: Seq<u8>,
) -> JsonVal {
    JsonVal::Obj(
        seq![
            (k_text_document(), JsonVal::Obj(seq![(k_uri(), JsonVal::Str(uri))])),
            (
                k_range(),
                JsonVal::Obj(
                    seq![
                        (
                            k_start(),
                            JsonVal::Obj(
                                seq![
                                    (k_line(), JsonVal::Int(start_line - 1)),
                                    (k_character(), JsonVal::Int(start_column - 1)),
                                ],
                            ),
                        ),
                        (
                            k_end(),
                            JsonVal::Obj(
                                seq![
                                    (k_line(), JsonVal::Int(end_line - 1)),
                                    (k_character(), JsonVal::Int(end_column - 1)),
                                ],
                            ),
                        ),
                    ],
                ),
            ),
            (
                k_context(),
                JsonVal::Obj(
                    seq![
                        (k_diagnostics(), JsonVal::Arr(Seq::empty())),
                        (k_only(), JsonVal::Arr(seq![JsonVal::Str(only_kind)])),
                    ],
                ),
            ),
        ],
    )
}

pub fn build_code_action_params(
    uri: &[u8],
    start_line: u32,
    start_column: u32,
    end_line: u32,
    end_column: u32,
    only_kind: &[u8],
) -> (r: JsonValue)
    requires
        1 <= start_line,
        1 <= start_column,
        1 <= end_line,
        1 <= end_column,
    ensures
        r@ == spec_code_action_params(
            uri@,
            start_line,
            start_column,
            end_line,
            end_column,
            only_kind@,
        ),
{
    let (sl, sc) = translate_position(start_line, start_column);
    let (el, ec) = translate_position(end_line, end_column);
    let td = crate::lsp_client::obj1(k_uri_vec(), JsonValue::Str(slice_to_vec(uri)));
    let start = crate::lsp_client::obj2(
        k_line_vec(),
        JsonValue::Int(sl as i64),
        k_character_vec(),
        JsonValue::Int(sc as i64),
    );
    let end = crate::lsp_client::obj2(
        k_line_vec(),
        JsonValue::Int(el as i64),
        k_character_vec(),
        JsonValue::Int(ec as i64),
    );
    let range = crate::lsp_client::obj2(k_start_vec(), start, k_end_vec(), end);
    let no_elems: Vec<JsonValue> = Vec::new();
    proof {
        assert(json_view_list(no_elems, 0) =~= Seq::<JsonVal>::empty());
    }
    let empty_diags = JsonValue::Arr(no_elems);
    let mut only_elems: Vec<JsonValue> = Vec::new();
    only_elems.push(JsonValue::Str(slice_to_vec(only_kind)));
    proof {
        lemma_view_list_len(only_elems, 0);
        assert(json_view_list(only_elems, 0) =~= seq![JsonVal::Str(only_kind@)]);
    }
    let ctx = crate::lsp_client::obj2(
        k_diagnostics_vec(),
        empty_diags,
        k_only_vec(),
        JsonValue::Arr(only_elems),
    );
    crate::lsp_client::obj3(k_text_document_vec(), td, k_range_vec(), range, k_context_vec(), ctx)
}

// ---------------------------------------------------------------------
// Response shaping
// ---------------------------------------------------------------------

/// The text one hover entry contributes: a plain string, or the
/// `value` string of a marked-string object.
pub open spec fn spec_hover_item_text(item: JsonVal) -> Option<Seq<u8>> {
    match item {
        JsonVal::Str(s) => Some(s),
        JsonVal::Obj(_) => match spec_obj_get(item, k_value()) {
            Some(v) => match v {
                JsonVal::Str(s) => Some(s),
                _ => None,
            },
            None => None,
        },
        _ => None,
    }
}

/// Does any of the first `k` entries contribute text?
pub open spec fn spec_any_hover_text(items: Seq<JsonVal>, k: int) -> bool
    decreases k,
{
    if k <= 0 || k > items.len() {
        false
    } else {
        spec_hover_item_text(items[k - 1]) is Some || spec_any_hover_text(items, k - 1)
    }
}

/// The texts of the first `k` entries, joined with one blank line.
pub open spec fn spec_join_hover(items: Seq<JsonVal>, k: int) -> Seq<u8>
    decreases k,
{
    if k <= 0 || k > items.len() {
        Seq::empty()
    } else {
        let pre = spec_join_hover(items, k - 1);
        match spec_hover_item_text(items[k - 1]) {
            None => pre,
            Some(t) => {
                if spec_any_hover_text(items, k - 1) {
                    pre + seq![10u8, 10] + t
                } else {
                    t
                }
            },
        }
    }
}

/// The flattened text of a hover response: the `value` string of its
/// `contents`, or `contents` itself as a string, or the joined entries
/// of a `contents` array; `None` when no shape matches or the joined
/// text is empty.
pub open spec fn spec_normalize_hover(result: JsonVal) -> Option<Seq<u8>> {
    match spec_obj_get(result, k_contents()) {
        None => None,
        Some(contents) => match spec_obj_get(contents, k_value()) {
            Some(v) => match v {
                JsonVal::Str(s) => Some(s),
                _ => None,
            },
            None => match contents {
                JsonVal::Str(s) => Some(s),
                JsonVal::Arr(items) => {
                    let joined = spec_join_hover(items, items.len() as int);
                    if joined.len() > 0 {
                        Some(joined)
                    } else {
                        None
                    }
                },
                _ => None,
            },
        },
    }
}

fn clone_bytes(v: &Vec<u8>) -> (r: Vec<u8>)
    ensures
        r@ == v@,
{
    let mut out: Vec<u8> = Vec::new();
    let mut i: usize = 0;
    while i < v.len()
        invariant
            0 <= i <= v@.len(),
            out@ == v@.subrange(0, i as int),
        decreases v@.len() - i,
    {
        out.push(v[i]);
        i = i + 1;
        assert(out@ =~= v@.subrange(0, i as int));
    }
    proof {
        assert(v@.subrange(0, v@.len() as int) =~= v@);
    }
    out
}

/// The text one hover entry contributes, if any.
fn hover_item_text(item: &JsonValue) -> (r: Option<Vec<u8>>)
    ensures
        match spec_hover_item_text(item@) {
            Some(t) => match r {
                Some(v) => v@ == t,
                None => false,
            },
            None => r is None,
        },
{
    match item.str_bytes() {
        Some(s) => Some(clone_bytes(s)),
        None => {
            let value_key = k_value_vec();
            match item.obj_get(value_key.as_slice()) {
                Some(v) => match v.str_bytes() {
                    Some(s) => Some(clone_bytes(s)),
                    None => None,
                },
                None => None,
            }
        },
    }
}

/// Flatten a hover response to one text, whatever shape its contents
/// take; `None` when there is nothing to show.
pub fn normalize_hover(result: &JsonValue) -> (r: Option<Vec<u8>>)
    ensures
        match spec_normalize_hover(result@) {
            Some(t) => match r {
                Some(v) => v@ == t,
                None => false,
            },
            None => r is None,
        },
{
    let contents_key = k_contents_vec();
    let contents = match result.obj_get(contents_key.as_slice()) {
        Some(c) => c,
        None => {
            return None;
        },
    };
    let value_key = k_value_vec();
    match contents.obj_get(value_key.as_slice()) {
        Some(v) => {
            match v.str_bytes() {
                Some(s) => Some(clone_bytes(s)),
                None => None,
            }
        },
        None => {
            match contents.str_bytes() {
                Some(s) => Some(clone_bytes(s)),
                None => {
                    match contents.arr_items() {
                        Some(items) => {
                            proof {
                                lemma_view_list_len(*items, 0);
                            }
                            let ghost sitems = json_view_list(*items, 0);
                            let n = items.len();
                            let mut out: Vec<u8> = Vec::new();
                            let mut any: bool = false;
                            let mut i: usize = 0;
                            while i < n
                                invariant
                                    0 <= i <= n,
                                    n == items@.len(),
                                    sitems == json_view_list(*items, 0),
                                    sitems.len() == n,
                                    forall|d: int|
                                        0 <= d < n ==> #[trigger] sitems[d] == json_view(
                                            items@[d],
                                        ),
                                    any == spec_any_hover_text(sitems, i as int),
                                    out@ == spec_join_hover(sitems, i as int),
                                decreases n - i,
                            {
                                match hover_item_text(&items[i]) {
                                    Some(t) => {
                                        if any {
                                            out.push(10);
                                            out.push(10);
                                            let ghost mid = out@;
                                            let mut j: usize = 0;
                                            while j < t.len()
                                                invariant
                                                    0 <= j <= t@.len(),
                                                    out@ == mid + t@.subrange(0, j as int),
                                                decreases t@.len() - j,
                                            {
                                                out.push(t[j]);
                                                j = j + 1;
                                                assert(out@ =~= mid + t@.subrange(0, j as int));
                                            }
                                            proof {
                                                assert(t@.subrange(0, t@.len() as int) =~= t@);
                                                assert(out@ =~= spec_join_hover(sitems, i as int)
                                                    + seq![10u8, 10] + t@);
                                            }
                                        } else {
                                            out = t;
                                        }
                                        any = true;
                                    },
                                    None => {},
                                }
                                i = i + 1;
                            }
                            if out.len() > 0 {
                                Some(out)
                            } else {
                                None
                            }
                        },
                        None => None,
                    }
                },
            }
        },
    }
}

/// One completion entry, reshaped: its label, kind, detail and
/// documentation always present (with defaults), its insert and sort
/// texts kept only when the backend sent them.
pub open spec fn spec_transform_item(item: JsonVal) -> JsonVal {
    let label: JsonVal = match spec_obj_get(item, k_label()) {
        Some(v) => match v {
            JsonVal::Str(s) => JsonVal::Str(s),
            _ => JsonVal::Str(Seq::empty()),
        },
        None => JsonVal::Str(Seq::empty()),
    };
    let kind: JsonVal = match spec_obj_get(item, k_kind()) {
        Some(v) => match v {
            JsonVal::Int(i) => if 0 <= i {
                JsonVal::Int(i)
            } else {
                JsonVal::Int(1)
            },
            _ => JsonVal::Int(1),
        },
        None => JsonVal::Int(1),
    };
    let detail: JsonVal = match spec_obj_get(item, k_detail()) {
        Some(v) => match v {
            JsonVal::Str(s) => JsonVal::Str(s),
            _ => JsonVal::Str(Seq::empty()),
        },
        None => JsonVal::Str(Seq::empty()),
    };
    let doc: JsonVal = match spec_obj_get(item, k_documentation()) {
        Some(v) => v,
        None => JsonVal::Null,
    };
    let base = seq![
        (k_label(), label),
        (k_kind(), kind),
        (k_detail(), detail),
        (k_documentation(), doc),
    ];
    let with_insert = match spec_obj_get(item, k_insert_text()) {
        Some(t) => base.push((k_insert_text(), t)),
        None => base,
    };
    let with_sort = match spec_obj_get(item, k_sort_text()) {
        Some(t) => with_insert.push((k_sort_text(), t)),
        None => with_insert,
    };
    JsonVal::Obj(with_sort)
}

/// The completion entries a response carries: under `items`, or the
/// response itself as an array, or nothing.
pub open spec fn spec_completion_items(result: JsonVal) -> Seq<JsonVal> {
    match spec_obj_get(result, k_items()) {
        Some(v) => match v {
            JsonVal::Arr(items) => items,
            _ => match result {
                JsonVal::Arr(items) => items,
                _ => Seq::empty(),
            },
        },
        None => match result {
            JsonVal::Arr(items) => items,
            _ => Seq::empty(),
        },
    }
}

/// Each completion entry of the response, reshaped, in order.
pub open spec fn spec_transform_completions(result: JsonVal) -> Seq<JsonVal> {
    spec_completion_items(result).map_values(|it: JsonVal| spec_transform_item(it))
}

/// Reshape one completion entry.
fn transform_item(item: &JsonValue) -> (r: JsonValue)
    ensures
        r@ == spec_transform_item(item@),
{
    let label_key = k_label_vec();
    let label: JsonValue = match item.obj_get(label_key.as_slice()) {
        Some(v) => match v.str_bytes() {
            Some(s) => JsonValue::Str(clone_bytes(s)),
            None => JsonValue::Str(Vec::new()),
        },
        None => JsonValue::Str(Vec::new()),
    };
    let kind_key = k_kind_vec();
    let kind: JsonValue = match item.obj_get(kind_key.as_slice()) {
        Some(v) => match v.as_int() {
            Some(i) => if i >= 0 {
                JsonValue::Int(i)
            } else {
                JsonValue::Int(1)
            },
            None => JsonValue::Int(1),
        },
        None => JsonValue::Int(1),
    };
    let detail_key = k_detail_vec();
    let detail: JsonValue = match item.obj_get(detail_key.as_slice()) {
        Some(v) => match v.str_bytes() {
            Some(s) => JsonValue::Str(clone_bytes(s)),
            None => JsonValue::Str(Vec::new()),
        },
        None => JsonValue::Str(Vec::new()),
    };
    let doc_key = k_documentation_vec();
    let doc: JsonValue = match item.obj_get(doc_key.as_slice()) {
        Some(v) => v.deep_clone(),
        None => JsonValue::Null,
    };
    let ghost glabel = label@;
    let ghost gkind = kind@;
    let ghost gdetail = detail@;
    let ghost gdoc = doc@;
    let mut fields: Vec<(Vec<u8>, JsonValue)> = Vec::new();
    fields.push((label_key, label));
    fields.push((kind_key, kind));
    fields.push((detail_key, detail));
    fields.push((doc_key, doc));
    let insert_key = k_insert_text_vec();
    match item.obj_get(insert_key.as_slice()) {
        Some(t) => {
            fields.push((insert_key, t.deep_clone()));
        },
        None => {},
    }
    let sort_key = k_sort_text_vec();
    match item.obj_get(sort_key.as_slice()) {
        Some(t) => {
            fields.push((sort_key, t.deep_clone()));
        },
        None => {},
    }
    proof {
        lemma_view_fields_len(fields, 0);
        let base = seq![
            (k_label(), glabel),
            (k_kind(), gkind),
            (k_detail(), gdetail),
            (k_documentation(), gdoc),
        ];
        let with_insert = match spec_obj_get(item@, k_insert_text()) {
            Some(t) => base.push((k_insert_text(), t)),
            None => base,
        };
        let with_sort = match spec_obj_get(item@, k_sort_text()) {
            Some(t) => with_insert.push((k_sort_text(), t)),
            None => with_insert,
        };
        assert(json_view_fields(fields, 0) =~= with_sort);
    }
    JsonValue::Obj(fields)
}

/// Reshape a completion response into its list of entries, however the
/// backend chose to wrap them; unusable responses give the empty list.
pub fn transform_completions(result: &JsonValue) -> (r: Vec<JsonValue>)
    ensures
        json_view_list(r, 0) == spec_transform_completions(result@),
{
    let items_key = k_items_vec();
    let items: &Vec<JsonValue> = match result.obj_get(items_key.as_slice()) {
        Some(v) => match v.arr_items() {
            Some(items) => items,
            None => {
                match result.arr_items() {
                    Some(items) => items,
                    None => {
                        let out: Vec<JsonValue> = Vec::new();
                        proof {
                            assert(json_view_list(out, 0) =~= spec_transform_completions(
                                result@,
                            ));
                        }
                        return out;
                    },
                }
            },
        },
        None => {
            match result.arr_items() {
                Some(items) => items,
                None => {
                    let out: Vec<JsonValue> = Vec::new();
                    proof {
                        assert(json_view_list(out, 0) =~= spec_transform_completions(result@));
                    }
                    return out;
                },
            }
        },
    };
    proof {
        lemma_view_list_len(*items, 0);
    }
    let ghost sitems = json_view_list(*items, 0);
    proof {
        assert(sitems == spec_completion_items(result@));
    }
    let n = items.len();
    let mut out: Vec<JsonValue> = Vec::new();
    let mut i: usize = 0;
    while i < n
        invariant
            0 <= i <= n,
            n == items@.len(),
            sitems == json_view_list(*items, 0),
            sitems.len() == n,
            forall|d: int| 0 <= d < n ==> #[trigger] sitems[d] == json_view(items@[d]),
            out@.len() == i,
            forall|d: int|
                0 <= d < i ==> json_view(#[trigger] out@[d]) == spec_transform_item(sitems[d]),
        decreases n - i,
    {
        let t = transform_item(&items[i]);
        out.push(t);
        i = i + 1;
    }
    proof {
        lemma_view_list_len(out, 0);
        assert(json_view_list(out, 0) =~= sitems.map_values(
            |it: JsonVal| spec_transform_item(it),
        ));
    }
    out
}

/// The location entries of a references or implementations response:
/// the response itself as an array, or nothing.
pub open spec fn spec_location_entries(result: JsonVal) -> Seq<JsonVal> {
    match result {
        JsonVal::Arr(items) => items,
        _ => Seq::empty(),
    }
}

/// The entries of an array-shaped response; anything else gives the
/// empty list.
pub fn response_array(result: &JsonValue) -> (r: Vec<JsonValue>)
    ensures
        json_view_list(r, 0) == spec_location_entries(result@),
{
    match result.arr_items() {
        Some(items) => {
            proof {
                lemma_view_list_len(*items, 0);
            }
            let n = items.len();
            let mut out: Vec<JsonValue> = Vec::new();
            let mut i: usize = 0;
            while i < n
                invariant
                    0 <= i <= n,
                    n == items@.len(),
                    json_view_list(*items, 0).len() == n,
                    forall|d: int|
                        0 <= d < n ==> #[trigger] json_view_list(*items, 0)[d] == json_view(
                            items@[d],
                        ),
                    out@.len() == i,
                    forall|d: int|
                        0 <= d < i ==> json_view(#[trigger] out@[d]) == json_view(items@[d]),
                decreases n - i,
            {
                let c = items[i].deep_clone();
                out.push(c);
                i = i + 1;
            }
            proof {
                lemma_view_list_len(out, 0);
                assert(json_view_list(out, 0) =~= json_view_list(*items, 0));
            }
            out
        },
        None => {
            let out: Vec<JsonValue> = Vec::new();
            proof {
                assert(json_view_list(out, 0) =~= Seq::<JsonVal>::empty());
            }
            out
        },
    }
}

/// `{"error": message}`, the degraded answer of a failed rename.
pub fn build_error_obj(message: &[u8]) -> (r: JsonValue)
    ensures
        r@ == JsonVal::Obj(
            seq![(crate::lsp_client::k_error(), JsonVal::Str(message@))],
        ),
{
    crate::lsp_client::obj1(
        crate::lsp_client::k_error_vec(),
        JsonValue::Str(slice_to_vec(message)),
    )
}

// ---------------------------------------------------------------------
// The facade's degradation policy
// ---------------------------------------------------------------------

/// What the facade knows about its backend: the configured project
/// root, whether the backend is enabled at all, and whether a client is
/// currently connected.
pub struct AnalyzerFacade {
    project_root: Vec<u8>,
    use_lsp: bool,
    connected: bool,
}

impl AnalyzerFacade {
    pub closed spec fn spec_project_root(self) -> Seq<u8> {
        self.project_root@
    }

    pub closed spec fn use_lsp(self) -> bool {
        self.use_lsp
    }

    pub closed spec fn connected(self) -> bool {
        self.connected
    }

    pub fn new(project_root: Vec<u8>, use_lsp: bool) -> (r: AnalyzerFacade)
        ensures
            r.spec_project_root() == project_root@,
            r.use_lsp() == use_lsp,
            !r.connected(),
    {
        AnalyzerFacade { project_root, use_lsp, connected: false }
    }

    /// Should an operation try to start the backend now?  Never when
    /// the backend toggle is off, and not when a client already runs.
    pub fn should_attempt_connect(&self) -> (r: bool)
        ensures
            r == (self.use_lsp() && !self.connected()),
    {
        self.use_lsp && !self.connected
    }

    /// A client is up and initialized.
    pub fn mark_connected(&mut self)
        ensures
            final(self).connected(),
            final(self).use_lsp() == old(self).use_lsp(),
            final(self).spec_project_root() == old(self).spec_project_root(),
    {
        self.connected = true;
    }

    /// The client is gone (it failed, or was shut down).
    pub fn mark_disconnected(&mut self)
        ensures
            !final(self).connected(),
            final(self).use_lsp() == old(self).use_lsp(),
            final(self).spec_project_root() == old(self).spec_project_root(),
    {
        self.connected = false;
    }

    /// The absolute path of `path` under this facade's project root.
    pub fn resolve(&self, path: &[u8]) -> (r: Vec<u8>)
        ensures
            r@ == spec_resolve_path(self.spec_project_root(), path@),
    {
        resolve_path(self.project_root.as_slice(), path)
    }

    /// The hover text for a backend response, or `None` when the
    /// backend is unavailable, answered with an error, or sent a shape
    /// with nothing to show.  A missing response never fails the call.
    pub fn hover_outcome(&self, response: Option<&JsonValue>) -> (r: Option<Vec<u8>>)
        ensures
            match response {
                None => r is None,
                Some(v) => match spec_normalize_hover(v@) {
                    Some(t) => match r {
                        Some(b) => b@ == t,
                        None => false,
                    },
                    None => r is None,
                },
            },
    {
        match response {
            None => None,
            Some(v) => normalize_hover(v),
        }
    }

    /// The completion entries for a backend response; an unavailable
    /// backend gives the empty list, never a failure.
    pub fn completions_outcome(&self, response: Option<&JsonValue>) -> (r: Vec<JsonValue>)
        ensures
            match response {
                None => json_view_list(r, 0) == Seq::<JsonVal>::empty(),
                Some(v) => json_view_list(r, 0) == spec_transform_completions(v@),
            },
    {
        match response {
            None => {
                let out: Vec<JsonValue> = Vec::new();
                proof {
                    assert(json_view_list(out, 0) =~= Seq::<JsonVal>::empty());
                }
                out
            },
            Some(v) => transform_completions(v),
        }
    }

    /// The location entries for a backend response; an unavailable
    /// backend gives the empty list, never a failure.
    pub fn locations_outcome(&self, response: Option<&JsonValue>) -> (r: Vec<JsonValue>)
        ensures
            match response {
                None => json_view_list(r, 0) == Seq::<JsonVal>::empty(),
                Some(v) => json_view_list(r, 0) == spec_location_entries(v@),
            },
    {
        match response {
            None => {
                let out: Vec<JsonValue> = Vec::new();
                proof {
                    assert(json_view_list(out, 0) =~= Seq::<JsonVal>::empty());
                }
                out
            },
            Some(v) => response_array(v),
        }
    }
}

/// With the backend toggle off the facade never asks to connect: no
/// process is ever spawned, and every operation takes its degraded
/// result from the `None` branch of its outcome function.
pub proof fn lemma_disabled_backend_never_connects(f: AnalyzerFacade)
    requires
        !f.use_lsp(),
    ensures
        !(f.use_lsp() && !f.connected()),
{
}

} // verus!
