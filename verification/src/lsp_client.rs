//! The protocol client core: envelopes, capabilities, lifecycle.
//!
//! The client owns the request-ID counter, the lifecycle state machine
//! and the response correlator, and builds the framed bytes of every
//! message it sends.  All I/O stays outside: the surrounding runtime
//! spawns the backend process, writes the bytes this module hands it,
//! feeds decoded replies to [`LspClientCore::reader_step`], and reports
//! lifecycle events back through the `mark_*` transitions.

use vstd::prelude::*;
use vstd::slice::slice_to_vec;
use crate::correlator::Correlator;
use crate::framing::{encode_frame, spec_encode_frame};
use crate::json::{
    json_view, json_view_fields, json_view_list, lemma_view_fields_len, lemma_view_list_len,
    spec_obj_get, spec_write, JsonVal, JsonValue,
};

verus! {

/// `jsonrpc` as bytes.
pub open spec fn k_jsonrpc() -> Seq<u8> {
    seq![106u8, 115, 111, 110, 114, 112, 99]
}

/// `jsonrpc` as bytes.
pub fn k_jsonrpc_vec() -> (r: Vec<u8>)
    ensures
        r@ == k_jsonrpc(),
{
    let r: Vec<u8> = vec![106u8, 115, 111, 110, 114, 112, 99];
    proof {
        assert(r@ =~= k_jsonrpc());
    }
    r
}

/// `2.0` as bytes.
pub open spec fn k_two_zero() -> Seq<u8> {
    seq![50u8, 46, 48]
}

/// `2.0` as bytes.
pub fn k_two_zero_vec() -> (r: Vec<u8>)
    ensures
        r@ == k_two_zero(),
{
    let r: Vec<u8> = vec![50u8, 46, 48];
    proof {
        assert(r@ =~= k_two_zero());
    }
    r
}

/// `id` as bytes.
pub open spec fn k_id() -> Seq<u8> {
    seq![105u8, 100]
}

/// `id` as bytes.
pub fn k_id_vec() -> (r: Vec<u8>)
    ensures
        r@ == k_id(),
{
    let r: Vec<u8> = vec![105u8, 100];
    proof {
        assert(r@ =~= k_id());
    }
    r
}

/// `method` as bytes.
pub open spec fn k_method() -> Seq<u8> {
    seq![109u8, 101, 116, 104, 111, 100]
}

/// `method` as bytes.
pub fn k_method_vec() -> (r: Vec<u8>)
    ensures
        r@ == k_method(),
{
    let r: Vec<u8> = vec![109u8, 101, 116, 104, 111, 100];
    proof {
        assert(r@ =~= k_method());
    }
    r
}

/// `params` as bytes.
pub open spec fn k_params() -> Seq<u8> {
    seq![112u8, 97, 114, 97, 109, 115]
}

/// `params` as bytes.
pub fn k_params_vec() -> (r: Vec<u8>)
    ensures
        r@ == k_params(),
{
    let r: Vec<u8> = vec![112u8, 97, 114, 97, 109, 115];
    proof {
        assert(r@ =~= k_params());
    }
    r
}

/// `result` as bytes.
pub open spec fn k_result() -> Seq<u8> {
    seq![114u8, 101, 115, 117, 108, 116]
}

/// `result` as bytes.
pub fn k_result_vec() -> (r: Vec<u8>)
    ensures
        r@ == k_result(),
{
    let r: Vec<u8> = vec![114u8, 101, 115, 117, 108, 116];
    proof {
        assert(r@ =~= k_result());
    }
    r
}

/// `error` as bytes.
pub open spec fn k_error() -> Seq<u8> {
    seq![101u8, 114, 114, 111, 114]
}

/// `error` as bytes.
pub fn k_error_vec() -> (r: Vec<u8>)
    ensures
        r@ == k_error(),
{
    let r: Vec<u8> = vec![101u8, 114, 114, 111, 114];
    proof {
        assert(r@ =~= k_error());
    }
    r
}

/// `processId` as bytes.
pub open spec fn k_process_id() -> Seq<u8> {
    seq![112u8, 114, 111, 99, 101, 115, 115, 73, 100]
}

/// `processId` as bytes.
pub fn k_process_id_vec() -> (r: Vec<u8>)
    ensures
        r@ == k_process_id(),
{
    let r: Vec<u8> = vec![112u8, 114, 111, 99, 101, 115, 115, 73, 100];
    proof {
        assert(r@ =~= k_process_id());
    }
    r
}

/// `clientInfo` as bytes.
pub open spec fn k_client_info() -> Seq<u8> {
    seq![99u8, 108, 105, 101, 110, 116, 73, 110, 102, 111]
}

/// `clientInfo` as bytes.
pub fn k_client_info_vec() -> (r: Vec<u8>)
    ensures
        r@ == k_client_info(),
{
    let r: Vec<u8> = vec![99u8, 108, 105, 101, 110, 116, 73, 110, 102, 111];
    proof {
        assert(r@ =~= k_client_info());
    }
    r
}

/// `name` as bytes.
pub open spec fn k_name() -> Seq<u8> {
    seq![110u8, 97, 109, 101]
}

/// `name` as bytes.
pub fn k_name_vec() -> (r: Vec<u8>)
    ensures
        r@ == k_name(),
{
    let r: Vec<u8> = vec![110u8, 97, 109, 101];
    proof {
        assert(r@ =~= k_name());
    }
    r
}

/// `version` as bytes.
pub open spec fn k_version() -> Seq<u8> {
    seq![118u8, 101, 114, 115, 105, 111, 110]
}

/// `version` as bytes.
pub fn k_version_vec() -> (r: Vec<u8>)
    ensures
        r@ == k_version(),
{
    let r: Vec<u8> = vec![118u8, 101, 114, 115, 105, 111, 110];
    proof {
        assert(r@ =~= k_version());
    }
    r
}

/// `rootUri` as bytes.
pub open spec fn k_root_uri() -> Seq<u8> {
    seq![114u8, 111, 111, 116, 85, 114, 105]
}

/// `rootUri` as bytes.
pub fn k_root_uri_vec() -> (r: Vec<u8>)
    ensures
        r@ == k_root_uri(),
{
    let r: Vec<u8> = vec![114u8, 111, 111, 116, 85, 114, 105];
    proof {
        assert(r@ =~= k_root_uri());
    }
    r
}

/// `capabilities` as bytes.
pub open spec fn k_capabilities() -> Seq<u8> {
    seq![99u8, 97, 112, 97, 98, 105, 108, 105, 116, 105, 101, 115]
}

/// `capabilities` as bytes.
pub fn k_capabilities_vec() -> (r: Vec<u8>)
    ensures
        r@ == k_capabilities(),
{
    let r: Vec<u8> = vec![99u8, 97, 112, 97, 98, 105, 108, 105, 116, 105, 101, 115];
    proof {
        assert(r@ =~= k_capabilities());
    }
    r
}

/// `textDocument` as bytes.
pub open spec fn k_text_document() -> Seq<u8> {
    seq![116u8, 101, 120, 116, 68, 111, 99, 117, 109, 101, 110, 116]
}

/// `textDocument` as bytes.
pub fn k_text_document_vec() -> (r: Vec<u8>)
    ensures
        r@ == k_text_document(),
{
    let r: Vec<u8> = vec![116u8, 101, 120, 116, 68, 111, 99, 117, 109, 101, 110, 116];
    proof {
        assert(r@ =~= k_text_document());
    }
    r
}

/// `hover` as bytes.
pub open spec fn k_hover() -> Seq<u8> {
    seq![104u8, 111, 118, 101, 114]
}

/// `hover` as bytes.
pub fn k_hover_vec() -> (r: Vec<u8>)
    ensures
        r@ == k_hover(),
{
    let r: Vec<u8> = vec![104u8, 111, 118, 101, 114];
    proof {
        assert(r@ =~= k_hover());
    }
    r
}

/// `contentFormat` as bytes.
pub open spec fn k_content_format() -> Seq<u8> {
    seq![99u8, 111, 110, 116, 101, 110, 116, 70, 111, 114, 109, 97, 116]
}

/// `contentFormat` as bytes.
pub fn k_content_format_vec() -> (r: Vec<u8>)
    ensures
        r@ == k_content_format(),
{
    let r: Vec<u8> = vec![99u8, 111, 110, 116, 101, 110, 116, 70, 111, 114, 109, 97, 116];
    proof {
        assert(r@ =~= k_content_format());
    }
    r
}

/// `markdown` as bytes.
pub open spec fn k_markdown() -> Seq<u8> {
    seq![109u8, 97, 114, 107, 100, 111, 119, 110]
}

/// `markdown` as bytes.
pub fn k_markdown_vec() -> (r: Vec<u8>)
    ensures
        r@ == k_markdown(),
{
    let r: Vec<u8> = vec![109u8, 97, 114, 107, 100, 111, 119, 110];
    proof {
        assert(r@ =~= k_markdown());
    }
    r
}

/// `plaintext` as bytes.
pub open spec fn k_plaintext() -> Seq<u8> {
    seq![112u8, 108, 97, 105, 110, 116, 101, 120, 116]
}

/// `plaintext` as bytes.
pub fn k_plaintext_vec() -> (r: Vec<u8>)
    ensures
        r@ == k_plaintext(),
{
    let r: Vec<u8> = vec![112u8, 108, 97, 105, 110, 116, 101, 120, 116];
    proof {
        assert(r@ =~= k_plaintext());
    }
    r
}

/// `completion` as bytes.
pub open spec fn k_completion() -> Seq<u8> {
    seq![99u8, 111, 109, 112, 108, 101, 116, 105, 111, 110]
}

/// `completion` as bytes.
pub fn k_completion_vec() -> (r: Vec<u8>)
    ensures
        r@ == k_completion(),
{
    let r: Vec<u8> = vec![99u8, 111, 109, 112, 108, 101, 116, 105, 111, 110];
    proof {
        assert(r@ =~= k_completion());
    }
    r
}

/// `completionItem` as bytes.
pub open spec fn k_completion_item() -> Seq<u8> {
    seq![99u8, 111, 109, 112, 108, 101, 116, 105, 111, 110, 73, 116, 101, 109]
}

/// `completionItem` as bytes.
pub fn k_completion_item_vec() -> (r: Vec<u8>)
    ensures
        r@ == k_completion_item(),
{
    let r: Vec<u8> = vec![99u8, 111, 109, 112, 108, 101, 116, 105, 111, 110, 73, 116, 101, 109];
    proof {
        assert(r@ =~= k_completion_item());
    }
    r
}

/// `snippetSupport` as bytes.
pub open spec fn k_snippet_support() -> Seq<u8> {
    seq![115u8, 110, 105, 112, 112, 101, 116, 83, 117, 112, 112, 111, 114, 116]
}

/// `snippetSupport` as bytes.
pub fn k_snippet_support_vec() -> (r: Vec<u8>)
    ensures
        r@ == k_snippet_support(),
{
    let r: Vec<u8> = vec![115u8, 110, 105, 112, 112, 101, 116, 83, 117, 112, 112, 111, 114, 116];
    proof {
        assert(r@ =~= k_snippet_support());
    }
    r
}

/// `references` as bytes.
pub open spec fn k_references() -> Seq<u8> {
    seq![114u8, 101, 102, 101, 114, 101, 110, 99, 101, 115]
}

/// `references` as bytes.
pub fn k_references_vec() -> (r: Vec<u8>)
    ensures
        r@ == k_references(),
{
    let r: Vec<u8> = vec![114u8, 101, 102, 101, 114, 101, 110, 99, 101, 115];
    proof {
        assert(r@ =~= k_references());
    }
    r
}

/// `rename` as bytes.
pub open spec fn k_rename() -> Seq<u8> {
    seq![114u8, 101, 110, 97, 109, 101]
}

/// `rename` as bytes.
pub fn k_rename_vec() -> (r: Vec<u8>)
    ensures
        r@ == k_rename(),
{
    let r: Vec<u8> = vec![114u8, 101, 110, 97, 109, 101];
    proof {
        assert(r@ =~= k_rename());
    }
    r
}

/// `prepareSupport` as bytes.
pub open spec fn k_prepare_support() -> Seq<u8> {
    seq![112u8, 114, 101, 112, 97, 114, 101, 83, 117, 112, 112, 111, 114, 116]
}

/// `prepareSupport` as bytes.
pub fn k_prepare_support_vec() -> (r: Vec<u8>)
    ensures
        r@ == k_prepare_support(),
{
    let r: Vec<u8> = vec![112u8, 114, 101, 112, 97, 114, 101, 83, 117, 112, 112, 111, 114, 116];
    proof {
        assert(r@ =~= k_prepare_support());
    }
    r
}

/// `signatureHelp` as bytes.
pub open spec fn k_signature_help() -> Seq<u8> {
    seq![115u8, 105, 103, 110, 97, 116, 117, 114, 101, 72, 101, 108, 112]
}

/// `signatureHelp` as bytes.
pub fn k_signature_help_vec() -> (r: Vec<u8>)
    ensures
        r@ == k_signature_help(),
{
    let r: Vec<u8> = vec![115u8, 105, 103, 110, 97, 116, 117, 114, 101, 72, 101, 108, 112];
    proof {
        assert(r@ =~= k_signature_help());
    }
    r
}

/// `signatureInformation` as bytes.
pub open spec fn k_signature_information() -> Seq<u8> {
    seq![115u8, 105, 103, 110, 97, 116, 117, 114, 101, 73, 110, 102, 111, 114, 109, 97, 116, 105, 111, 110]
}

/// `signatureInformation` as bytes.
pub fn k_signature_information_vec() -> (r: Vec<u8>)
    ensures
        r@ == k_signature_information(),
{
    let r: Vec<u8> = vec![115u8, 105, 103, 110, 97, 116, 117, 114, 101, 73, 110, 102, 111, 114, 109, 97, 116, 105, 111, 110];
    proof {
        assert(r@ =~= k_signature_information());
    }
    r
}

/// `documentationFormat` as bytes.
pub open spec fn k_documentation_format() -> Seq<u8> {
    seq![100u8, 111, 99, 117, 109, 101, 110, 116, 97, 116, 105, 111, 110, 70, 111, 114, 109, 97, 116]
}

/// `documentationFormat` as bytes.
pub fn k_documentation_format_vec() -> (r: Vec<u8>)
    ensures
        r@ == k_documentation_format(),
{
    let r: Vec<u8> = vec![100u8, 111, 99, 117, 109, 101, 110, 116, 97, 116, 105, 111, 110, 70, 111, 114, 109, 97, 116];
    proof {
        assert(r@ =~= k_documentation_format());
    }
    r
}

/// `implementation` as bytes.
pub open spec fn k_implementation() -> Seq<u8> {
    seq![105u8, 109, 112, 108, 101, 109, 101, 110, 116, 97, 116, 105, 111, 110]
}

/// `implementation` as bytes.
pub fn k_implementation_vec() -> (r: Vec<u8>)
    ensures
        r@ == k_implementation(),
{
    let r: Vec<u8> = vec![105u8, 109, 112, 108, 101, 109, 101, 110, 116, 97, 116, 105, 111, 110];
    proof {
        assert(r@ =~= k_implementation());
    }
    r
}

/// `codeAction` as bytes.
pub open spec fn k_code_action() -> Seq<u8> {
    seq![99u8, 111, 100, 101, 65, 99, 116, 105, 111, 110]
}

/// `codeAction` as bytes.
pub fn k_code_action_vec() -> (r: Vec<u8>)
    ensures
        r@ == k_code_action(),
{
    let r: Vec<u8> = vec![99u8, 111, 100, 101, 65, 99, 116, 105, 111, 110];
    proof {
        assert(r@ =~= k_code_action());
    }
    r
}

/// `mcp-rust-analyzer` as bytes.
pub open spec fn k_client_name() -> Seq<u8> {
    seq![109u8, 99, 112, 45, 114, 117, 115, 116, 45, 97, 110, 97, 108, 121, 122, 101, 114]
}

/// `mcp-rust-analyzer` as bytes.
pub fn k_client_name_vec() -> (r: Vec<u8>)
    ensures
        r@ == k_client_name(),
{
    let r: Vec<u8> = vec![109u8, 99, 112, 45, 114, 117, 115, 116, 45, 97, 110, 97, 108, 121, 122, 101, 114];
    proof {
        assert(r@ =~= k_client_name());
    }
    r
}

/// `0.1.0` as bytes.
pub open spec fn k_client_version() -> Seq<u8> {
    seq![48u8, 46, 49, 46, 48]
}

/// `0.1.0` as bytes.
pub fn k_client_version_vec() -> (r: Vec<u8>)
    ensures
        r@ == k_client_version(),
{
    let r: Vec<u8> = vec![48u8, 46, 49, 46, 48];
    proof {
        assert(r@ =~= k_client_version());
    }
    r
}

/// `initialize` as bytes.
pub open spec fn k_initialize_name() -> Seq<u8> {
    seq![105u8, 110, 105, 116, 105, 97, 108, 105, 122, 101]
}

/// `initialize` as bytes.
pub fn k_initialize_name_vec() -> (r: Vec<u8>)
    ensures
        r@ == k_initialize_name(),
{
    let r: Vec<u8> = vec![105u8, 110, 105, 116, 105, 97, 108, 105, 122, 101];
    proof {
        assert(r@ =~= k_initialize_name());
    }
    r
}

// ---------------------------------------------------------------------
// Document builders
// ---------------------------------------------------------------------

/// An object with no fields.
pub(crate) fn obj0() -> (r: JsonValue)
    ensures
        r@ == JsonVal::Obj(Seq::empty()),
{
    let fields: Vec<(Vec<u8>, JsonValue)> = Vec::new();
    proof {
        assert(json_view_fields(fields, 0) =~= Seq::<(Seq<u8>, JsonVal)>::empty());
    }
    JsonValue::Obj(fields)
}

/// An object of one field.
pub(crate) fn obj1(k1: Vec<u8>, v1: JsonValue) -> (r: JsonValue)
    ensures
        r@ == JsonVal::Obj(seq![(k1@, v1@)]),
{
    let ghost gk1 = k1@;
    let ghost gv1 = v1@;
    let mut fields: Vec<(Vec<u8>, JsonValue)> = Vec::new();
    fields.push((k1, v1));
    proof {
        lemma_view_fields_len(fields, 0);
        assert(json_view_fields(fields, 0) =~= seq![(gk1, gv1)]);
    }
    JsonValue::Obj(fields)
}

/// An object of two fields.
pub(crate) fn obj2(k1: Vec<u8>, v1: JsonValue, k2: Vec<u8>, v2: JsonValue) -> (r: JsonValue)
    ensures
        r@ == JsonVal::Obj(seq![(k1@, v1@), (k2@, v2@)]),
{
    let ghost g = seq![(k1@, v1@), (k2@, v2@)];
    let mut fields: Vec<(Vec<u8>, JsonValue)> = Vec::new();
    fields.push((k1, v1));
    fields.push((k2, v2));
    proof {
        lemma_view_fields_len(fields, 0);
        assert(json_view_fields(fields, 0) =~= g);
    }
    JsonValue::Obj(fields)
}

/// An object of three fields.
pub(crate) fn obj3(k1: Vec<u8>, v1: JsonValue, k2: Vec<u8>, v2: JsonValue, k3: Vec<u8>, v3: JsonValue) -> (r:
    JsonValue)
    ensures
        r@ == JsonVal::Obj(seq![(k1@, v1@), (k2@, v2@), (k3@, v3@)]),
{
    let ghost g = seq![(k1@, v1@), (k2@, v2@), (k3@, v3@)];
    let mut fields: Vec<(Vec<u8>, JsonValue)> = Vec::new();
    fields.push((k1, v1));
    fields.push((k2, v2));
    fields.push((k3, v3));
    proof {
        lemma_view_fields_len(fields, 0);
        assert(json_view_fields(fields, 0) =~= g);
    }
    JsonValue::Obj(fields)
}

/// An object of four fields.
pub(crate) fn obj4(
    k1: Vec<u8>,
    v1: JsonValue,
    k2: Vec<u8>,
    v2: JsonValue,
    k3: Vec<u8>,
    v3: JsonValue,
    k4: Vec<u8>,
    v4: JsonValue,
) -> (r: JsonValue)
    ensures
        r@ == JsonVal::Obj(seq![(k1@, v1@), (k2@, v2@), (k3@, v3@), (k4@, v4@)]),
{
    let ghost g = seq![(k1@, v1@), (k2@, v2@), (k3@, v3@), (k4@, v4@)];
    let mut fields: Vec<(Vec<u8>, JsonValue)> = Vec::new();
    fields.push((k1, v1));
    fields.push((k2, v2));
    fields.push((k3, v3));
    fields.push((k4, v4));
    proof {
        lemma_view_fields_len(fields, 0);
        assert(json_view_fields(fields, 0) =~= g);
    }
    JsonValue::Obj(fields)
}

/// An array of two elements.
pub(crate) fn arr2(v1: JsonValue, v2: JsonValue) -> (r: JsonValue)
    ensures
        r@ == JsonVal::Arr(seq![v1@, v2@]),
{
    let ghost g = seq![v1@, v2@];
    let mut elems: Vec<JsonValue> = Vec::new();
    elems.push(v1);
    elems.push(v2);
    proof {
        lemma_view_list_len(elems, 0);
        assert(json_view_list(elems, 0) =~= g);
    }
    JsonValue::Arr(elems)
}

// ---------------------------------------------------------------------
// Message envelopes
// ---------------------------------------------------------------------

/// The JSON-RPC request envelope.
pub open spec fn spec_request(id: int, method: Seq<u8>, params: JsonVal) -> JsonVal {
    JsonVal::Obj(
        seq![
            (k_jsonrpc(), JsonVal::Str(k_two_zero())),
            (k_id(), JsonVal::Int(id)),
            (k_method(), JsonVal::Str(method)),
            (k_params(), params),
        ],
    )
}

/// The JSON-RPC notification envelope: no ID, so no reply.
pub open spec fn spec_notification(method: Seq<u8>, params: JsonVal) -> JsonVal {
    JsonVal::Obj(
        seq![
            (k_jsonrpc(), JsonVal::Str(k_two_zero())),
            (k_method(), JsonVal::Str(method)),
            (k_params(), params),
        ],
    )
}

/// Build the request envelope for `method` with `params`.
pub fn build_request(id: u64, method: &[u8], params: JsonValue) -> (r: JsonValue)
    requires
        id <= i64::MAX as u64,
    ensures
        r@ == spec_request(id as int, method@, params@),
{
    obj4(
        k_jsonrpc_vec(),
        JsonValue::Str(k_two_zero_vec()),
        k_id_vec(),
        JsonValue::Int(id as i64),
        k_method_vec(),
        JsonValue::Str(slice_to_vec(method)),
        k_params_vec(),
        params,
    )
}

/// Build the notification envelope for `method` with `params`.
pub fn build_notification(method: &[u8], params: JsonValue) -> (r: JsonValue)
    ensures
        r@ == spec_notification(method@, params@),
{
    obj3(
        k_jsonrpc_vec(),
        JsonValue::Str(k_two_zero_vec()),
        k_method_vec(),
        JsonValue::Str(slice_to_vec(method)),
        k_params_vec(),
        params,
    )
}

// ---------------------------------------------------------------------
// The initialize handshake payload
// ---------------------------------------------------------------------

/// The content formats the client accepts, markdown preferred.
pub open spec fn spec_content_formats() -> JsonVal {
    JsonVal::Arr(seq![JsonVal::Str(k_markdown()), JsonVal::Str(k_plaintext())])
}

/// The capability advertisement for text-document operations.
pub open spec fn spec_text_document_caps() -> JsonVal {
    JsonVal::Obj(spec_text_document_caps_fields())
}

pub open spec fn spec_text_document_caps_fields() -> Seq<(Seq<u8>, JsonVal)> {
    (
        seq![
            (k_hover(), JsonVal::Obj(seq![(k_content_format(), spec_content_formats())])),
            (
                k_completion(),
                JsonVal::Obj(
                    seq![
                        (
                            k_completion_item(),
                            JsonVal::Obj(seq![(k_snippet_support(), JsonVal::Bool(true))]),
                        ),
                    ],
                ),
            ),
            (k_references(), JsonVal::Obj(Seq::empty())),
            (k_rename(), JsonVal::Obj(seq![(k_prepare_support(), JsonVal::Bool(true))])),
            (
                k_signature_help(),
                JsonVal::Obj(
                    seq![
                        (
                            k_signature_information(),
                            JsonVal::Obj(seq![(k_documentation_format(), spec_content_formats())]),
                        ),
                    ],
                ),
            ),
            (k_implementation(), JsonVal::Obj(Seq::empty())),
            (k_code_action(), JsonVal::Obj(Seq::empty())),
        ]
    )
}

/// The whole handshake parameter object: process ID, client identity,
/// workspace root, and the capability advertisement.
pub open spec fn spec_initialize_params(pid: int, root_uri: Seq<u8>) -> JsonVal {
    JsonVal::Obj(
        seq![
            (k_process_id(), JsonVal::Int(pid)),
            (
                k_client_info(),
                JsonVal::Obj(
                    seq![
                        (k_name(), JsonVal::Str(k_client_name())),
                        (k_version(), JsonVal::Str(k_client_version())),
                    ],
                ),
            ),
            (k_root_uri(), JsonVal::Str(root_uri)),
            (k_capabilities(), JsonVal::Obj(seq![(k_text_document(), spec_text_document_caps())])),
        ],
    )
}

fn build_content_formats() -> (r: JsonValue)
    ensures
        r@ == spec_content_formats(),
{
    arr2(JsonValue::Str(k_markdown_vec()), JsonValue::Str(k_plaintext_vec()))
}

fn build_text_document_caps() -> (r: JsonValue)
    ensures
        r@ == spec_text_document_caps(),
{
    let hover_caps = obj1(k_content_format_vec(), build_content_formats());
    let completion_caps = obj1(
        k_completion_item_vec(),
        obj1(k_snippet_support_vec(), JsonValue::Bool(true)),
    );
    let rename_caps = obj1(k_prepare_support_vec(), JsonValue::Bool(true));
    let sighelp_caps = obj1(
        k_signature_information_vec(),
        obj1(k_documentation_format_vec(), build_content_formats()),
    );
    let mut fields: Vec<(Vec<u8>, JsonValue)> = Vec::new();
    fields.push((k_hover_vec(), hover_caps));
    fields.push((k_completion_vec(), completion_caps));
    fields.push((k_references_vec(), obj0()));
    fields.push((k_rename_vec(), rename_caps));
    fields.push((k_signature_help_vec(), sighelp_caps));
    fields.push((k_implementation_vec(), obj0()));
    fields.push((k_code_action_vec(), obj0()));
    proof {
        lemma_view_fields_len(fields, 0);
        assert(json_view_fields(fields, 0) =~= spec_text_document_caps_fields());
    }
    JsonValue::Obj(fields)
}

/// Build the handshake parameters.
pub fn build_initialize_params(pid: u32, root_uri: &[u8]) -> (r: JsonValue)
    ensures
        r@ == spec_initialize_params(pid as int, root_uri@),
{
    let client_info = obj2(
        k_name_vec(),
        JsonValue::Str(k_client_name_vec()),
        k_version_vec(),
        JsonValue::Str(k_client_version_vec()),
    );
    let caps = obj1(k_text_document_vec(), build_text_document_caps());
    obj4(
        k_process_id_vec(),
        JsonValue::Int(pid as i64),
        k_client_info_vec(),
        client_info,
        k_root_uri_vec(),
        JsonValue::Str(slice_to_vec(root_uri)),
        k_capabilities_vec(),
        caps,
    )
}

// ---------------------------------------------------------------------
// The client core
// ---------------------------------------------------------------------

/// How to reach and anchor the backend process.
pub struct LspClientConfig {
    pub server_path: String,
    pub server_args: Vec<String>,
    pub root_path: String,
}

/// The client lifecycle.  Only `Initialized` accepts ordinary requests.
#[derive(Clone, Copy, PartialEq, Eq, Structural, Debug)]
pub enum ClientState {
    NotStarted,
    Starting,
    Initialized,
    ShuttingDown,
    Stopped,
}

/// Why a message could not be prepared.
#[derive(Clone, Copy, PartialEq, Eq, Structural, Debug)]
pub enum ClientError {
    /// The client is not in a state that accepts this call.
    NotInitialized,
}

/// What the reader loop should do with one decoded message.
pub enum ReaderStep {
    /// A response for a live request: hand the payload to its waiter.
    /// The flag is true when the payload is an error payload.
    Deliver(u64, bool, JsonValue),
    /// A response whose request is gone (resolved or timed out): drop it.
    LateResponse(u64),
    /// Not a response; server-initiated traffic is discarded here.
    NotResponse,
}

/// What [`spec_reader_step`] sees in a decoded message: the response ID
/// and payload, with `true` for an error payload.
pub open spec fn spec_response_of(m: JsonVal) -> Option<(int, bool, JsonVal)> {
    match spec_obj_get(m, k_id()) {
        Some(idv) => match idv {
            JsonVal::Int(i) => {
                if 0 <= i {
                    match spec_obj_get(m, k_error()) {
                        Some(e) => Some((i, true, e)),
                        None => match spec_obj_get(m, k_result()) {
                            Some(res) => Some((i, false, res)),
                            None => None,
                        },
                    }
                } else {
                    None
                }
            },
            _ => None,
        },
        None => None,
    }
}

pub struct LspClientCore {
    config: LspClientConfig,
    state: ClientState,
    next_id: u64,
    correlator: Correlator,
}

impl LspClientCore {
    pub closed spec fn state(self) -> ClientState {
        self.state
    }

    pub closed spec fn next_id(self) -> u64 {
        self.next_id
    }

    /// Is a request with this ID still waiting for its response?
    pub closed spec fn pending(self, id: u64) -> bool {
        self.correlator.is_pending(id)
    }

    pub closed spec fn spec_config(self) -> LspClientConfig {
        self.config
    }

    /// IDs start at one, stay embeddable in a JSON number, and every
    /// pending ID was handed out before the counter reached it.
    pub closed spec fn wf(self) -> bool {
        &&& self.correlator.wf()
        &&& 1 <= self.next_id
        &&& self.next_id as int <= i64::MAX as int
        &&& forall|id: u64| self.correlator.is_pending(id) ==> id < self.next_id
    }

    pub fn new(config: LspClientConfig) -> (r: LspClientCore)
        ensures
            r.wf(),
            r.state() == ClientState::NotStarted,
            r.next_id() == 1,
            forall|id: u64| !r.pending(id),
            r.spec_config() == config,
    {
        LspClientCore {
            config,
            state: ClientState::NotStarted,
            next_id: 1,
            correlator: Correlator::new(),
        }
    }

    pub fn config(&self) -> (r: &LspClientConfig)
        ensures
            *r == self.spec_config(),
    {
        &self.config
    }

    pub fn current_state(&self) -> (r: ClientState)
        ensures
            r == self.state(),
    {
        self.state
    }

    pub fn next_request_id(&self) -> (r: u64)
        ensures
            r == self.next_id(),
    {
        self.next_id
    }

    /// The backend process was spawned; requests are not accepted yet.
    pub fn mark_started(&mut self)
        requires
            old(self).wf(),
            old(self).state() == ClientState::NotStarted,
        ensures
            final(self).wf(),
            final(self).state() == ClientState::Starting,
            final(self).next_id() == old(self).next_id(),
            final(self).spec_config() == old(self).spec_config(),
            forall|id: u64| final(self).pending(id) == old(self).pending(id),
    {
        self.state = ClientState::Starting;
    }

    /// The handshake answer arrived and the readiness notification went
    /// out: ordinary requests are accepted from here on.
    pub fn mark_initialized(&mut self)
        requires
            old(self).wf(),
            old(self).state() == ClientState::Starting,
        ensures
            final(self).wf(),
            final(self).state() == ClientState::Initialized,
            final(self).next_id() == old(self).next_id(),
            final(self).spec_config() == old(self).spec_config(),
            forall|id: u64| final(self).pending(id) == old(self).pending(id),
    {
        self.state = ClientState::Initialized;
    }

    /// The handshake failed; the client is unusable and the process is
    /// torn down.
    pub fn mark_initialize_failed(&mut self)
        requires
            old(self).wf(),
            old(self).state() == ClientState::Starting,
        ensures
            final(self).wf(),
            final(self).state() == ClientState::Stopped,
            final(self).next_id() == old(self).next_id(),
            final(self).spec_config() == old(self).spec_config(),
            forall|id: u64| final(self).pending(id) == old(self).pending(id),
    {
        self.state = ClientState::Stopped;
    }

    /// Allocate the next request ID and register its completion slot.
    fn take_request_id(&mut self) -> (id: u64)
        requires
            old(self).wf(),
            old(self).next_id() < i64::MAX as u64,
        ensures
            final(self).wf(),
            id == old(self).next_id(),
            final(self).next_id() == old(self).next_id() + 1,
            final(self).state() == old(self).state(),
            final(self).spec_config() == old(self).spec_config(),
            final(self).pending(id),
            forall|other: u64| other != id ==> final(self).pending(other) == old(self).pending(
                other,
            ),
            id <= i64::MAX as u64,
    {
        let id = self.next_id;
        proof {
            assert(!self.correlator.is_pending(id));
        }
        self.correlator.register(id);
        self.next_id = self.next_id + 1;
        id
    }

    /// Frame a request for `method`.  Only an initialized client may
    /// send ordinary requests; in any other state nothing changes and
    /// the call is refused.  On success the new request's ID is pending
    /// and no other slot moved.
    pub fn prepare_request(&mut self, method: &[u8], params: JsonValue) -> (r: Result<
        (u64, Vec<u8>),
        ClientError,
    >)
        requires
            old(self).wf(),
            old(self).next_id() < i64::MAX as u64,
        ensures
            final(self).wf(),
            final(self).state() == old(self).state(),
            final(self).spec_config() == old(self).spec_config(),
            old(self).state() == ClientState::Initialized ==> match r {
                Ok((id, bytes)) => {
                    &&& id == old(self).next_id()
                    &&& final(self).next_id() == old(self).next_id() + 1
                    &&& final(self).pending(id)
                    &&& forall|other: u64|
                        other != id ==> final(self).pending(other) == old(self).pending(other)
                    &&& bytes@ == spec_encode_frame(
                        spec_write(spec_request(id as int, method@, params@)),
                    )
                },
                Err(_) => false,
            },
            old(self).state() != ClientState::Initialized ==> r == Err::<
                (u64, Vec<u8>),
                ClientError,
            >(ClientError::NotInitialized) && *final(self) == *old(self),
    {
        match self.state {
            ClientState::Initialized => {
                let id = self.take_request_id();
                let request = build_request(id, method, params);
                let body = crate::json::write_json(&request);
                let bytes = encode_frame(&body);
                Ok((id, bytes))
            },
            _ => Err(ClientError::NotInitialized),
        }
    }

    /// Frame the handshake request itself; allowed only while starting.
    pub fn prepare_initialize_request(&mut self, params: JsonValue) -> (r: Result<
        (u64, Vec<u8>),
        ClientError,
    >)
        requires
            old(self).wf(),
            old(self).next_id() < i64::MAX as u64,
        ensures
            final(self).wf(),
            final(self).state() == old(self).state(),
            final(self).spec_config() == old(self).spec_config(),
            old(self).state() == ClientState::Starting ==> match r {
                Ok((id, bytes)) => {
                    &&& id == old(self).next_id()
                    &&& final(self).next_id() == old(self).next_id() + 1
                    &&& final(self).pending(id)
                    &&& forall|other: u64|
                        other != id ==> final(self).pending(other) == old(self).pending(other)
                    &&& bytes@ == spec_encode_frame(
                        spec_write(spec_request(id as int, k_initialize_name(), params@)),
                    )
                },
                Err(_) => false,
            },
            old(self).state() != ClientState::Starting ==> r == Err::<
                (u64, Vec<u8>),
                ClientError,
            >(ClientError::NotInitialized) && *final(self) == *old(self),
    {
        match self.state {
            ClientState::Starting => {
                let id = self.take_request_id();
                let method = k_initialize_name_vec();
                let request = build_request(id, method.as_slice(), params);
                let body = crate::json::write_json(&request);
                let bytes = encode_frame(&body);
                Ok((id, bytes))
            },
            _ => Err(ClientError::NotInitialized),
        }
    }

    /// Frame a notification; notifications carry no ID and get no reply.
    pub fn prepare_notification(&self, method: &[u8], params: JsonValue) -> (bytes: Vec<u8>)
        ensures
            bytes@ == spec_encode_frame(spec_write(spec_notification(method@, params@))),
    {
        let note = build_notification(method, params);
        let body = crate::json::write_json(&note);
        encode_frame(&body)
    }

    /// A request timed out: retire its slot, so that a late response is
    /// dropped.  No other request is touched.
    pub fn on_timeout(&mut self, id: u64)
        requires
            old(self).wf(),
        ensures
            final(self).wf(),
            final(self).state() == old(self).state(),
            final(self).next_id() == old(self).next_id(),
            final(self).spec_config() == old(self).spec_config(),
            !final(self).pending(id),
            forall|other: u64| other != id ==> final(self).pending(other) == old(self).pending(
                other,
            ),
    {
        self.correlator.cancel(id);
    }

    /// Act on one decoded message from the backend's output.  A response
    /// to a live request retires its slot and carries its payload to the
    /// waiter; a response to a retired request is dropped silently;
    /// anything else is ignored and nothing changes.
    pub fn reader_step(&mut self, msg: &JsonValue) -> (r: ReaderStep)
        requires
            old(self).wf(),
        ensures
            final(self).wf(),
            final(self).state() == old(self).state(),
            final(self).next_id() == old(self).next_id(),
            final(self).spec_config() == old(self).spec_config(),
            match spec_response_of(msg@) {
                Some((sid, is_err, payload)) => {
                    &&& !final(self).pending(sid as u64)
                    &&& forall|other: u64|
                        other != sid as u64 ==> final(self).pending(other) == old(self).pending(
                            other,
                        )
                    &&& (match r {
                        ReaderStep::Deliver(rid, rerr, rv) => rid == sid as u64 && rerr == is_err
                            && rv@ == payload && old(self).pending(sid as u64),
                        ReaderStep::LateResponse(rid) => rid == sid as u64 && !old(self).pending(
                            sid as u64,
                        ),
                        ReaderStep::NotResponse => false,
                    })
                },
                None => r is NotResponse && *final(self) == *old(self),
            },
    {
        let id_key = k_id_vec();
        let idv = match msg.obj_get(id_key.as_slice()) {
            Some(x) => x,
            None => {
                return ReaderStep::NotResponse;
            },
        };
        let id_num = match idv.as_int() {
            Some(i) => i,
            None => {
                return ReaderStep::NotResponse;
            },
        };
        if id_num < 0 {
            return ReaderStep::NotResponse;
        }
        let id = id_num as u64;
        let err_key = k_error_vec();
        let res_key = k_result_vec();
        let (is_err, payload) = match msg.obj_get(err_key.as_slice()) {
            Some(e) => (true, e.deep_clone()),
            None => match msg.obj_get(res_key.as_slice()) {
                Some(res) => (false, res.deep_clone()),
                None => {
                    return ReaderStep::NotResponse;
                },
            },
        };
        let delivered = self.correlator.resolve(id, ());
        match delivered {
            Some(_) => ReaderStep::Deliver(id, is_err, payload),
            None => ReaderStep::LateResponse(id),
        }
    }

    /// Shut the client down.  From any state this ends in `Stopped`, and
    /// it never fails; the returned flag says whether the caller owes the
    /// backend the graceful goodbye (shutdown request, exit notification,
    /// bounded wait, then force-kill), which is owed only when the client
    /// was initialized.
    pub fn shutdown(&mut self) -> (teardown: bool)
        requires
            old(self).wf(),
        ensures
            final(self).wf(),
            spec_shutdown(*old(self), *final(self), teardown),
    {
        let teardown = match self.state {
            ClientState::Initialized => true,
            _ => false,
        };
        self.state = ClientState::Stopped;
        teardown
    }
}

/// How `shutdown` changes the client: it always ends `Stopped`, asks for
/// process teardown exactly when the client was initialized, and touches
/// nothing else.
pub open spec fn spec_shutdown(pre: LspClientCore, post: LspClientCore, teardown: bool) -> bool {
    &&& post.state() == ClientState::Stopped
    &&& teardown == (pre.state() == ClientState::Initialized)
    &&& post.next_id() == pre.next_id()
    &&& post.spec_config() == pre.spec_config()
    &&& forall|id: u64| post.pending(id) == pre.pending(id)
}

/// Shutting down twice in a row succeeds both times, leaves the client
/// `Stopped`, and the second call owes the backend nothing.
pub proof fn lemma_shutdown_idempotent(
    c0: LspClientCore,
    c1: LspClientCore,
    c2: LspClientCore,
    t1: bool,
    t2: bool,
)
    requires
        spec_shutdown(c0, c1, t1),
        spec_shutdown(c1, c2, t2),
    ensures
        c1.state() == ClientState::Stopped,
        c2.state() == ClientState::Stopped,
        !t2,
{
}

/// Shutting down a client that was never initialized succeeds, owes the
/// backend nothing, and still ends `Stopped`.
pub proof fn lemma_shutdown_without_initialize(c0: LspClientCore, c1: LspClientCore, t1: bool)
    requires
        c0.state() != ClientState::Initialized,
        spec_shutdown(c0, c1, t1),
    ensures
        !t1,
        c1.state() == ClientState::Stopped,
{
}

} // verus!
