//! The occurrence stream of a semantic index: documents, each an ordered list
//! of symbol occurrences, and its decoding from the binary format.
use vstd::prelude::*;

verus! {

/// One recorded appearance of a symbol at a source range.
pub struct Occurrence {
    pub symbol: String,
    pub range: Vec<i32>,
    pub symbol_roles: i32,
}

/// The occurrences of one source file, in the order the index lists them.
pub struct Document {
    pub relative_path: String,
    pub occurrences: Vec<Occurrence>,
}

/// What an occurrence holds, as plain values.
pub struct OccurrenceView {
    pub symbol: Seq<char>,
    pub range: Seq<i32>,
    pub symbol_roles: i32,
}

/// What a document holds, as plain values.
pub struct DocumentView {
    pub relative_path: Seq<char>,
    pub occurrences: Seq<OccurrenceView>,
}

impl View for Occurrence {
    type V = OccurrenceView;

    open spec fn view(&self) -> OccurrenceView {
        OccurrenceView { symbol: self.symbol@, range: self.range@, symbol_roles: self.symbol_roles }
    }
}

impl View for Document {
    type V = DocumentView;

    open spec fn view(&self) -> DocumentView {
        DocumentView {
            relative_path: self.relative_path@,
            occurrences: self.occurrences@.map_values(|o: Occurrence| o@),
        }
    }
}

/// The documents of a list, as plain values.
pub open spec fn documents_view(docs: Seq<Document>) -> Seq<DocumentView> {
    docs.map_values(|d: Document| d@)
}

impl OccurrenceView {
    /// Bit 0 of the role mask marks a definition.
    pub open spec fn is_definition_role(self) -> bool {
        self.symbol_roles & 1 != 0
    }

    /// A definition of a named symbol.
    pub open spec fn is_named_definition(self) -> bool {
        self.is_definition_role() && self.symbol.len() > 0
    }

    /// A reference to a named symbol.
    pub open spec fn is_named_reference(self) -> bool {
        !self.is_definition_role() && self.symbol.len() > 0
    }
}

impl Occurrence {
    /// Whether the role mask marks this occurrence as a definition.
    pub fn is_definition(&self) -> (r: bool)
        ensures
            r == self@.is_definition_role(),
    {
        self.symbol_roles & 1 != 0
    }
}

/// The documents that the binary encoding `bytes` of an index decodes to, or
/// `None` where `bytes` is not a valid encoding.
pub uninterp spec fn decoded_documents(bytes: Seq<u8>) -> Option<Seq<DocumentView>>;

/// Relies on `protobuf::Message::parse_from_bytes` for `scip::types::Index`:
/// whether the bytes decode, and to what, depends on the bytes alone.
#[verifier::external_body]
pub(crate) fn decode_documents(bytes: &[u8]) -> (r: Result<Vec<Document>, protobuf::Error>)
    ensures
        r is Ok <==> decoded_documents(bytes@) is Some,
        r is Ok ==> documents_view(r->Ok_0@) == decoded_documents(bytes@)->Some_0,
{
    let index = <scip::types::Index as protobuf::Message>::parse_from_bytes(bytes)?;
    Ok(index.documents.into_iter().map(|d| Document {
        relative_path: d.relative_path,
        occurrences: d.occurrences.into_iter().map(|o| Occurrence {
            symbol: o.symbol,
            range: o.range,
            symbol_roles: o.symbol_roles,
        }).collect(),
    }).collect())
}

#[verifier::external_type_specification]
#[verifier::external_body]
pub struct ExProtobufError(protobuf::Error);

/// Relies on the `Display` impl of `protobuf::Error` for a readable message.
#[verifier::external_body]
pub(crate) fn decode_error_message(e: &protobuf::Error) -> String {
    e.to_string()
}

} // verus!
