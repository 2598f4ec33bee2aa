//! Documents, the unit that is written, and the key they are grouped by.

use vstd::prelude::*;

verus! {

/// What a bulk request asks the store to do with one document.
#[derive(Clone, Copy, Debug, PartialEq, Eq, Hash, Structural)]
pub enum BulkAction {
    Index,
    Create,
    Update,
    Delete,
}

/// How the store compares a document's version with the one it holds.
#[derive(Clone, Copy, Debug, PartialEq, Eq, Hash, Structural)]
pub enum VersionType {
    Internal,
    External,
    ExternalGte,
}

/// One document ready to be sent: where it goes, how it is written, and its
/// fields as one line of JSON.
#[derive(Clone, Debug, PartialEq, Eq)]
pub struct Document {
    pub index: String,
    pub action: BulkAction,
    pub id: Option<String>,
    pub version: Option<u64>,
    pub version_type: VersionType,
    pub payload: Vec<u8>,
}

/// The model of a document.
pub struct DocumentView {
    pub index: Seq<char>,
    pub action: BulkAction,
    pub id: Option<Seq<char>>,
    pub version: Option<u64>,
    pub version_type: VersionType,
    pub payload: Seq<u8>,
}

impl View for Document {
    type V = DocumentView;

    open spec fn view(&self) -> DocumentView {
        DocumentView {
            index: self.index@,
            action: self.action,
            id: match self.id {
                Some(id) => Some(id@),
                None => None,
            },
            version: self.version,
            version_type: self.version_type,
            payload: self.payload@,
        }
    }
}

impl DocumentView {
    /// The bytes a document adds to a batch: the length of its payload.
    pub open spec fn size(self) -> nat {
        self.payload.len()
    }
}

/// The models of some documents.
pub open spec fn doc_views(docs: Seq<Document>) -> Seq<DocumentView> {
    docs.map_values(|d: Document| d@)
}

impl Document {
    /// A document can be routed when its index name is not empty.
    pub open spec fn routable(&self) -> bool {
        self.index@.len() > 0
    }

    /// The bytes a document adds to a batch: the length of its payload.
    pub open spec fn size(&self) -> nat {
        self@.size()
    }

    /// The bytes a document adds to a batch.
    pub fn byte_size(&self) -> (n: usize)
        ensures
            n == self.size(),
    {
        self.payload.len()
    }
}

/// The model of a partition key: the index name and the action.
pub struct KeyView {
    pub index: Seq<char>,
    pub action: BulkAction,
}

/// Documents with the same index and action travel in the same batches.
#[derive(Clone, Debug, PartialEq, Eq, Hash)]
pub struct PartitionKey {
    pub index: String,
    pub bulk_action: BulkAction,
}

impl View for PartitionKey {
    type V = KeyView;

    open spec fn view(&self) -> KeyView {
        KeyView { index: self.index@, action: self.bulk_action }
    }
}

/// The key of a document, as a model value.
pub open spec fn key_of(doc: DocumentView) -> KeyView {
    KeyView { index: doc.index, action: doc.action }
}

impl PartitionKey {
    /// Whether two keys name the same partition.
    pub fn same(&self, other: &PartitionKey) -> (eq: bool)
        ensures
            eq == (self@ == other@),
    {
        self.bulk_action == other.bulk_action && self.index == other.index
    }

    /// Whether this is the key of `doc`.
    pub fn holds(&self, doc: &Document) -> (eq: bool)
        ensures
            eq == (self@ == key_of(doc@)),
    {
        self.bulk_action == doc.action && self.index == doc.index
    }
}

/// The partition a document belongs to: its index and its action. The same
/// document always gives the same key.
pub fn partition_key(doc: &Document) -> (key: PartitionKey)
    ensures
        key@ == key_of(doc@),
{
    PartitionKey { index: doc.index.clone(), bulk_action: doc.action }
}

} // verus!
