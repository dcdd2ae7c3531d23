use vstd::prelude::*;

verus! {

/// Errors returned synchronously to the caller, before any task is created.
#[derive(Clone, Copy, Debug, PartialEq, Eq, Structural)]
pub enum ApiError {
    /// The request's content type names no supported payload format.
    UnsupportedMediaType,
    /// The payload bytes cannot be parsed under the recognized format; the
    /// position is the byte offset where parsing stopped.
    MalformedPayload { position: usize },
    /// A document of the batch lacks the primary key field, or holds a
    /// non-scalar or null value under it; `doc_index` is the first offender.
    /// Detected before a task is created.
    MissingPrimaryKey { doc_index: usize },
    /// No primary key was established or supplied, and scanning the first
    /// document found no single usable id-like field. Detected before a
    /// task is created.
    PrimaryKeyInferenceFailed,
    /// An index was addressed that does not exist.
    IndexNotFound,
    /// A single-document lookup or delete named an unknown document.
    DocumentNotFound,
}

/// Errors recorded on a task by the mutation worker.
#[derive(Clone, Copy, Debug, PartialEq, Eq, Structural)]
pub enum TaskError {
    /// A document of the batch lacks the primary key field or holds a
    /// non-scalar or null value under it; `doc_index` is the first offender.
    MissingPrimaryKey { doc_index: usize },
    /// No primary key was established or supplied, and scanning the first
    /// document found no single usable id-like field.
    PrimaryKeyInferenceFailed,
    /// The indexing engine could not be reached within the bounded retries
    /// of `next_engine_attempt`.
    EngineUnavailable,
    /// The indexing engine failed; the failure stays with this one task.
    InternalEngineError,
}

} // verus!
