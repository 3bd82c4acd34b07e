//! Crate-wide error hierarchy.
//!
//! Crypto failures are deliberately vague: `Crypto` and `KeyOrData` do not
//! distinguish a wrong key from tampered or truncated data.

use vstd::prelude::*;

verus! {

/// Every failure the library reports.
#[derive(Debug, Clone, PartialEq, Eq)]
pub enum Error {
    /// A failure of the crypto layer that is not a clear "key wrong or data
    /// corrupt" signal.
    Crypto,
    /// The bytes do not parse as a vault blob or row.
    BlobFormat,
    /// Decryption failed: wrong key, tampered or truncated input.
    KeyOrData,
    /// An I/O failure, carrying the description of its kind.
    Io(String),
    /// A database failure, carrying its description.
    Db(String),
    /// A media decoding failure.
    Media(String),
    /// An ingest failure.
    Ingest(String),
    /// The requested item does not exist.
    NotFound,
    /// Key material that the operation needs is not loaded.
    Locked,
    /// Too many unlock attempts.
    RateLimited,
    /// The on-device ML runtime is not available.
    ModelsUnavailable,
    /// A model file does not match its checksum.
    MlModelChecksum(&'static str),
    /// A model's output layout does not match the post-processor.
    MlModelShape(&'static str),
    /// A pairing ticket's byte layout is malformed.
    TicketFormat(&'static str),
    /// A pairing ticket's signature does not verify.
    TicketSignature,
    /// The remote peer could not be reached.
    PeerUnreachable,
}

/// `lit` followed by `rest`.
fn lit_then(lit: &str, rest: &str) -> (s: String)
    ensures
        s@ == lit@ + rest@,
{
    let mut s = lit.to_owned();
    s.push_str(rest);
    s
}

/// What an error says of itself, in the words the user sees.
pub open spec fn spec_error_message(e: Error) -> Seq<char> {
    match e {
        Error::Crypto => "crypto failure"@,
        Error::BlobFormat => "invalid blob format"@,
        Error::KeyOrData => "key wrong or data corrupt"@,
        Error::Io(m) => "i/o: "@ + m@,
        Error::Db(m) => "db: "@ + m@,
        Error::Media(m) => "media: "@ + m@,
        Error::Ingest(m) => "ingest: "@ + m@,
        Error::NotFound => "not found"@,
        Error::Locked => "locked"@,
        Error::RateLimited => "rate limited"@,
        Error::ModelsUnavailable => "models unavailable"@,
        Error::MlModelChecksum(m) => "model checksum mismatch: "@ + m@,
        Error::MlModelShape(m) => "model shape mismatch: "@ + m@,
        Error::TicketFormat(m) => "pairing ticket format: "@ + m@,
        Error::TicketSignature => "pairing ticket signature invalid"@,
        Error::PeerUnreachable => "peer unreachable"@,
    }
}

impl Error {
    /// The message of the error. Crypto failures say nothing of their cause.
    pub fn message(&self) -> (m: String)
        ensures
            m@ == spec_error_message(*self),
    {
        match self {
            Error::Crypto => "crypto failure".to_owned(),
            Error::BlobFormat => "invalid blob format".to_owned(),
            Error::KeyOrData => "key wrong or data corrupt".to_owned(),
            Error::Io(m) => lit_then("i/o: ", m.as_str()),
            Error::Db(m) => lit_then("db: ", m.as_str()),
            Error::Media(m) => lit_then("media: ", m.as_str()),
            Error::Ingest(m) => lit_then("ingest: ", m.as_str()),
            Error::NotFound => "not found".to_owned(),
            Error::Locked => "locked".to_owned(),
            Error::RateLimited => "rate limited".to_owned(),
            Error::ModelsUnavailable => "models unavailable".to_owned(),
            Error::MlModelChecksum(m) => lit_then("model checksum mismatch: ", m),
            Error::MlModelShape(m) => lit_then("model shape mismatch: ", m),
            Error::TicketFormat(m) => lit_then("pairing ticket format: ", m),
            Error::TicketSignature => "pairing ticket signature invalid".to_owned(),
            Error::PeerUnreachable => "peer unreachable".to_owned(),
        }
    }
}

/// The error that a command hands to the frontend: short, and safe to show.
#[derive(Debug, Clone, PartialEq, Eq)]
pub enum AppError {
    Locked,
    NotFound,
    BadRequest(String),
    AlreadyExists,
    Crypto,
    Io(String),
    Db(String),
    Ingest(String),
    Internal,
}

/// What a command error says, in the words the user sees.
pub open spec fn spec_app_message(e: AppError) -> Seq<char> {
    match e {
        AppError::Locked => "locked"@,
        AppError::NotFound => "not found"@,
        AppError::BadRequest(m) => "bad request: "@ + m@,
        AppError::AlreadyExists => "already exists"@,
        AppError::Crypto => "crypto"@,
        AppError::Io(m) => "io: "@ + m@,
        AppError::Db(m) => "db: "@ + m@,
        AppError::Ingest(m) => "ingest: "@ + m@,
        AppError::Internal => "internal"@,
    }
}

/// Whether `a` is the command error that the library error `e` becomes.
/// Every crypto failure looks the same; errors with no wire form of their
/// own are internal.
pub open spec fn spec_app_error_of(e: Error, a: AppError) -> bool {
    match e {
        Error::Crypto | Error::BlobFormat | Error::KeyOrData => a == AppError::Crypto,
        Error::Io(m) => a matches AppError::Io(n) && n@ == m@,
        Error::Db(m) => a matches AppError::Db(n) && n@ == m@,
        Error::Media(m) => a matches AppError::Ingest(n) && n@ == m@,
        Error::Ingest(m) => a matches AppError::Ingest(n) && n@ == m@,
        Error::NotFound => a == AppError::NotFound,
        Error::Locked => a == AppError::Locked,
        Error::RateLimited => a matches AppError::BadRequest(n) && n@ == "rate limited"@,
        _ => a == AppError::Internal,
    }
}

impl AppError {
    /// The message of the error, as the frontend receives it.
    pub fn message(&self) -> (m: String)
        ensures
            m@ == spec_app_message(*self),
    {
        match self {
            AppError::Locked => "locked".to_owned(),
            AppError::NotFound => "not found".to_owned(),
            AppError::BadRequest(m) => lit_then("bad request: ", m.as_str()),
            AppError::AlreadyExists => "already exists".to_owned(),
            AppError::Crypto => "crypto".to_owned(),
            AppError::Io(m) => lit_then("io: ", m.as_str()),
            AppError::Db(m) => lit_then("db: ", m.as_str()),
            AppError::Ingest(m) => lit_then("ingest: ", m.as_str()),
            AppError::Internal => "internal".to_owned(),
        }
    }

    /// The command error of a library error.
    pub fn from_core(e: Error) -> (a: AppError)
        ensures
            spec_app_error_of(e, a),
    {
        match e {
            Error::Crypto | Error::BlobFormat | Error::KeyOrData => AppError::Crypto,
            Error::Io(m) => AppError::Io(m),
            Error::Db(m) => AppError::Db(m),
            Error::Media(m) => AppError::Ingest(m),
            Error::Ingest(m) => AppError::Ingest(m),
            Error::NotFound => AppError::NotFound,
            Error::Locked => AppError::Locked,
            Error::RateLimited => AppError::BadRequest("rate limited".to_owned()),
            _ => AppError::Internal,
        }
    }
}

/// A command result in the shape the frontend receives: the error becomes
/// its message.
pub fn wire<T>(r: Result<T, AppError>) -> (w: Result<T, String>)
    ensures
        match r {
            Ok(v) => w == Ok::<T, String>(v),
            Err(e) => w matches Err(m) && m@ == spec_app_message(e),
        },
{
    match r {
        Ok(v) => Ok(v),
        Err(e) => Err(e.message()),
    }
}

/// Law: crypto failures are opaque on the wire. Whichever of the crypto
/// errors occurred (a failed primitive, a malformed blob, a wrong key or
/// corrupt data), the frontend receives the same message.
pub proof fn lemma_crypto_errors_look_alike(e: Error, a: AppError)
    requires
        e == Error::Crypto || e == Error::BlobFormat || e == Error::KeyOrData,
        spec_app_error_of(e, a),
    ensures
        spec_app_message(a) == "crypto"@,
{
}

/// Law: what each error says. The library's errors read `crypto failure`,
/// `invalid blob format`, `key wrong or data corrupt`, `not found`,
/// `locked`, `rate limited`, ..., and those that carry a description put it
/// after their kind (`i/o: `, `db: `, `media: `, `ingest: `). A command
/// error reads `bad request: `, `io: `, `db: ` or `ingest: ` followed by its
/// description, or its bare kind.
pub proof fn lemma_error_messages(m: String, s: &'static str)
    ensures
        spec_error_message(Error::Crypto) == "crypto failure"@,
        spec_error_message(Error::BlobFormat) == "invalid blob format"@,
        spec_error_message(Error::KeyOrData) == "key wrong or data corrupt"@,
        spec_error_message(Error::Io(m)) == "i/o: "@ + m@,
        spec_error_message(Error::Db(m)) == "db: "@ + m@,
        spec_error_message(Error::Media(m)) == "media: "@ + m@,
        spec_error_message(Error::Ingest(m)) == "ingest: "@ + m@,
        spec_error_message(Error::NotFound) == "not found"@,
        spec_error_message(Error::Locked) == "locked"@,
        spec_error_message(Error::RateLimited) == "rate limited"@,
        spec_error_message(Error::ModelsUnavailable) == "models unavailable"@,
        spec_error_message(Error::MlModelChecksum(s)) == "model checksum mismatch: "@ + s@,
        spec_error_message(Error::MlModelShape(s)) == "model shape mismatch: "@ + s@,
        spec_error_message(Error::TicketFormat(s)) == "pairing ticket format: "@ + s@,
        spec_error_message(Error::TicketSignature) == "pairing ticket signature invalid"@,
        spec_error_message(Error::PeerUnreachable) == "peer unreachable"@,
        spec_app_message(AppError::Locked) == "locked"@,
        spec_app_message(AppError::NotFound) == "not found"@,
        spec_app_message(AppError::BadRequest(m)) == "bad request: "@ + m@,
        spec_app_message(AppError::AlreadyExists) == "already exists"@,
        spec_app_message(AppError::Crypto) == "crypto"@,
        spec_app_message(AppError::Io(m)) == "io: "@ + m@,
        spec_app_message(AppError::Db(m)) == "db: "@ + m@,
        spec_app_message(AppError::Ingest(m)) == "ingest: "@ + m@,
        spec_app_message(AppError::Internal) == "internal"@,
{
}

/// Law: how a library error reaches the frontend. Crypto, format and
/// key-or-data failures all become the same crypto error; an I/O or
/// database failure keeps its description under the same kind; media and
/// ingest failures become ingest errors with their description; not found
/// and locked stay as they are; too many attempts is a bad request saying
/// `rate limited`; anything else is internal.
pub proof fn lemma_app_error_mapping(e: Error, a: AppError)
    requires
        spec_app_error_of(e, a),
    ensures
        (e is Crypto || e is BlobFormat || e is KeyOrData) ==> a == AppError::Crypto,
        e matches Error::Io(m) ==> a matches AppError::Io(n) && n@ == m@,
        e matches Error::Db(m) ==> a matches AppError::Db(n) && n@ == m@,
        e matches Error::Media(m) ==> a matches AppError::Ingest(n) && n@ == m@,
        e matches Error::Ingest(m) ==> a matches AppError::Ingest(n) && n@ == m@,
        e is NotFound ==> a == AppError::NotFound,
        e is Locked ==> a == AppError::Locked,
        e is RateLimited ==> (a matches AppError::BadRequest(n) && n@ == "rate limited"@),
        (e is ModelsUnavailable || e is MlModelChecksum || e is MlModelShape || e is TicketFormat
            || e is TicketSignature || e is PeerUnreachable) ==> a == AppError::Internal,
{
}

} // verus!
