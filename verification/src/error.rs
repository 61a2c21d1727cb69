use vstd::prelude::*;
use vstd::string::StringExecFns;
use crate::pb::abi::Value;

verus! {

/// What can go wrong between a frame arriving and its reply leaving.
///
/// The variants that report a failure of an underlying engine or codec hold
/// the text of that failure.
#[derive(Debug, PartialEq)]
pub enum HikvError {
    Internal(String),
    NotFound(String),
    InvalidCommand(String),
    ConvertError(Value, &'static str),
    /// A command, the table and the key it was for, and what went wrong.
    StorageError(&'static str, String, String, String),
    EncodeError(String),
    DecodeError(String),
    SledError(String),
    IoError(String),
    RocksError(String),
    FrameError,
}

/// `text` as the `Debug` form of a string slice shows it: between double
/// quotes, with escapes.
pub uninterp spec fn quoted(text: Seq<char>) -> Seq<char>;

/// `Debug` for `str`, through `format!`: the result is `quoted` of the text.
#[verifier::external_body]
fn quote(text: &str) -> (r: String)
    ensures
        r@ == quoted(text@),
{
    format!("{:?}", text)
}

impl HikvError {
    /// The text of the error.
    pub open spec fn text(&self) -> Seq<char> {
        match self {
            HikvError::Internal(detail) => "Internal error: "@ + detail@,
            HikvError::NotFound(key) => "Not Found value for key: "@ + key@,
            HikvError::InvalidCommand(detail) => "Cannot parse command: "@ + detail@,
            HikvError::ConvertError(_, target) => "Cannot convert value "@ + quoted(target@)
                + " to "@ + target@,
            HikvError::StorageError(command, table, key, detail) => "Cannot process command "@
                + command@ + " with table: "@ + table@ + ", key: "@ + key@ + ". Error: "@
                + detail@,
            HikvError::EncodeError(detail) => "Failed to encode protobuf message: "@ + detail@,
            HikvError::DecodeError(detail) => "Failed to decode protobuf message: "@ + detail@,
            HikvError::SledError(detail) => "Failed to access sled db: "@ + detail@,
            HikvError::IoError(detail) => "I/O error: "@ + detail@,
            HikvError::RocksError(detail) => "Failed to access rocksdb db: "@ + detail@,
            HikvError::FrameError => "Frame is larger than max size"@,
        }
    }

    /// The text of the failure underneath: what the engine or codec said
    /// went wrong, where the error reports such a failure.
    pub open spec fn detail(&self) -> Option<Seq<char>> {
        match self {
            HikvError::StorageError(_, _, _, detail) => Some(detail@),
            HikvError::EncodeError(detail) => Some(detail@),
            HikvError::DecodeError(detail) => Some(detail@),
            HikvError::SledError(detail) => Some(detail@),
            HikvError::IoError(detail) => Some(detail@),
            HikvError::RocksError(detail) => Some(detail@),
            _ => None,
        }
    }

    /// The text of an error that reports a failure underneath ends with the
    /// text of that failure.
    pub proof fn lemma_text_embeds_detail(&self)
        ensures
            self.detail() matches Some(detail) ==> detail.is_suffix_of(self.text()),
    {
        if let Some(detail) = self.detail() {
            let text = self.text();
            assert(text.skip(text.len() - detail.len()) =~= detail);
        }
    }

    /// The status that a response reports this error with: 404 where a key
    /// was not found, 400 for a command that cannot be read, 500 otherwise.
    pub open spec fn status(&self) -> u32 {
        match self {
            HikvError::NotFound(_) => 404,
            HikvError::InvalidCommand(_) => 400,
            _ => 500,
        }
    }

    /// The text of the error.
    pub fn to_string(&self) -> (r: String)
        ensures
            r@ == self.text(),
    {
        match self {
            HikvError::Internal(detail) => String::from_str("Internal error: ").concat(
                detail.as_str(),
            ),
            HikvError::NotFound(key) => String::from_str("Not Found value for key: ").concat(
                key.as_str(),
            ),
            HikvError::InvalidCommand(detail) => String::from_str("Cannot parse command: ").concat(
                detail.as_str(),
            ),
            HikvError::ConvertError(_, target) => {
                let shown = quote(target);
                String::from_str("Cannot convert value ").concat(shown.as_str()).concat(
                    " to ",
                ).concat(target)
            },
            HikvError::StorageError(command, table, key, detail) => String::from_str(
                "Cannot process command ",
            ).concat(command).concat(" with table: ").concat(table.as_str()).concat(
                ", key: ",
            ).concat(key.as_str()).concat(". Error: ").concat(detail.as_str()),
            HikvError::EncodeError(detail) => String::from_str(
                "Failed to encode protobuf message: ",
            ).concat(detail.as_str()),
            HikvError::DecodeError(detail) => String::from_str(
                "Failed to decode protobuf message: ",
            ).concat(detail.as_str()),
            HikvError::SledError(detail) => String::from_str("Failed to access sled db: ").concat(
                detail.as_str(),
            ),
            HikvError::IoError(detail) => String::from_str("I/O error: ").concat(detail.as_str()),
            HikvError::RocksError(detail) => String::from_str(
                "Failed to access rocksdb db: ",
            ).concat(detail.as_str()),
            HikvError::FrameError => String::from_str("Frame is larger than max size"),
        }
    }
}

/// The error for bytes that spell no message, with what is wrong with them.
pub fn malformed(detail: &str) -> (e: HikvError)
    ensures
        e matches HikvError::DecodeError(text) && text@ == detail@,
{
    HikvError::DecodeError(detail.to_owned())
}

} // verus!
