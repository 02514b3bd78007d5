use vstd::prelude::*;

verus! {

/// Error taxonomy for cache and pipeline operations.
#[derive(Clone, Copy, Debug, PartialEq, Eq, Structural)]
pub enum CacheError {
    /// The source path did not exist at call time.
    NotFound,
    /// The external extractor produced no usable bytes for the requested tag.
    Extraction,
    /// The extracted bytes are not a well-formed image.
    Decode,
    /// A filesystem read, write, or stat failed.
    Io,
}

impl CacheError {
    /// A short description, in place of a `Display` impl.
    pub fn message(&self) -> (r: &'static str)
        ensures
            r@ == self.spec_message(),
    {
        match self {
            CacheError::NotFound => "file does not exist",
            CacheError::Extraction => "no embedded preview found",
            CacheError::Decode => "failed to decode embedded image",
            CacheError::Io => "filesystem operation failed",
        }
    }

    pub open spec fn spec_message(self) -> Seq<char> {
        match self {
            CacheError::NotFound => "file does not exist"@,
            CacheError::Extraction => "no embedded preview found"@,
            CacheError::Decode => "failed to decode embedded image"@,
            CacheError::Io => "filesystem operation failed"@,
        }
    }
}

} // verus!
