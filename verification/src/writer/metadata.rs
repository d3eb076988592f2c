//! What a writer says of itself in the descriptors that it writes: short
//! texts of bounded length.

use arraystring::typenum::{U128, U32};
use arraystring::ArrayString;
use vstd::prelude::*;

verus! {

/// A text of at most 32 bytes of UTF-8, held in an `arraystring::ArrayString`
/// of that capacity.
#[verifier::external_body]
pub struct ShortText {
    inner: ArrayString<U32>,
}

/// A text of at most 128 bytes of UTF-8, held in an
/// `arraystring::ArrayString` of that capacity.
#[verifier::external_body]
pub struct LongText {
    inner: ArrayString<U128>,
}

/// The characters that a short text holds.
pub uninterp spec fn short_text(text: ShortText) -> Seq<char>;

/// The characters that a long text holds.
pub uninterp spec fn long_text(text: LongText) -> Seq<char>;

/// The longest start of `s` that takes no more than `capacity` bytes of UTF-8.
pub open spec fn truncated(s: Seq<char>, capacity: nat) -> Seq<char>
    decreases s.len(),
{
    if s.len() == 0 || vstd::utf8::encode_utf8(s).len() <= capacity {
        s
    } else {
        truncated(s.drop_last(), capacity)
    }
}

impl ShortText {
    /// `ArrayString::from_str_truncate` at the capacity 32: the text holds
    /// the longest start of `s` that fits into 32 bytes, which ends on the
    /// boundary of a character.
    #[verifier::external_body]
    pub(crate) fn from_str_truncate(s: &str) -> (r: Self)
        ensures
            short_text(r) == truncated(s@, 32),
    {
        ShortText { inner: ArrayString::from_str_truncate(s) }
    }

    /// `ArrayString::as_str`: the characters that the text holds.
    #[verifier::external_body]
    pub(crate) fn as_str(&self) -> (r: &str)
        ensures
            r@ == short_text(*self),
    {
        self.inner.as_str()
    }
}

impl LongText {
    /// `ArrayString::from_str_truncate` at the capacity 128: the text holds
    /// the longest start of `s` that fits into 128 bytes, which ends on the
    /// boundary of a character.
    #[verifier::external_body]
    pub(crate) fn from_str_truncate(s: &str) -> (r: Self)
        ensures
            long_text(r) == truncated(s@, 128),
    {
        LongText { inner: ArrayString::from_str_truncate(s) }
    }

    /// `ArrayString::as_str`: the characters that the text holds.
    #[verifier::external_body]
    pub(crate) fn as_str(&self) -> (r: &str)
        ensures
            r@ == long_text(*self),
    {
        self.inner.as_str()
    }
}

/// What a writer says of itself: who publishes and prepares its volumes,
/// with which application, and which files hold the copyright and the
/// abstract. A volume that names its own publisher or preparer goes by that.
pub struct WriterMetadata {
    publisher_identifier: Option<ShortText>,
    data_preparer_identifier: Option<LongText>,
    application_identifier: Option<LongText>,
    copyright_file_identifier: Option<ShortText>,
    abstract_file_identifier: Option<[u8; 37]>,
}

impl WriterMetadata {
    pub closed spec fn spec_publisher(&self) -> Option<Seq<char>> {
        match self.publisher_identifier {
            Some(t) => Some(short_text(t)),
            None => None,
        }
    }

    pub closed spec fn spec_data_preparer(&self) -> Option<Seq<char>> {
        match self.data_preparer_identifier {
            Some(t) => Some(long_text(t)),
            None => None,
        }
    }

    pub closed spec fn spec_application(&self) -> Option<Seq<char>> {
        match self.application_identifier {
            Some(t) => Some(long_text(t)),
            None => None,
        }
    }

    pub closed spec fn spec_copyright_file(&self) -> Option<Seq<char>> {
        match self.copyright_file_identifier {
            Some(t) => Some(short_text(t)),
            None => None,
        }
    }

    pub closed spec fn spec_abstract_file(&self) -> Option<Seq<u8>> {
        match self.abstract_file_identifier {
            Some(a) => Some(a@),
            None => None,
        }
    }

    /// Metadata that say nothing.
    pub fn new() -> (r: Self)
        ensures
            r.spec_publisher() is None,
            r.spec_data_preparer() is None,
            r.spec_application() is None,
            r.spec_copyright_file() is None,
            r.spec_abstract_file() is None,
    {
        WriterMetadata {
            publisher_identifier: None,
            data_preparer_identifier: None,
            application_identifier: None,
            copyright_file_identifier: None,
            abstract_file_identifier: None,
        }
    }

    /// Names the publisher by the longest start of `identifier` that fits
    /// into 32 bytes.
    pub fn publisher_identifier(self, identifier: &str) -> (r: Self)
        ensures
            r.spec_publisher() == Some(truncated(identifier@, 32)),
            r.spec_data_preparer() == self.spec_data_preparer(),
            r.spec_application() == self.spec_application(),
            r.spec_copyright_file() == self.spec_copyright_file(),
            r.spec_abstract_file() == self.spec_abstract_file(),
    {
        WriterMetadata {
            publisher_identifier: Some(ShortText::from_str_truncate(identifier)),
            ..self
        }
    }

    /// Names the preparer by the longest start of `identifier` that fits
    /// into 128 bytes.
    pub fn data_preparer_identifier(self, identifier: &str) -> (r: Self)
        ensures
            r.spec_data_preparer() == Some(truncated(identifier@, 128)),
            r.spec_publisher() == self.spec_publisher(),
            r.spec_application() == self.spec_application(),
            r.spec_copyright_file() == self.spec_copyright_file(),
            r.spec_abstract_file() == self.spec_abstract_file(),
    {
        WriterMetadata {
            data_preparer_identifier: Some(LongText::from_str_truncate(identifier)),
            ..self
        }
    }

    /// Names the application by the longest start of `identifier` that fits
    /// into 128 bytes.
    pub fn application_identifier(self, identifier: &str) -> (r: Self)
        ensures
            r.spec_application() == Some(truncated(identifier@, 128)),
            r.spec_publisher() == self.spec_publisher(),
            r.spec_data_preparer() == self.spec_data_preparer(),
            r.spec_copyright_file() == self.spec_copyright_file(),
            r.spec_abstract_file() == self.spec_abstract_file(),
    {
        WriterMetadata {
            application_identifier: Some(LongText::from_str_truncate(identifier)),
            ..self
        }
    }

    /// Names the file of the copyright by the longest start of `identifier`
    /// that fits into 32 bytes.
    pub fn copyright_file_identifier(self, identifier: &str) -> (r: Self)
        ensures
            r.spec_copyright_file() == Some(truncated(identifier@, 32)),
            r.spec_publisher() == self.spec_publisher(),
            r.spec_data_preparer() == self.spec_data_preparer(),
            r.spec_application() == self.spec_application(),
            r.spec_abstract_file() == self.spec_abstract_file(),
    {
        WriterMetadata {
            copyright_file_identifier: Some(ShortText::from_str_truncate(identifier)),
            ..self
        }
    }

    /// Names the file of the abstract by the 37 bytes of its field.
    pub fn abstract_file_identifier(self, identifier: [u8; 37]) -> (r: Self)
        ensures
            r.spec_abstract_file() == Some(identifier@),
            r.spec_publisher() == self.spec_publisher(),
            r.spec_data_preparer() == self.spec_data_preparer(),
            r.spec_application() == self.spec_application(),
            r.spec_copyright_file() == self.spec_copyright_file(),
    {
        WriterMetadata { abstract_file_identifier: Some(identifier), ..self }
    }

    /// The bytes of the publisher, none where there is none.
    pub fn publisher_bytes(&self) -> (r: Vec<u8>)
        ensures
            r@ == text_bytes(self.spec_publisher()),
    {
        match &self.publisher_identifier {
            Some(t) => vstd::slice::slice_to_vec(t.as_str().as_bytes()),
            None => Vec::new(),
        }
    }

    /// The bytes of the preparer, none where there is none.
    pub fn data_preparer_bytes(&self) -> (r: Vec<u8>)
        ensures
            r@ == text_bytes(self.spec_data_preparer()),
    {
        match &self.data_preparer_identifier {
            Some(t) => vstd::slice::slice_to_vec(t.as_str().as_bytes()),
            None => Vec::new(),
        }
    }

    /// The bytes of the application, none where there is none.
    pub fn application_bytes(&self) -> (r: Vec<u8>)
        ensures
            r@ == text_bytes(self.spec_application()),
    {
        match &self.application_identifier {
            Some(t) => vstd::slice::slice_to_vec(t.as_str().as_bytes()),
            None => Vec::new(),
        }
    }

    /// The bytes of the file of the copyright, none where there is none.
    pub fn copyright_file_bytes(&self) -> (r: Vec<u8>)
        ensures
            r@ == text_bytes(self.spec_copyright_file()),
    {
        match &self.copyright_file_identifier {
            Some(t) => vstd::slice::slice_to_vec(t.as_str().as_bytes()),
            None => Vec::new(),
        }
    }

    /// The bytes of the file of the abstract, none where there is none.
    pub fn abstract_file_bytes(&self) -> (r: Vec<u8>)
        ensures
            r@ == (match self.spec_abstract_file() {
                Some(a) => a,
                None => Seq::<u8>::empty(),
            }),
    {
        match &self.abstract_file_identifier {
            Some(a) => vstd::slice::slice_to_vec(a.as_slice()),
            None => Vec::new(),
        }
    }
}

impl Default for WriterMetadata {
    /// Metadata that say nothing.
    fn default() -> (r: Self)
        ensures
            r.spec_publisher() is None,
            r.spec_data_preparer() is None,
            r.spec_application() is None,
            r.spec_copyright_file() is None,
            r.spec_abstract_file() is None,
    {
        WriterMetadata::new()
    }
}

/// The bytes of a text that may be missing.
pub open spec fn text_bytes(text: Option<Seq<char>>) -> Seq<u8> {
    match text {
        Some(s) => vstd::utf8::encode_utf8(s),
        None => Seq::<u8>::empty(),
    }
}

} // verus!
