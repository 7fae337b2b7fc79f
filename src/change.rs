//! The edit value and the error taxonomy shared by every stage.
use vstd::prelude::*;

verus! {

/// One byte-range substitution: the half-open range `[start_byte, end_byte)`
/// of the original content is replaced by `text`.
pub struct Change {
    pub start_byte: u32,
    pub end_byte: u32,
    pub text: String,
}

/// A batch of changes applied to one file in one operation.
pub type ChangeSet = Vec<Change>;

/// The UTF-8 bytes of a text.
pub open spec fn utf8_of(t: String) -> Seq<u8> {
    vstd::utf8::encode_utf8(t@)
}

/// The UTF-8 bytes that a change puts in place of its range.
pub open spec fn text_bytes(c: Change) -> Seq<u8> {
    utf8_of(c.text)
}

/// Signed change in length that `c` brings about.
pub open spec fn delta_of(c: Change) -> int {
    text_bytes(c).len() - (c.end_byte - c.start_byte)
}

impl Change {
    pub fn new(start_byte: u32, end_byte: u32, text: String) -> (r: Change)
        ensures
            r.start_byte == start_byte,
            r.end_byte == end_byte,
            r.text == text,
    {
        Change { start_byte: start_byte, end_byte: end_byte, text: text }
    }

    /// Length of the replacement text minus the length of the replaced range.
    pub fn delta(&self) -> (r: i64)
        requires
            i64::MIN <= delta_of(*self) <= i64::MAX,
        ensures
            r == delta_of(*self),
    {
        let n = self.text.as_str().as_bytes().len();
        assert(n as int == text_bytes(*self).len());
        (n as i128 - (self.end_byte as i128 - self.start_byte as i128)) as i64
    }
}

/// Changes compare by start offset alone: two changes that start at the same
/// offset are equal for ordering purposes, whatever they replace.
impl PartialEq for Change {
    fn eq(&self, other: &Change) -> (r: bool) {
        self.start_byte == other.start_byte
    }
}

impl vstd::std_specs::cmp::PartialEqSpecImpl for Change {
    open spec fn obeys_eq_spec() -> bool {
        true
    }

    open spec fn eq_spec(&self, other: &Change) -> bool {
        self.start_byte == other.start_byte
    }
}

impl Eq for Change {}

impl PartialOrd for Change {
    fn partial_cmp(&self, other: &Change) -> (r: Option<core::cmp::Ordering>) {
        if self.start_byte < other.start_byte {
            Some(core::cmp::Ordering::Less)
        } else if self.start_byte > other.start_byte {
            Some(core::cmp::Ordering::Greater)
        } else {
            Some(core::cmp::Ordering::Equal)
        }
    }
}

impl vstd::std_specs::cmp::PartialOrdSpecImpl for Change {
    open spec fn obeys_partial_cmp_spec() -> bool {
        true
    }

    open spec fn partial_cmp_spec(&self, other: &Change) -> Option<core::cmp::Ordering> {
        if self.start_byte < other.start_byte {
            Some(core::cmp::Ordering::Less)
        } else if self.start_byte > other.start_byte {
            Some(core::cmp::Ordering::Greater)
        } else {
            Some(core::cmp::Ordering::Equal)
        }
    }
}

/// Which of the two renames of the durable write failed.
#[derive(PartialEq, Eq, Structural, Clone, Copy, Debug)]
pub enum RenameStep {
    /// Moving the original file to its backup path; the original is untouched.
    ToBackup,
    /// Moving the new content onto the target path; the original content is
    /// then only at the backup path and recovery is manual.
    Promote,
}

/// Every way in which a rewrite can fail.
#[derive(Debug)]
pub enum ReprintError {
    /// A change ends before it starts.
    MalformedChange { start_byte: u32, end_byte: u32 },
    /// A change starts inside the range of the change sorted before it.
    OverlappingChanges { prev_start: u32, prev_end: u32, start_byte: u32, end_byte: u32 },
    /// The target file could not be read.
    ReadFailure { message: String },
    /// A change does not lie within the content it is applied to.
    OutOfRange { start_byte: u32, end_byte: u32, len: usize },
    /// A temporary or backup path is already taken.
    PathCollision { path: String },
    /// Writing the temporary file failed.
    WriteFailure { path: String, message: String },
    /// One of the two renames failed.
    RenameFailure { step: RenameStep, from: String, to: String, message: String },
}

} // verus!
