//! What the window says about a message besides its text: how it is
//! protected, and how its attachments are listed.

use vstd::prelude::*;
use crate::text::{owned, push_all};

verus! {

/// What a message says about itself.
#[derive(Clone, Copy, Debug, PartialEq, Eq)]
pub enum Protection {
    Encrypted,
    Signed,
    Unprotected,
}

/// The word the window reads: empty for a message that is neither signed
/// nor encrypted.
pub open spec fn protection_word(p: Protection) -> Seq<char> {
    match p {
        Protection::Encrypted => "encrypted"@,
        Protection::Signed => "signed"@,
        Protection::Unprotected => Seq::empty(),
    }
}

impl Protection {
    pub fn as_str(&self) -> (word: &'static str)
        ensures
            word@ == protection_word(*self),
    {
        proof {
            reveal_strlit("");
        }
        match self {
            Protection::Encrypted => "encrypted",
            Protection::Signed => "signed",
            Protection::Unprotected => "",
        }
    }
}

/// How the list shows an attachment: its name, then its type, `unknown`
/// when it has none, and how big it is.
pub open spec fn attachment_text(filename: Seq<char>, mime: Option<Seq<char>>, size: Seq<char>) -> Seq<char> {
    let kind = match mime {
        Some(m) => m,
        None => "unknown"@,
    };
    filename + "  ("@ + kind + ", "@ + size + ")"@
}

/// `attachment_text`, executable; `size` is how big the attachment is, as
/// the window writes it.
pub fn attachment_label(filename: &str, mime: Option<&str>, size: &str) -> (label: String)
    ensures
        label@ == attachment_text(filename@, crate::paths::opt_view(mime), size@),
{
    let mut label = owned(filename);
    push_all(&mut label, "  (");
    match mime {
        Some(m) => push_all(&mut label, m),
        None => push_all(&mut label, "unknown"),
    }
    push_all(&mut label, ", ");
    push_all(&mut label, size);
    push_all(&mut label, ")");
    label
}

} // verus!
