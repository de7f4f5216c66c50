//! What checking the signatures of a message says, in the words the window
//! uses.
//!
//! gmime does the checking: it hands over, for each signature, a bitfield of
//! its status and the certificate of the signer. Here is what those mean,
//! and how the signatures of a whole message are gathered.

use vstd::prelude::*;
use crate::text::{owned, push_all};

verus! {

/// gmime's status bit: gpg accepts the signature and trusts the key.
pub const GREEN: i32 = 2;

/// gmime's status bit: the message does not match the signature.
pub const RED: i32 = 4;

/// gmime's status bit: the key was revoked.
pub const KEY_REVOKED: i32 = 16;

/// gmime's status bit: the key expired.
pub const KEY_EXPIRED: i32 = 32;

/// gmime's status bit: the signature expired.
pub const SIG_EXPIRED: i32 = 64;

/// gmime's status bit: the key is not in the keyring.
pub const KEY_MISSING: i32 = 128;

/// gmime's status bit: gpg failed.
pub const SYS_ERROR: i32 = 2048;

/// Why a signature does not hold. A word rather than a sentence, so the
/// window can say it in the language of the user.
#[derive(Clone, Copy, Debug, PartialEq, Eq)]
pub enum Reason {
    Changed,
    KeyRevoked,
    KeyExpired,
    SignatureExpired,
    GpgError,
}

/// What gmime reports for one signature, in the words the window uses.
#[derive(Clone, Debug, PartialEq, Eq)]
pub enum Signature {
    /// The signature holds and the key is in the keyring.
    Good { who: String },
    /// The signature holds, but nothing says the key belongs to who it claims.
    GoodUnknownKey { who: String },
    /// The key is not in the keyring, so there is nothing to check against.
    NoKey { who: String },
    /// The message does not match the signature, or the key cannot be used.
    Bad { why: Reason },
}

/// The word for a reason.
pub open spec fn reason_word(r: Reason) -> Seq<char> {
    match r {
        Reason::Changed => "changed"@,
        Reason::KeyRevoked => "key-revoked"@,
        Reason::KeyExpired => "key-expired"@,
        Reason::SignatureExpired => "signature-expired"@,
        Reason::GpgError => "gpg-error"@,
    }
}

/// The word the window turns into a sentence.
pub open spec fn status_word(s: Signature) -> Seq<char> {
    match s {
        Signature::Good { .. } => "good"@,
        Signature::GoodUnknownKey { .. } => "good-untrusted"@,
        Signature::NoKey { .. } => "no-key"@,
        Signature::Bad { .. } => "bad"@,
    }
}

/// Who signed, or why the signature does not hold.
pub open spec fn detail_text(s: Signature) -> Seq<char> {
    match s {
        Signature::Good { who } => who@,
        Signature::GoodUnknownKey { who } => who@,
        Signature::NoKey { who } => who@,
        Signature::Bad { why } => reason_word(why),
    }
}

/// Whether the status bitfield has `bit` set.
pub open spec fn has(status: i32, bit: i32) -> bool {
    status & bit != 0
}

/// What a status bitfield of gmime says of a signature by `who`. A missing
/// key comes first, then the reasons for a signature not to hold, in this
/// order: the message changed, the key was revoked, the key expired, the
/// signature expired, gpg failed. A signature that holds is `Good` when gpg
/// also trusts the key, and `GoodUnknownKey` otherwise: gmime leaves every
/// bit at zero for a signature that holds made with a key nobody has
/// certified, which is every key a user imports by hand.
pub open spec fn verdict(status: i32, who: String) -> Signature {
    if has(status, KEY_MISSING) {
        Signature::NoKey { who }
    } else if has(status, RED) {
        Signature::Bad { why: Reason::Changed }
    } else if has(status, KEY_REVOKED) {
        Signature::Bad { why: Reason::KeyRevoked }
    } else if has(status, KEY_EXPIRED) {
        Signature::Bad { why: Reason::KeyExpired }
    } else if has(status, SIG_EXPIRED) {
        Signature::Bad { why: Reason::SignatureExpired }
    } else if has(status, SYS_ERROR) {
        Signature::Bad { why: Reason::GpgError }
    } else if has(status, GREEN) {
        Signature::Good { who }
    } else {
        Signature::GoodUnknownKey { who }
    }
}

impl Reason {
    pub fn as_str(&self) -> (word: &'static str)
        ensures
            word@ == reason_word(*self),
    {
        match self {
            Reason::Changed => "changed",
            Reason::KeyRevoked => "key-revoked",
            Reason::KeyExpired => "key-expired",
            Reason::SignatureExpired => "signature-expired",
            Reason::GpgError => "gpg-error",
        }
    }
}

impl Signature {
    /// A word for the window, which turns it into a sentence.
    pub fn status(&self) -> (word: &'static str)
        ensures
            word@ == status_word(*self),
    {
        match self {
            Signature::Good { .. } => "good",
            Signature::GoodUnknownKey { .. } => "good-untrusted",
            Signature::NoKey { .. } => "no-key",
            Signature::Bad { .. } => "bad",
        }
    }

    /// Who signed, or why it does not hold.
    pub fn detail(&self) -> (text: String)
        ensures
            text@ == detail_text(*self),
    {
        match self {
            Signature::Good { who } => who.clone(),
            Signature::GoodUnknownKey { who } => who.clone(),
            Signature::NoKey { who } => who.clone(),
            Signature::Bad { why } => owned(why.as_str()),
        }
    }

    /// What the status bitfield `status` of gmime says of a signature by
    /// `who`.
    pub fn from_status(status: i32, who: String) -> (s: Signature)
        ensures
            s == verdict(status, who),
    {
        if status & KEY_MISSING != 0 {
            return Signature::NoKey { who };
        }
        if status & RED != 0 {
            return Signature::Bad { why: Reason::Changed };
        }
        if status & KEY_REVOKED != 0 {
            return Signature::Bad { why: Reason::KeyRevoked };
        }
        if status & KEY_EXPIRED != 0 {
            return Signature::Bad { why: Reason::KeyExpired };
        }
        if status & SIG_EXPIRED != 0 {
            return Signature::Bad { why: Reason::SignatureExpired };
        }
        if status & SYS_ERROR != 0 {
            return Signature::Bad { why: Reason::GpgError };
        }
        if status & GREEN != 0 {
            Signature::Good { who }
        } else {
            Signature::GoodUnknownKey { who }
        }
    }
}

/// Whether the status bitfield has any of the bits that keep a signature
/// from holding, a missing key included.
pub open spec fn any_failure(status: i32) -> bool {
    has(status, KEY_MISSING) || has(status, RED) || has(status, KEY_REVOKED) || has(
        status,
        KEY_EXPIRED,
    ) || has(status, SIG_EXPIRED) || has(status, SYS_ERROR)
}

/// A signature made with a key that is not in the keyring is reported as
/// such, whatever else its status says.
pub proof fn lemma_missing_key_wins(status: i32, who: String)
    requires
        has(status, KEY_MISSING),
    ensures
        verdict(status, who) == (Signature::NoKey { who }),
{
}

/// A signature is reported as holding exactly when none of the bits that
/// keep it from holding is set; it then names who signed, and it is `Good`
/// exactly when the bit of a trusted key is set.
pub proof fn lemma_holds_exactly_without_failure(status: i32, who: String)
    ensures
        (verdict(status, who) is Good || verdict(status, who) is GoodUnknownKey) <==> !any_failure(
            status,
        ),
        !any_failure(status) ==> detail_text(verdict(status, who)) == who@,
        !any_failure(status) ==> (verdict(status, who) is Good <==> has(status, GREEN)),
{
}

/// An empty bitfield is a signature that holds, made with a key nobody has
/// certified.
pub proof fn lemma_empty_status_is_untrusted_good(who: String)
    ensures
        verdict(0, who) == (Signature::GoodUnknownKey { who }),
{
    assert(0i32 & KEY_MISSING == 0) by (bit_vector);
    assert(0i32 & RED == 0) by (bit_vector);
    assert(0i32 & KEY_REVOKED == 0) by (bit_vector);
    assert(0i32 & KEY_EXPIRED == 0) by (bit_vector);
    assert(0i32 & SIG_EXPIRED == 0) by (bit_vector);
    assert(0i32 & SYS_ERROR == 0) by (bit_vector);
    assert(0i32 & GREEN == 0) by (bit_vector);
}

/// The word is `bad` exactly for a signature that does not hold, and the
/// detail is then the word of its reason; for every other signature the
/// detail is who signed.
pub proof fn lemma_status_and_detail_agree(s: Signature)
    ensures
        (status_word(s) == "bad"@) <==> (s is Bad),
        s is Bad ==> detail_text(s) == reason_word(s->why),
{
    reveal_strlit("bad");
    reveal_strlit("good");
    reveal_strlit("good-untrusted");
    reveal_strlit("no-key");
    assert("good"@[0] != "bad"@[0]);
    assert("good-untrusted"@[0] != "bad"@[0]);
    assert("no-key"@[0] != "bad"@[0]);
}

/// Each bit that keeps a signature from holding gives its own reason as soon
/// as the bits before it in gmime's order are clear (128 a missing key, 4 a
/// changed message, 16 a revoked key, 32 an expired key, 64 an expired
/// signature, 2048 a failure of gpg), whatever the bits after it say.
pub proof fn lemma_each_failure_bit_gives_its_reason(status: i32, who: String)
    ensures
        status & 128 == 0 && status & 4 != 0 ==> verdict(status, who) == (Signature::Bad {
            why: Reason::Changed,
        }),
        status & 128 == 0 && status & 4 == 0 && status & 16 != 0 ==> verdict(status, who) == (
        Signature::Bad { why: Reason::KeyRevoked }),
        status & 128 == 0 && status & 4 == 0 && status & 16 == 0 && status & 32 != 0 ==> verdict(
            status,
            who,
        ) == (Signature::Bad { why: Reason::KeyExpired }),
        status & 128 == 0 && status & 4 == 0 && status & 16 == 0 && status & 32 == 0 && status
            & 64 != 0 ==> verdict(status, who) == (Signature::Bad {
            why: Reason::SignatureExpired,
        }),
        status & 128 == 0 && status & 4 == 0 && status & 16 == 0 && status & 32 == 0 && status
            & 64 == 0 && status & 2048 != 0 ==> verdict(status, who) == (Signature::Bad {
            why: Reason::GpgError,
        }),
        status & 128 == 0 && status & 4 == 0 && status & 16 == 0 && status & 32 == 0 && status
            & 64 == 0 && status & 2048 == 0 && status & 2 != 0 ==> verdict(status, who) == (
        Signature::Good { who }),
        status & 128 == 0 && status & 4 == 0 && status & 16 == 0 && status & 32 == 0 && status
            & 64 == 0 && status & 2048 == 0 && status & 2 == 0 ==> verdict(status, who) == (
        Signature::GoodUnknownKey { who }),
{
}

/// A revoked key is reported as revoked whether or not its expired bit is
/// set too: setting or clearing the bits after it changes nothing.
pub proof fn lemma_later_bits_do_not_matter(status: i32, who: String)
    requires
        status & 128 == 0,
        status & 4 == 0,
        status & 16 != 0,
    ensures
        verdict(status | 32, who) == verdict(status, who),
        verdict(status & !32, who) == verdict(status, who),
        verdict(status, who) == (Signature::Bad { why: Reason::KeyRevoked }),
{
    assert((status | 32) & 128 == 0 && (status | 32) & 4 == 0 && (status | 32) & 16 != 0)
        by (bit_vector)
        requires
            status & 128 == 0,
            status & 4 == 0,
            status & 16 != 0,
    ;
    assert((status & !32) & 128 == 0 && (status & !32) & 4 == 0 && (status & !32) & 16 != 0)
        by (bit_vector)
        requires
            status & 128 == 0,
            status & 4 == 0,
            status & 16 != 0,
    ;
}

// ---------------------------------------------------------------- signers

/// Who the signature says it comes from: the name and the address of the
/// certificate when it has both, the one it has otherwise, and its
/// fingerprint when it has neither.
pub open spec fn signer(name: Seq<char>, email: Seq<char>, fingerprint: Seq<char>) -> Seq<char> {
    if name.len() > 0 && email.len() > 0 {
        name + " <"@ + email + ">"@
    } else if name.len() > 0 {
        name
    } else if email.len() > 0 {
        email
    } else {
        fingerprint
    }
}

/// `signer`, executable. A signature without a certificate has an empty name,
/// address and fingerprint.
pub fn describe(name: &str, email: &str, fingerprint: &str) -> (who: String)
    ensures
        who@ == signer(name@, email@, fingerprint@),
{
    let has_name = !name.is_empty();
    let has_email = !email.is_empty();
    if has_name && has_email {
        let mut who = owned(name);
        push_all(&mut who, " <");
        push_all(&mut who, email);
        push_all(&mut who, ">");
        who
    } else if has_name {
        owned(name)
    } else if has_email {
        owned(email)
    } else {
        owned(fingerprint)
    }
}

// ---------------------------------------------------------------- messages

/// The signatures that a signed part reports, in order: each one gmime could
/// hand over, as its status bitfield and who signed it.
pub open spec fn verdicts(list: Seq<Option<(i32, String)>>) -> Seq<Signature>
    decreases list.len(),
{
    if list.len() == 0 {
        Seq::empty()
    } else {
        let init = verdicts(list.drop_last());
        match list.last() {
            Some((status, who)) => init.push(verdict(status, who)),
            None => init,
        }
    }
}

/// Gathers the signatures of a message, part by part.
///
/// The parts of the message are walked outside this library; for each signed
/// part, what checking it gave is handed to `take`. Once checking a part has
/// failed, nothing more is taken, and the failure is what the message gets.
pub struct SignatureCollector {
    found: Vec<Signature>,
    error: Option<String>,
}

impl SignatureCollector {
    /// The signatures gathered so far.
    pub closed spec fn found(&self) -> Seq<Signature> {
        self.found@
    }

    /// Why checking a part failed, once it has.
    pub closed spec fn failure(&self) -> Option<Seq<char>> {
        match self.error {
            Some(e) => Some(e@),
            None => None,
        }
    }

    /// Nothing gathered, nothing failed.
    pub fn new() -> (c: SignatureCollector)
        ensures
            c.found() == Seq::<Signature>::empty(),
            c.failure() is None,
    {
        SignatureCollector { found: Vec::new(), error: None }
    }

    /// Whether checking more parts can still change the outcome: until one
    /// has failed.
    pub fn wants_more(&self) -> (b: bool)
        ensures
            b == self.failure() is None,
    {
        self.error.is_none()
    }

    /// Takes what checking one signed part gave: the signatures it reports
    /// (none when gmime reports no list), or why checking it failed.
    pub fn take(&mut self, outcome: Result<Vec<Option<(i32, String)>>, String>)
        ensures
            old(self).failure() is Some ==> final(self).found() == old(self).found()
                && final(self).failure() == old(self).failure(),
            old(self).failure() is None ==> match outcome {
                Ok(list) => final(self).found() == old(self).found() + verdicts(list@)
                    && final(self).failure() is None,
                Err(e) => final(self).found() == old(self).found() && final(self).failure()
                    == Some(e@),
            },
    {
        if self.error.is_some() {
            return;
        }
        match outcome {
            Ok(list) => {
                let ghost start = self.found@;
                let n = list.len();
                assert(list@.take(0) =~= Seq::<Option<(i32, String)>>::empty());
                assert(start + verdicts(list@.take(0)) =~= start);
                for i in 0..n
                    invariant
                        n == list@.len(),
                        self.error is None,
                        self.found@ == start + verdicts(list@.take(i as int)),
                {
                    assert(list@.take(i + 1).drop_last() == list@.take(i as int));
                    assert(list@.take(i + 1).last() == list@[i as int]);
                    match &list[i] {
                        Some(entry) => {
                            let s = Signature::from_status(entry.0, entry.1.clone());
                            let ghost before = self.found@;
                            self.found.push(s);
                            assert(self.found@ =~= start + verdicts(list@.take(i + 1)));
                        },
                        None => {},
                    }
                }
                assert(list@.take(n as int) == list@);
            },
            Err(e) => {
                self.error = Some(e);
            },
        }
    }

    /// What the message gets: the signatures gathered, or why checking one
    /// of its parts failed. An empty list means the message carries none.
    pub fn finish(self) -> (r: Result<Vec<Signature>, String>)
        ensures
            match self.failure() {
                Some(e) => r is Err && r->Err_0@ == e,
                None => r is Ok && r->Ok_0@ == self.found(),
            },
    {
        match self.error {
            Some(e) => Err(e),
            None => Ok(self.found),
        }
    }
}

/// What the window shows of the outcome of checking a message: the word and
/// the detail of its first signature, `none` for a message without one, and
/// `error` with why checking failed. Mail with more than one signature is
/// rare, and the first one is the one the window has room for.
pub open spec fn summary_of(outcome: Result<Seq<Signature>, Seq<char>>) -> (Seq<char>, Seq<char>) {
    match outcome {
        Ok(found) => if found.len() == 0 {
            ("none"@, Seq::empty())
        } else {
            (status_word(found[0]), detail_text(found[0]))
        },
        Err(e) => ("error"@, e),
    }
}

/// The view of what checking a message gave.
pub open spec fn outcome_view(outcome: Result<Vec<Signature>, String>) -> Result<
    Seq<Signature>,
    Seq<char>,
> {
    match outcome {
        Ok(found) => Ok(found@),
        Err(e) => Err(e@),
    }
}

/// `summary_of`, executable.
pub fn summary(outcome: &Result<Vec<Signature>, String>) -> (shown: (String, String))
    ensures
        (shown.0@, shown.1@) == summary_of(outcome_view(*outcome)),
{
    match outcome {
        Ok(found) => if found.len() == 0 {
            (owned("none"), String::new())
        } else {
            (owned(found[0].status()), found[0].detail())
        },
        Err(e) => (owned("error"), e.clone()),
    }
}

} // verus!
