//! Opening an encrypted message with a key of the keyring.
//!
//! gpg does the decrypting, outside this library, with the passphrase handed
//! over on a pipe. Here is where the encrypted block of a message is found,
//! and what gpg's answer means: the status lines it writes for a program, not
//! the prose it writes for a person in the language of the machine.

use vstd::prelude::*;
use vstd::string::StringSliceAdditionalSpecFns;
use crate::text::{
    chars_of, has_prefix_at, lines, lines_of, parse_u32, parse_u32_of, starts_with, tail, views,
    words, words_of,
};

verus! {

/// Why a message could not be opened.
#[derive(Clone, Copy, Debug, PartialEq, Eq)]
pub enum DecryptError {
    /// The passphrase does not open the key.
    WrongPassphrase,
    /// The message was encrypted to a key whose private half is not here.
    NoSecretKey,
    /// Nothing in the message is encrypted.
    NotEncrypted,
    /// gpg said no for some other reason.
    Failed,
}

/// The word for an error, which the window turns into a sentence.
pub open spec fn error_word(e: DecryptError) -> Seq<char> {
    match e {
        DecryptError::WrongPassphrase => "wrong-passphrase"@,
        DecryptError::NoSecretKey => "no-secret-key"@,
        DecryptError::NotEncrypted => "not-encrypted"@,
        DecryptError::Failed => "failed"@,
    }
}

impl DecryptError {
    pub fn as_str(&self) -> (word: &'static str)
        ensures
            word@ == error_word(*self),
    {
        match self {
            DecryptError::WrongPassphrase => "wrong-passphrase",
            DecryptError::NoSecretKey => "no-secret-key",
            DecryptError::NotEncrypted => "not-encrypted",
            DecryptError::Failed => "failed",
        }
    }
}

// ---------------------------------------------------------------- gpg's status

/// gpg's error code for a bad passphrase.
pub const BAD_PASSPHRASE: u32 = 11;

/// gpg's error code for a missing private key.
pub const NO_SECRET_KEY: u32 = 17;

/// The code of an `ERROR` status line, from what follows `ERROR `: its second
/// word, read as a number, of which gpg keeps the code in the low sixteen
/// bits and the source of the error in the high ones.
/// "pkdecrypt_failed 67108875" gives 11.
pub open spec fn error_code(rest: Seq<char>) -> Option<u32> {
    let w = words(rest);
    if w.len() >= 2 {
        match parse_u32(w[1]) {
            Some(n) => Some((n % 0x10000) as u32),
            None => None,
        }
    } else {
        None
    }
}

/// `error_code`, executable.
pub fn gpg_error_code(rest: &str) -> (code: Option<u32>)
    ensures
        code == error_code(rest@),
{
    error_code_chars(&chars_of(rest))
}

fn error_code_chars(v: &Vec<char>) -> (code: Option<u32>)
    ensures
        code == error_code(v@),
{
    let w = words_of(v);
    if w.len() < 2 {
        return None;
    }
    assert(views(w@)[1] == w@[1]@);
    match parse_u32_of(&w[1]) {
        Some(n) => {
            assert(n & 0xFFFF == n % 0x10000) by (bit_vector);
            Some(n & 0xFFFF)
        },
        None => None,
    }
}

/// The status tag that starts every line gpg writes for a program.
pub open spec fn tag() -> Seq<char> {
    "[GNUPG:] "@
}

/// The code of a status line: what follows the tag.
pub open spec fn code_of(line: Seq<char>) -> Seq<char> {
    line.skip(tag().len() as int)
}

/// Whether a status line says that the passphrase does not open the key:
/// a bad or missing passphrase, or an error whose code is a bad passphrase.
pub open spec fn says_wrong_passphrase(line: Seq<char>) -> bool {
    let code = code_of(line);
    &&& starts_with(line, tag())
    &&& starts_with(code, "BAD_PASSPHRASE"@) || starts_with(code, "MISSING_PASSPHRASE"@) || (
    starts_with(code, "ERROR "@) && error_code(code.skip("ERROR "@.len() as int)) == Some(BAD_PASSPHRASE))
}

/// Whether a status line says that the private key is not here: no secret
/// key, or an error whose code is a missing private key.
pub open spec fn says_no_secret_key(line: Seq<char>) -> bool {
    let code = code_of(line);
    &&& starts_with(line, tag())
    &&& (starts_with(code, "ERROR "@) && error_code(code.skip("ERROR "@.len() as int)) == Some(NO_SECRET_KEY))
        || starts_with(code, "NO_SECKEY"@)
}

/// What the status lines read so far say, after one more: a wrong passphrase
/// settles it; otherwise a line that says the private key is missing says so.
pub open spec fn read_status(found: Option<DecryptError>, line: Seq<char>) -> Option<
    DecryptError,
> {
    if found == Some(DecryptError::WrongPassphrase) || says_wrong_passphrase(line) {
        Some(DecryptError::WrongPassphrase)
    } else if says_no_secret_key(line) {
        Some(DecryptError::NoSecretKey)
    } else {
        found
    }
}

/// What the status lines `ls` say, read in order.
pub open spec fn read_statuses(ls: Seq<Seq<char>>) -> Option<DecryptError>
    decreases ls.len(),
{
    if ls.len() == 0 {
        None
    } else {
        read_status(read_statuses(ls.drop_last()), ls.last())
    }
}

/// Why gpg could not decrypt, from what it wrote on its status channel.
///
/// A wrong passphrase and a missing private key both end in `NO_SECKEY`,
/// since gpg cannot tell a key it may not open from one it does not have.
/// What tells them apart is the number on the `ERROR` line.
pub open spec fn failure_reason(status: Seq<char>) -> DecryptError {
    match read_statuses(lines(status)) {
        Some(e) => e,
        None => DecryptError::Failed,
    }
}

proof fn lemma_wrong_passphrase_settles(ls: Seq<Seq<char>>, k: int)
    requires
        0 <= k <= ls.len(),
        read_statuses(ls.take(k)) == Some(DecryptError::WrongPassphrase),
    ensures
        read_statuses(ls) == Some(DecryptError::WrongPassphrase),
    decreases ls.len() - k,
{
    if k == ls.len() {
        assert(ls.take(k) == ls);
    } else {
        assert(ls.take(k + 1).drop_last() == ls.take(k));
        lemma_wrong_passphrase_settles(ls, k + 1);
    }
}

/// Reads the status lines of gpg, the ones written for a program.
pub fn reason(status: &str) -> (e: DecryptError)
    ensures
        e == failure_reason(status@),
{
    let text = chars_of(status);
    let ls = lines_of(&text);
    let ghost all = views(ls@);
    let tag_len = chars_of("[GNUPG:] ").len();
    let error_len = chars_of("ERROR ").len();
    let mut found: Option<DecryptError> = None;
    let n = ls.len();
    assert(all.take(0) =~= Seq::<Seq<char>>::empty());
    for i in 0..n
        invariant
            n == ls@.len(),
            all == views(ls@),
            all == lines(status@),
            tag_len == tag().len(),
            error_len == "ERROR "@.len(),
            found == read_statuses(all.take(i as int)),
            found is None || found == Some(DecryptError::NoSecretKey),
    {
        let line = &ls[i];
        assert(all.take(i + 1).drop_last() == all.take(i as int));
        assert(all.take(i + 1).last() == line@);
        assert(line@.skip(0) == line@);
        let ghost before = found;
        if has_prefix_at(line, 0, "[GNUPG:] ") {
            let ghost code = code_of(line@);
            assert(line@.skip(tag_len as int) == code);
            if has_prefix_at(line, tag_len, "BAD_PASSPHRASE") || has_prefix_at(
                line,
                tag_len,
                "MISSING_PASSPHRASE",
            ) {
                proof {
                    lemma_wrong_passphrase_settles(all, i + 1);
                }
                return DecryptError::WrongPassphrase;
            }
            if has_prefix_at(line, tag_len, "ERROR ") {
                assert(tag_len + error_len <= line@.len());
                assert(line@.len() == line.len());
                let rest = tail(line, tag_len + error_len);
                assert(rest@ == code.skip("ERROR "@.len() as int));
                match error_code_chars(&rest) {
                    Some(number) => {
                        if number == BAD_PASSPHRASE {
                            proof {
                                lemma_wrong_passphrase_settles(all, i + 1);
                            }
                            return DecryptError::WrongPassphrase;
                        }
                        if number == NO_SECRET_KEY {
                            found = Some(DecryptError::NoSecretKey);
                        }
                    },
                    None => {},
                }
            }
            if has_prefix_at(line, tag_len, "NO_SECKEY") && found.is_none() {
                found = Some(DecryptError::NoSecretKey);
            }
            assert(!says_wrong_passphrase(line@));
            assert(says_no_secret_key(line@) ==> found == Some(DecryptError::NoSecretKey));
            assert(!says_no_secret_key(line@) ==> found == before);
        }
        assert(found == read_status(before, line@));
    }
    assert(all.take(n as int) == all);
    match found {
        Some(e) => e,
        None => DecryptError::Failed,
    }
}

/// Whether some line of `ls` says that the passphrase does not open the key.
pub open spec fn any_wrong_passphrase(ls: Seq<Seq<char>>) -> bool {
    exists|i: int| 0 <= i < ls.len() && says_wrong_passphrase(#[trigger] ls[i])
}

/// Whether some line of `ls` says that the private key is not here.
pub open spec fn any_no_secret_key(ls: Seq<Seq<char>>) -> bool {
    exists|i: int| 0 <= i < ls.len() && says_no_secret_key(#[trigger] ls[i])
}

proof fn lemma_statuses_any_order(ls: Seq<Seq<char>>)
    ensures
        read_statuses(ls) == if any_wrong_passphrase(ls) {
            Some(DecryptError::WrongPassphrase)
        } else if any_no_secret_key(ls) {
            Some(DecryptError::NoSecretKey)
        } else {
            None
        },
    decreases ls.len(),
{
    if ls.len() > 0 {
        let init = ls.drop_last();
        lemma_statuses_any_order(init);
        assert forall|i: int| 0 <= i < init.len() implies #[trigger] init[i] == ls[i] by {}
        if any_wrong_passphrase(init) {
            let i = choose|i: int| 0 <= i < init.len() && says_wrong_passphrase(#[trigger] init[i]);
            assert(says_wrong_passphrase(ls[i]));
        }
        if any_no_secret_key(init) {
            let i = choose|i: int| 0 <= i < init.len() && says_no_secret_key(#[trigger] init[i]);
            assert(says_no_secret_key(ls[i]));
        }
        if any_wrong_passphrase(ls) && !any_wrong_passphrase(init) {
            let i = choose|i: int| 0 <= i < ls.len() && says_wrong_passphrase(#[trigger] ls[i]);
            if i < init.len() {
                assert(says_wrong_passphrase(init[i]));
            }
        }
        if any_no_secret_key(ls) && !any_no_secret_key(init) {
            let i = choose|i: int| 0 <= i < ls.len() && says_no_secret_key(#[trigger] ls[i]);
            if i < init.len() {
                assert(says_no_secret_key(init[i]));
            }
        }
        assert(says_wrong_passphrase(ls.last()) ==> says_wrong_passphrase(ls[ls.len() - 1]));
        assert(says_no_secret_key(ls.last()) ==> says_no_secret_key(ls[ls.len() - 1]));
    }
}

/// Which status line comes first does not matter: gpg's answer is a wrong
/// passphrase when any line says so, else a missing private key when any
/// line says so, and a failure for another reason otherwise.
pub proof fn lemma_reason_from_any_line(status: Seq<char>)
    ensures
        failure_reason(status) == if any_wrong_passphrase(lines(status)) {
            DecryptError::WrongPassphrase
        } else if any_no_secret_key(lines(status)) {
            DecryptError::NoSecretKey
        } else {
            DecryptError::Failed
        },
{
    lemma_statuses_any_order(lines(status));
}

/// A status line that says the passphrase was bad, anywhere among gpg's
/// status lines, makes the answer a wrong passphrase.
pub proof fn lemma_bad_passphrase_line_decides(status: Seq<char>, i: int, rest: Seq<char>)
    requires
        0 <= i < lines(status).len(),
        lines(status)[i] == "[GNUPG:] "@ + "BAD_PASSPHRASE"@ + rest,
    ensures
        failure_reason(status) == DecryptError::WrongPassphrase,
{
    let line = lines(status)[i];
    assert(line.take(tag().len() as int) =~= tag());
    assert(code_of(line) =~= "BAD_PASSPHRASE"@ + rest);
    assert(code_of(line).take("BAD_PASSPHRASE"@.len() as int) =~= "BAD_PASSPHRASE"@);
    assert(says_wrong_passphrase(lines(status)[i]));
    lemma_reason_from_any_line(status);
}

/// A status line that says no secret key, among status lines none of which
/// says the passphrase is wrong, makes the answer a missing private key.
pub proof fn lemma_no_seckey_line_decides(status: Seq<char>, i: int, rest: Seq<char>)
    requires
        0 <= i < lines(status).len(),
        lines(status)[i] == "[GNUPG:] "@ + "NO_SECKEY"@ + rest,
        !any_wrong_passphrase(lines(status)),
    ensures
        failure_reason(status) == DecryptError::NoSecretKey,
{
    let line = lines(status)[i];
    assert(line.take(tag().len() as int) =~= tag());
    assert(code_of(line) =~= "NO_SECKEY"@ + rest);
    assert(code_of(line).take("NO_SECKEY"@.len() as int) =~= "NO_SECKEY"@);
    assert(says_no_secret_key(lines(status)[i]));
    lemma_reason_from_any_line(status);
}

/// What the attempt to decrypt gave: gpg's output when it succeeded and wrote
/// something; an error when the passphrase never reached it (which would
/// look exactly like a wrong one), and otherwise what its status says.
pub open spec fn decrypted(handed_over: bool, success: bool, stdout: Seq<u8>, status: Seq<char>) -> Result<
    Seq<u8>,
    DecryptError,
> {
    if !handed_over {
        Err(DecryptError::Failed)
    } else if success && stdout.len() > 0 {
        Ok(stdout)
    } else {
        Err(failure_reason(status))
    }
}

/// `decrypted`, executable: `handed_over` says whether the passphrase was
/// written to gpg, `success` whether gpg exited well, `stdout` what it
/// wrote out and `status` what it wrote on its status channel.
pub fn outcome(handed_over: bool, success: bool, stdout: Vec<u8>, status: &str) -> (r: Result<
    Vec<u8>,
    DecryptError,
>)
    ensures
        match r {
            Ok(out) => decrypted(handed_over, success, stdout@, status@) == Ok::<
                Seq<u8>,
                DecryptError,
            >(out@),
            Err(e) => decrypted(handed_over, success, stdout@, status@) == Err::<
                Seq<u8>,
                DecryptError,
            >(e),
        },
{
    if !handed_over {
        return Err(DecryptError::Failed);
    }
    if success && stdout.len() > 0 {
        return Ok(stdout);
    }
    Err(reason(status))
}

// ---------------------------------------------------------------- the block

/// The line that starts an armored PGP message.
pub open spec fn armor() -> Seq<u8> {
    "-----BEGIN PGP MESSAGE-----".spec_bytes()
}

/// Whether `needle` occurs in `hay`.
pub open spec fn occurs(hay: Seq<u8>, needle: Seq<u8>) -> bool {
    exists|i: int| 0 <= i && i + needle.len() <= hay.len() && #[trigger] hay.subrange(i, i + needle.len()) == needle
}

/// The armor, or any other bytes, occurs in whatever holds it, wherever it
/// stands: before it may come any number of bytes, and any after it.
pub proof fn lemma_occurs_anywhere(prefix: Seq<u8>, needle: Seq<u8>, suffix: Seq<u8>)
    ensures
        occurs(prefix + needle + suffix, needle),
{
    let h = prefix + needle + suffix;
    assert(h.subrange(prefix.len() as int, (prefix.len() + needle.len()) as int) =~= needle);
}

/// Bytes occur in a message only where the message holds them: the message
/// is then what comes before them, them, and what comes after.
pub proof fn lemma_occurs_only_where_held(hay: Seq<u8>, needle: Seq<u8>)
    requires
        occurs(hay, needle),
    ensures
        exists|prefix: Seq<u8>, suffix: Seq<u8>| hay == prefix + needle + suffix,
{
    let i = choose|i: int|
        0 <= i && i + needle.len() <= hay.len() && #[trigger] hay.subrange(i, i + needle.len())
            == needle;
    let prefix = hay.subrange(0, i);
    let suffix = hay.subrange(i + needle.len(), hay.len() as int);
    assert(hay =~= prefix + needle + suffix);
}

/// A message that carries the armor line anywhere in its body is its own
/// block when no encrypted part gave one.
pub proof fn lemma_inline_block_is_found(headers: Seq<u8>, rest: Seq<u8>)
    ensures
        occurs(headers + armor() + rest, armor()),
{
    lemma_occurs_anywhere(headers, armor(), rest);
}

fn occurs_in(hay: &Vec<u8>, needle: &[u8]) -> (b: bool)
    ensures
        b == occurs(hay@, needle@),
{
    let n = hay.len();
    let m = needle.len();
    if m > n {
        return false;
    }
    let mut i: usize = 0;
    while i <= n - m
        invariant
            n == hay@.len(),
            m == needle@.len(),
            m <= n,
            i <= n - m + 1,
            forall|k: int| 0 <= k < i ==> #[trigger] hay@.subrange(k, k + m) != needle@,
        decreases n - m + 1 - i,
    {
        let mut j: usize = 0;
        let mut same = true;
        while j < m
            invariant
                n == hay@.len(),
                m == needle@.len(),
                i + m <= n,
                j <= m,
                same == forall|l: int| 0 <= l < j ==> hay@[i + l] == needle@[l],
            decreases m - j,
        {
            if hay[i + j] != needle[j] {
                same = false;
            }
            j = j + 1;
        }
        if same {
            assert(hay@.subrange(i as int, i + m) =~= needle@);
            return true;
        }
        assert(hay@.subrange(i as int, i + m) != needle@) by {
            let l = choose|l: int| 0 <= l < m && hay@[i + l] != needle@[l];
            assert(hay@.subrange(i as int, i + m)[l] != needle@[l]);
        }
        i = i + 1;
    }
    false
}

/// Looks for the encrypted block of a message, part by part.
///
/// The parts are walked outside this library; the bytes of the second part
/// of each `multipart/encrypted` part (the first says which version of the
/// protocol, the second is the message) are offered until one gives some.
/// A message of the older style carries the block straight in the body of a
/// text part: when no part gave any, the whole message is the block if the
/// armor line occurs in it.
pub struct BlobSearch {
    blob: Option<Vec<u8>>,
}

impl BlobSearch {
    /// The block found so far.
    pub closed spec fn blob(&self) -> Option<Seq<u8>> {
        match self.blob {
            Some(b) => Some(b@),
            None => None,
        }
    }

    /// Nothing found yet.
    pub fn new() -> (s: BlobSearch)
        ensures
            s.blob() is None,
    {
        BlobSearch { blob: None }
    }

    /// Whether the search still looks: until a part gave a block.
    pub fn wants_more(&self) -> (b: bool)
        ensures
            b == self.blob() is None,
    {
        self.blob.is_none()
    }

    /// Offers the bytes of the message part of an encrypted part, when they
    /// could be read. The first part that gives some is the block.
    pub fn offer(&mut self, part: Option<Vec<u8>>)
        ensures
            final(self).blob() == match old(self).blob() {
                Some(b) => Some(b),
                None => match part {
                    Some(p) => Some(p@),
                    None => None,
                },
            },
    {
        if self.blob.is_none() {
            self.blob = part;
        }
    }

    /// The block of the message whose bytes are `message`.
    pub fn finish(self, message: Vec<u8>) -> (r: Option<Vec<u8>>)
        ensures
            match r {
                Some(b) => match self.blob() {
                    Some(found) => b@ == found,
                    None => occurs(message@, armor()) && b@ == message@,
                },
                None => self.blob() is None && !occurs(message@, armor()),
            },
    {
        match self.blob {
            Some(b) => Some(b),
            None => {
                let armor_line = "-----BEGIN PGP MESSAGE-----".as_bytes();
                if occurs_in(&message, armor_line) {
                    Some(message)
                } else {
                    None
                }
            },
        }
    }
}

} // verus!
