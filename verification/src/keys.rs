//! A keyring of its own, inside the data directory of the application.
//!
//! The keys of the user, in `~/.gnupg`, stay out of reach: every command
//! built here points gpg at the keyring of the application. What the user
//! wants this application to see, they import.
//!
//! gpg itself runs outside this library; here are the commands it is given
//! and the reading of what it answers.

use vstd::prelude::*;
use vstd::string::StringSliceAdditionalSpecFns;
use crate::paths::{join, joined};
use crate::text::{
    chars_of, equals_lit, field, lemma_split_len, lemma_strings_push, lemma_views_push, lines,
    lines_of, owned, push_all, split, split_chars, string_of, strings, trim, trimmed, views,
};

verus! {

// ---------------------------------------------------------------- keys

/// One key as the list shows it.
#[derive(Clone, Debug, Default, PartialEq, Eq)]
pub struct Key {
    pub fingerprint: String,
    pub user: String,
    /// Set when the private half is in the keyring, not only the public one.
    pub secret: bool,
    /// Empty when the key does not expire.
    pub expires: String,
}

/// What a key says, as text.
pub struct KeyView {
    pub fingerprint: Seq<char>,
    pub user: Seq<char>,
    pub secret: bool,
    pub expires: Seq<char>,
}

impl View for Key {
    type V = KeyView;

    open spec fn view(&self) -> KeyView {
        KeyView {
            fingerprint: self.fingerprint@,
            user: self.user@,
            secret: self.secret,
            expires: self.expires@,
        }
    }
}

/// The views of a sequence of keys.
pub open spec fn key_views(ks: Seq<Key>) -> Seq<KeyView> {
    ks.map_values(|k: Key| k@)
}

proof fn lemma_key_views_push(ks: Seq<Key>, k: Key)
    ensures
        key_views(ks.push(k)) == key_views(ks).push(k@),
{
    assert(key_views(ks.push(k)) =~= key_views(ks).push(k@));
}

/// A key of which nothing is known yet.
pub open spec fn blank_key() -> KeyView {
    KeyView { fingerprint: Seq::empty(), user: Seq::empty(), secret: false, expires: Seq::empty() }
}

fn blank() -> (k: Key)
    ensures
        k@ == blank_key(),
{
    Key { fingerprint: String::new(), user: String::new(), secret: false, expires: String::new() }
}

fn copy_key(k: &Key) -> (c: Key)
    ensures
        c@ == k@,
{
    Key {
        fingerprint: k.fingerprint.clone(),
        user: k.user.clone(),
        secret: k.secret,
        expires: k.expires.clone(),
    }
}

// ---------------------------------------------------------------- escapes

/// The value of `c` as a hexadecimal digit, if it is one.
pub open spec fn hex_digit(c: char) -> Option<int> {
    let n = c as u32;
    if 48 <= n <= 57 {
        Some(n - 48)
    } else if 65 <= n <= 70 {
        Some(n - 55)
    } else if 97 <= n <= 102 {
        Some(n - 87)
    } else {
        None
    }
}

/// What `u8::from_str_radix` gives in base 16 for the two characters `a` and
/// `b`: two digits, or a `+` sign and one digit.
pub open spec fn hex_byte(a: char, b: char) -> Option<u8> {
    match (hex_digit(a), hex_digit(b)) {
        (Some(h), Some(l)) => Some((16 * h + l) as u8),
        (None, Some(l)) => if a == '+' {
            Some(l as u8)
        } else {
            None
        },
        _ => None,
    }
}

fn hex_digit_of(c: char) -> (d: Option<u8>)
    ensures
        match d {
            Some(v) => hex_digit(c) == Some(v as int) && v < 16,
            None => hex_digit(c) is None,
        },
{
    let n = c as u32;
    if 48 <= n && n <= 57 {
        Some((n - 48) as u8)
    } else if 65 <= n && n <= 70 {
        Some((n - 55) as u8)
    } else if 97 <= n && n <= 102 {
        Some((n - 87) as u8)
    } else {
        None
    }
}

fn hex_byte_of(a: char, b: char) -> (r: Option<u8>)
    ensures
        r == hex_byte(a, b),
{
    match (hex_digit_of(a), hex_digit_of(b)) {
        (Some(h), Some(l)) => Some(16 * h + l),
        (None, Some(l)) => if a == '+' {
            Some(l)
        } else {
            None
        },
        _ => None,
    }
}

/// What gpg's escapes stand for: `\x` and two hexadecimal digits is the
/// character of that code; a `\x` that no byte follows stays as it is.
pub open spec fn unescaped(s: Seq<char>) -> Seq<char>
    decreases s.len(),
{
    if s.len() == 0 {
        s
    } else if s.len() >= 2 && s[0] == '\\' && s[1] == 'x' {
        match if s.len() >= 4 {
            hex_byte(s[2], s[3])
        } else {
            None
        } {
            Some(b) => seq![b as char] + unescaped(s.skip(4)),
            None => seq!['\\', 'x'] + unescaped(s.skip(2)),
        }
    } else {
        seq![s[0]] + unescaped(s.drop_first())
    }
}

fn unescape_chars(v: &Vec<char>) -> (out: Vec<char>)
    ensures
        out@ == unescaped(v@),
{
    let n = v.len();
    let mut out: Vec<char> = Vec::new();
    let mut i: usize = 0;
    assert(v@.skip(0) == v@);
    while i < n
        invariant
            n == v@.len(),
            i <= n,
            unescaped(v@) == out@ + unescaped(v@.skip(i as int)),
        decreases n - i,
    {
        let ghost rest = v@.skip(i as int);
        let ghost before = out@;
        if i + 1 < n && v[i] == '\\' && v[i + 1] == 'x' {
            let byte = if n - i > 3 {
                hex_byte_of(v[i + 2], v[i + 3])
            } else {
                None
            };
            match byte {
                Some(b) => {
                    out.push(b as char);
                    assert(rest.skip(4) == v@.skip(i + 4));
                    assert(out@ + unescaped(v@.skip(i + 4)) =~= before + (seq![b as char]
                        + unescaped(rest.skip(4))));
                    i = i + 4;
                },
                None => {
                    out.push('\\');
                    out.push('x');
                    assert(rest.skip(2) == v@.skip(i + 2));
                    assert(out@ + unescaped(v@.skip(i + 2)) =~= before + (seq!['\\', 'x']
                        + unescaped(rest.skip(2))));
                    i = i + 2;
                },
            }
        } else {
            out.push(v[i]);
            assert(rest.drop_first() == v@.skip(i + 1));
            assert(out@ + unescaped(v@.skip(i + 1)) =~= before + (seq![v@[i as int]]
                + unescaped(rest.drop_first())));
            i = i + 1;
        }
    }
    assert(v@.skip(n as int) =~= Seq::<char>::empty());
    assert(out@ + Seq::<char>::empty() == out@);
    out
}

/// gpg escapes colons and anything not printable as `\x3a` and the like;
/// this puts them back.
pub fn unescape(value: &str) -> (r: String)
    ensures
        r@ == unescaped(value@),
{
    let v = chars_of(value);
    let out = unescape_chars(&v);
    string_of(&out)
}

// ---------------------------------------------------------------- listing

/// Where the reading of a `--with-colons` listing stands: the keys read so
/// far, and the expiry of the last `pub` or `sec` record.
pub struct Listing {
    pub keys: Seq<KeyView>,
    pub expires: Seq<char>,
}

/// The listing read so far, after one more line. A `pub` or `sec` record
/// starts a key and gives the expiry (field 7); the first `fpr` record of a
/// key gives its fingerprint (field 10) and the expiry; the first `uid`
/// record gives its user (field 10, unescaped). Any other line changes
/// nothing.
pub open spec fn read_record(st: Listing, line: Seq<char>) -> Listing {
    let fields = split(line, ':');
    let kind = fields[0];
    let n = st.keys.len();
    if kind == "pub"@ || kind == "sec"@ {
        Listing { keys: st.keys.push(blank_key()), expires: field(fields, 6) }
    } else if kind == "fpr"@ && n > 0 && st.keys[n - 1].fingerprint.len() == 0 {
        let k = st.keys[n - 1];
        Listing {
            keys: st.keys.update(
                n - 1,
                KeyView {
                    fingerprint: field(fields, 9),
                    user: k.user,
                    secret: k.secret,
                    expires: st.expires,
                },
            ),
            expires: st.expires,
        }
    } else if kind == "uid"@ && n > 0 && st.keys[n - 1].user.len() == 0 {
        let k = st.keys[n - 1];
        Listing {
            keys: st.keys.update(
                n - 1,
                KeyView {
                    fingerprint: k.fingerprint,
                    user: unescaped(field(fields, 9)),
                    secret: k.secret,
                    expires: k.expires,
                },
            ),
            expires: st.expires,
        }
    } else {
        st
    }
}

/// The listing after all of `ls`, read in order.
pub open spec fn read_records(ls: Seq<Seq<char>>) -> Listing
    decreases ls.len(),
{
    if ls.len() == 0 {
        Listing { keys: Seq::empty(), expires: Seq::empty() }
    } else {
        read_record(read_records(ls.drop_last()), ls.last())
    }
}

/// The keys of `ks` that have a fingerprint, in order.
pub open spec fn with_fingerprint(ks: Seq<KeyView>) -> Seq<KeyView>
    decreases ks.len(),
{
    if ks.len() == 0 {
        ks
    } else if ks.last().fingerprint.len() == 0 {
        with_fingerprint(ks.drop_last())
    } else {
        with_fingerprint(ks.drop_last()).push(ks.last())
    }
}

/// The keys that a `--with-colons` listing holds.
pub open spec fn listed_keys(colons: Seq<char>) -> Seq<KeyView> {
    with_fingerprint(read_records(lines(colons)).keys)
}

/// The fingerprints of the keys that a listing holds, in order.
pub open spec fn listed_fingerprints(colons: Seq<char>) -> Seq<Seq<char>> {
    listed_keys(colons).map_values(|k: KeyView| k.fingerprint)
}

fn field_string(fields: &Vec<Vec<char>>, i: usize) -> (s: String)
    ensures
        s@ == field(views(fields@), i as int),
{
    if i < fields.len() {
        string_of(&fields[i])
    } else {
        String::new()
    }
}

fn field_unescaped(fields: &Vec<Vec<char>>, i: usize) -> (s: String)
    ensures
        s@ == unescaped(field(views(fields@), i as int)),
{
    if i < fields.len() {
        let u = unescape_chars(&fields[i]);
        string_of(&u)
    } else {
        let empty: Vec<char> = Vec::new();
        let u = unescape_chars(&empty);
        string_of(&u)
    }
}

/// Reads the `--with-colons` listing, which is the only output of gpg meant to
/// be read by a program.
pub fn parse_keys(colons: &str) -> (keys: Vec<Key>)
    ensures
        key_views(keys@) == listed_keys(colons@),
{
    let text = chars_of(colons);
    let ls = lines_of(&text);
    let ghost all = views(ls@);
    let mut keys: Vec<Key> = Vec::new();
    let mut expires = String::new();
    let n = ls.len();
    assert(all.take(0) =~= Seq::<Seq<char>>::empty());
    assert(key_views(keys@) =~= Seq::<KeyView>::empty());
    for i in 0..n
        invariant
            n == ls@.len(),
            all == views(ls@),
            all == lines(colons@),
            key_views(keys@) == read_records(all.take(i as int)).keys,
            expires@ == read_records(all.take(i as int)).expires,
    {
        let line = &ls[i];
        assert(all.take(i + 1).drop_last() == all.take(i as int));
        assert(all.take(i + 1).last() == line@);
        let ghost st = read_records(all.take(i as int));
        let ghost old_keys = keys@;
        let fields = split_chars(line, ':');
        proof {
            lemma_split_len(line@, ':');
        }
        let kind = &fields[0];
        let m = keys.len();
        if equals_lit(kind, "pub") || equals_lit(kind, "sec") {
            expires = field_string(&fields, 6);
            let k = blank();
            proof {
                lemma_key_views_push(keys@, k);
            }
            keys.push(k);
        } else if equals_lit(kind, "fpr") && m > 0 && keys[m - 1].fingerprint.as_str().is_empty() {
            let mut k = keys.pop().unwrap();
            assert(keys@ == old_keys.drop_last());
            k.fingerprint = field_string(&fields, 9);
            k.expires = expires.clone();
            keys.push(k);
            assert(key_views(keys@) =~= key_views(old_keys).update(m - 1, k@));
        } else if equals_lit(kind, "uid") && m > 0 && keys[m - 1].user.as_str().is_empty() {
            let mut k = keys.pop().unwrap();
            assert(keys@ == old_keys.drop_last());
            k.user = field_unescaped(&fields, 9);
            keys.push(k);
            assert(key_views(keys@) =~= key_views(old_keys).update(m - 1, k@));
        }
    }
    assert(all.take(n as int) == all);
    let ghost read = read_records(all).keys;
    let mut out: Vec<Key> = Vec::new();
    let m = keys.len();
    assert(read.take(0) =~= Seq::<KeyView>::empty());
    for i in 0..m
        invariant
            m == keys@.len(),
            read == key_views(keys@),
            key_views(out@) == with_fingerprint(read.take(i as int)),
    {
        assert(read.take(i + 1).drop_last() == read.take(i as int));
        assert(read.take(i + 1).last() == keys@[i as int]@);
        if !keys[i].fingerprint.as_str().is_empty() {
            let k = copy_key(&keys[i]);
            proof {
                lemma_key_views_push(out@, k);
            }
            out.push(k);
        }
    }
    assert(read.take(m as int) == read);
    out
}

/// The fingerprints of the keys that a listing holds.
pub fn fingerprints(colons: &str) -> (fps: Vec<String>)
    ensures
        strings(fps@) == listed_fingerprints(colons@),
{
    let keys = parse_keys(colons);
    let mut fps: Vec<String> = Vec::new();
    let n = keys.len();
    for i in 0..n
        invariant
            n == keys@.len(),
            key_views(keys@) == listed_keys(colons@),
            strings(fps@) == listed_keys(colons@).take(i as int).map_values(
                |k: KeyView| k.fingerprint,
            ),
    {
        let f = keys[i].fingerprint.clone();
        proof {
            lemma_strings_push(fps@, f);
        }
        fps.push(f);
        assert(listed_keys(colons@).take(i + 1).map_values(|k: KeyView| k.fingerprint)
            =~= listed_keys(colons@).take(i as int).map_values(|k: KeyView| k.fingerprint).push(
            f@,
        ));
    }
    assert(listed_keys(colons@).take(n as int) == listed_keys(colons@));
    fps
}

// ---------------------------------------------------------------- fingerprints

/// Whether `c` is a hexadecimal digit: 0 to 9, A to F or a to f.
pub open spec fn is_hex(c: char) -> bool {
    hex_digit(c) is Some
}

/// A fingerprint as gpg writes it: 40 bytes, each a hexadecimal digit.
pub open spec fn fingerprint_shaped(value: &str) -> bool {
    &&& value.spec_bytes().len() == 40
    &&& forall|i: int| 0 <= i < value@.len() ==> is_hex(#[trigger] value@[i])
}

/// A fingerprint as gpg writes it: 40 hexadecimal digits.
pub fn is_fingerprint(value: &str) -> (b: bool)
    ensures
        b == fingerprint_shaped(value),
{
    let v = chars_of(value);
    let n = v.len();
    for i in 0..n
        invariant
            n == v@.len(),
            v@ == value@,
            forall|j: int| 0 <= j < i ==> is_hex(#[trigger] value@[j]),
    {
        if hex_digit_of(v[i]).is_none() {
            assert(!is_hex(value@[i as int]));
            return false;
        }
    }
    proof {
        lemma_hex_is_ascii(value);
    }
    n == 40
}

proof fn lemma_hex_char(c: char)
    requires
        is_hex(c),
    ensures
        '\0' <= c <= '\u{7f}',
{
    assert((c as u32) <= 0x7f);
}

proof fn lemma_hex_is_ascii(value: &str)
    requires
        forall|i: int| 0 <= i < value@.len() ==> is_hex(#[trigger] value@[i]),
    ensures
        vstd::utf8::is_ascii_chars(value@),
        value.spec_bytes().len() == value@.len(),
{
    assert forall|i: int| 0 <= i < value@.len() implies '\0' <= #[trigger] value@[i] <= '\u{7f}' by {
        lemma_hex_char(value@[i]);
    }
    vstd::utf8::is_ascii_chars_encode_utf8(value@);
}

/// A fingerprint is forty characters, none of them a space or a dash: nothing
/// that a command line could read as more than one argument, or as an option.
pub proof fn lemma_fingerprint_is_one_plain_word(value: &str)
    requires
        fingerprint_shaped(value),
    ensures
        value@.len() == 40,
        forall|i: int|
            0 <= i < value@.len() ==> !crate::text::is_whitespace(#[trigger] value@[i])
                && value@[i] != '-',
{
    lemma_hex_is_ascii(value);
    assert forall|i: int| 0 <= i < value@.len() implies !crate::text::is_whitespace(
        #[trigger] value@[i],
    ) && value@[i] != '-' by {
        assert(is_hex(value@[i]));
    }
}

// ---------------------------------------------------------------- commands

/// What gpg is asked to do.
pub enum GpgTask {
    /// List the public keys, for a program to read.
    ListKeys,
    /// List the keys whose private half is here, for a program to read.
    ListSecretKeys,
    /// Import the keys a file holds.
    Import(String),
    /// Drop the private half of a key.
    DeleteSecretKeys(String),
    /// Drop a key.
    DeleteKeys(String),
    /// Decrypt a file, reading the passphrase on the standard input and
    /// writing status codes on the standard error.
    Decrypt(String),
    /// Stop the agent that gpg leaves running.
    StopAgent,
}

/// A program and its arguments.
pub struct Invocation {
    pub program: String,
    pub arguments: Vec<String>,
}

/// A program and its arguments, as text.
pub struct CommandLine {
    pub program: Seq<char>,
    pub arguments: Seq<Seq<char>>,
}

impl View for Invocation {
    type V = CommandLine;

    open spec fn view(&self) -> CommandLine {
        CommandLine { program: self.program@, arguments: strings(self.arguments@) }
    }
}

/// The arguments every keyring command of gpg starts with: the keyring, and
/// no questions, no terminal, no chatter.
pub open spec fn batch(home: Seq<char>) -> Seq<Seq<char>> {
    seq!["--homedir"@, home, "--batch"@, "--no-tty"@, "--quiet"@]
}

pub open spec fn list_keys_line(home: Seq<char>) -> CommandLine {
    CommandLine { program: "gpg"@, arguments: batch(home) + seq!["--with-colons"@, "--list-keys"@] }
}

pub open spec fn list_secret_keys_line(home: Seq<char>) -> CommandLine {
    CommandLine {
        program: "gpg"@,
        arguments: batch(home) + seq!["--with-colons"@, "--list-secret-keys"@],
    }
}

pub open spec fn import_line(home: Seq<char>, path: Seq<char>) -> CommandLine {
    CommandLine { program: "gpg"@, arguments: batch(home) + seq!["--import"@, path] }
}

pub open spec fn delete_secret_keys_line(home: Seq<char>, fingerprint: Seq<char>) -> CommandLine {
    CommandLine {
        program: "gpg"@,
        arguments: batch(home) + seq!["--batch"@, "--yes"@, "--delete-secret-keys"@, fingerprint],
    }
}

pub open spec fn delete_keys_line(home: Seq<char>, fingerprint: Seq<char>) -> CommandLine {
    CommandLine {
        program: "gpg"@,
        arguments: batch(home) + seq!["--batch"@, "--yes"@, "--delete-keys"@, fingerprint],
    }
}

/// Decrypting: the passphrase arrives on the standard input, so no pinentry
/// is needed, and the status goes to the standard error as codes rather than
/// prose in the language of the machine.
pub open spec fn decrypt_line(home: Seq<char>, file: Seq<char>) -> CommandLine {
    CommandLine {
        program: "gpg"@,
        arguments: seq![
            "--homedir"@,
            home,
            "--batch"@,
            "--quiet"@,
            "--no-tty"@,
            "--pinentry-mode"@,
            "loopback"@,
            "--passphrase-fd"@,
            "0"@,
            "--status-fd"@,
            "2"@,
            "--decrypt"@,
            file,
        ],
    }
}

pub open spec fn stop_agent_line(home: Seq<char>) -> CommandLine {
    CommandLine { program: "gpgconf"@, arguments: seq!["--homedir"@, home, "--kill"@, "all"@] }
}

/// The command that carries out `task` on the keyring in `home`.
pub open spec fn command_line(home: Seq<char>, task: GpgTask) -> CommandLine {
    match task {
        GpgTask::ListKeys => list_keys_line(home),
        GpgTask::ListSecretKeys => list_secret_keys_line(home),
        GpgTask::Import(path) => import_line(home, path@),
        GpgTask::DeleteSecretKeys(fingerprint) => delete_secret_keys_line(home, fingerprint@),
        GpgTask::DeleteKeys(fingerprint) => delete_keys_line(home, fingerprint@),
        GpgTask::Decrypt(file) => decrypt_line(home, file@),
        GpgTask::StopAgent => stop_agent_line(home),
    }
}

fn arg(args: &mut Vec<String>, a: &str)
    ensures
        strings(final(args)@) == strings(old(args)@).push(a@),
{
    let s = owned(a);
    proof {
        lemma_strings_push(args@, s);
    }
    args.push(s);
}

// ---------------------------------------------------------------- the keyring

/// The keyring of the application: a gpg home folder of its own.
pub struct KeyStore {
    home: String,
}

impl View for KeyStore {
    type V = Seq<char>;

    /// The folder of the keyring.
    closed spec fn view(&self) -> Seq<char> {
        self.home@
    }
}

/// The keys of `ks`, each marked as secret when its fingerprint is one of
/// `secret`.
pub open spec fn with_secrets(ks: Seq<KeyView>, secret: Seq<Seq<char>>) -> Seq<KeyView> {
    ks.map_values(
        |k: KeyView|
            KeyView {
                fingerprint: k.fingerprint,
                user: k.user,
                secret: secret.contains(k.fingerprint),
                expires: k.expires,
            },
    )
}

fn contains_string(v: &Vec<String>, s: &String) -> (b: bool)
    ensures
        b == strings(v@).contains(s@),
{
    let n = v.len();
    for i in 0..n
        invariant
            n == v@.len(),
            forall|j: int| 0 <= j < i ==> strings(v@)[j] != s@,
    {
        if v[i] == *s {
            assert(strings(v@)[i as int] == s@);
            return true;
        }
    }
    false
}

impl KeyStore {
    /// The keyring lives next to the rest of the data of the application,
    /// in the folder `gnupg` of `data_dir`.
    pub fn open(data_dir: &str) -> (store: KeyStore)
        ensures
            store@ == joined(data_dir@, "gnupg"@),
    {
        proof {
            reveal_strlit("gnupg");
        }
        KeyStore { home: join(data_dir, "gnupg") }
    }

    /// The folder of the keyring.
    pub fn home(&self) -> (h: &str)
        ensures
            h@ == self@,
    {
        self.home.as_str()
    }

    /// The command that carries out `task` on this keyring.
    pub fn invocation(&self, task: &GpgTask) -> (inv: Invocation)
        ensures
            inv@ == command_line(self@, *task),
    {
        let mut args: Vec<String> = Vec::new();
        assert(strings(args@) =~= Seq::<Seq<char>>::empty());
        arg(&mut args, "--homedir");
        let home = self.home.clone();
        proof {
            lemma_strings_push(args@, home);
        }
        args.push(home);
        let program = match task {
            GpgTask::Decrypt(file) => {
                arg(&mut args, "--batch");
                arg(&mut args, "--quiet");
                arg(&mut args, "--no-tty");
                arg(&mut args, "--pinentry-mode");
                arg(&mut args, "loopback");
                arg(&mut args, "--passphrase-fd");
                arg(&mut args, "0");
                arg(&mut args, "--status-fd");
                arg(&mut args, "2");
                arg(&mut args, "--decrypt");
                arg(&mut args, file.as_str());
                owned("gpg")
            },
            GpgTask::StopAgent => {
                arg(&mut args, "--kill");
                arg(&mut args, "all");
                owned("gpgconf")
            },
            _ => {
                arg(&mut args, "--batch");
                arg(&mut args, "--no-tty");
                arg(&mut args, "--quiet");
                match task {
                    GpgTask::ListKeys => {
                        arg(&mut args, "--with-colons");
                        arg(&mut args, "--list-keys");
                    },
                    GpgTask::ListSecretKeys => {
                        arg(&mut args, "--with-colons");
                        arg(&mut args, "--list-secret-keys");
                    },
                    GpgTask::Import(path) => {
                        arg(&mut args, "--import");
                        arg(&mut args, path.as_str());
                    },
                    GpgTask::DeleteSecretKeys(fingerprint) => {
                        arg(&mut args, "--batch");
                        arg(&mut args, "--yes");
                        arg(&mut args, "--delete-secret-keys");
                        arg(&mut args, fingerprint.as_str());
                    },
                    GpgTask::DeleteKeys(fingerprint) => {
                        arg(&mut args, "--batch");
                        arg(&mut args, "--yes");
                        arg(&mut args, "--delete-keys");
                        arg(&mut args, fingerprint.as_str());
                    },
                    _ => {},
                }
                owned("gpg")
            },
        };
        let inv = Invocation { program, arguments: args };
        assert(inv@.arguments =~= command_line(self@, *task).arguments);
        inv
    }

    /// The keys of the keyring, from what gpg lists: `public` is its
    /// `--with-colons --list-keys` listing and `secret` its
    /// `--with-colons --list-secret-keys` listing. A key is marked secret when
    /// its private half is in the keyring too.
    pub fn list(&self, public: &str, secret: &str) -> (keys: Vec<Key>)
        ensures
            key_views(keys@) == with_secrets(listed_keys(public@), listed_fingerprints(secret@)),
    {
        let secret_fingerprints = fingerprints(secret);
        let all = parse_keys(public);
        let ghost want = with_secrets(listed_keys(public@), listed_fingerprints(secret@));
        let mut keys: Vec<Key> = Vec::new();
        let n = all.len();
        for i in 0..n
            invariant
                n == all@.len(),
                key_views(all@) == listed_keys(public@),
                strings(secret_fingerprints@) == listed_fingerprints(secret@),
                want == with_secrets(listed_keys(public@), listed_fingerprints(secret@)),
                want.len() == n,
                keys@.len() == i,
                forall|j: int| 0 <= j < i ==> keys@[j]@ == #[trigger] want[j],
        {
            let k = &all[i];
            let held = contains_string(&secret_fingerprints, &k.fingerprint);
            let marked = Key {
                fingerprint: k.fingerprint.clone(),
                user: k.user.clone(),
                secret: held,
                expires: k.expires.clone(),
            };
            assert(marked@ == want[i as int]);
            keys.push(marked);
        }
        assert(key_views(keys@) =~= want);
        keys
    }

    /// The two commands that drop a key, private half included: the private
    /// half first, since gpg refuses to drop a public key while its private
    /// half is still there. Refused unless `fingerprint` is a fingerprint, so
    /// that nothing else reaches the command line.
    pub fn remove(&self, fingerprint: &str) -> (r: Result<(Invocation, Invocation), String>)
        ensures
            match r {
                Ok((secret, public)) => {
                    &&& fingerprint_shaped(fingerprint)
                    &&& secret@ == delete_secret_keys_line(self@, fingerprint@)
                    &&& public@ == delete_keys_line(self@, fingerprint@)
                },
                Err(e) => !fingerprint_shaped(fingerprint) && e@ == "not a fingerprint"@,
            },
    {
        if !is_fingerprint(fingerprint) {
            return Err(owned("not a fingerprint"));
        }
        let secret = self.invocation(&GpgTask::DeleteSecretKeys(owned(fingerprint)));
        let public = self.invocation(&GpgTask::DeleteKeys(owned(fingerprint)));
        Ok((secret, public))
    }
}

/// Every command run against the keyring names the keyring's own folder
/// with `--homedir`, before anything else: gpg never reads another.
pub proof fn lemma_commands_stay_in_the_keyring(home: Seq<char>, task: GpgTask)
    ensures
        command_line(home, task).arguments.len() >= 2,
        command_line(home, task).arguments[0] == "--homedir"@,
        command_line(home, task).arguments[1] == home,
{
}

/// The keyring is inside the data folder, and is not a `.gnupg` folder.
pub proof fn lemma_keyring_inside_data_folder(data_dir: Seq<char>)
    ensures
        joined(data_dir, "gnupg"@).len() >= data_dir.len(),
        joined(data_dir, "gnupg"@).take(data_dir.len() as int) == data_dir,
        !crate::text::ends_with(joined(data_dir, "gnupg"@), ".gnupg"@),
{
    reveal_strlit("gnupg");
    reveal_strlit(".gnupg");
    let h = joined(data_dir, "gnupg"@);
    assert(h.take(data_dir.len() as int) =~= data_dir);
    if h.len() >= 6 {
        let n = data_dir.len();
        if n == 0 {
            assert(h.len() == 5);
        } else if data_dir.last() == '/' {
            assert(h[h.len() - 6] == '/');
        } else {
            assert(h[h.len() - 6] == '/');
        }
        assert(h.skip(h.len() - 6)[0] != ".gnupg"@[0]);
    }
}

// ---------------------------------------------------------------- messages

/// What gpg said when it failed: the last line it wrote on its standard
/// error, trimmed, or that it failed when it wrote nothing.
pub open spec fn failure_text(stderr: Seq<char>) -> Seq<char> {
    let ls = lines(stderr);
    if ls.len() == 0 {
        "gpg failed"@
    } else {
        trim(ls.last())
    }
}

/// `failure_text`, executable.
pub fn gpg_failure(stderr: &str) -> (e: String)
    ensures
        e@ == failure_text(stderr@),
{
    let text = chars_of(stderr);
    let ls = lines_of(&text);
    if ls.len() == 0 {
        owned("gpg failed")
    } else {
        let t = trimmed(&ls[ls.len() - 1]);
        string_of(&t)
    }
}

/// `parts` with `sep` between each two of them.
pub open spec fn joined_with(parts: Seq<Seq<char>>, sep: Seq<char>) -> Seq<char>
    decreases parts.len(),
{
    if parts.len() == 0 {
        Seq::empty()
    } else if parts.len() == 1 {
        parts[0]
    } else {
        joined_with(parts.drop_last(), sep) + sep + parts.last()
    }
}

/// What the list says of a key beside who it is: that its private half is
/// here, and when it expires (`date`, when the expiry could be read as one).
pub open spec fn key_notes(key: KeyView, date: Option<Seq<char>>) -> Seq<Seq<char>> {
    let private: Seq<Seq<char>> = if key.secret {
        seq!["private key"@]
    } else {
        Seq::empty()
    };
    if key.expires.len() > 0 {
        private.push(
            match date {
                Some(d) => "expires "@ + d,
                None => "expires"@,
            },
        )
    } else {
        private
    }
}

/// How the list shows a key: who it is, the user or else the fingerprint,
/// then its notes in brackets, when it has any.
pub open spec fn key_label(key: KeyView, date: Option<Seq<char>>) -> Seq<char> {
    let who = if key.user.len() == 0 {
        key.fingerprint
    } else {
        key.user
    };
    let notes = key_notes(key, date);
    if notes.len() == 0 {
        who
    } else {
        who + "  ("@ + joined_with(notes, ", "@) + ")"@
    }
}

/// "MailViewer Test <test@example.com>  (private key, expires 2027-01-01)"
pub fn describe(key: &Key, date: Option<&str>) -> (label: String)
    ensures
        label@ == key_label(key@, crate::paths::opt_view(date)),
{
    let mut label = if key.user.as_str().is_empty() {
        key.fingerprint.clone()
    } else {
        key.user.clone()
    };
    let private = key.secret;
    let expiring = !key.expires.as_str().is_empty();
    let ghost notes = key_notes(key@, crate::paths::opt_view(date));
    if !private && !expiring {
        return label;
    }
    let ghost who = label@;
    push_all(&mut label, "  (");
    if private {
        push_all(&mut label, "private key");
    }
    if expiring {
        if private {
            push_all(&mut label, ", ");
        }
        match date {
            Some(d) => {
                push_all(&mut label, "expires ");
                push_all(&mut label, d);
            },
            None => {
                push_all(&mut label, "expires");
            },
        }
    }
    push_all(&mut label, ")");
    proof {
        let e = match crate::paths::opt_view(date) {
            Some(d) => "expires "@ + d,
            None => "expires"@,
        };
        if private && expiring {
            assert(notes =~= seq!["private key"@, e]);
            assert(notes.drop_last() =~= seq!["private key"@]);
            assert(joined_with(seq!["private key"@], ", "@) == "private key"@);
            assert(joined_with(notes, ", "@) == "private key"@ + ", "@ + e);
        } else if private {
            assert(notes =~= seq!["private key"@]);
        } else {
            assert(notes =~= seq![e]);
        }
        assert(label@ =~= who + "  ("@ + joined_with(notes, ", "@) + ")"@);
    }
    label
}

/// When a key expires, in seconds since the epoch, from what the listing
/// says of it: its expiry field read as a number.
pub fn expiry_seconds(expires: &str) -> (seconds: Option<i64>)
    ensures
        seconds == crate::text::parse_i64(expires@),
{
    crate::text::parse_i64_of(&chars_of(expires))
}

/// The keys a listing holds all have a fingerprint: a record that never
/// gets one is dropped.
pub proof fn lemma_listed_keys_have_fingerprints(colons: Seq<char>)
    ensures
        forall|i: int|
            0 <= i < listed_keys(colons).len() ==> #[trigger] listed_keys(colons)[i].fingerprint.len()
                > 0,
{
    lemma_with_fingerprint(read_records(lines(colons)).keys);
}

proof fn lemma_with_fingerprint(ks: Seq<KeyView>)
    ensures
        forall|i: int|
            0 <= i < with_fingerprint(ks).len() ==> #[trigger] with_fingerprint(ks)[i].fingerprint.len()
                > 0,
        with_fingerprint(ks).len() <= ks.len(),
    decreases ks.len(),
{
    if ks.len() > 0 {
        lemma_with_fingerprint(ks.drop_last());
    }
}

/// Text without a backslash has nothing to unescape.
pub proof fn lemma_unescape_plain(s: Seq<char>)
    requires
        !s.contains('\\'),
    ensures
        unescaped(s) == s,
    decreases s.len(),
{
    if s.len() > 0 {
        assert(s[0] != '\\');
        assert(!s.drop_first().contains('\\')) by {
            if s.drop_first().contains('\\') {
                let j = choose|j: int| 0 <= j < s.drop_first().len() && s.drop_first()[j] == '\\';
                assert(s[j + 1] == '\\');
            }
        }
        lemma_unescape_plain(s.drop_first());
        assert(seq![s[0]] + s.drop_first() =~= s);
    }
}

/// When the keyring lists no private key, no key is marked as having its
/// private half here.
pub proof fn lemma_no_secret_listing_no_secret_keys(public: Seq<char>)
    ensures
        forall|i: int|
            0 <= i < listed_keys(public).len() ==> !(#[trigger] with_secrets(
                listed_keys(public),
                listed_fingerprints(Seq::empty()),
            )[i]).secret,
{
    assert(split(Seq::<char>::empty(), '\n') =~= seq![Seq::<char>::empty()]);
    assert(lines(Seq::empty()) =~= Seq::<Seq<char>>::empty());
    assert(listed_fingerprints(Seq::empty()) =~= Seq::<Seq<char>>::empty());
}

// ---------------------------------------------------------------- laws of the listing

/// The kind of a record of a listing: its first field.
pub open spec fn record_kind(line: Seq<char>) -> Seq<char> {
    split(line, ':')[0]
}

/// Whether a record is one that gpg writes first for each key it lists: a
/// public (`pub`) or secret (`sec`) key record.
pub open spec fn starts_a_key(line: Seq<char>) -> bool {
    record_kind(line) == "pub"@ || record_kind(line) == "sec"@
}

/// How many records of `ls` are key records.
pub open spec fn key_records(ls: Seq<Seq<char>>) -> nat
    decreases ls.len(),
{
    if ls.len() == 0 {
        0
    } else {
        key_records(ls.drop_last()) + if starts_a_key(ls.last()) {
            1nat
        } else {
            0nat
        }
    }
}

/// The keys read from the records `ls`, those without a fingerprint left out.
pub open spec fn keys_of_records(ls: Seq<Seq<char>>) -> Seq<KeyView> {
    with_fingerprint(read_records(ls).keys)
}

/// Only `pub` and `sec` records start a key: every other record (`sub`,
/// `ssb`, `fpr`, `uid`, ...) adds none. There is one key read per key record.
pub proof fn lemma_only_key_records_start_keys(ls: Seq<Seq<char>>)
    ensures
        read_records(ls).keys.len() == key_records(ls),
        keys_of_records(ls).len() <= key_records(ls),
    decreases ls.len(),
{
    if ls.len() > 0 {
        lemma_only_key_records_start_keys(ls.drop_last());
    }
    lemma_with_fingerprint(read_records(ls).keys);
}

/// A listing gives at most as many keys as it has `pub` and `sec` records.
pub proof fn lemma_at_most_one_key_per_key_record(colons: Seq<char>)
    ensures
        listed_keys(colons).len() <= key_records(lines(colons)),
{
    lemma_only_key_records_start_keys(lines(colons));
}

/// Once a key has its fingerprint, no record other than the start of the next
/// key changes the keys read: neither their number nor the fingerprint and
/// expiry of the last one (a subkey's `fpr` record included).
pub proof fn lemma_first_fingerprint_stays(ls: Seq<Seq<char>>, line: Seq<char>)
    requires
        !starts_a_key(line),
        read_records(ls).keys.len() > 0,
        read_records(ls).keys.last().fingerprint.len() > 0,
    ensures
        read_records(ls.push(line)).keys.len() == read_records(ls).keys.len(),
        read_records(ls.push(line)).keys.last().fingerprint == read_records(ls).keys.last().fingerprint,
        read_records(ls.push(line)).keys.last().expires == read_records(ls).keys.last().expires,
{
    assert(ls.push(line).drop_last() == ls);
}

proof fn lemma_kinds_differ()
    ensures
        "fpr"@ != "pub"@,
        "fpr"@ != "sec"@,
        "uid"@ != "pub"@,
        "uid"@ != "sec"@,
        "uid"@ != "fpr"@,
        "sub"@ != "pub"@,
        "sub"@ != "sec"@,
        "sub"@ != "fpr"@,
        "sub"@ != "uid"@,
{
    reveal_strlit("fpr");
    reveal_strlit("pub");
    reveal_strlit("sec");
    reveal_strlit("uid");
    reveal_strlit("sub");
    assert("fpr"@[0] != "pub"@[0]);
    assert("fpr"@[0] != "sec"@[0]);
    assert("uid"@[0] != "pub"@[0]);
    assert("uid"@[0] != "sec"@[0]);
    assert("uid"@[0] != "fpr"@[0]);
    assert("sub"@[0] != "pub"@[0]);
    assert("sub"@[1] != "sec"@[1]);
    assert("sub"@[0] != "fpr"@[0]);
    assert("sub"@[0] != "uid"@[0]);
}

/// A key with an encryption subkey, listed as gpg lists it (a `pub` record,
/// its `fpr` and `uid`, then the `sub` record of the subkey and the subkey's
/// own `fpr`), is one key: the fingerprint of the first `fpr` record, the
/// user of the `uid` record, the expiry of the `pub` record, and no private
/// half.
pub proof fn lemma_subkey_is_not_a_key(
    p: Seq<char>,
    f: Seq<char>,
    u: Seq<char>,
    sb: Seq<char>,
    f2: Seq<char>,
)
    requires
        record_kind(p) == "pub"@,
        record_kind(f) == "fpr"@,
        record_kind(u) == "uid"@,
        record_kind(sb) == "sub"@,
        record_kind(f2) == "fpr"@,
        field(split(f, ':'), 9).len() > 0,
    ensures
        keys_of_records(seq![p, f, u, sb, f2]) == seq![
            KeyView {
                fingerprint: field(split(f, ':'), 9),
                user: unescaped(field(split(u, ':'), 9)),
                secret: false,
                expires: field(split(p, ':'), 6),
            },
        ],
{
    lemma_kinds_differ();
    let ls = seq![p, f, u, sb, f2];
    let k = KeyView {
        fingerprint: field(split(f, ':'), 9),
        user: unescaped(field(split(u, ':'), 9)),
        secret: false,
        expires: field(split(p, ':'), 6),
    };
    assert(ls.take(1).drop_last() =~= Seq::<Seq<char>>::empty());
    assert(ls.take(2).drop_last() =~= ls.take(1));
    assert(ls.take(3).drop_last() =~= ls.take(2));
    assert(ls.take(4).drop_last() =~= ls.take(3));
    assert(ls.drop_last() =~= ls.take(4));
    assert(ls.take(1).last() == p);
    assert(ls.take(2).last() == f);
    assert(ls.take(3).last() == u);
    assert(ls.take(4).last() == sb);
    assert(ls.last() == f2);
    let r0 = read_records(Seq::<Seq<char>>::empty());
    assert(r0.keys.len() == 0);
    let r1 = read_records(ls.take(1));
    assert(r1 == read_record(r0, p));
    assert(r1.keys =~= seq![blank_key()]);
    assert(r1.expires == field(split(p, ':'), 6));
    let r2 = read_records(ls.take(2));
    assert(r2 == read_record(r1, f));
    assert(r2.keys.len() == 1);
    assert(r2.keys[0].fingerprint == field(split(f, ':'), 9));
    assert(r2.keys[0].expires == field(split(p, ':'), 6));
    let r3 = read_records(ls.take(3));
    assert(r3 == read_record(r2, u));
    assert(r3.keys.len() == 1);
    assert(r3.keys[0] == k);
    let r4 = read_records(ls.take(4));
    assert(r4 == read_record(r3, sb));
    assert(r4 == r3);
    let r5 = read_records(ls);
    assert(r5 == read_record(r4, f2));
    assert(r5 == r4);
    assert(r5.keys =~= seq![k]);
    assert(r5.keys.drop_last() =~= Seq::<KeyView>::empty());
    assert(with_fingerprint(r5.keys.drop_last()) =~= Seq::<KeyView>::empty());
    assert(with_fingerprint(r5.keys) =~= seq![k]);
}

// ---------------------------------------------------------------- laws of the commands

/// The two listings are asked for in gpg's colon format, the only one
/// `parse_keys` reads, with the same flags: they differ only in which keys
/// they list.
pub proof fn lemma_listings_are_colon_listings(home: Seq<char>)
    ensures
        command_line(home, GpgTask::ListKeys).program == "gpg"@,
        command_line(home, GpgTask::ListKeys).arguments == seq![
            "--homedir"@,
            home,
            "--batch"@,
            "--no-tty"@,
            "--quiet"@,
            "--with-colons"@,
            "--list-keys"@,
        ],
        command_line(home, GpgTask::ListSecretKeys).program == "gpg"@,
        command_line(home, GpgTask::ListSecretKeys).arguments == seq![
            "--homedir"@,
            home,
            "--batch"@,
            "--no-tty"@,
            "--quiet"@,
            "--with-colons"@,
            "--list-secret-keys"@,
        ],
        command_line(home, GpgTask::ListSecretKeys).arguments == command_line(
            home,
            GpgTask::ListKeys,
        ).arguments.update(6, "--list-secret-keys"@),
{
    assert(command_line(home, GpgTask::ListKeys).arguments =~= seq![
        "--homedir"@,
        home,
        "--batch"@,
        "--no-tty"@,
        "--quiet"@,
        "--with-colons"@,
        "--list-keys"@,
    ]);
    assert(command_line(home, GpgTask::ListSecretKeys).arguments =~= seq![
        "--homedir"@,
        home,
        "--batch"@,
        "--no-tty"@,
        "--quiet"@,
        "--with-colons"@,
        "--list-secret-keys"@,
    ]);
    assert(command_line(home, GpgTask::ListSecretKeys).arguments =~= command_line(
        home,
        GpgTask::ListKeys,
    ).arguments.update(6, "--list-secret-keys"@));
}

// ---------------------------------------------------------------- laws of the labels

/// Who a key is, as its label starts: the user, or the fingerprint when the
/// key names no user.
pub open spec fn who_of(key: KeyView) -> Seq<char> {
    if key.user.len() == 0 {
        key.fingerprint
    } else {
        key.user
    }
}

/// The label of a key that expires ends with its expiry date when the date
/// could be read, whether or not its private half is here.
pub proof fn lemma_label_shows_the_expiry_date(key: KeyView, d: Seq<char>)
    requires
        key.expires.len() > 0,
    ensures
        crate::text::ends_with(key_label(key, Some(d)), "expires "@ + d + ")"@),
        crate::text::ends_with(key_label(key, None), "expires"@ + ")"@),
{
    lemma_label_shape(key, Some(d));
    lemma_label_shape(key, None);
    let with_date = key_label(key, Some(d));
    let without = key_label(key, None);
    assert(with_date.skip(with_date.len() - ("expires "@ + d + ")"@).len()) =~= "expires "@ + d
        + ")"@);
    assert(without.skip(without.len() - ("expires"@ + ")"@).len()) =~= "expires"@ + ")"@);
}

/// The label of a key starts with who it is; the private half, when it is
/// here, is the first note; a key that neither has its private half here nor
/// expires is labelled with who it is alone.
pub proof fn lemma_label_names_the_key(key: KeyView, date: Option<Seq<char>>)
    ensures
        key_label(key, date).len() >= who_of(key).len(),
        key_label(key, date).take(who_of(key).len() as int) == who_of(key),
        key.secret ==> crate::text::starts_with(
            key_label(key, date).skip(who_of(key).len() as int),
            "  ("@ + "private key"@,
        ),
        !key.secret && key.expires.len() == 0 ==> key_label(key, date) == who_of(key),
{
    lemma_label_shape(key, date);
    let l = key_label(key, date);
    let w = who_of(key);
    assert(l.take(w.len() as int) =~= w);
    if key.secret {
        assert(l.skip(w.len() as int).take(("  ("@ + "private key"@).len() as int) =~= "  ("@
            + "private key"@);
    }
}

proof fn lemma_label_shape(key: KeyView, date: Option<Seq<char>>)
    ensures
        key_label(key, date) == if !key.secret && key.expires.len() == 0 {
            who_of(key)
        } else {
            who_of(key) + "  ("@ + (if key.secret {
                "private key"@
            } else {
                Seq::empty()
            }) + (if key.secret && key.expires.len() > 0 {
                ", "@
            } else {
                Seq::empty()
            }) + (if key.expires.len() > 0 {
                match date {
                    Some(d) => "expires "@ + d,
                    None => "expires"@,
                }
            } else {
                Seq::empty()
            }) + ")"@
        },
{
    let notes = key_notes(key, date);
    let e = match date {
        Some(d) => "expires "@ + d,
        None => "expires"@,
    };
    if key.secret && key.expires.len() > 0 {
        assert(notes =~= seq!["private key"@, e]);
        assert(notes.drop_last() =~= seq!["private key"@]);
        assert(joined_with(seq!["private key"@], ", "@) == "private key"@);
        assert(joined_with(notes, ", "@) == "private key"@ + ", "@ + e);
    } else if key.secret {
        assert(notes =~= seq!["private key"@]);
    } else if key.expires.len() > 0 {
        assert(notes =~= seq![e]);
    } else {
        assert(notes =~= Seq::<Seq<char>>::empty());
    }
    assert(key_label(key, date) =~= if !key.secret && key.expires.len() == 0 {
        who_of(key)
    } else {
        who_of(key) + "  ("@ + (if key.secret {
            "private key"@
        } else {
            Seq::empty()
        }) + (if key.secret && key.expires.len() > 0 {
            ", "@
        } else {
            Seq::empty()
        }) + (if key.expires.len() > 0 {
            e
        } else {
            Seq::empty()
        }) + ")"@
    });
}

/// Once a key has its user, no record other than the start of the next key
/// changes who the last key read is: only the first `uid` record counts.
pub proof fn lemma_first_user_stays(ls: Seq<Seq<char>>, line: Seq<char>)
    requires
        !starts_a_key(line),
        read_records(ls).keys.len() > 0,
        read_records(ls).keys.last().user.len() > 0,
    ensures
        read_records(ls.push(line)).keys.len() == read_records(ls).keys.len(),
        read_records(ls.push(line)).keys.last().user == read_records(ls).keys.last().user,
{
    assert(ls.push(line).drop_last() == ls);
}

/// When the secret listing lists the same keys as the public one, every key
/// is marked as having its private half here.
pub proof fn lemma_all_secret_when_listed_as_secret(colons: Seq<char>)
    ensures
        forall|i: int|
            0 <= i < listed_keys(colons).len() ==> (#[trigger] with_secrets(
                listed_keys(colons),
                listed_fingerprints(colons),
            )[i]).secret,
{
    assert forall|i: int| 0 <= i < listed_keys(colons).len() implies (#[trigger] with_secrets(
        listed_keys(colons),
        listed_fingerprints(colons),
    )[i]).secret by {
        assert(listed_fingerprints(colons)[i] == listed_keys(colons)[i].fingerprint);
    }
}

/// The commands that change the keyring or read a message, as gpg is given
/// them: the import, the two deletions (each unattended, with `--yes`), the
/// decryption with the passphrase on the standard input and the status on
/// the standard error, and stopping the agent.
pub proof fn lemma_commands_as_given(home: Seq<char>, x: Seq<char>)
    ensures
        import_line(home, x).arguments == seq![
            "--homedir"@,
            home,
            "--batch"@,
            "--no-tty"@,
            "--quiet"@,
            "--import"@,
            x,
        ],
        delete_secret_keys_line(home, x).arguments == seq![
            "--homedir"@,
            home,
            "--batch"@,
            "--no-tty"@,
            "--quiet"@,
            "--batch"@,
            "--yes"@,
            "--delete-secret-keys"@,
            x,
        ],
        delete_keys_line(home, x).arguments == seq![
            "--homedir"@,
            home,
            "--batch"@,
            "--no-tty"@,
            "--quiet"@,
            "--batch"@,
            "--yes"@,
            "--delete-keys"@,
            x,
        ],
        decrypt_line(home, x).program == "gpg"@,
        decrypt_line(home, x).arguments == seq![
            "--homedir"@,
            home,
            "--batch"@,
            "--quiet"@,
            "--no-tty"@,
            "--pinentry-mode"@,
            "loopback"@,
            "--passphrase-fd"@,
            "0"@,
            "--status-fd"@,
            "2"@,
            "--decrypt"@,
            x,
        ],
        stop_agent_line(home).program == "gpgconf"@,
        stop_agent_line(home).arguments == seq!["--homedir"@, home, "--kill"@, "all"@],
        import_line(home, x).program == "gpg"@,
        delete_secret_keys_line(home, x).program == "gpg"@,
        delete_keys_line(home, x).program == "gpg"@,
{
    assert(import_line(home, x).arguments =~= seq![
        "--homedir"@,
        home,
        "--batch"@,
        "--no-tty"@,
        "--quiet"@,
        "--import"@,
        x,
    ]);
    assert(delete_secret_keys_line(home, x).arguments =~= seq![
        "--homedir"@,
        home,
        "--batch"@,
        "--no-tty"@,
        "--quiet"@,
        "--batch"@,
        "--yes"@,
        "--delete-secret-keys"@,
        x,
    ]);
    assert(delete_keys_line(home, x).arguments =~= seq![
        "--homedir"@,
        home,
        "--batch"@,
        "--no-tty"@,
        "--quiet"@,
        "--batch"@,
        "--yes"@,
        "--delete-keys"@,
        x,
    ]);
}

} // verus!
