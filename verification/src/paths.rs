//! Paths, as the standard library builds them on Unix, and where the
//! translations of the application are looked for.

use vstd::prelude::*;
use crate::text::{chars_of, lemma_strings_push, owned, push_all, push_char, strings};

verus! {

/// `Path::join` with a relative path: a separator goes between the two unless
/// `base` is empty or already ends with one.
pub open spec fn joined(base: Seq<char>, rel: Seq<char>) -> Seq<char> {
    if base.len() == 0 || base.last() == '/' {
        base + rel
    } else {
        base + seq!['/'] + rel
    }
}

/// `joined`, executable. `rel` must be relative: joining an absolute path
/// replaces `base` altogether.
pub fn join(base: &str, rel: &str) -> (r: String)
    requires
        !(rel@.len() > 0 && rel@[0] == '/'),
    ensures
        r@ == joined(base@, rel@),
{
    let mut r = owned(base);
    let b = chars_of(base);
    if b.len() > 0 && b[b.len() - 1] != '/' {
        push_char(&mut r, '/');
    }
    push_all(&mut r, rel);
    r
}

/// What `Path::parent` gives for the path `p`.
pub uninterp spec fn path_parent(p: Seq<char>) -> Option<Seq<char>>;

/// `Path::parent`: the path without its last component. The result is named
/// by `path_parent`; of its value only this is stated, as the documentation
/// says: the empty path has no parent.
#[verifier::external_body]
fn parent(p: &str) -> (r: Option<String>)
    ensures
        match r {
            Some(q) => path_parent(p@) == Some(q@),
            None => path_parent(p@) is None,
        },
        p@.len() == 0 ==> r is None,
{
    match std::path::Path::new(p).parent() {
        Some(q) => Some(q.to_string_lossy().into_owned()),
        None => None,
    }
}

/// Where translations are looked for, in order: the folder `i18n` beside the
/// binary, the translations folder under the prefix the binary is installed
/// in, and `i18n` in the working directory.
pub open spec fn candidate_dirs(dir: Option<Seq<char>>, prefix: Option<Seq<char>>) -> Seq<Seq<char>> {
    let installed = match dir {
        Some(d) => seq![joined(d, "i18n"@)] + match prefix {
            Some(p) => seq![joined(p, "share/mailviewer-kde/translations"@)],
            None => Seq::empty(),
        },
        None => Seq::empty(),
    };
    installed.push("i18n"@)
}

/// The folder of the binary, for the path `exe` of the binary.
pub open spec fn exe_dir(exe: Option<Seq<char>>) -> Option<Seq<char>> {
    match exe {
        Some(e) => path_parent(e),
        None => None,
    }
}

/// The prefix the binary is installed in: the parent of its folder.
pub open spec fn install_prefix(exe: Option<Seq<char>>) -> Option<Seq<char>> {
    match exe_dir(exe) {
        Some(d) => path_parent(d),
        None => None,
    }
}

/// The view of an optional string.
pub open spec fn opt_view(s: Option<&str>) -> Option<Seq<char>> {
    match s {
        Some(t) => Some(t@),
        None => None,
    }
}

/// `candidate_dirs` for the folder of the binary and the prefix it is
/// installed in.
pub fn candidates_from(dir: Option<&str>, prefix: Option<&str>) -> (c: Vec<String>)
    ensures
        strings(c@) == candidate_dirs(opt_view(dir), opt_view(prefix)),
{
    let mut c: Vec<String> = Vec::new();
    match dir {
        Some(d) => {
            proof {
                reveal_strlit("i18n");
            }
            let first = join(d, "i18n");
            proof {
                lemma_strings_push(c@, first);
            }
            c.push(first);
            match prefix {
                Some(p) => {
                    proof {
                        reveal_strlit("share/mailviewer-kde/translations");
                    }
                    let second = join(p, "share/mailviewer-kde/translations");
                    proof {
                        lemma_strings_push(c@, second);
                    }
                    c.push(second);
                },
                None => {},
            }
        },
        None => {},
    }
    let last = owned("i18n");
    proof {
        lemma_strings_push(c@, last);
    }
    c.push(last);
    assert(strings(c@) =~= candidate_dirs(opt_view(dir), opt_view(prefix)));
    c
}

/// Where translations are looked for, given the path of the binary when it
/// is known.
pub fn translation_candidates(exe: Option<&str>) -> (c: Vec<String>)
    ensures
        strings(c@) == candidate_dirs(exe_dir(opt_view(exe)), install_prefix(opt_view(exe))),
{
    let dir = match exe {
        Some(e) => parent(e),
        None => None,
    };
    let prefix = match &dir {
        Some(d) => parent(d.as_str()),
        None => None,
    };
    let d = match &dir {
        Some(d) => Some(d.as_str()),
        None => None,
    };
    let p = match &prefix {
        Some(p) => Some(p.as_str()),
        None => None,
    };
    candidates_from(d, p)
}

/// The working directory's `i18n` is always the last place looked in.
pub proof fn lemma_working_directory_last(dir: Option<Seq<char>>, prefix: Option<Seq<char>>)
    ensures
        candidate_dirs(dir, prefix).last() == "i18n"@,
        candidate_dirs(dir, prefix).len() >= 1,
{
}

/// When the folder of the binary is known, the folder beside it is looked in
/// first.
pub proof fn lemma_beside_the_binary_first(dir: Seq<char>, prefix: Option<Seq<char>>)
    ensures
        candidate_dirs(Some(dir), prefix)[0] == joined(dir, "i18n"@),
{
}

} // verus!
