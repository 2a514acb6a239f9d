//! Path resolution for asset loading.
//!
//! Asset paths use `'/'` as the separator on every platform. A relative path
//! is resolved against a base directory by [`get_asset_path_local`]; the
//! leading directory component of a path is extracted by [`get_dir`].

use vstd::prelude::*;
use vstd::string::StrSliceExecFns;
use vstd::string::StringExecFns;

verus! {

/// Index of the first `'/'` in `s`, or `s.len()` when `s` has none.
pub open spec fn first_sep(s: Seq<char>) -> int
    decreases s.len(),
{
    if s.len() == 0 {
        0
    } else if s[0] == '/' {
        0
    } else {
        1 + first_sep(s.drop_first())
    }
}

/// The directory component of `s`: everything before the first `'/'`, or the
/// empty sequence when `s` holds no separator.
pub open spec fn dir_of(s: Seq<char>) -> Seq<char> {
    if first_sep(s) < s.len() {
        s.subrange(0, first_sep(s))
    } else {
        Seq::empty()
    }
}

/// A relative path resolved against a base directory: the path itself when the
/// base is empty, otherwise base, separator, path.
pub open spec fn joined_path(base: Seq<char>, rel: Seq<char>) -> Seq<char> {
    if base.len() == 0 {
        rel
    } else {
        base + seq!['/'] + rel
    }
}

/// `first_sep(s)` is a position within `s` (one past the end when `s` has no
/// separator), no separator stands before it, and it lands on one when it is
/// in range.
pub proof fn lemma_first_sep_bounds(s: Seq<char>)
    ensures
        0 <= first_sep(s) <= s.len(),
        forall|j: int| 0 <= j < first_sep(s) ==> s[j] != '/',
        first_sep(s) < s.len() ==> s[first_sep(s)] == '/',
    decreases s.len(),
{
    if s.len() == 0 {
    } else if s[0] == '/' {
    } else {
        lemma_first_sep_bounds(s.drop_first());
        assert forall|j: int| 0 <= j < first_sep(s) implies s[j] != '/' by {
            if j > 0 {
                assert(s.drop_first()[j - 1] == s[j]);
            }
        }
        if first_sep(s) < s.len() {
            assert(s.drop_first()[first_sep(s) - 1] == s[first_sep(s)]);
        }
    }
}

/// `first_sep(s)` is minimal: no separator stands strictly before it.
pub proof fn lemma_first_sep_min(s: Seq<char>, i: int)
    requires
        0 <= i < s.len(),
        s[i] == '/',
    ensures
        first_sep(s) <= i,
    decreases s.len(),
{
    if s.len() == 0 {
    } else if s[0] == '/' {
    } else {
        assert(s.drop_first()[i - 1] == s[i]);
        lemma_first_sep_min(s.drop_first(), i - 1);
    }
}

/// Returns the substring of `path` before its first `'/'`, or the empty
/// string when `path` holds none.
pub fn get_dir(path: &str) -> (r: String)
    ensures
        r@ == dir_of(path@),
{
    let len = path.unicode_len();
    let mut i: usize = 0;
    while i < len
        invariant
            0 <= i <= len,
            len == path@.len(),
            forall|j: int| 0 <= j < i ==> path@[j] != '/',
        decreases len - i,
    {
        if path.get_char(i) == '/' {
            proof {
                lemma_first_sep_bounds(path@);
                lemma_first_sep_min(path@, i as int);
            }
            return String::from_str(path.substring_char(0, i));
        }
        i += 1;
    }
    proof {
        lemma_first_sep_bounds(path@);
        assert(dir_of(path@) =~= Seq::<char>::empty());
    }
    String::new()
}

/// Resolves `path` against `base_dir`: `path` unchanged when `base_dir` is
/// empty, otherwise the two joined by a `'/'`.
pub fn get_asset_path_local(base_dir: &str, path: &str) -> (r: String)
    ensures
        r@ == joined_path(base_dir@, path@),
{
    if base_dir.unicode_len() == 0 {
        String::from_str(path)
    } else {
        let mut out = String::from_str(base_dir);
        out.append("/");
        out.append(path);
        proof {
            reveal_strlit("/");
            assert(out@ =~= base_dir@ + seq!['/'] + path@);
        }
        out
    }
}

} // verus!
