use vstd::prelude::*;

verus! {

/// The characters with the Unicode `White_Space` property, which is what
/// `char::is_whitespace` and `str::trim` go by.
pub open spec fn is_white_space(c: char) -> bool {
    ||| '\t' <= c <= '\r'
    ||| c == ' '
    ||| c == '\u{85}'
    ||| c == '\u{a0}'
    ||| c == '\u{1680}'
    ||| '\u{2000}' <= c <= '\u{200a}'
    ||| c == '\u{2028}'
    ||| c == '\u{2029}'
    ||| c == '\u{202f}'
    ||| c == '\u{205f}'
    ||| c == '\u{3000}'
}

/// `s` without its leading white space.
pub open spec fn trim_start(s: Seq<char>) -> Seq<char>
    decreases s.len(),
{
    if s.len() > 0 && is_white_space(s[0]) {
        trim_start(s.drop_first())
    } else {
        s
    }
}

/// `s` without its trailing white space.
pub open spec fn trim_end(s: Seq<char>) -> Seq<char>
    decreases s.len(),
{
    if s.len() > 0 && is_white_space(s.last()) {
        trim_end(s.drop_last())
    } else {
        s
    }
}

/// `s` without white space at either end.
pub open spec fn trimmed(s: Seq<char>) -> Seq<char> {
    trim_end(trim_start(s))
}

/// Relies on `str::strip_prefix`: `Some(rest)` exactly when `prefix` starts `s`,
/// `rest` being what follows it.
#[verifier::external_body]
pub(crate) fn strip_prefix<'a>(s: &'a str, prefix: &str) -> (r: Option<&'a str>)
    ensures
        match r {
            Some(rest) => prefix@.is_prefix_of(s@) && rest@ == s@.skip(prefix@.len() as int),
            None => !prefix@.is_prefix_of(s@),
        },
{
    s.strip_prefix(prefix)
}

/// Relies on `str::split_once` with a `char` pattern: splits around the first `':'`.
#[verifier::external_body]
pub(crate) fn split_at_colon<'a>(s: &'a str) -> (r: Option<(&'a str, &'a str)>)
    ensures
        match r {
            Some((k, v)) => s@ == k@ + seq![':'] + v@ && !k@.contains(':'),
            None => !s@.contains(':'),
        },
{
    s.split_once(':')
}

/// Relies on `str::trim`: leading and trailing white space removed.
#[verifier::external_body]
pub(crate) fn trim(s: &str) -> (r: &str)
    ensures
        r@ == trimmed(s@),
{
    s.trim()
}

pub open spec fn is_first_colon(line: Seq<char>, k: int) -> bool {
    &&& 0 <= k < line.len()
    &&& line[k] == ':'
    &&& !line.take(k).contains(':')
}

/// A `key: value` line is split at its first colon: the key before it, the value after it.
pub open spec fn metadata_entry(line: Seq<char>) -> Option<(Seq<char>, Seq<char>)> {
    if line.contains(':') {
        let k = choose|k: int| is_first_colon(line, k);
        Some((line.take(k), line.skip(k + 1)))
    } else {
        None
    }
}

/// Splitting around the first colon gives exactly the metadata entry.
pub proof fn lemma_first_colon_split(line: Seq<char>, key: Seq<char>, value: Seq<char>)
    requires
        line == key + seq![':'] + value,
        !key.contains(':'),
    ensures
        metadata_entry(line) == Some((key, value)),
{
    let n = key.len() as int;
    assert(line[n] == ':');
    assert(line.take(n) =~= key);
    assert(line.skip(n + 1) =~= value);
    assert(is_first_colon(line, n));
    assert forall|k: int| is_first_colon(line, k) implies k == n by {
        if k < n {
            assert(key[k] == ':');
        } else if k > n {
            assert(line.take(k)[n] == ':');
        }
    }
}

/// A line with no colon is no `key: value` entry.
pub proof fn lemma_no_colon_no_entry(line: Seq<char>)
    requires
        !line.contains(':'),
    ensures
        metadata_entry(line) is None,
{
}

} // verus!
