//! The labels of snapshots: derived from the tracked path, fixed, or printed
//! by an alias program.

use crate::types::{Alias, AliasModel, Error};
use vstd::prelude::*;
use vstd::string::StrSliceExecFns;
use vstd::utf8::{decode_utf8, valid_utf8};

verus! {

/// The start of the run of non-separator characters that ends at `end`.
pub open spec fn segment_start(p: Seq<char>, end: int) -> int
    decreases end,
{
    if end > 0 && p[end - 1] != '/' {
        segment_start(p, end - 1)
    } else {
        end
    }
}

/// The last component of `p.take(end)`: separators and `.` components
/// after it do not count, but a leading `.` is a component of its own;
/// `None` where that component is `.` or `..`, or where there is none.
pub open spec fn name_before(p: Seq<char>, end: int) -> Option<Seq<char>>
    decreases end,
{
    if end <= 0 {
        None
    } else if p[end - 1] == '/' {
        name_before(p, end - 1)
    } else {
        let s = segment_start(p, end);
        let seg = p.subrange(s, end);
        if 0 < s < end && seg == seq!['.'] {
            name_before(p, s)
        } else if seg == seq!['.'] || seg == seq!['.', '.'] {
            None
        } else {
            Some(seg)
        }
    }
}

/// The final component of a path, as `std::path::Path::file_name` finds it.
pub open spec fn spec_basename(p: Seq<char>) -> Option<Seq<char>> {
    name_before(p, p.len() as int)
}

proof fn lemma_segment_start(p: Seq<char>, end: int)
    requires
        0 <= end <= p.len(),
    ensures
        0 <= segment_start(p, end) <= end,
        segment_start(p, end) > 0 ==> p[segment_start(p, end) - 1] == '/',
    decreases end,
{
    if end > 0 && p[end - 1] != '/' {
        lemma_segment_start(p, end - 1);
    }
}

/// The final component of `path`, where it has one.
pub fn basename(path: &str) -> (r: Option<String>)
    ensures
        r matches Some(s) ==> spec_basename(path@) == Some(s@),
        r is None ==> spec_basename(path@) is None,
{
    let n = path.unicode_len();
    let mut end = n;
    loop
        invariant
            n == path@.len(),
            end <= n,
            name_before(path@, n as int) == name_before(path@, end as int),
        decreases end,
    {
        if end == 0 {
            return None;
        }
        let c = path.get_char(end - 1);
        if c == '/' {
            end = end - 1;
            continue;
        }
        let mut st = end - 1;
        while st > 0 && path.get_char(st - 1) != '/'
            invariant
                st < end <= n,
                n == path@.len(),
                path@[end - 1] != '/',
                segment_start(path@, end as int) == segment_start(path@, st as int),
            decreases st,
        {
            st = st - 1;
        }
        proof {
            lemma_segment_start(path@, end as int);
        }
        assert(segment_start(path@, st as int) == st);
        let seg = path.substring_char(st, end);
        assert(seg@.len() == end - st);
        assert(forall|k: int| 0 <= k < seg@.len() ==> seg@[k] == path@[st + k]);
        let is_dot = end - st == 1 && c == '.';
        let is_dot_dot = end - st == 2 && c == '.' && path.get_char(st) == '.';
        assert(is_dot <==> seg@ == seq!['.']) by {
            if end - st == 1 && c == '.' {
                assert(seg@ =~= seq!['.']);
            }
            if seg@ == seq!['.'] {
                assert(seg@[0] == path@[end - 1]);
            }
        }
        assert(is_dot_dot <==> seg@ == seq!['.', '.']) by {
            if end - st == 2 && c == '.' && path@[st as int] == '.' {
                assert(seg@ =~= seq!['.', '.']);
            }
            if seg@ == seq!['.', '.'] {
                assert(seg@[0] == path@[st as int]);
                assert(seg@[1] == path@[end - 1]);
            }
        }
        if is_dot && st > 0 {
            end = st;
        } else if is_dot || is_dot_dot {
            return None;
        } else {
            return Some(String::from_str(seg));
        }
    }
}

/// Unicode's White_Space characters, which `char::is_whitespace` accepts.
pub open spec fn is_white_space(c: char) -> bool {
    ('\u{9}' <= c <= '\u{d}') || c == ' ' || c == '\u{85}' || c == '\u{a0}' || c == '\u{1680}'
        || ('\u{2000}' <= c <= '\u{200a}') || c == '\u{2028}' || c == '\u{2029}' || c
        == '\u{202f}' || c == '\u{205f}' || c == '\u{3000}'
}

fn white_space(c: char) -> (r: bool)
    ensures
        r == is_white_space(c),
{
    ('\u{9}' <= c && c <= '\u{d}') || c == ' ' || c == '\u{85}' || c == '\u{a0}' || c == '\u{1680}'
        || ('\u{2000}' <= c && c <= '\u{200a}') || c == '\u{2028}' || c == '\u{2029}' || c
        == '\u{202f}' || c == '\u{205f}' || c == '\u{3000}'
}

pub open spec fn trim_front(s: Seq<char>) -> Seq<char>
    decreases s.len(),
{
    if s.len() > 0 && is_white_space(s[0]) {
        trim_front(s.drop_first())
    } else {
        s
    }
}

pub open spec fn trim_back(s: Seq<char>) -> Seq<char>
    decreases s.len(),
{
    if s.len() > 0 && is_white_space(s.last()) {
        trim_back(s.drop_last())
    } else {
        s
    }
}

/// `s` without white space at either end, as `str::trim` leaves it.
pub open spec fn spec_trim(s: Seq<char>) -> Seq<char> {
    trim_back(trim_front(s))
}

/// Removes white space from both ends of `s`.
pub fn trim(s: &str) -> (r: String)
    ensures
        r@ == spec_trim(s@),
{
    let n = s.unicode_len();
    let mut a: usize = 0;
    assert(s@.subrange(0, n as int) =~= s@);
    while a < n && white_space(s.get_char(a))
        invariant
            a <= n,
            n == s@.len(),
            trim_front(s@) == trim_front(s@.subrange(a as int, n as int)),
        decreases n - a,
    {
        assert(s@.subrange(a as int, n as int).drop_first() =~= s@.subrange(a + 1, n as int));
        a = a + 1;
    }
    let mut b: usize = n;
    while b > a && white_space(s.get_char(b - 1))
        invariant
            a <= b <= n,
            n == s@.len(),
            trim_front(s@) == s@.subrange(a as int, n as int),
            spec_trim(s@) == trim_back(s@.subrange(a as int, b as int)),
        decreases b,
    {
        assert(s@.subrange(a as int, b as int).drop_last() =~= s@.subrange(a as int, b - 1));
        b = b - 1;
    }
    String::from_str(s.substring_char(a, b))
}

/// Relies on `String::from_utf8`: it accepts exactly the valid UTF-8
/// sequences and keeps the characters that they encode.
#[verifier::external_body]
fn utf8_text(bytes: Vec<u8>) -> (r: Option<String>)
    ensures
        r is Some <==> valid_utf8(bytes@),
        r is Some ==> r->Some_0@ == decode_utf8(bytes@),
{
    String::from_utf8(bytes).ok()
}

/// How a run of an alias program ended.
pub struct ScriptRun {
    /// Whether the program reported success.
    pub success: bool,
    /// What it wrote to its standard output.
    pub stdout: Vec<u8>,
}

/// The label that `alias` gives a snapshot of `path`, where it gives one.
/// For an alias program: its trimmed output, given that it ran, succeeded
/// and printed text.
pub open spec fn spec_label(
    path: Seq<char>,
    alias: AliasModel,
    run: Option<Result<(bool, Seq<u8>), Seq<char>>>,
) -> Option<Seq<char>> {
    match alias {
        AliasModel::Basename => spec_basename(path),
        AliasModel::Name(n) => Some(n),
        AliasModel::Script(_) => match run {
            Some(Ok((true, out))) => if valid_utf8(out) {
                Some(spec_trim(decode_utf8(out)))
            } else {
                None
            },
            _ => None,
        },
    }
}

pub open spec fn run_view(run: &Option<Result<ScriptRun, String>>) -> Option<
    Result<(bool, Seq<u8>), Seq<char>>,
> {
    match run {
        Some(Ok(r)) => Some(Ok((r.success, r.stdout@))),
        Some(Err(m)) => Some(Err(m@)),
        None => None,
    }
}

/// Resolves the label of a snapshot of `path`. `run` is how the alias
/// program ended, where the policy names one and it was run (`Err` where it
/// could not be started).
pub fn resolve_label(path: &String, alias: &Alias, run: Option<Result<ScriptRun, String>>) -> (r:
    Result<String, Error>)
    ensures
        spec_label(path@, alias@, run_view(&run)) matches Some(l) ==> (r matches Ok(x) && x@ == l),
        spec_label(path@, alias@, run_view(&run)) is None ==> (r matches Err(e) && (if alias@
            is Basename {
            e is Alias
        } else {
            e is Script
        })),
{
    match alias {
        Alias::Basename => match basename(path.as_str()) {
            Some(b) => Ok(b),
            None => Err(Error::Alias(String::from_str("the path has no final component"))),
        },
        Alias::Name(n) => Ok(n.clone()),
        Alias::Script(_) => match run {
            Some(Ok(out)) => {
                if !out.success {
                    return Err(Error::Script(String::from_str("the alias program failed")));
                }
                match utf8_text(out.stdout) {
                    Some(text) => Ok(trim(text.as_str())),
                    None => Err(Error::Script(String::from_str("the alias program's output is not text"))),
                }
            },
            Some(Err(m)) => Err(Error::Script(m)),
            None => Err(Error::Script(String::from_str("the alias program was not run"))),
        },
    }
}

} // verus!
