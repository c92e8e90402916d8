use vstd::prelude::*;
use vstd::string::*;

pub mod dict;
pub mod global;
pub mod laws;
pub mod request;
pub mod response;
pub mod store;
pub mod url;

use crate::dict::StrDict;

verus! {

/// The error kinds that the answer-selection and knowledge engine can report.
#[derive(Clone, Copy, Debug, PartialEq, Eq, Structural)]
pub enum QuizError {
    /// An operation referenced a question identifier absent from the state.
    QuestionNotFound,
    /// The selector cannot produce any choice respecting the exclusion sets.
    ExhaustedCandidates,
    /// A knowledge-store operation failed.
    StoreUnavailable,
    /// A fetch or submit to the quiz platform failed.
    CollaboratorFailure,
}

/// The position of the first occurrence of `d` in `s`, or `-1` if there is
/// none.
pub open spec fn find_char(s: Seq<char>, d: char) -> int
    decreases s.len(),
{
    if s.len() == 0 {
        -1
    } else if s[0] == d {
        0
    } else {
        let r = find_char(s.drop_first(), d);
        if r < 0 {
            -1
        } else {
            r + 1
        }
    }
}

/// `find_char` returns `-1` exactly when the character is absent, and the
/// position of its first occurrence otherwise.
pub proof fn lemma_find_char(s: Seq<char>, d: char)
    ensures
        ({
            let r = find_char(s, d);
            &&& -1 <= r < s.len()
            &&& ((r == -1) <==> !s.contains(d))
            &&& (r >= 0 ==> s[r] == d && (forall|j: int| 0 <= j < r ==> s[j] != d))
        }),
    decreases s.len(),
{
    if s.len() == 0 {
        assert(!s.contains(d));
    } else if s[0] == d {
        assert(s.contains(d));
    } else {
        let t = s.drop_first();
        lemma_find_char(t, d);
        let r = find_char(t, d);
        if r == -1 {
            assert(!s.contains(d)) by {
                if s.contains(d) {
                    let i = choose|i: int| 0 <= i < s.len() && s[i] == d;
                    assert(t[i - 1] == d);
                    assert(t.contains(d));
                }
            }
        } else {
            assert(t.contains(d));
            assert(s[r + 1] == t[r]);
            assert forall|j: int| 0 <= j < r + 1 implies s[j] != d by {
                if j > 0 {
                    assert(t[j - 1] == s[j]);
                }
            }
            assert(s.contains(d)) by {
                assert(s[r + 1] == d);
            }
        }
    }
}

/// The key part of splitting `s` at the first `d`: everything before the
/// first occurrence, or all of `s` if there is none.
pub open spec fn split_key(s: Seq<char>, d: char) -> Seq<char> {
    let f = find_char(s, d);
    if f >= 0 {
        s.subrange(0, f)
    } else {
        s
    }
}

/// The value part of splitting `s` at the first `d`: everything after the
/// first occurrence, or empty if there is none.
pub open spec fn split_value(s: Seq<char>, d: char) -> Seq<char> {
    let f = find_char(s, d);
    if f >= 0 {
        s.subrange(f + 1, s.len() as int)
    } else {
        Seq::empty()
    }
}

/// Splits `s` at the first occurrence of `delimit`: the delimiter itself is
/// kept in neither part, and an absent delimiter leaves the whole string as
/// the key with an empty value.
pub fn split_by(s: String, delimit: char) -> (r: (String, String))
    ensures
        r.0@ == split_key(s@, delimit),
        r.1@ == split_value(s@, delimit),
{
    let n = s.as_str().unicode_len();
    let mut i: usize = 0;
    while i < n
        invariant
            i <= n,
            n == s@.len(),
            forall|j: int| 0 <= j < i ==> s@[j] != delimit,
        decreases n - i,
    {
        if s.as_str().get_char(i) == delimit {
            proof {
                lemma_find_char(s@, delimit);
                assert(s@.contains(delimit)) by {
                    assert(s@[i as int] == delimit);
                }
                assert(find_char(s@, delimit) == i as int);
            }
            let key = s.as_str().substring_char(0, i).to_owned();
            let value = s.as_str().substring_char(i + 1, n).to_owned();
            return (key, value);
        }
        i += 1;
    }
    proof {
        lemma_find_char(s@, delimit);
        assert(!s@.contains(delimit)) by {
            if s@.contains(delimit) {
                let j = choose|j: int| 0 <= j < s@.len() && s@[j] == delimit;
            }
        }
    }
    let key = s;
    let value = String::new();
    (key, value)
}

/// Whether `c` carries the Unicode `White_Space` property: exactly the
/// characters that trimming strips from the ends of a cookie segment.
pub open spec fn is_space_char(c: char) -> bool {
    ||| c == '\u{0009}'
    ||| c == '\u{000A}'
    ||| c == '\u{000B}'
    ||| c == '\u{000C}'
    ||| c == '\u{000D}'
    ||| c == '\u{0020}'
    ||| c == '\u{0085}'
    ||| c == '\u{00A0}'
    ||| c == '\u{1680}'
    ||| c == '\u{2000}'
    ||| c == '\u{2001}'
    ||| c == '\u{2002}'
    ||| c == '\u{2003}'
    ||| c == '\u{2004}'
    ||| c == '\u{2005}'
    ||| c == '\u{2006}'
    ||| c == '\u{2007}'
    ||| c == '\u{2008}'
    ||| c == '\u{2009}'
    ||| c == '\u{200A}'
    ||| c == '\u{2028}'
    ||| c == '\u{2029}'
    ||| c == '\u{202F}'
    ||| c == '\u{205F}'
    ||| c == '\u{3000}'
}

fn space_char(c: char) -> (r: bool)
    ensures
        r == is_space_char(c),
{
    c == '\u{0009}' || c == '\u{000A}' || c == '\u{000B}' || c == '\u{000C}' || c == '\u{000D}'
        || c == '\u{0020}' || c == '\u{0085}' || c == '\u{00A0}' || c == '\u{1680}'
        || c == '\u{2000}' || c == '\u{2001}' || c == '\u{2002}' || c == '\u{2003}'
        || c == '\u{2004}' || c == '\u{2005}' || c == '\u{2006}' || c == '\u{2007}'
        || c == '\u{2008}' || c == '\u{2009}' || c == '\u{200A}' || c == '\u{2028}'
        || c == '\u{2029}' || c == '\u{202F}' || c == '\u{205F}' || c == '\u{3000}'
}

/// `s` without its leading whitespace characters.
pub open spec fn trim_front(s: Seq<char>) -> Seq<char>
    decreases s.len(),
{
    if s.len() > 0 && is_space_char(s[0]) {
        trim_front(s.drop_first())
    } else {
        s
    }
}

/// `s` without its trailing whitespace characters.
pub open spec fn trim_back(s: Seq<char>) -> Seq<char>
    decreases s.len(),
{
    if s.len() > 0 && is_space_char(s.last()) {
        trim_back(s.drop_last())
    } else {
        s
    }
}

/// `s` without whitespace characters at either end.
pub open spec fn trim_spec(s: Seq<char>) -> Seq<char> {
    trim_back(trim_front(s))
}

/// Strips whitespace characters from both ends.
fn trim_str(s: &str) -> (r: String)
    ensures
        r@ == trim_spec(s@),
{
    let n = s.unicode_len();
    proof {
        assert(s@.subrange(0, n as int) =~= s@);
    }
    let mut a: usize = 0;
    while a < n && space_char(s.get_char(a))
        invariant
            a <= n,
            n == s@.len(),
            trim_front(s@) == trim_front(s@.subrange(a as int, n as int)),
        decreases n - a,
    {
        proof {
            assert(s@.subrange(a as int, n as int).drop_first() =~= s@.subrange(
                a as int + 1,
                n as int,
            ));
        }
        a += 1;
    }
    proof {
        assert(trim_front(s@) == s@.subrange(a as int, n as int));
    }
    let mut b: usize = n;
    while b > a && space_char(s.get_char(b - 1))
        invariant
            a <= b <= n,
            n == s@.len(),
            trim_back(s@.subrange(a as int, n as int)) == trim_back(
                s@.subrange(a as int, b as int),
            ),
        decreases b,
    {
        proof {
            assert(s@.subrange(a as int, b as int).drop_last() =~= s@.subrange(
                a as int,
                b as int - 1,
            ));
        }
        b -= 1;
    }
    proof {
        assert(trim_back(s@.subrange(a as int, b as int)) == s@.subrange(a as int, b as int));
    }
    s.substring_char(a, b).to_owned()
}

/// What inserting one raw cookie segment does to the parsed map: the
/// segment is trimmed and split at its first `=`.
pub open spec fn insert_cookie_pair(
    m: Map<Seq<char>, Seq<char>>,
    seg: Seq<char>,
) -> Map<Seq<char>, Seq<char>> {
    let t = trim_spec(seg);
    m.insert(split_key(t, '='), split_value(t, '='))
}

/// What parsing a whole cookie header into `m` yields: the header is split
/// at every `;`, and each segment is inserted in order, later segments
/// overriding earlier ones.
pub open spec fn cookie_pairs_into(
    m: Map<Seq<char>, Seq<char>>,
    s: Seq<char>,
) -> Map<Seq<char>, Seq<char>>
    decreases s.len(),
    via cookie_pairs_into_decreases
{
    let f = find_char(s, ';');
    if f < 0 {
        insert_cookie_pair(m, s)
    } else {
        cookie_pairs_into(insert_cookie_pair(m, s.subrange(0, f)), s.subrange(f + 1, s.len() as int))
    }
}

#[via_fn]
proof fn cookie_pairs_into_decreases(m: Map<Seq<char>, Seq<char>>, s: Seq<char>) {
    lemma_find_char(s, ';');
}

/// Trims one raw segment, splits it at `=`, and stores the pair.
fn insert_segment(dict: &mut StrDict, seg: &str)
    requires
        old(dict).wf(),
    ensures
        final(dict).wf(),
        final(dict).contents() == insert_cookie_pair(old(dict).contents(), seg@),
{
    let trimmed = trim_str(seg);
    let (key, value) = split_by(trimmed, '=');
    dict.insert(key, value);
}

/// Splits the header at each `;` and stores every segment, left to right.
fn append_cookie_pairs(dict: &mut StrDict, s: &str)
    requires
        old(dict).wf(),
    ensures
        final(dict).wf(),
        final(dict).contents() == cookie_pairs_into(old(dict).contents(), s@),
    decreases s@.len(),
{
    let n = s.unicode_len();
    let mut i: usize = 0;
    while i < n
        invariant
            i <= n,
            n == s@.len(),
            forall|j: int| 0 <= j < i ==> s@[j] != ';',
            *dict == *old(dict),
            dict.wf(),
        decreases n - i,
    {
        if s.get_char(i) == ';' {
            proof {
                lemma_find_char(s@, ';');
                assert(s@.contains(';')) by {
                    assert(s@[i as int] == ';');
                }
                assert(find_char(s@, ';') == i as int);
            }
            let seg = s.substring_char(0, i);
            insert_segment(dict, seg);
            let rest = s.substring_char(i + 1, n);
            append_cookie_pairs(dict, rest);
            return ;
        }
        i += 1;
    }
    proof {
        lemma_find_char(s@, ';');
        assert(!s@.contains(';')) by {
            if s@.contains(';') {
                let j = choose|j: int| 0 <= j < s@.len() && s@[j] == ';';
            }
        }
    }
    insert_segment(dict, s);
}

/// Parses a cookie header of the shape `k1=v1; k2=v2` into a dictionary,
/// later duplicates of a key overriding earlier ones.
pub fn cookies(str: &String) -> (r: StrDict)
    ensures
        r.wf(),
        r.contents() == cookie_pairs_into(Map::<Seq<char>, Seq<char>>::empty(), str@),
{
    let mut dict = StrDict::new();
    append_cookie_pairs(&mut dict, str.as_str());
    dict
}

/// What one raw configuration line adds to the parsed map: nothing for an
/// empty or `#`-commented line, else the pair split at the first `=`.
pub open spec fn insert_env_line(
    m: Map<Seq<char>, Seq<char>>,
    line: Seq<char>,
) -> Map<Seq<char>, Seq<char>> {
    if line.len() == 0 || line[0] == '#' {
        m
    } else {
        m.insert(split_key(line, '='), split_value(line, '='))
    }
}

/// What parsing every configuration line into `m` yields, first line first.
pub open spec fn env_lines_map(
    m: Map<Seq<char>, Seq<char>>,
    lines: Seq<Seq<char>>,
) -> Map<Seq<char>, Seq<char>>
    decreases lines.len(),
{
    if lines.len() == 0 {
        m
    } else {
        env_lines_map(insert_env_line(m, lines[0]), lines.drop_first())
    }
}

/// The views of a sequence of strings.
pub open spec fn line_views(lines: Seq<String>) -> Seq<Seq<char>> {
    lines.map_values(|l: String| l@)
}

/// Parses the lines of a configuration file: empty lines and lines opening
/// with `#` are skipped, every other line is split at its first `=`.
pub fn env_from_lines(lines: &Vec<String>) -> (r: StrDict)
    ensures
        r.wf(),
        r.contents() == env_lines_map(Map::<Seq<char>, Seq<char>>::empty(), line_views(lines@)),
{
    let mut dict = StrDict::new();
    proof {
        assert(line_views(lines@).subrange(0, lines@.len() as int) =~= line_views(lines@));
    }
    let mut i: usize = 0;
    while i < lines.len()
        invariant
            i <= lines@.len(),
            dict.wf(),
            env_lines_map(dict.contents(), line_views(lines@).subrange(i as int, lines@.len() as int))
                == env_lines_map(
                Map::<Seq<char>, Seq<char>>::empty(),
                line_views(lines@),
            ),
        decreases lines@.len() - i,
    {
        let ghost pre = line_views(lines@).subrange(i as int, lines@.len() as int);
        proof {
            assert(pre[0] == lines@[i as int]@);
            assert(pre.drop_first() =~= line_views(lines@).subrange(
                i as int + 1,
                lines@.len() as int,
            ));
        }
        let line = &lines[i];
        let empty = line.as_str().unicode_len() == 0;
        let comment = if empty {
            false
        } else {
            line.as_str().get_char(0) == '#'
        };
        if !empty && !comment {
            let (key, value) = split_by(line.clone(), '=');
            dict.insert(key, value);
        }
        i += 1;
    }
    proof {
        assert(line_views(lines@).subrange(lines@.len() as int, lines@.len() as int) =~= Seq::<
            Seq<char>,
        >::empty());
    }
    dict
}

/// The value stored under `key` among the parsed configuration entries, if
/// any.
pub fn env_get<'a>(vars: &'a StrDict, key: &str) -> (r: Option<&'a String>)
    requires
        vars.wf(),
    ensures
        (r is Some) <==> vars.contents().contains_key(key@),
        (match r {
            Some(v) => v@ == vars.contents()[key@],
            None => true,
        }),
{
    let owned = key.to_owned();
    vars.get(&owned)
}

} // verus!
