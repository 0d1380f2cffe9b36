//! Header lines parsed into an `http::HeaderMap`.
use vstd::multiset::Multiset;
use vstd::prelude::*;

use http::header::{HeaderMap, HeaderName, HeaderValue};
use std::str::FromStr;

use crate::text::{trim, trimmed};

verus! {

#[verifier::external_type_specification]
#[verifier::external_body]
#[verifier::reject_recursive_types(T)]
pub struct ExHeaderMap<T>(HeaderMap<T>);

#[verifier::external_type_specification]
#[verifier::external_body]
pub struct ExHeaderValue(HeaderValue);

/// The (name, value) entries that a header map holds, names in the map's normal form.
pub uninterp spec fn header_entries(m: HeaderMap) -> Multiset<(Seq<char>, Seq<char>)>;

/// A character that may stand in a header name: an HTTP token character.
pub open spec fn is_token_char(c: char) -> bool {
    let u = c as u32;
    u == 0x21 || (0x23 <= u && u <= 0x27) || u == 0x22 || u == 0x2a || u == 0x2b || u == 0x2d || u
        == 0x2e || (0x30 <= u && u <= 0x39) || (0x41 <= u && u <= 0x5a) || (0x5e <= u && u <= 0x7a)
        || u == 0x7c || u == 0x7e
}

/// A name that `HeaderName::from_str` accepts.
pub open spec fn valid_header_name(s: Seq<char>) -> bool {
    1 <= s.len() <= 65535 && forall|i: int| 0 <= i < s.len() ==> is_token_char(#[trigger] s[i])
}

/// A value that `HeaderValue::from_str` accepts: no control character but tab.
pub open spec fn valid_header_value(s: Seq<char>) -> bool {
    forall|i: int|
        0 <= i < s.len() ==> ((#[trigger] s[i] as u32 >= 32 && s[i] as u32 != 127) || s[i] == '\t')
}

pub open spec fn lower_char(c: char) -> char {
    if 'A' <= c && c <= 'Z' {
        ((c as u32) + 32) as char
    } else {
        c
    }
}

/// A name in the normal form a header map stores: ASCII letters in lower case.
pub open spec fn ascii_lower(s: Seq<char>) -> Seq<char> {
    s.map_values(|c: char| lower_char(c))
}

/// Entries a header map takes whatever their names: it can run out of room only once it holds
/// several thousand distinct names.
pub const HEADER_MAP_ROOM: usize = 3000;

/// What became of one header entry handed to the map.
enum AppendOutcome {
    /// The entry is in the map.
    Added,
    /// The name or the value cannot be carried by HTTP.
    Refused,
    /// The map holds as many entries as it can.
    Full,
}

/// Relies on `HeaderName::from_str`, `HeaderValue::from_str` and `HeaderMap::try_append` of the
/// `http` crate: a name of 1 to 65535 token characters is accepted and stored in lower case, a
/// value without control characters but tab is accepted as its bytes, and `try_append` adds one
/// entry beside those already present, or fails before storing anything once the map is full.
/// It fails only when its index table would grow past 32768 slots, which takes at least 6554
/// distinct names.
#[verifier::external_body]
fn append_header(map: &mut HeaderMap, name: &str, value: &str) -> (r: AppendOutcome)
    ensures
        r is Refused <==> !(valid_header_name(name@) && valid_header_value(value@)),
        header_entries(*old(map)).len() < HEADER_MAP_ROOM ==> !(r is Full),
        r is Added ==> header_entries(*final(map)) == header_entries(*old(map)).insert(
            (ascii_lower(name@), value@),
        ),
        !(r is Added) ==> header_entries(*final(map)) == header_entries(*old(map)),
{
    match (HeaderName::from_str(name), HeaderValue::from_str(value)) {
        (Ok(n), Ok(v)) => match map.try_append(n, v) {
            Ok(_) => AppendOutcome::Added,
            Err(_) => AppendOutcome::Full,
        },
        _ => AppendOutcome::Refused,
    }
}

/// Relies on `HeaderMap::new`: the new map is empty.
#[verifier::external_body]
fn empty_header_map() -> (r: HeaderMap)
    ensures
        header_entries(r) == Multiset::<(Seq<char>, Seq<char>)>::empty(),
{
    HeaderMap::new()
}

/// Index of the first colon in `s`, or its length when it has none.
pub open spec fn first_colon(s: Seq<char>) -> int
    decreases s.len(),
{
    if s.len() == 0 {
        0
    } else if s[0] == ':' {
        0
    } else {
        1 + first_colon(s.drop_first())
    }
}

/// What one header line contributes: `None` for a line that is dropped, else its trimmed name
/// and value.
pub open spec fn header_line(line: Seq<char>) -> Option<(Seq<char>, Seq<char>)> {
    let t = trimmed(line);
    let k = first_colon(t);
    if t.len() > 0 && t[0] == ':' {
        None
    } else if k >= t.len() {
        None
    } else {
        let value = trimmed(t.subrange(k + 1, t.len() as int));
        if value.len() == 0 {
            None
        } else {
            Some((trimmed(t.subrange(0, k)), value))
        }
    }
}

/// A line that parses: dropped, or with a name and a value the map accepts.
pub open spec fn line_accepted(line: Seq<char>) -> bool {
    match header_line(line) {
        None => true,
        Some(p) => valid_header_name(p.0) && valid_header_value(p.1),
    }
}

/// The entries the kept lines give, in order, with names in normal form.
pub open spec fn header_pairs(lines: Seq<Seq<char>>) -> Seq<(Seq<char>, Seq<char>)>
    decreases lines.len(),
{
    if lines.len() == 0 {
        Seq::empty()
    } else {
        let head = header_pairs(lines.drop_last());
        match header_line(lines.last()) {
            None => head,
            Some(p) => head.push((ascii_lower(p.0), p.1)),
        }
    }
}

/// The entries of `s` with their multiplicities.
pub open spec fn pair_bag(s: Seq<(Seq<char>, Seq<char>)>) -> Multiset<(Seq<char>, Seq<char>)>
    decreases s.len(),
{
    if s.len() == 0 {
        Multiset::empty()
    } else {
        pair_bag(s.drop_last()).insert(s.last())
    }
}

/// Why a set of header lines was refused.
#[derive(Debug, Clone, Copy, PartialEq, Eq)]
pub enum HeaderError {
    /// The line at this index has a name or a value that HTTP cannot carry.
    InvalidHeaderSyntax { line_index: usize },
    /// The map was full when the kept line at this index came.
    TooManyHeaders { line_index: usize },
}

proof fn lemma_first_colon_step(s: Seq<char>, i: int)
    requires
        0 <= i < s.len(),
        s[i] != ':',
    ensures
        first_colon(s.subrange(i, s.len() as int)) == 1 + first_colon(
            s.subrange(i + 1, s.len() as int),
        ),
{
    assert(s.subrange(i, s.len() as int).drop_first() =~= s.subrange(i + 1, s.len() as int));
}

/// Index of the first colon of `s`, or its length when it has none.
fn find_colon(s: &str) -> (r: usize)
    ensures
        r == first_colon(s@),
        r <= s@.len(),
{
    let n = s.unicode_len();
    let mut i: usize = 0;
    assert(s@.subrange(0, n as int) =~= s@);
    while i < n && s.get_char(i) != ':'
        invariant
            i <= n,
            n == s@.len(),
            first_colon(s@) == i + first_colon(s@.subrange(i as int, n as int)),
        decreases n - i,
    {
        proof {
            lemma_first_colon_step(s@, i as int);
        }
        i = i + 1;
    }
    i
}

/// The trimmed name and value of one header line, or `None` where the line is dropped.
pub fn parse_header_line(line: &str) -> (r: Option<(&str, &str)>)
    ensures
        match header_line(line@) {
            None => r is None,
            Some(p) => r matches Some(q) && q.0@ == p.0 && q.1@ == p.1,
        },
{
    let t = trim(line);
    let n = t.unicode_len();
    if n > 0 && t.get_char(0) == ':' {
        return None;
    }
    let k = find_colon(t);
    if k >= n {
        return None;
    }
    let value = trim(t.substring_char(k + 1, n));
    if value.unicode_len() == 0 {
        return None;
    }
    let name = trim(t.substring_char(0, k));
    Some((name, value))
}

/// Every line is accepted.
pub open spec fn all_accepted(lines: Seq<Seq<char>>) -> bool {
    forall|i: int| 0 <= i < lines.len() ==> line_accepted(#[trigger] lines[i])
}

/// `r` is what parsing `lines` gives: the map of the kept entries where every line is
/// accepted; else the first line that is not; or, once the kept lines before it gave at least
/// `HEADER_MAP_ROOM` entries, a kept line the full map refused.
pub open spec fn parsed_as(lines: Seq<Seq<char>>, r: Result<HeaderMap, HeaderError>) -> bool {
    match r {
        Ok(m) => all_accepted(lines) && header_entries(m) == pair_bag(header_pairs(lines)),
        Err(HeaderError::InvalidHeaderSyntax { line_index }) => {
            &&& line_index < lines.len()
            &&& !line_accepted(lines[line_index as int])
            &&& all_accepted(lines.subrange(0, line_index as int))
        },
        Err(HeaderError::TooManyHeaders { line_index }) => {
            &&& line_index < lines.len()
            &&& header_line(lines[line_index as int]) is Some
            &&& all_accepted(lines.subrange(0, line_index + 1))
            &&& header_pairs(lines.subrange(0, line_index as int)).len() >= HEADER_MAP_ROOM
        },
    }
}

proof fn lemma_pair_bag_len(s: Seq<(Seq<char>, Seq<char>)>)
    ensures
        pair_bag(s).len() == s.len(),
    decreases s.len(),
{
    if s.len() > 0 {
        lemma_pair_bag_len(s.drop_last());
    }
}

proof fn lemma_header_pairs_len(lines: Seq<Seq<char>>)
    ensures
        header_pairs(lines).len() <= lines.len(),
    decreases lines.len(),
{
    if lines.len() > 0 {
        lemma_header_pairs_len(lines.drop_last());
    }
}

/// Below `HEADER_MAP_ROOM` lines, parsing succeeds exactly when every line is accepted.
pub proof fn lemma_parse_outcome(lines: Seq<Seq<char>>, r: Result<HeaderMap, HeaderError>)
    requires
        parsed_as(lines, r),
        lines.len() <= HEADER_MAP_ROOM,
    ensures
        r is Ok <==> all_accepted(lines),
        !(r is Ok) ==> r matches Err(HeaderError::InvalidHeaderSyntax { .. }),
{
    match r {
        Ok(_) => {},
        Err(HeaderError::InvalidHeaderSyntax { line_index }) => {},
        Err(HeaderError::TooManyHeaders { line_index }) => {
            lemma_header_pairs_len(lines.subrange(0, line_index as int));
        },
    }
}

/// A dropped line changes nothing: where `lines` has fewer than `HEADER_MAP_ROOM` lines and line
/// `i` is dropped (it starts with a colon, has no colon, or has nothing after its first colon),
/// parsing `lines` and parsing `lines` without line `i` both succeed or both fail, and on
/// success give the same entries.
pub proof fn lemma_dropped_line_same_result(
    lines: Seq<Seq<char>>,
    i: int,
    with_line: Result<HeaderMap, HeaderError>,
    without_line: Result<HeaderMap, HeaderError>,
)
    requires
        0 <= i < lines.len() <= HEADER_MAP_ROOM,
        header_line(lines[i]) is None,
        parsed_as(lines, with_line),
        parsed_as(lines.remove(i), without_line),
    ensures
        with_line is Ok <==> without_line is Ok,
        with_line matches Ok(m1) ==> without_line matches Ok(m2) && header_entries(m1)
            == header_entries(m2),
{
    let rest = lines.remove(i);
    lemma_parse_outcome(lines, with_line);
    lemma_parse_outcome(rest, without_line);
    assert(all_accepted(lines) <==> all_accepted(rest)) by {
        if all_accepted(lines) {
            assert forall|k: int| 0 <= k < rest.len() implies line_accepted(#[trigger] rest[k]) by {
                if k < i {
                    assert(rest[k] == lines[k]);
                } else {
                    assert(rest[k] == lines[k + 1]);
                }
            }
        }
        if all_accepted(rest) {
            assert forall|k: int| 0 <= k < lines.len() implies line_accepted(#[trigger] lines[k]) by {
                if k < i {
                    assert(rest[k] == lines[k]);
                } else if k > i {
                    assert(rest[k - 1] == lines[k]);
                }
            }
        }
    }
    lemma_dropped_line_absent(lines, i);
}

/// Every well-formed line of an accepted set of fewer than `HEADER_MAP_ROOM` lines is in the
/// parsed map: its name in normal form with its value.
pub proof fn lemma_kept_line_in_result(
    lines: Seq<Seq<char>>,
    i: int,
    r: Result<HeaderMap, HeaderError>,
)
    requires
        0 <= i < lines.len() <= HEADER_MAP_ROOM,
        all_accepted(lines),
        header_line(lines[i]) is Some,
        parsed_as(lines, r),
    ensures
        r matches Ok(m) && header_entries(m).count(
            (ascii_lower(header_line(lines[i])->Some_0.0), header_line(lines[i])->Some_0.1),
        ) > 0,
{
    lemma_parse_outcome(lines, r);
    lemma_kept_in_bag(lines, i);
}

proof fn lemma_no_colon(s: Seq<char>)
    requires
        forall|k: int| 0 <= k < s.len() ==> s[k] != ':',
    ensures
        first_colon(s) == s.len(),
    decreases s.len(),
{
    if s.len() > 0 {
        assert forall|k: int| 0 <= k < s.drop_first().len() implies s.drop_first()[k] != ':' by {
            assert(s.drop_first()[k] == s[k + 1]);
        }
        lemma_no_colon(s.drop_first());
    }
}

proof fn lemma_kept_in_bag(lines: Seq<Seq<char>>, i: int)
    requires
        0 <= i < lines.len(),
        header_line(lines[i]) is Some,
    ensures
        ({
            let p = header_line(lines[i])->0;
            pair_bag(header_pairs(lines)).count((ascii_lower(p.0), p.1)) > 0
        }),
    decreases lines.len(),
{
    let head = header_pairs(lines.drop_last());
    if i == lines.len() - 1 {
        let p = header_line(lines.last())->0;
        assert(head.push((ascii_lower(p.0), p.1)).drop_last() =~= head);
    } else {
        assert(lines.drop_last()[i] == lines[i]);
        lemma_kept_in_bag(lines.drop_last(), i);
        match header_line(lines.last()) {
            None => {},
            Some(p) => {
                assert(head.push((ascii_lower(p.0), p.1)).drop_last() =~= head);
            },
        }
    }
}

proof fn lemma_dropped_line_absent(lines: Seq<Seq<char>>, i: int)
    requires
        0 <= i < lines.len(),
        header_line(lines[i]) is None,
    ensures
        header_pairs(lines) == header_pairs(lines.remove(i)),
    decreases lines.len(),
{
    if i == lines.len() - 1 {
        assert(lines.remove(i) =~= lines.drop_last());
    } else {
        assert(lines.remove(i).drop_last() =~= lines.drop_last().remove(i));
        assert(lines.remove(i).last() == lines.last());
        assert(lines.drop_last()[i] == lines[i]);
        lemma_dropped_line_absent(lines.drop_last(), i);
    }
}

/// Header lines: a line that starts with a colon (a pseudo-header), a line without a colon and
/// a line with nothing but white space after its first colon are dropped, and the parsed
/// entries are then the same as if that line were absent; every other line, a well-formed
/// `name: value` line, has its name in normal form and its value among the parsed entries.
pub proof fn lemma_header_lines_dropped_or_kept(lines: Seq<Seq<char>>, i: int)
    requires
        0 <= i < lines.len(),
    ensures
        ({
            let t = trimmed(lines[i]);
            let k = first_colon(t);
            &&& t.len() > 0 && t[0] == ':' ==> header_line(lines[i]) is None
            &&& (forall|j: int| 0 <= j < t.len() ==> t[j] != ':') ==> header_line(lines[i]) is None
            &&& k < t.len() && trimmed(t.subrange(k + 1, t.len() as int)).len() == 0
                ==> header_line(lines[i]) is None
            &&& !(t.len() > 0 && t[0] == ':') && k < t.len() && trimmed(
                t.subrange(k + 1, t.len() as int),
            ).len() > 0 ==> pair_bag(header_pairs(lines)).count(
                (
                    ascii_lower(trimmed(t.subrange(0, k))),
                    trimmed(t.subrange(k + 1, t.len() as int)),
                ),
            ) > 0
        }),
        header_line(lines[i]) is None ==> header_pairs(lines) == header_pairs(lines.remove(i)),
{
    let t = trimmed(lines[i]);
    if forall|j: int| 0 <= j < t.len() ==> t[j] != ':' {
        lemma_no_colon(t);
    }
    if header_line(lines[i]) is Some {
        lemma_kept_in_bag(lines, i);
    } else {
        lemma_dropped_line_absent(lines, i);
    }
}

/// Parses header lines into a header map. A line is dropped where it starts with a colon,
/// has no colon, or has nothing after its first colon; a name that repeats gets one more
/// value. Fails on the first kept line whose name or value HTTP cannot carry, or when the map
/// can take no more entries.
pub fn lines_to_header(lines: &Vec<String>) -> (r: Result<HeaderMap, HeaderError>)
    ensures
        parsed_as(lines@.map_values(|l: String| l@), r),
        lines@.len() <= HEADER_MAP_ROOM ==> (r is Ok <==> all_accepted(
            lines@.map_values(|l: String| l@),
        )),
        lines@.len() <= HEADER_MAP_ROOM && !(r is Ok) ==> r matches Err(
            HeaderError::InvalidHeaderSyntax { .. },
        ),
{
    let ghost views = lines@.map_values(|l: String| l@);
    let mut map = empty_header_map();
    let mut i: usize = 0;
    assert(views.subrange(0, 0) =~= Seq::<Seq<char>>::empty());
    while i < lines.len()
        invariant
            i <= lines@.len(),
            views == lines@.map_values(|l: String| l@),
            all_accepted(views.subrange(0, i as int)),
            header_entries(map) == pair_bag(header_pairs(views.subrange(0, i as int))),
            header_entries(map).len() == header_pairs(views.subrange(0, i as int)).len(),
        decreases lines@.len() - i,
    {
        let ghost prefix = views.subrange(0, i as int);
        let ghost next = views.subrange(0, i + 1);
        assert(next.drop_last() =~= prefix);
        assert(next.last() == lines@[i as int]@);
        assert(views[i as int] == lines@[i as int]@);
        match parse_header_line(lines[i].as_str()) {
            None => {
                assert(line_accepted(views[i as int]));
            },
            Some((name, value)) => {
                let ghost head = header_pairs(prefix);
                assert(head.push((ascii_lower(name@), value@)).drop_last() =~= head);
                match append_header(&mut map, name, value) {
                    AppendOutcome::Added => {
                        proof {
                            lemma_pair_bag_len(header_pairs(next));
                        }
                    },
                    AppendOutcome::Refused => {
                        return Err(HeaderError::InvalidHeaderSyntax { line_index: i });
                    },
                    AppendOutcome::Full => {
                        proof {
                            lemma_pair_bag_len(head);
                            lemma_header_pairs_len(prefix);
                            assert forall|k: int| 0 <= k < i + 1 implies line_accepted(
                                #[trigger] next[k],
                            ) by {
                                if k < i {
                                    assert(next[k] == prefix[k]);
                                }
                            }
                        }
                        return Err(HeaderError::TooManyHeaders { line_index: i });
                    },
                }
            },
        }
        assert forall|k: int| 0 <= k < i + 1 implies line_accepted(#[trigger] next[k]) by {
            if k < i {
                assert(next[k] == prefix[k]);
            }
        }
        i = i + 1;
    }
    assert(views.subrange(0, i as int) =~= views);
    Ok(map)
}

/// Parses the lines of a header file, where one was given.
pub fn extract_header(lines: Option<Vec<String>>) -> (r: Result<Option<HeaderMap>, HeaderError>)
    ensures
        lines is None ==> r == Ok::<Option<HeaderMap>, HeaderError>(None),
        lines matches Some(l) ==> match r {
            Ok(Some(m)) => parsed_as(l@.map_values(|s: String| s@), Ok(m)),
            Ok(None) => false,
            Err(e) => parsed_as(l@.map_values(|s: String| s@), Err(e)),
        },
        lines matches Some(l) ==> (l@.len() <= HEADER_MAP_ROOM ==> (r is Ok <==> all_accepted(
            l@.map_values(|s: String| s@),
        ))),
{
    match lines {
        None => Ok(None),
        Some(l) => match lines_to_header(&l) {
            Ok(m) => Ok(Some(m)),
            Err(e) => Err(e),
        },
    }
}

} // verus!
