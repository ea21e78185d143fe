//! The scan engine: repeated leftmost-earliest dispatch of regular expressions over a string.
use vstd::prelude::*;
use regex::Regex;
use crate::value::ExecutionError;
use vstd::string::StringSliceAdditionalSpecFns;
use vstd::utf8::{encode_utf8, is_char_boundary};

verus! {

#[verifier::external_type_specification]
#[verifier::external_body]
pub struct ExRegex(Regex);

#[verifier::external_type_specification]
#[verifier::external_body]
pub struct ExRegexError(regex::Error);

/// Whether `pattern` is a regular expression that `regex::Regex::new` accepts.
pub uninterp spec fn pattern_valid(pattern: Seq<char>) -> bool;

/// The byte spans of the groups of the first match of `pattern` in `s` that starts at or after
/// `start`, the whole match first, as `regex::Regex::captures_at` finds it; `None` when there
/// is no such match.
pub uninterp spec fn first_captures(pattern: Seq<char>, s: Seq<char>, start: int) -> Option<Seq<Option<(usize, usize)>>>;

/// Relies on `regex::Regex::new`: compiles a pattern, and fails exactly on the patterns that
/// are not valid regular expressions.
#[verifier::external_body]
fn compile(pattern: &str) -> (r: Result<Regex, regex::Error>)
    ensures
        r is Ok == pattern_valid(pattern@),
{
    Regex::new(pattern)
}

/// A compiled regular expression, with the pattern it was compiled from.
pub struct Pattern {
    re: Regex,
    source: Ghost<Seq<char>>,
}

impl Pattern {
    /// The pattern this was compiled from.
    pub closed spec fn source(&self) -> Seq<char> {
        self.source@
    }

    /// Compiles `pattern`; an invalid regular expression is reported.
    pub fn new(pattern: &str) -> (r: Result<Pattern, ExecutionError>)
        ensures
            r is Ok == pattern_valid(pattern@),
            r matches Ok(p) ==> p.source() == pattern@,
            r matches Err(e) ==> (e matches ExecutionError::InvalidPattern(m) && m@ == pattern@),
    {
        match compile(pattern) {
            Ok(re) => Ok(Pattern { re, source: Ghost(pattern@) }),
            Err(_) => Err(ExecutionError::InvalidPattern(pattern.to_owned())),
        }
    }
}

/// Relies on `regex::Regex::captures_at`: the first match of the pattern that starts at or
/// after `start`, as the byte spans of its groups, the whole match first; it depends on the
/// pattern, the string and the start alone.  The spans lie between `start` and the end of the
/// string, on character boundaries (each is a `Match` of the string).  It panics for a `start`
/// past the end, which `requires` leaves out.
#[verifier::external_body]
fn captures_from(p: &Pattern, s: &str, start: usize) -> (r: Option<Vec<Option<(usize, usize)>>>)
    requires
        start <= s.spec_bytes().len(),
    ensures
        r is None == first_captures(p.source(), s@, start as int) is None,
        r matches Some(g) ==> first_captures(p.source(), s@, start as int) == Some(g@),
        r matches Some(g) ==> g@.len() >= 1 && g@[0] is Some && start <= g@[0]->Some_0.0 <= g@[0]->Some_0.1
            <= s.spec_bytes().len(),
        r matches Some(g) ==> forall|i: int| 0 <= i < g@.len() && (#[trigger] g@[i]) is Some ==> spans(s, g@[i]->Some_0),
{
    p.re.captures_at(s, start).map(|c| c.iter().map(|g| g.map(|m| (m.start(), m.end()))).collect())
}

/// The span of the whole match in a result of `first_captures`.
pub open spec fn whole_match(c: Option<Seq<Option<(usize, usize)>>>) -> Option<(usize, usize)> {
    match c {
        Some(g) => if g.len() >= 1 {
            g[0]
        } else {
            None
        },
        None => None,
    }
}

/// Each arm's first match at or after `cursor`.
pub open spec fn matches_at(ps: Seq<Seq<char>>, s: Seq<char>, cursor: int) -> Seq<Option<(usize, usize)>> {
    Seq::new(ps.len(), |b: int| whole_match(first_captures(ps[b], s, cursor)))
}

/// The first character boundary of `bytes` at or after `k`, or `k` itself past the end.
pub open spec fn boundary_from(bytes: Seq<u8>, k: int) -> int
    decreases bytes.len() - k,
{
    if k < 0 || k >= bytes.len() || is_char_boundary(bytes, k) {
        k
    } else {
        boundary_from(bytes, k + 1)
    }
}

/// Where a scan goes on after a match from `start` to `end` in `bytes`: at its end, or, after an
/// empty match, at the next character boundary past it (one past the end when there is none).
pub open spec fn cursor_after(bytes: Seq<u8>, start: int, end: int) -> int {
    if end > start {
        end
    } else {
        boundary_from(bytes, end + 1)
    }
}

/// The matches that a scan of `s` with the arms `ps` dispatches from `cursor` on: at each step
/// the winning arm among the arms' first matches (see `wins`), with its groups, then the rest
/// from the cursor after it; nothing once no arm matches.
pub open spec fn scan_from(ps: Seq<Seq<char>>, s: Seq<char>, cursor: int) -> Seq<(usize, Seq<Option<(usize, usize)>>)>
    decreases encode_utf8(s).len() + 1 - cursor,
{
    let n = encode_utf8(s).len() as int;
    let f = matches_at(ps, s, cursor);
    if cursor < 0 || cursor > n || !(exists|a: int| wins(f, a)) {
        Seq::empty()
    } else {
        let a = choose|a: int| wins(f, a);
        let m = f[a]->Some_0;
        let next = cursor_after(encode_utf8(s), m.0 as int, m.1 as int);
        if next <= cursor || next > n + 1 {
            Seq::empty()
        } else {
            seq![(a as usize, first_captures(ps[a], s, cursor)->Some_0)] + scan_from(ps, s, next)
        }
    }
}

/// The arm and group spans of each dispatched match.
pub open spec fn scan_view(ms: Seq<ScanMatch>) -> Seq<(usize, Seq<Option<(usize, usize)>>)> {
    Seq::new(ms.len(), |i: int| (ms[i].arm, ms[i].groups@))
}

/// The texts of the patterns.
pub open spec fn pattern_texts(patterns: Seq<String>) -> Seq<Seq<char>> {
    Seq::new(patterns.len(), |i: int| patterns[i]@)
}

/// At most one arm wins.
pub proof fn lemma_wins_unique(found: Seq<Option<(usize, usize)>>, a: int, b: int)
    requires
        wins(found, a),
        wins(found, b),
    ensures
        a == b,
{
    if a < b {
        assert(found[b]->Some_0.0 < found[a]->Some_0.0);
    } else if b < a {
        assert(found[a]->Some_0.0 < found[b]->Some_0.0);
    }
}

/// Whether `m` is a span of `s` from one character boundary to a later one.
pub open spec fn spans(s: &str, m: (usize, usize)) -> bool {
    &&& m.0 <= m.1 <= s.spec_bytes().len()
    &&& is_char_boundary(s.spec_bytes(), m.0 as int)
    &&& is_char_boundary(s.spec_bytes(), m.1 as int)
}

/// A match that a scan dispatched: the arm that won, and the byte spans of its groups, the
/// whole match first; a group that took no part in the match has no span.
pub struct ScanMatch {
    pub arm: usize,
    pub groups: Vec<Option<(usize, usize)>>,
}

/// Whether the arm `a` wins among the matches `found`: it matched, no arm matched earlier in
/// the string, and no arm listed before it matched at the same place.
pub open spec fn wins(found: Seq<Option<(usize, usize)>>, a: int) -> bool {
    &&& 0 <= a < found.len()
    &&& found[a] is Some
    &&& forall|b: int| 0 <= b < found.len() && (#[trigger] found[b]) is Some ==> found[a]->Some_0.0 <= found[b]->Some_0.0
    &&& forall|b: int| 0 <= b < a && (#[trigger] found[b]) is Some ==> found[a]->Some_0.0 < found[b]->Some_0.0
}

/// The arm that wins among the matches `found`: the one that starts earliest, the first listed
/// among those that start at the same place; `None` when no arm matched.
pub fn select_arm(found: &Vec<Option<(usize, usize)>>) -> (r: Option<usize>)
    ensures
        r matches Some(a) ==> wins(found@, a as int),
        r is None <==> forall|b: int| 0 <= b < found@.len() ==> (#[trigger] found@[b]) is None,
{
    let mut best: Option<usize> = None;
    let mut i: usize = 0;
    while i < found.len()
        invariant
            i <= found@.len(),
            best is None ==> forall|b: int| 0 <= b < i ==> (#[trigger] found@[b]) is None,
            best matches Some(a) ==> a < i && wins(found@.subrange(0, i as int), a as int),
        decreases found@.len() - i,
    {
        let ghost prefix = found@.subrange(0, i as int + 1);
        match found[i] {
            Some((s, _)) => {
                match best {
                    None => {
                        best = Some(i);
                        proof {
                            assert forall|b: int| 0 <= b < prefix.len() && (#[trigger] prefix[b]) is Some implies
                                prefix[i as int]->Some_0.0 <= prefix[b]->Some_0.0 by {
                                if b < i {
                                    assert(prefix[b] == found@[b]);
                                }
                            }
                            assert forall|b: int| 0 <= b < i && (#[trigger] prefix[b]) is Some implies
                                prefix[i as int]->Some_0.0 < prefix[b]->Some_0.0 by {
                                assert(prefix[b] == found@[b]);
                            }
                        }
                    },
                    Some(a) => {
                        let cur = found[a].unwrap().0;
                        proof {
                            let old_prefix = found@.subrange(0, i as int);
                            assert(old_prefix[a as int] == found@[a as int]);
                        }
                        if s < cur {
                            best = Some(i);
                            proof {
                                let old_prefix = found@.subrange(0, i as int);
                                assert forall|b: int| 0 <= b < prefix.len() && (#[trigger] prefix[b]) is Some implies
                                    prefix[i as int]->Some_0.0 <= prefix[b]->Some_0.0 by {
                                    if b < i {
                                        assert(prefix[b] == old_prefix[b]);
                                    }
                                }
                                assert forall|b: int| 0 <= b < i && (#[trigger] prefix[b]) is Some implies
                                    prefix[i as int]->Some_0.0 < prefix[b]->Some_0.0 by {
                                    assert(prefix[b] == old_prefix[b]);
                                }
                            }
                        } else {
                            proof {
                                let old_prefix = found@.subrange(0, i as int);
                                assert forall|b: int| 0 <= b < prefix.len() && (#[trigger] prefix[b]) is Some implies
                                    prefix[a as int]->Some_0.0 <= prefix[b]->Some_0.0 by {
                                    if b < i {
                                        assert(prefix[b] == old_prefix[b]);
                                    }
                                }
                                assert forall|b: int| 0 <= b < a && (#[trigger] prefix[b]) is Some implies
                                    prefix[a as int]->Some_0.0 < prefix[b]->Some_0.0 by {
                                    assert(prefix[b] == old_prefix[b]);
                                }
                                assert(prefix[a as int] == old_prefix[a as int]);
                            }
                        }
                    },
                }
            },
            None => {
                proof {
                    if best is Some {
                        let a = best->Some_0;
                        let old_prefix = found@.subrange(0, i as int);
                        assert forall|b: int| 0 <= b < prefix.len() && (#[trigger] prefix[b]) is Some implies
                            prefix[a as int]->Some_0.0 <= prefix[b]->Some_0.0 by {
                            if b < i {
                                assert(prefix[b] == old_prefix[b]);
                            }
                        }
                        assert forall|b: int| 0 <= b < a && (#[trigger] prefix[b]) is Some implies
                            prefix[a as int]->Some_0.0 < prefix[b]->Some_0.0 by {
                            assert(prefix[b] == old_prefix[b]);
                        }
                        assert(prefix[a as int] == old_prefix[a as int]);
                    }
                }
            },
        }
        i = i + 1;
    }
    proof {
        assert(found@.subrange(0, i as int) =~= found@);
    }
    best
}

/// Where a scan goes on after a match from `start` to `end`: at its end, or, after an empty
/// match, at the next character boundary past it (one past the string's end when there is
/// none), so that a scan always moves forward.
pub fn next_cursor(s: &str, start: usize, end: usize) -> (r: usize)
    requires
        start <= end <= s.spec_bytes().len(),
        s.spec_bytes().len() < usize::MAX,
    ensures
        r == cursor_after(s.spec_bytes(), start as int, end as int),
        r <= s.spec_bytes().len() + 1,
        end > start ==> r == end,
        end == start ==> r > end && (r <= s.spec_bytes().len() ==> is_char_boundary(s.spec_bytes(), r as int))
            && forall|k: int| end < k < r && k <= s.spec_bytes().len() ==> !#[trigger] is_char_boundary(s.spec_bytes(), k),
{
    if end > start {
        return end;
    }
    let n = s.as_bytes().len();
    let mut k: usize = end + 1;
    while k < n && !s.is_char_boundary(k)
        invariant
            n == s.spec_bytes().len(),
            end < k <= n + 1,
            forall|j: int| end < j < k && j <= n ==> !#[trigger] is_char_boundary(s.spec_bytes(), j),
            boundary_from(s.spec_bytes(), k as int) == boundary_from(s.spec_bytes(), end + 1),
        decreases n + 1 - k,
    {
        k = k + 1;
    }
    proof {
        if k == n {
            vstd::utf8::encode_utf8_valid_utf8(s@);
            vstd::utf8::is_char_boundary_start_end_of_seq(s.spec_bytes());
        }
    }
    k
}

/// Compiles the patterns of the arms, in order; the first that is not a valid regular
/// expression is reported.
fn compile_all(patterns: &Vec<String>) -> (r: Result<Vec<Pattern>, ExecutionError>)
    ensures
        r is Ok == forall|i: int| 0 <= i < patterns@.len() ==> pattern_valid(#[trigger] patterns@[i]@),
        r matches Ok(v) ==> v@.len() == patterns@.len() && forall|i: int| 0 <= i < v@.len() ==> (#[trigger] v@[i]).source()
            == patterns@[i]@,
        r matches Err(e) ==> e is InvalidPattern,
{
    let mut out: Vec<Pattern> = Vec::new();
    let mut i: usize = 0;
    while i < patterns.len()
        invariant
            i <= patterns@.len(),
            out@.len() == i,
            forall|j: int| 0 <= j < i ==> pattern_valid(#[trigger] patterns@[j]@),
            forall|j: int| 0 <= j < i ==> (#[trigger] out@[j]).source() == patterns@[j]@,
        decreases patterns@.len() - i,
    {
        match Pattern::new(patterns[i].as_str()) {
            Ok(p) => out.push(p),
            Err(e) => return Err(e),
        }
        i = i + 1;
    }
    Ok(out)
}

/// Scans `subject` with the arms whose patterns are `patterns`.  From a cursor at the start,
/// each step finds each arm's first match at or after the cursor, dispatches the one that
/// starts earliest (the first listed among those that start at the same place), and moves the
/// cursor past it (see `next_cursor`); the scan ends when no arm matches.  The result lists the
/// dispatched matches in order, or reports the first pattern that does not compile.
pub fn scan(subject: &str, patterns: &Vec<String>) -> (r: Result<Vec<ScanMatch>, ExecutionError>)
    requires
        subject.spec_bytes().len() < usize::MAX,
    ensures
        r is Ok == forall|i: int| 0 <= i < patterns@.len() ==> pattern_valid(#[trigger] patterns@[i]@),
        r matches Err(e) ==> e is InvalidPattern,
        r matches Ok(ms) ==> scan_view(ms@) == scan_from(pattern_texts(patterns@), subject@, 0),
        r matches Ok(ms) ==> forall|k: int| 0 <= k < ms@.len() ==> {
            &&& forall|i: int| 0 <= i < ms@[k].groups@.len() && (#[trigger] ms@[k].groups@[i]) is Some
                ==> spans(subject, ms@[k].groups@[i]->Some_0)
            &&& (#[trigger] ms@[k]).arm < patterns@.len()
            &&& ms@[k].groups@.len() >= 1
            &&& ms@[k].groups@[0] is Some
            &&& ms@[k].groups@[0]->Some_0.0 <= ms@[k].groups@[0]->Some_0.1 <= subject.spec_bytes().len()
        },
        r matches Ok(ms) ==> forall|k: int| 0 <= k < ms@.len() - 1 ==> #[trigger] ms@[k].groups@[0]->Some_0.1
            <= ms@[k + 1].groups@[0]->Some_0.0 && ms@[k].groups@[0]->Some_0.0 < ms@[k + 1].groups@[0]->Some_0.0,
{
    let res = compile_all(patterns);
    let regexes = match res {
        Ok(v) => v,
        Err(e) => return Err(e),
    };
    let ghost ps = pattern_texts(patterns@);
    let n = subject.as_bytes().len();
    let mut out: Vec<ScanMatch> = Vec::new();
    let mut cursor: usize = 0;
    let mut done = false;
    assert(scan_view(out@) + scan_from(ps, subject@, 0) =~= scan_from(ps, subject@, 0));
    while cursor <= n && !done
        invariant
            n == subject.spec_bytes().len(),
            ps == pattern_texts(patterns@),
            forall|b: int| 0 <= b < regexes@.len() ==> (#[trigger] regexes@[b]).source() == ps[b],
            scan_view(out@) + scan_from(ps, subject@, cursor as int) == scan_from(ps, subject@, 0),
            done ==> scan_from(ps, subject@, cursor as int) == Seq::<(usize, Seq<Option<(usize, usize)>>)>::empty(),
            n < usize::MAX,
            regexes@.len() == patterns@.len(),
            forall|k: int| 0 <= k < out@.len() ==> {
                &&& forall|i: int| 0 <= i < out@[k].groups@.len() && (#[trigger] out@[k].groups@[i]) is Some
                    ==> spans(subject, out@[k].groups@[i]->Some_0)
                &&& (#[trigger] out@[k]).arm < patterns@.len()
                &&& out@[k].groups@.len() >= 1
                &&& out@[k].groups@[0] is Some
                &&& out@[k].groups@[0]->Some_0.0 <= out@[k].groups@[0]->Some_0.1 <= n
            },
            forall|k: int| 0 <= k < out@.len() - 1 ==> #[trigger] out@[k].groups@[0]->Some_0.1
                <= out@[k + 1].groups@[0]->Some_0.0 && out@[k].groups@[0]->Some_0.0 < out@[k + 1].groups@[0]->Some_0.0,
            out@.len() > 0 ==> out@.last().groups@[0]->Some_0.0 < cursor && out@.last().groups@[0]->Some_0.1 <= cursor,
        decreases n + 1 - cursor + if done { 0int } else { 1int },
    {
        let mut found: Vec<Option<(usize, usize)>> = Vec::new();
        let mut groups: Vec<Option<Vec<Option<(usize, usize)>>>> = Vec::new();
        let mut a: usize = 0;
        while a < regexes.len()
            invariant
                n == subject.spec_bytes().len(),
                cursor <= n,
                a <= regexes@.len(),
                found@.len() == a,
                groups@.len() == a,
                forall|b: int| 0 <= b < a ==> (#[trigger] found@[b] is Some) == (groups@[b] is Some),
                forall|b: int| 0 <= b < regexes@.len() ==> (#[trigger] regexes@[b]).source() == ps[b],
                regexes@.len() == ps.len(),
                forall|b: int| 0 <= b < a ==> #[trigger] found@[b] == whole_match(first_captures(ps[b], subject@, cursor as int)),
                forall|b: int| 0 <= b < a && (#[trigger] groups@[b]) is Some ==> first_captures(ps[b], subject@, cursor as int)
                    == Some(groups@[b]->Some_0@),
                forall|b: int| 0 <= b < a && (#[trigger] groups@[b]) is Some ==> {
                    let g = groups@[b]->Some_0@;
                    &&& forall|i: int| 0 <= i < g.len() && (#[trigger] g[i]) is Some ==> spans(subject, g[i]->Some_0)
                    &&& g.len() >= 1
                    &&& g[0] is Some
                    &&& found@[b] == g[0]
                    &&& cursor <= g[0]->Some_0.0 <= g[0]->Some_0.1 <= n
                },
            decreases regexes@.len() - a,
        {
            let c = captures_from(&regexes[a], subject, cursor);
            match c {
                Some(g) => {
                    found.push(g[0]);
                    groups.push(Some(g));
                },
                None => {
                    found.push(None);
                    groups.push(None);
                },
            }
            a = a + 1;
        }
        let pick = select_arm(&found);
        proof {
            assert(found@ =~= matches_at(ps, subject@, cursor as int));
        }
        match pick {
            None => {
                done = true;
            },
            Some(w) => {
                let (start, end) = found[w].unwrap();
                assert(found@[w as int] is Some);
                assert(groups@[w as int] is Some);
                assert(cursor <= start);
                let g = groups.remove(w).unwrap();
                let next = next_cursor(subject, start, end);
                let ghost before = out@;
                out.push(ScanMatch { arm: w, groups: g });
                proof {
                    let f = matches_at(ps, subject@, cursor as int);
                    let c = choose|c: int| wins(f, c);
                    lemma_wins_unique(f, c, w as int);
                    let step = seq![(w, first_captures(ps[w as int], subject@, cursor as int)->Some_0)];
                    assert(scan_from(ps, subject@, cursor as int) == step + scan_from(ps, subject@, next as int));
                    assert(scan_view(out@) =~= scan_view(before) + step);
                    assert(scan_view(out@) + scan_from(ps, subject@, next as int) =~= scan_view(before) + scan_from(
                        ps, subject@, cursor as int));
                }
                cursor = next;
            },
        }
    }
    proof {
        assert(scan_from(ps, subject@, cursor as int) == Seq::<(usize, Seq<Option<(usize, usize)>>)>::empty());
        assert(scan_view(out@) =~= scan_view(out@) + scan_from(ps, subject@, cursor as int));
    }
    Ok(out)
}

/// The text of `s` between two character boundaries.
pub fn span_text(s: &str, m: (usize, usize)) -> (r: String)
    requires
        spans(s, m),
    ensures
        encode_utf8(r@) == s.spec_bytes().subrange(m.0 as int, m.1 as int),
{
    let ghost bytes = s.spec_bytes();
    proof {
        vstd::utf8::encode_utf8_valid_utf8(s@);
    }
    let (_, tail) = s.split_at(m.0);
    proof {
        let t = tail.spec_bytes();
        vstd::utf8::valid_utf8_split(bytes, m.0 as int);
        assert(t =~= bytes.subrange(m.0 as int, bytes.len() as int));
        let k = (m.1 - m.0) as int;
        if k < t.len() {
            assert(t[k] == bytes[m.1 as int]);
            vstd::utf8::is_char_boundary_iff_is_leading_byte(bytes, m.1 as int);
            vstd::utf8::is_char_boundary_iff_is_leading_byte(t, k);
        } else {
            vstd::utf8::is_char_boundary_start_end_of_seq(t);
        }
    }
    let (mid, _) = tail.split_at(m.1 - m.0);
    proof {
        assert(mid.spec_bytes() =~= bytes.subrange(m.0 as int, m.1 as int));
    }
    mid.to_owned()
}

/// The texts that a dispatched match binds to `$0`, `$1`, ...: the whole match, then each
/// group, with an empty text for a group that took no part in the match.
pub fn capture_texts(subject: &str, m: &ScanMatch) -> (r: Vec<String>)
    requires
        forall|i: int| 0 <= i < m.groups@.len() && (#[trigger] m.groups@[i]) is Some ==> spans(subject, m.groups@[i]->Some_0),
    ensures
        r@.len() == m.groups@.len(),
        forall|i: int| 0 <= i < r@.len() ==> (m.groups@[i] is None ==> (#[trigger] r@[i])@.len() == 0),
        forall|i: int| 0 <= i < r@.len() ==> (m.groups@[i] is Some ==> encode_utf8((#[trigger] r@[i])@)
            == subject.spec_bytes().subrange(m.groups@[i]->Some_0.0 as int, m.groups@[i]->Some_0.1 as int)),
{
    let mut r: Vec<String> = Vec::new();
    let mut i: usize = 0;
    while i < m.groups.len()
        invariant
            forall|j: int| 0 <= j < m.groups@.len() && (#[trigger] m.groups@[j]) is Some ==> spans(subject, m.groups@[j]->Some_0),
            i <= m.groups@.len(),
            r@.len() == i,
            forall|j: int| 0 <= j < i ==> (m.groups@[j] is None ==> (#[trigger] r@[j])@.len() == 0),
            forall|j: int| 0 <= j < i ==> (m.groups@[j] is Some ==> encode_utf8((#[trigger] r@[j])@)
                == subject.spec_bytes().subrange(m.groups@[j]->Some_0.0 as int, m.groups@[j]->Some_0.1 as int)),
        decreases m.groups@.len() - i,
    {
        let t = match m.groups[i] {
            Some(span) => span_text(subject, span),
            None => String::new(),
        };
        r.push(t);
        i = i + 1;
    }
    r
}

} // verus!
