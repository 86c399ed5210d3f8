//! Dotted paths and wildcard path patterns.
//!
//! A path such as `navigation.speedOverGround` is a sequence of segments
//! separated by `.`. A pattern is a path whose segments may be `*`: a trailing
//! `*` stands for one or more segments, any other `*` for exactly one.
use vstd::prelude::*;

verus! {

broadcast use vstd::string::group_string_axioms;

/// The pieces of `s` between the occurrences of `sep`, in order. A string
/// without `sep` is one piece, and the empty string is one empty piece.
pub open spec fn split_by(s: Seq<char>, sep: char) -> Seq<Seq<char>>
    decreases s.len(),
{
    if s.len() == 0 {
        seq![Seq::<char>::empty()]
    } else {
        let rest = split_by(s.drop_last(), sep);
        if s.last() == sep {
            rest.push(Seq::<char>::empty())
        } else {
            rest.update(rest.len() - 1, rest.last().push(s.last()))
        }
    }
}

/// The segments of a dotted string: the text between the dots.
pub open spec fn split_dots(s: Seq<char>) -> Seq<Seq<char>> {
    split_by(s, '.')
}

/// The pieces joined again, with `sep` between each two.
pub open spec fn join_by(segs: Seq<Seq<char>>, sep: char) -> Seq<char>
    decreases segs.len(),
{
    if segs.len() == 0 {
        Seq::<char>::empty()
    } else if segs.len() == 1 {
        segs[0]
    } else {
        join_by(segs.drop_last(), sep) + seq![sep] + segs.last()
    }
}

/// The views of a sequence of strings.
pub open spec fn strs_view(v: Seq<String>) -> Seq<Seq<char>> {
    v.map_values(|x: String| x@)
}

/// A dotted string whose segments are all non-empty (so the string itself is not empty).
pub open spec fn well_formed_path(s: Seq<char>) -> bool {
    forall|i: int| 0 <= i < split_dots(s).len() ==> (#[trigger] split_dots(s)[i]).len() > 0
}

/// Splitting yields at least one piece, and joining the pieces gives the string back.
pub proof fn lemma_join_split_by(s: Seq<char>, sep: char)
    ensures
        split_by(s, sep).len() >= 1,
        join_by(split_by(s, sep), sep) == s,
    decreases s.len(),
{
    if s.len() > 0 {
        let d = s.drop_last();
        lemma_join_split_by(d, sep);
        let rest = split_by(d, sep);
        if s.last() == sep {
            assert(rest.push(Seq::<char>::empty()).drop_last() =~= rest);
            assert(d + seq![sep] + Seq::<char>::empty() =~= s);
        } else {
            let r2 = rest.update(rest.len() - 1, rest.last().push(s.last()));
            if rest.len() == 1 {
                assert(d.push(s.last()) =~= s);
            } else {
                assert(r2.drop_last() =~= rest.drop_last());
                assert(join_by(rest.drop_last(), sep) + seq![sep] + rest.last().push(s.last()) =~= (
                join_by(rest.drop_last(), sep) + seq![sep] + rest.last()).push(s.last()));
                assert(d.push(s.last()) =~= s);
            }
        }
    }
}

/// Splitting on dots yields at least one segment, and joining gives the string back.
pub proof fn lemma_join_split(s: Seq<char>)
    ensures
        split_dots(s).len() >= 1,
        join_by(split_dots(s), '.') == s,
{
    lemma_join_split_by(s, '.');
}

/// Splitting `a`, `sep`, `b` gives the pieces of `a` followed by those of `b`.
pub proof fn lemma_split_concat(a: Seq<char>, b: Seq<char>, sep: char)
    ensures
        split_by(a + seq![sep] + b, sep) == split_by(a, sep) + split_by(b, sep),
    decreases b.len(),
{
    let whole = a + seq![sep] + b;
    if b.len() == 0 {
        assert(whole =~= a.push(sep));
        assert(whole.drop_last() =~= a);
        assert(split_by(b, sep) == seq![Seq::<char>::empty()]);
        assert(split_by(a, sep).push(Seq::<char>::empty()) =~= split_by(a, sep) + seq![Seq::<char>::empty()]);
    } else {
        let b2 = b.drop_last();
        let c = b.last();
        lemma_split_concat(a, b2, sep);
        lemma_join_split_by(b2, sep);
        assert(whole.drop_last() =~= a + seq![sep] + b2);
        assert(whole.last() == c);
        let left = split_by(a, sep);
        let right = split_by(b2, sep);
        if c == sep {
            assert((left + right).push(Seq::<char>::empty()) =~= left + right.push(Seq::<char>::empty()));
        } else {
            let lr = left + right;
            assert(lr.update(lr.len() - 1, lr.last().push(c)) =~= left + right.update(
                right.len() - 1,
                right.last().push(c),
            ));
        }
    }
}

/// Strings with the same segments are the same string.
pub proof fn lemma_split_injective(a: Seq<char>, b: Seq<char>)
    requires
        split_dots(a) == split_dots(b),
    ensures
        a == b,
{
    lemma_join_split(a);
    lemma_join_split(b);
}

/// A string with a single segment is that segment.
pub proof fn lemma_single_segment(s: Seq<char>)
    requires
        split_dots(s).len() == 1,
    ensures
        split_dots(s)[0] == s,
{
    lemma_join_split(s);
}

/// Splits a string into the pieces between occurrences of `sep`.
pub fn split_text(s: &str, sep: char) -> (r: Vec<String>)
    ensures
        strs_view(r@) == split_by(s@, sep),
{
    let n = s.unicode_len();
    let mut out: Vec<String> = Vec::new();
    let mut start: usize = 0;
    let mut i: usize = 0;
    assert(s@.take(0) =~= Seq::<char>::empty());
    assert(strs_view(out@).push(s@.subrange(0, 0)) =~= seq![Seq::<char>::empty()]);
    while i < n
        invariant
            n == s@.len(),
            start <= i <= n,
            strs_view(out@).push(s@.subrange(start as int, i as int)) == split_by(
                s@.take(i as int),
                sep,
            ),
        decreases n - i,
    {
        let c = s.get_char(i);
        let ghost before = s@.take(i as int);
        let ghost after = s@.take(i as int + 1);
        assert(after.drop_last() =~= before);
        assert(after.last() == c);
        proof {
            lemma_join_split_by(before, sep);
        }
        if c == sep {
            let seg = s.substring_char(start, i).to_owned();
            let ghost old_out = out@;
            out.push(seg);
            assert(strs_view(out@) =~= strs_view(old_out).push(s@.subrange(start as int, i as int)));
            assert(s@.subrange(i as int + 1, i as int + 1) =~= Seq::<char>::empty());
            start = i + 1;
        } else {
            assert(s@.subrange(start as int, i as int + 1) =~= s@.subrange(start as int, i as int).push(c));
            assert(strs_view(out@).push(s@.subrange(start as int, i as int + 1)) =~= strs_view(out@).push(
                s@.subrange(start as int, i as int),
            ).update(strs_view(out@).len() as int, s@.subrange(start as int, i as int).push(c)));
        }
        i = i + 1;
    }
    let last = s.substring_char(start, n).to_owned();
    let ghost old_out = out@;
    out.push(last);
    assert(strs_view(out@) =~= strs_view(old_out).push(s@.subrange(start as int, n as int)));
    assert(s@.take(n as int) =~= s@);
    out
}

/// Splits a dotted string into its segments.
pub fn split_path(s: &str) -> (r: Vec<String>)
    ensures
        strs_view(r@) == split_dots(s@),
{
    split_text(s, '.')
}

/// Index of the first `c` in `r`, or the length of `r` when there is none.
pub open spec fn first_of(r: Seq<char>, c: char) -> int
    decreases r.len(),
{
    if r.len() == 0 {
        0
    } else if r[0] == c {
        0
    } else {
        1 + first_of(r.drop_first(), c)
    }
}

/// The first `c` of `r` is at `k` when the text before `k` has none and `k`
/// ends the string or holds `c`.
pub proof fn lemma_first_of(r: Seq<char>, c: char, k: int)
    requires
        0 <= k <= r.len(),
        forall|j: int| 0 <= j < k ==> r[j] != c,
        k == r.len() || r[k] == c,
    ensures
        first_of(r, c) == k,
    decreases k,
{
    if k > 0 {
        lemma_first_of(r.drop_first(), c, k - 1);
    }
}

/// Index of the first `c` in `s`, or its length when there is none.
pub fn find_char(s: &str, c: char) -> (k: usize)
    ensures
        k == first_of(s@, c),
        k <= s@.len(),
{
    let n = s.unicode_len();
    let mut k: usize = 0;
    while k < n && s.get_char(k) != c
        invariant
            n == s@.len(),
            k <= n,
            forall|j: int| 0 <= j < k ==> s@[j] != c,
        decreases n - k,
    {
        k = k + 1;
    }
    proof {
        lemma_first_of(s@, c, k as int);
    }
    k
}

/// Joins strings with `sep` between each two.
pub fn join_text(v: &[String], sep: &str) -> (r: String)
    requires
        sep@.len() == 1,
    ensures
        r@ == join_by(strs_view(v@), sep@[0]),
{
    let mut out = String::new();
    let mut i: usize = 0;
    let ghost sv = strs_view(v@);
    while i < v.len()
        invariant
            sv == strs_view(v@),
            sep@.len() == 1,
            i <= v@.len(),
            out@ == join_by(sv.take(i as int), sep@[0]),
        decreases v.len() - i,
    {
        assert(sv.take(i as int + 1).drop_last() =~= sv.take(i as int));
        assert(sv.take(i as int + 1).last() == v@[i as int]@);
        if i > 0 {
            out.append(sep);
            assert(sep@ =~= seq![sep@[0]]);
        } else {
            assert(out@ =~= Seq::<char>::empty());
        }
        out.append(v[i].as_str());
        i = i + 1;
    }
    assert(sv.take(v@.len() as int) =~= sv);
    out
}

/// Whether two strings hold the same characters.
pub fn str_eq(a: &str, b: &str) -> (r: bool)
    ensures
        r == (a@ == b@),
{
    let n = a.unicode_len();
    let m = b.unicode_len();
    if n != m {
        return false;
    }
    let mut i: usize = 0;
    while i < n
        invariant
            n == a@.len(),
            m == b@.len(),
            n == m,
            i <= n,
            a@.take(i as int) == b@.take(i as int),
        decreases n - i,
    {
        if a.get_char(i) != b.get_char(i) {
            assert(a@[i as int] != b@[i as int]);
            return false;
        }
        assert(a@.take(i as int + 1) =~= a@.take(i as int).push(a@[i as int]));
        assert(b@.take(i as int + 1) =~= b@.take(i as int).push(b@[i as int]));
        i = i + 1;
    }
    assert(a@ =~= a@.take(n as int));
    assert(b@ =~= b@.take(n as int));
    true
}

/// A parsed path: the dotted string and its segments.
#[derive(Debug)]
pub struct Path {
    raw: String,
    segments: Vec<String>,
}

impl View for Path {
    type V = Seq<char>;

    closed spec fn view(&self) -> Seq<char> {
        self.raw@
    }
}

/// Whether the first sequence of segments begins the second.
pub open spec fn segments_prefix(prefix: Seq<Seq<char>>, segs: Seq<Seq<char>>) -> bool {
    prefix.len() <= segs.len() && segs.take(prefix.len() as int) == prefix
}

impl Path {
    #[verifier::type_invariant]
    spec fn inv(self) -> bool {
        strs_view(self.segments@) == split_dots(self.raw@)
    }

    /// Parses a path string into its segments.
    pub fn new(path: &str) -> (r: Self)
        ensures
            r@ == path@,
    {
        let segments = split_path(path);
        let raw = path.to_owned();
        assert(raw@ == path@);
        Path { raw, segments }
    }

    /// The path string.
    pub fn as_str(&self) -> (r: &str)
        ensures
            r@ == self@,
    {
        self.raw.as_str()
    }

    /// The segments of the path.
    pub fn segments(&self) -> (r: &[String])
        ensures
            strs_view(r@) == split_dots(self@),
    {
        proof {
            use_type_invariant(self);
        }
        self.segments.as_slice()
    }

    /// Whether `prefix`'s segments begin this path's segments.
    pub fn starts_with(&self, prefix: &Path) -> (r: bool)
        ensures
            r == segments_prefix(split_dots(prefix@), split_dots(self@)),
    {
        proof {
            use_type_invariant(self);
            use_type_invariant(prefix);
        }
        let n = prefix.segments.len();
        assert(strs_view(prefix.segments@).len() == n);
        assert(strs_view(self.segments@).len() == self.segments@.len());
        if n > self.segments.len() {
            return false;
        }
        let mut i: usize = 0;
        while i < n
            invariant
                n == prefix.segments@.len(),
                n <= self.segments@.len(),
                strs_view(self.segments@) == split_dots(self@),
                strs_view(prefix.segments@) == split_dots(prefix@),
                i <= n,
                forall|j: int| 0 <= j < i ==> self.segments@[j]@ == prefix.segments@[j]@,
            decreases n - i,
        {
            if self.segments[i] != prefix.segments[i] {
                assert(strs_view(self.segments@)[i as int] != strs_view(prefix.segments@)[i as int]);
                assert(strs_view(self.segments@).take(n as int)[i as int] != strs_view(
                    prefix.segments@,
                )[i as int]);
                return false;
            }
            i = i + 1;
        }
        assert(strs_view(self.segments@).take(n as int) =~= strs_view(prefix.segments@));
        true
    }
}

/// Whether a pattern segment is the wildcard `*`.
pub open spec fn is_star(seg: Seq<char>) -> bool {
    seg == seq!['*']
}

/// Whether one pattern segment accepts one path segment: `*` accepts any
/// non-empty segment, any other text only itself.
pub open spec fn segment_matches(p: Seq<char>, x: Seq<char>) -> bool {
    if is_star(p) {
        x.len() > 0
    } else {
        x == p
    }
}

/// Whether pattern segments accept path segments. The lone `*` accepts any
/// non-empty path; a trailing `*` after other segments accepts one or more
/// further segments, all non-empty; otherwise the counts must agree and each
/// segment must be accepted.
pub open spec fn segments_match(pat: Seq<Seq<char>>, path: Seq<Seq<char>>) -> bool {
    let n = pat.len();
    let m = path.len();
    if n == 1 && is_star(pat[0]) {
        m > 1 || path[0].len() > 0
    } else if n > 0 && is_star(pat[n - 1]) {
        &&& m >= n
        &&& forall|i: int| 0 <= i < n - 1 ==> segment_matches(#[trigger] pat[i], path[i])
        &&& forall|i: int| n - 1 <= i < m ==> (#[trigger] path[i]).len() > 0
    } else {
        &&& m == n
        &&& forall|i: int| 0 <= i < n ==> segment_matches(#[trigger] pat[i], path[i])
    }
}

/// Whether the pattern string accepts the path string.
pub open spec fn glob_match(pattern: Seq<char>, path: Seq<char>) -> bool {
    segments_match(split_dots(pattern), split_dots(path))
}

/// Whether no segment of the pattern is `*`.
pub open spec fn is_literal_pattern(pattern: Seq<char>) -> bool {
    forall|i: int| 0 <= i < split_dots(pattern).len() ==> !is_star(#[trigger] split_dots(pattern)[i])
}

/// One compiled pattern segment.
#[derive(Debug, Clone)]
enum PatternSegment {
    Literal(String),
    Wildcard,
}

spec fn segment_text(g: PatternSegment) -> Seq<char> {
    match g {
        PatternSegment::Literal(s) => s@,
        PatternSegment::Wildcard => seq!['*'],
    }
}

/// Why a pattern string could not be compiled.
#[derive(Debug, Clone, PartialEq, Eq)]
pub enum PatternError {
    /// The pattern is empty or has an empty segment, as in `a..b` or `a.`.
    EmptyPattern,
}

/// A compiled path pattern.
#[derive(Debug)]
pub struct PathPattern {
    raw: String,
    segments: Vec<PatternSegment>,
    trailing_wildcard: bool,
}

impl View for PathPattern {
    type V = Seq<char>;

    closed spec fn view(&self) -> Seq<char> {
        self.raw@
    }
}

impl PathPattern {
    #[verifier::type_invariant]
    spec fn inv(self) -> bool {
        let segs = split_dots(self.raw@);
        &&& well_formed_path(self.raw@)
        &&& self.segments@.len() == segs.len()
        &&& forall|i: int|
            0 <= i < segs.len() ==> segment_text(#[trigger] self.segments@[i]) == segs[i]
        &&& forall|i: int|
            0 <= i < segs.len() ==> ((#[trigger] self.segments@[i] is Wildcard) <==> is_star(segs[i]))
        &&& self.trailing_wildcard == is_star(segs.last())
    }

    /// Compiles a pattern string. The empty string and strings with an empty
    /// segment are refused.
    pub fn new(pattern: &str) -> (r: Result<Self, PatternError>)
        ensures
            !well_formed_path(pattern@) ==> r == Err::<Self, PatternError>(PatternError::EmptyPattern),
            well_formed_path(pattern@) <==> r is Ok,
            r matches Ok(p) ==> p@ == pattern@,
    {
        if pattern.is_empty() {
            assert(pattern@ =~= Seq::<char>::empty());
            assert(split_dots(pattern@)[0].len() == 0);
            return Err(PatternError::EmptyPattern);
        }
        let parts = split_path(pattern);
        let mut i: usize = 0;
        while i < parts.len()
            invariant
                strs_view(parts@) == split_dots(pattern@),
                pattern@.len() > 0,
                i <= parts@.len(),
                forall|j: int| 0 <= j < i ==> (#[trigger] parts@[j])@.len() > 0,
            decreases parts.len() - i,
        {
            if parts[i].as_str().is_empty() {
                assert(split_dots(pattern@)[i as int].len() == 0);
                return Err(PatternError::EmptyPattern);
            }
            i = i + 1;
        }
        assert forall|j: int| 0 <= j < split_dots(pattern@).len() implies (#[trigger] split_dots(
            pattern@,
        )[j]).len() > 0 by {
            assert(split_dots(pattern@)[j] == parts@[j]@);
        }
        Ok(Self::compile(pattern))
    }

    /// Compiles a pattern string whose segments are all non-empty.
    pub fn compile(pattern: &str) -> (r: Self)
        requires
            well_formed_path(pattern@),
        ensures
            r@ == pattern@,
    {
        proof {
            reveal_strlit("*");
            lemma_join_split(pattern@);
        }
        let parts = split_path(pattern);
        let star = "*".to_owned();
        let mut segments: Vec<PatternSegment> = Vec::new();
        let mut i: usize = 0;
        while i < parts.len()
            invariant
                strs_view(parts@) == split_dots(pattern@),
                star@ == seq!['*'],
                i <= parts@.len(),
                segments@.len() == i,
                forall|j: int|
                    0 <= j < i ==> segment_text(#[trigger] segments@[j]) == parts@[j]@,
                forall|j: int|
                    0 <= j < i ==> ((#[trigger] segments@[j] is Wildcard) <==> is_star(
                        parts@[j]@,
                    )),
            decreases parts.len() - i,
        {
            if parts[i] == star {
                segments.push(PatternSegment::Wildcard);
            } else {
                segments.push(PatternSegment::Literal(parts[i].clone()));
            }
            i = i + 1;
        }
        let n = parts.len();
        assert(parts@[n - 1]@ == split_dots(pattern@).last());
        let trailing_wildcard = parts[n - 1] == star;
        PathPattern { raw: pattern.to_owned(), segments, trailing_wildcard }
    }

    /// Whether the path is accepted by this pattern.
    pub fn matches(&self, path: &str) -> (r: bool)
        ensures
            r == glob_match(self@, path@),
    {
        proof {
            use_type_invariant(self);
            lemma_join_split(self.raw@);
            lemma_join_split(path@);
        }
        let ghost pat = split_dots(self.raw@);
        let ghost segs = split_dots(path@);
        let parts = split_path(path);
        let n = self.segments.len();
        let m = parts.len();
        if self.trailing_wildcard {
            if m < n {
                return false;
            }
        } else if m != n {
            return false;
        }
        let end = if self.trailing_wildcard {
            n - 1
        } else {
            n
        };
        let mut i: usize = 0;
        while i < end
            invariant
                pat == split_dots(self@),
                segs == split_dots(path@),
                n == pat.len(),
                n == self.segments@.len(),
                m == segs.len(),
                strs_view(parts@) == segs,
                end <= n,
                end <= m,
                n >= 1,
                self.trailing_wildcard == is_star(pat[n - 1]),
                end == (if self.trailing_wildcard { n - 1 } else { n as int }),
                self.trailing_wildcard ==> m >= n,
                !self.trailing_wildcard ==> m == n,
                i <= end,
                forall|j: int| 0 <= j < i ==> segment_matches(#[trigger] pat[j], segs[j]),
                forall|j: int| 0 <= j < n ==> segment_text(#[trigger] self.segments@[j]) == pat[j],
                forall|j: int|
                    0 <= j < n ==> ((#[trigger] self.segments@[j] is Wildcard) <==> is_star(pat[j])),
            decreases end - i,
        {
            let ok = match &self.segments[i] {
                PatternSegment::Literal(lit) => parts[i] == *lit,
                PatternSegment::Wildcard => !parts[i].as_str().is_empty(),
            };
            assert(parts@[i as int]@ == segs[i as int]);
            if !ok {
                assert(!segment_matches(pat[i as int], segs[i as int]));
                return false;
            }
            i = i + 1;
        }
        if !self.trailing_wildcard {
            return true;
        }
        if n == 1 {
            assert(parts@[0]@ == segs[0]);
            return m > 1 || !parts[0].as_str().is_empty();
        }
        let mut k: usize = n - 1;
        while k < m
            invariant
                segs == split_dots(path@),
                pat == split_dots(self@),
                n == pat.len(),
                is_star(pat[n - 1]),
                forall|j: int| 0 <= j < n - 1 ==> segment_matches(#[trigger] pat[j], segs[j]),
                m == segs.len(),
                strs_view(parts@) == segs,
                n >= 2,
                n - 1 <= k <= m,
                forall|j: int| n - 1 <= j < k ==> (#[trigger] segs[j]).len() > 0,
            decreases m - k,
        {
            assert(parts@[k as int]@ == segs[k as int]);
            if parts[k].as_str().is_empty() {
                return false;
            }
            k = k + 1;
        }
        true
    }

    /// The pattern string.
    pub fn as_str(&self) -> (r: &str)
        ensures
            r@ == self@,
    {
        self.raw.as_str()
    }

    /// A copy of this pattern.
    pub fn duplicate(&self) -> (r: Self)
        ensures
            r@ == self@,
    {
        proof {
            use_type_invariant(self);
        }
        let ghost segs = split_dots(self.raw@);
        let mut segments: Vec<PatternSegment> = Vec::new();
        let mut i: usize = 0;
        while i < self.segments.len()
            invariant
                segs == split_dots(self.raw@),
                self.segments@.len() == segs.len(),
                forall|j: int| 0 <= j < segs.len() ==> segment_text(#[trigger] self.segments@[j]) == segs[j],
                forall|j: int| 0 <= j < segs.len() ==> ((#[trigger] self.segments@[j] is Wildcard) <==> is_star(segs[j])),
                i <= self.segments@.len(),
                segments@.len() == i,
                forall|j: int| 0 <= j < i ==> segment_text(#[trigger] segments@[j]) == segs[j],
                forall|j: int| 0 <= j < i ==> ((#[trigger] segments@[j] is Wildcard) <==> is_star(segs[j])),
            decreases self.segments.len() - i,
        {
            let g = match &self.segments[i] {
                PatternSegment::Literal(s) => PatternSegment::Literal(s.clone()),
                PatternSegment::Wildcard => PatternSegment::Wildcard,
            };
            segments.push(g);
            i = i + 1;
        }
        PathPattern { raw: self.raw.clone(), segments, trailing_wildcard: self.trailing_wildcard }
    }
}

/// `*` accepts every non-empty path.
pub proof fn lemma_star_matches_nonempty(path: Seq<char>)
    requires
        path.len() > 0,
    ensures
        glob_match(seq!['*'], path),
{
    let star = seq!['*'];
    assert(star.drop_last() =~= Seq::<char>::empty());
    assert(split_dots(Seq::<char>::empty()) == seq![Seq::<char>::empty()]);
    assert(Seq::<char>::empty().push('*') =~= star);
    assert(split_dots(star) =~= seq![star]);
    lemma_join_split(path);
    if split_dots(path).len() == 1 {
        lemma_single_segment(path);
    }
}

/// `prefix.*`, for a prefix without `*`, accepts exactly the paths that begin
/// with the prefix's segments and have at least one more segment, all of the
/// segments after the prefix being non-empty.
pub proof fn lemma_prefix_star(prefix: Seq<char>, path: Seq<char>)
    requires
        well_formed_path(prefix),
        is_literal_pattern(prefix),
    ensures
        glob_match(prefix + seq!['.'] + seq!['*'], path) <==> ({
            let ps = split_dots(prefix);
            let xs = split_dots(path);
            &&& xs.len() > ps.len()
            &&& forall|i: int| 0 <= i < ps.len() ==> xs[i] == ps[i]
            &&& forall|i: int| ps.len() <= i < xs.len() ==> (#[trigger] xs[i]).len() > 0
        }),
{
    let star = seq!['*'];
    assert(star.drop_last() =~= Seq::<char>::empty());
    assert(split_dots(Seq::<char>::empty()) == seq![Seq::<char>::empty()]);
    assert(Seq::<char>::empty().push('*') =~= star);
    assert(split_dots(star) =~= seq![star]);
    lemma_split_concat(prefix, star, '.');
    lemma_join_split(prefix);
    let ps = split_dots(prefix);
    let pat = ps + seq![star];
    assert(split_dots(prefix + seq!['.'] + star) == pat);
    assert(pat[pat.len() - 1] == star);
    assert forall|i: int| 0 <= i < ps.len() implies pat[i] == ps[i] && !is_star(#[trigger] pat[i]) by {
        assert(!is_star(ps[i]));
    }
    let xs = split_dots(path);
    let n = pat.len();
    assert(n >= 2);
    if glob_match(prefix + seq!['.'] + star, path) {
        assert(segments_match(pat, xs));
        assert forall|i: int| 0 <= i < ps.len() implies xs[i] == ps[i] by {
            assert(segment_matches(pat[i], xs[i]));
            assert(!is_star(pat[i]));
        }
    }
    if xs.len() > ps.len() && (forall|i: int| 0 <= i < ps.len() ==> xs[i] == ps[i]) && (forall|i: int|
        ps.len() <= i < xs.len() ==> (#[trigger] xs[i]).len() > 0) {
        assert forall|i: int| 0 <= i < n - 1 implies segment_matches(#[trigger] pat[i], xs[i]) by {
            assert(!is_star(pat[i]));
            assert(pat[i] == ps[i]);
        }
        assert(segments_match(pat, xs));
    }
}

/// A pattern without `*` accepts exactly the path equal to it.
pub proof fn lemma_literal_matches_itself_only(pattern: Seq<char>, path: Seq<char>)
    requires
        well_formed_path(pattern),
        is_literal_pattern(pattern),
    ensures
        glob_match(pattern, path) <==> path == pattern,
{
    let ps = split_dots(pattern);
    let xs = split_dots(path);
    lemma_join_split(pattern);
    assert(!is_star(ps[ps.len() - 1]));
    if glob_match(pattern, path) {
        assert forall|i: int| 0 <= i < ps.len() implies ps[i] == xs[i] by {
            assert(!is_star(ps[i]));
            assert(segment_matches(ps[i], xs[i]));
        }
        assert(ps =~= xs);
        lemma_split_injective(pattern, path);
    }
    if path == pattern {
        assert forall|i: int| 0 <= i < ps.len() implies segment_matches(#[trigger] ps[i], xs[i]) by {
            assert(!is_star(ps[i]));
        }
    }
}

} // verus!
