//! Route patterns: parsing a route spec and matching request paths.
//!
//! A pattern is a list of segments. A literal segment matches itself, a
//! parameter (`:name`) matches any one segment and binds it, and a catch-all
//! (`*name`) in last place binds whatever is left of the path.

use crate::fields::{lookup, Fields};
use crate::path::{
    all_segments, is_segment, join_path, join_relative, lemma_split_gives_segments, split_path,
    split_segments,
};
use vstd::prelude::*;
use vstd::string::*;

verus! {

/// Why a route spec is not a pattern.
#[derive(Debug, Clone, Copy, PartialEq, Eq, Structural)]
pub enum PatternError {
    /// A parameter or catch-all has no name (`:` or `*` alone).
    EmptyName,
    /// A name is bound twice in one pattern.
    DuplicateName,
    /// A catch-all stands before the last segment.
    CatchAllNotLast,
}

/// One segment of a pattern.
#[derive(Debug)]
pub enum Segment {
    /// Matches exactly this text.
    Literal(String),
    /// Matches any one segment and binds it to this name.
    Param(String),
    /// Matches the rest of the path and binds it to this name.
    CatchAll(String),
}

/// What a segment is, as plain text.
pub enum SegmentView {
    Literal(Seq<char>),
    Param(Seq<char>),
    CatchAll(Seq<char>),
}

impl View for Segment {
    type V = SegmentView;

    open spec fn view(&self) -> SegmentView {
        match self {
            Segment::Literal(t) => SegmentView::Literal(t@),
            Segment::Param(n) => SegmentView::Param(n@),
            Segment::CatchAll(n) => SegmentView::CatchAll(n@),
        }
    }
}

/// The name that a segment binds, if it binds one.
pub open spec fn seg_name(s: SegmentView) -> Option<Seq<char>> {
    match s {
        SegmentView::Literal(_) => None,
        SegmentView::Param(n) => Some(n),
        SegmentView::CatchAll(n) => Some(n),
    }
}

/// How loosely a segment matches: a literal least, a catch-all most.
pub open spec fn seg_rank(s: SegmentView) -> int {
    match s {
        SegmentView::Literal(_) => 0,
        SegmentView::Param(_) => 1,
        SegmentView::CatchAll(_) => 2,
    }
}

/// A literal is a segment that does not read as a parameter or catch-all;
/// a name is a segment.
pub open spec fn seg_wf(s: SegmentView) -> bool {
    match s {
        SegmentView::Literal(t) => is_segment(t) && t[0] != ':' && t[0] != '*',
        SegmentView::Param(n) => is_segment(n),
        SegmentView::CatchAll(n) => is_segment(n),
    }
}

/// The invariant of a pattern: sound segments, a catch-all only in last
/// place, and no name bound twice.
pub open spec fn pattern_wf(p: Seq<SegmentView>) -> bool {
    &&& forall|k: int| 0 <= k < p.len() ==> seg_wf(#[trigger] p[k])
    &&& forall|k: int| 0 <= k < p.len() && (#[trigger] p[k]) is CatchAll ==> k == p.len() - 1
    &&& forall|i: int, j: int|
        0 <= i < j < p.len() && seg_name(p[j]) is Some ==> #[trigger] seg_name(p[i])
            != #[trigger] seg_name(p[j])
}

/// How one piece of a route spec is read.
pub open spec fn classify(t: Seq<char>) -> SegmentView {
    if t.len() > 0 && t[0] == ':' {
        SegmentView::Param(t.skip(1))
    } else if t.len() > 0 && t[0] == '*' {
        SegmentView::CatchAll(t.skip(1))
    } else {
        SegmentView::Literal(t)
    }
}

/// Every piece of a route spec, read in turn.
pub open spec fn classify_all(raw: Seq<Seq<char>>) -> Seq<SegmentView> {
    Seq::new(raw.len(), |k: int| classify(raw[k]))
}

/// Some piece before the `k`-th binds `name`.
pub open spec fn name_bound_before(raw: Seq<Seq<char>>, k: int, name: Seq<char>) -> bool {
    exists|j: int| 0 <= j < k && #[trigger] seg_name(classify(raw[j])) == Some(name)
}

/// What is wrong with the `k`-th piece of a route spec, given those before
/// it. An empty name is reported first, then a misplaced catch-all, then a
/// name already bound.
pub open spec fn fault_at(raw: Seq<Seq<char>>, k: int) -> Option<PatternError> {
    let seg = classify(raw[k]);
    match seg_name(seg) {
        None => None,
        Some(name) => if name.len() == 0 {
            Some(PatternError::EmptyName)
        } else if seg is CatchAll && k + 1 < raw.len() {
            Some(PatternError::CatchAllNotLast)
        } else if name_bound_before(raw, k, name) {
            Some(PatternError::DuplicateName)
        } else {
            None
        },
    }
}

/// None of the first `k` pieces is at fault.
pub open spec fn no_fault_before(raw: Seq<Seq<char>>, k: int) -> bool {
    forall|j: int| 0 <= j < k ==> (#[trigger] fault_at(raw, j)) is None
}

/// The `k`-th piece is the first one at fault.
pub open spec fn first_fault_at(raw: Seq<Seq<char>>, k: int) -> bool {
    0 <= k < raw.len() && fault_at(raw, k) is Some && no_fault_before(raw, k)
}

/// The pattern that a list of pieces stands for, or the fault of the first
/// piece that has one.
pub open spec fn parse_segments(raw: Seq<Seq<char>>) -> Result<Seq<SegmentView>, PatternError> {
    if no_fault_before(raw, raw.len() as int) {
        Ok(classify_all(raw))
    } else {
        let k = choose|k: int| first_fault_at(raw, k);
        Err(fault_at(raw, k)->0)
    }
}

/// The pattern that a route spec stands for, or why it stands for none.
pub open spec fn spec_parse(spec: Seq<char>) -> Result<Seq<SegmentView>, PatternError> {
    parse_segments(split_path(spec))
}

/// Whether a pattern accepts a list of path segments.
pub open spec fn spec_fits(p: Seq<SegmentView>, segs: Seq<Seq<char>>) -> bool
    decreases p.len(),
{
    if p.len() == 0 {
        segs.len() == 0
    } else {
        match p[0] {
            SegmentView::CatchAll(_) => p.len() == 1,
            SegmentView::Literal(t) => segs.len() > 0 && segs[0] == t && spec_fits(
                p.skip(1),
                segs.skip(1),
            ),
            SegmentView::Param(_) => segs.len() > 0 && spec_fits(p.skip(1), segs.skip(1)),
        }
    }
}

/// The values that a pattern binds in a list of path segments that it
/// accepts, in the order of the pattern's names.
pub open spec fn spec_bind(p: Seq<SegmentView>, segs: Seq<Seq<char>>) -> Seq<
    (Seq<char>, Seq<char>),
>
    decreases p.len(),
{
    if p.len() == 0 {
        Seq::empty()
    } else {
        match p[0] {
            SegmentView::CatchAll(n) => seq![(n, join_relative(segs))],
            SegmentView::Literal(_) => spec_bind(p.skip(1), segs.skip(1)),
            SegmentView::Param(n) => seq![(n, segs[0])] + spec_bind(p.skip(1), segs.skip(1)),
        }
    }
}

/// Matching: the bindings where the pattern accepts the segments.
pub open spec fn spec_match(p: Seq<SegmentView>, segs: Seq<Seq<char>>) -> Option<
    Seq<(Seq<char>, Seq<char>)>,
> {
    if spec_fits(p, segs) {
        Some(spec_bind(p, segs))
    } else {
        None
    }
}

/// Whether pattern `a` is more specific than pattern `b`: at the first
/// place where their segments differ in kind, `a` has the tighter one, or
/// `a` ends there and `b` goes on.
pub open spec fn outranks(a: Seq<SegmentView>, b: Seq<SegmentView>) -> bool
    decreases a.len(),
{
    if b.len() == 0 {
        false
    } else if a.len() == 0 {
        true
    } else if seg_rank(a[0]) != seg_rank(b[0]) {
        seg_rank(a[0]) < seg_rank(b[0])
    } else {
        outranks(a.skip(1), b.skip(1))
    }
}

/// Only one piece can be the first at fault.
pub proof fn lemma_first_fault_unique(raw: Seq<Seq<char>>, k: int)
    requires
        first_fault_at(raw, k),
    ensures
        parse_segments(raw) == Err::<Seq<SegmentView>, PatternError>(fault_at(raw, k)->0),
{
}

/// Pieces without fault make a sound pattern.
pub proof fn lemma_parse_wf(raw: Seq<Seq<char>>)
    requires
        all_segments(raw),
        no_fault_before(raw, raw.len() as int),
    ensures
        pattern_wf(classify_all(raw)),
{
    let p = classify_all(raw);
    assert forall|k: int| 0 <= k < p.len() implies seg_wf(#[trigger] p[k]) by {
        assert(fault_at(raw, k) is None);
    }
    assert forall|k: int| 0 <= k < p.len() && (#[trigger] p[k]) is CatchAll implies k == p.len()
        - 1 by {
        assert(fault_at(raw, k) is None);
    }
    assert forall|i: int, j: int|
        0 <= i < j < p.len() && seg_name(p[j]) is Some implies #[trigger] seg_name(p[i])
        != #[trigger] seg_name(p[j]) by {
        assert(fault_at(raw, j) is None);
    }
}

/// What is left of a sound pattern behind its first segment is sound.
pub proof fn lemma_wf_skip(p: Seq<SegmentView>)
    requires
        pattern_wf(p),
        p.len() > 0,
    ensures
        pattern_wf(p.skip(1)),
{
}

impl Segment {
    /// Whether two segments are the same kind with the same text.
    pub fn same(&self, other: &Segment) -> (b: bool)
        ensures
            b == (self@ == other@),
    {
        match (self, other) {
            (Segment::Literal(a), Segment::Literal(b)) => *a == *b,
            (Segment::Param(a), Segment::Param(b)) => *a == *b,
            (Segment::CatchAll(a), Segment::CatchAll(b)) => *a == *b,
            _ => false,
        }
    }

    /// The segment's rank: 0 for a literal, 1 for a parameter, 2 for a
    /// catch-all.
    pub fn rank(&self) -> (r: u8)
        ensures
            r == seg_rank(self@),
    {
        match self {
            Segment::Literal(_) => 0,
            Segment::Param(_) => 1,
            Segment::CatchAll(_) => 2,
        }
    }

    /// A copy of the segment.
    pub fn duplicate(&self) -> (out: Segment)
        ensures
            out@ == self@,
    {
        match self {
            Segment::Literal(t) => Segment::Literal(t.clone()),
            Segment::Param(n) => Segment::Param(n.clone()),
            Segment::CatchAll(n) => Segment::CatchAll(n.clone()),
        }
    }
}

/// A parsed route spec.
#[derive(Debug)]
pub struct PathPattern {
    segments: Vec<Segment>,
}

impl View for PathPattern {
    type V = Seq<SegmentView>;

    closed spec fn view(&self) -> Seq<SegmentView> {
        Seq::new(self.segments@.len(), |k: int| self.segments@[k]@)
    }
}

/// Whether one of `segs` binds `name`.
fn binds_name(segs: &Vec<Segment>, name: &String) -> (b: bool)
    ensures
        b == exists|j: int| 0 <= j < segs.len() && #[trigger] seg_name(segs@[j]@) == Some(name@),
{
    let mut j: usize = 0;
    while j < segs.len()
        invariant
            j <= segs.len(),
            forall|i: int| 0 <= i < j ==> #[trigger] seg_name(segs@[i]@) != Some(name@),
        decreases segs.len() - j,
    {
        let hit = match &segs[j] {
            Segment::Literal(_) => false,
            Segment::Param(n) => *n == *name,
            Segment::CatchAll(n) => *n == *name,
        };
        if hit {
            assert(seg_name(segs@[j as int]@) == Some(name@));
            return true;
        }
        j += 1;
    }
    false
}

impl PathPattern {
    /// The invariant of a pattern. Every pattern meets it.
    pub open spec fn wf(&self) -> bool {
        pattern_wf(self@)
    }

    #[verifier::type_invariant]
    spec fn inv(self) -> bool {
        pattern_wf(self@)
    }

    /// Recalls that the pattern meets its invariant. Does nothing when run.
    pub fn sound(&self)
        ensures
            self.wf(),
    {
        proof {
            use_type_invariant(self);
        }
    }

    /// Parses a route spec: splits it at slashes, drops empty pieces, and
    /// reads `:name` as a parameter, `*name` as a catch-all and anything
    /// else as a literal. Fails on an empty name, on a catch-all that is not
    /// last, and on a name bound twice: with the fault of the first piece
    /// that has one.
    pub fn parse(spec: &str) -> (r: Result<PathPattern, PatternError>)
        ensures
            match r {
                Ok(p) => spec_parse(spec@) == Ok::<Seq<SegmentView>, PatternError>(p@) && p.wf(),
                Err(e) => spec_parse(spec@) == Err::<Seq<SegmentView>, PatternError>(e),
            },
    {
        let raw = split_segments(spec);
        let ghost texts = raw.deep_view();
        proof {
            lemma_split_gives_segments(spec@);
        }
        let mut segments: Vec<Segment> = Vec::new();
        let mut k: usize = 0;
        while k < raw.len()
            invariant
                k <= raw.len(),
                texts == raw.deep_view(),
                texts == split_path(spec@),
                all_segments(texts),
                segments.len() == k,
                forall|j: int| 0 <= j < k ==> (#[trigger] segments@[j])@ == classify(texts[j]),
                no_fault_before(texts, k as int),
            decreases raw.len() - k,
        {
            let text = raw[k].as_str();
            assert(text@ == texts[k as int]);
            let len = text.unicode_len();
            let first = text.get_char(0);
            if first == ':' || first == '*' {
                let name = text.substring_char(1, len).to_owned();
                if len == 1 {
                    proof {
                        lemma_first_fault_unique(texts, k as int);
                    }
                    return Err(PatternError::EmptyName);
                }
                if first == '*' && k + 1 < raw.len() {
                    proof {
                        lemma_first_fault_unique(texts, k as int);
                    }
                    return Err(PatternError::CatchAllNotLast);
                }
                let taken = binds_name(&segments, &name);
                proof {
                    if name_bound_before(texts, k as int, name@) {
                        let j = choose|j: int|
                            0 <= j < k && #[trigger] seg_name(classify(texts[j])) == Some(name@);
                        assert(seg_name(segments@[j]@) == Some(name@));
                    }
                }
                if taken {
                    proof {
                        lemma_first_fault_unique(texts, k as int);
                    }
                    return Err(PatternError::DuplicateName);
                }
                if first == ':' {
                    segments.push(Segment::Param(name));
                } else {
                    segments.push(Segment::CatchAll(name));
                }
            } else {
                segments.push(Segment::Literal(raw[k].clone()));
            }
            k += 1;
        }
        proof {
            assert(Seq::new(segments@.len(), |k: int| segments@[k]@) =~= classify_all(texts));
            lemma_parse_wf(texts);
        }
        Ok(PathPattern { segments })
    }

    /// The number of segments.
    pub fn len(&self) -> (n: usize)
        ensures
            n == self@.len(),
    {
        self.segments.len()
    }

    /// The segments, in order.
    pub fn segments(&self) -> (segs: &Vec<Segment>)
        ensures
            segs@.len() == self@.len(),
            forall|k: int| 0 <= k < segs@.len() ==> (#[trigger] segs@[k])@ == self@[k],
    {
        &self.segments
    }

    /// A copy of the pattern.
    pub fn duplicate(&self) -> (out: PathPattern)
        ensures
            out@ == self@,
    {
        let mut segments: Vec<Segment> = Vec::new();
        let mut k: usize = 0;
        while k < self.segments.len()
            invariant
                k <= self.segments.len(),
                segments.len() == k,
                forall|j: int| 0 <= j < k ==> (#[trigger] segments@[j])@ == self.segments@[j]@,
            decreases self.segments.len() - k,
        {
            segments.push(self.segments[k].duplicate());
            k += 1;
        }
        proof {
            use_type_invariant(self);
            assert(Seq::new(segments@.len(), |k: int| segments@[k]@) =~= self@);
        }
        PathPattern { segments }
    }

    /// Whether two patterns have the same segments.
    pub fn same(&self, other: &PathPattern) -> (b: bool)
        ensures
            b == (self@ == other@),
    {
        if self.segments.len() != other.segments.len() {
            assert(self@.len() != other@.len());
            return false;
        }
        let mut k: usize = 0;
        while k < self.segments.len()
            invariant
                k <= self.segments.len(),
                self.segments.len() == other.segments.len(),
                forall|j: int| 0 <= j < k ==> self@[j] == other@[j],
            decreases self.segments.len() - k,
        {
            if !self.segments[k].same(&other.segments[k]) {
                assert(self@[k as int] != other@[k as int]);
                return false;
            }
            k += 1;
        }
        assert(self@ =~= other@);
        true
    }

    /// Whether the pattern accepts a path given as its segments.
    pub fn fits(&self, segs: &Vec<String>) -> (b: bool)
        ensures
            b == spec_fits(self@, segs.deep_view()),
    {
        let ghost p = self@;
        let ghost s = segs.deep_view();
        let mut k: usize = 0;
        assert(p.skip(0) =~= p);
        assert(s.skip(0) =~= s);
        while k < self.segments.len()
            invariant
                p == self@,
                s == segs.deep_view(),
                k <= self.segments.len(),
                k <= segs.len(),
                spec_fits(p, s) == spec_fits(p.skip(k as int), s.skip(k as int)),
            decreases self.segments.len() - k,
        {
            match &self.segments[k] {
                Segment::CatchAll(_) => {
                    return k + 1 == self.segments.len();
                },
                Segment::Literal(t) => {
                    if k >= segs.len() {
                        return false;
                    }
                    if !(*t == segs[k]) {
                        return false;
                    }
                },
                Segment::Param(_) => {
                    if k >= segs.len() {
                        return false;
                    }
                },
            }
            assert(p.skip(k as int).skip(1) =~= p.skip(k + 1));
            assert(s.skip(k as int).skip(1) =~= s.skip(k + 1));
            k += 1;
        }
        k == segs.len()
    }

    /// The values bound in a path that the pattern accepts.
    pub(crate) fn bind(&self, segs: &Vec<String>) -> (out: Fields)
        requires
            spec_fits(self@, segs.deep_view()),
        ensures
            out@ == spec_bind(self@, segs.deep_view()),
    {
        let ghost p = self@;
        let ghost s = segs.deep_view();
        let mut out = Fields::new();
        let mut k: usize = 0;
        assert(p.skip(0) =~= p);
        assert(s.skip(0) =~= s);
        while k < self.segments.len()
            invariant
                p == self@,
                s == segs.deep_view(),
                k <= self.segments.len(),
                k <= segs.len(),
                spec_fits(p.skip(k as int), s.skip(k as int)),
                spec_bind(p, s) == out@ + spec_bind(p.skip(k as int), s.skip(k as int)),
            decreases self.segments.len() - k,
        {
            let ghost pk = p.skip(k as int);
            let ghost sk = s.skip(k as int);
            assert(pk.skip(1) =~= p.skip(k + 1));
            assert(sk.len() > 0 ==> sk.skip(1) =~= s.skip(k + 1));
            match &self.segments[k] {
                Segment::CatchAll(n) => {
                    let rest = tail_from(segs, k);
                    out.push_owned(n.clone(), rest);
                    return out;
                },
                Segment::Literal(_) => {},
                Segment::Param(n) => {
                    out.push_owned(n.clone(), segs[k].clone());
                },
            }
            k += 1;
        }
        out
    }

    /// Matches a path given as its segments: the bindings where the pattern
    /// accepts it, nothing where it does not.
    pub fn match_segments(&self, segs: &Vec<String>) -> (r: Option<Fields>)
        ensures
            match r {
                Some(f) => spec_match(self@, segs.deep_view()) == Some(f@),
                None => spec_match(self@, segs.deep_view()) is None,
            },
    {
        if self.fits(segs) {
            Some(self.bind(segs))
        } else {
            None
        }
    }

    /// Matches a request path. Literal segments must be equal to the
    /// path's, character for character; a parameter takes any one segment;
    /// a catch-all takes the rest.
    pub fn matches(&self, path: &str) -> (r: Option<Fields>)
        ensures
            match r {
                Some(f) => spec_match(self@, split_path(path@)) == Some(f@),
                None => spec_match(self@, split_path(path@)) is None,
            },
    {
        let segs = split_segments(path);
        self.match_segments(&segs)
    }

    /// Whether this pattern is more specific than `other`.
    pub fn more_specific_than(&self, other: &PathPattern) -> (b: bool)
        ensures
            b == outranks(self@, other@),
    {
        let ghost a = self@;
        let ghost o = other@;
        let mut k: usize = 0;
        assert(a.skip(0) =~= a);
        assert(o.skip(0) =~= o);
        loop
            invariant
                a == self@,
                o == other@,
                k <= self.segments.len(),
                k <= other.segments.len(),
                outranks(a, o) == outranks(a.skip(k as int), o.skip(k as int)),
            decreases self.segments.len() - k,
        {
            if k >= other.segments.len() {
                return false;
            }
            if k >= self.segments.len() {
                return true;
            }
            let mine = self.segments[k].rank();
            let theirs = other.segments[k].rank();
            if mine != theirs {
                return mine < theirs;
            }
            assert(a.skip(k as int).skip(1) =~= a.skip(k + 1));
            assert(o.skip(k as int).skip(1) =~= o.skip(k + 1));
            k += 1;
        }
    }
}

/// The segments from the `from`-th on, joined by single slashes.
fn tail_from(segs: &Vec<String>, from: usize) -> (out: String)
    requires
        from <= segs.len(),
    ensures
        out@ == join_relative(segs.deep_view().subrange(from as int, segs.len() as int)),
{
    let ghost rest = segs.deep_view().subrange(from as int, segs.len() as int);
    let mut out = String::new();
    let mut i: usize = from;
    while i < segs.len()
        invariant
            from <= i <= segs.len(),
            rest == segs.deep_view().subrange(from as int, segs.len() as int),
            out@ == join_relative(rest.take(i - from)),
        decreases segs.len() - i,
    {
        proof {
            reveal_strlit("/");
            assert("/"@ =~= seq!['/']);
            let upto = rest.take(i - from + 1);
            assert(upto.drop_last() =~= rest.take(i - from));
            if i > from {
                assert(join_path(rest.take(i - from)).len() > 0);
            }
        }
        if i > from {
            out.append("/");
        }
        out.append(segs[i].as_str());
        i += 1;
    }
    assert(rest.take(i - from) =~= rest);
    out
}

/// Every segment of the pattern is a literal.
pub open spec fn all_literal(p: Seq<SegmentView>) -> bool {
    forall|k: int| 0 <= k < p.len() ==> (#[trigger] p[k]) is Literal
}

/// The texts of a pattern's segments, in order.
pub open spec fn segment_texts(p: Seq<SegmentView>) -> Seq<Seq<char>> {
    Seq::new(
        p.len(),
        |k: int|
            match p[k] {
                SegmentView::Literal(t) => t,
                SegmentView::Param(n) => n,
                SegmentView::CatchAll(n) => n,
            },
    )
}

/// A pattern of literals accepts one path only: the one that is spelled
/// as the pattern is.
pub proof fn law_literal_fits_itself_only(p: Seq<SegmentView>, segs: Seq<Seq<char>>)
    requires
        all_literal(p),
    ensures
        spec_fits(p, segs) <==> segs == segment_texts(p),
    decreases p.len(),
{
    if p.len() == 0 {
        if segs.len() == 0 {
            assert(segs =~= segment_texts(p));
        }
    } else {
        let q = p.skip(1);
        assert(segment_texts(p).skip(1) =~= segment_texts(q));
        if segs.len() > 0 {
            law_literal_fits_itself_only(q, segs.skip(1));
            if segs[0] == segment_texts(p)[0] && segs.skip(1) == segment_texts(q) {
                let texts = segment_texts(p);
                assert forall|k: int| 0 <= k < segs.len() implies segs[k] == texts[k] by {
                    if k > 0 {
                        assert(segs[k] == segs.skip(1)[k - 1]);
                    }
                }
                assert(segs =~= texts);
            }
        }
    }
}

/// A pattern of literals binds nothing.
pub proof fn law_literal_binds_nothing(p: Seq<SegmentView>, segs: Seq<Seq<char>>)
    requires
        all_literal(p),
    ensures
        spec_bind(p, segs) == Seq::<(Seq<char>, Seq<char>)>::empty(),
    decreases p.len(),
{
    if p.len() > 0 {
        let q = p.skip(1);
        law_literal_binds_nothing(q, segs.skip(1));
    }
}

/// A parameter binds the segment that stands in its place: where a sound
/// pattern with `:name` at place `k` accepts a path, looking `name` up in
/// the bindings gives the path's `k`-th segment.
pub proof fn law_param_binds(p: Seq<SegmentView>, segs: Seq<Seq<char>>, k: int, name: Seq<char>)
    requires
        pattern_wf(p),
        spec_fits(p, segs),
        0 <= k < p.len(),
        p[k] == SegmentView::Param(name),
    ensures
        k < segs.len(),
        lookup(spec_bind(p, segs), name) == Some(segs[k]),
    decreases p.len(),
{
    if k > 0 {
        let q = p.skip(1);
        lemma_wf_skip(p);
        law_param_binds(q, segs.skip(1), k - 1, name);
        match p[0] {
            SegmentView::Param(first) => {
                assert(seg_name(p[0]) != seg_name(p[k]));
                let rest = spec_bind(q, segs.skip(1));
                assert((seq![(first, segs[0])] + rest).skip(1) =~= rest);
            },
            _ => {},
        }
    }
}

/// A catch-all binds what is left of the path: where a sound pattern that
/// ends in `*name` accepts a path, looking `name` up in the bindings gives
/// the segments from the catch-all's place on, joined by slashes.
pub proof fn law_catch_all_binds(p: Seq<SegmentView>, segs: Seq<Seq<char>>, name: Seq<char>)
    requires
        pattern_wf(p),
        spec_fits(p, segs),
        p.len() > 0,
        p.last() == SegmentView::CatchAll(name),
    ensures
        p.len() - 1 <= segs.len(),
        lookup(spec_bind(p, segs), name) == Some(
            join_relative(segs.subrange(p.len() - 1, segs.len() as int)),
        ),
    decreases p.len(),
{
    if p.len() == 1 {
        assert(segs.subrange(0, segs.len() as int) =~= segs);
    } else {
        let q = p.skip(1);
        lemma_wf_skip(p);
        law_catch_all_binds(q, segs.skip(1), name);
        assert(segs.skip(1).subrange(q.len() - 1, segs.skip(1).len() as int) =~= segs.subrange(
            p.len() - 1,
            segs.len() as int,
        ));
        match p[0] {
            SegmentView::Param(first) => {
                assert(seg_name(p[0]) != seg_name(p[p.len() - 1]));
                let rest = spec_bind(q, segs.skip(1));
                assert((seq![(first, segs[0])] + rest).skip(1) =~= rest);
            },
            _ => {},
        }
    }
}

/// No pattern that accepts a path outranks a pattern of literals that
/// accepts it, and the pattern of literals outranks every other pattern
/// that accepts the path.
pub proof fn law_literal_outranks(p: Seq<SegmentView>, q: Seq<SegmentView>, segs: Seq<Seq<char>>)
    requires
        all_literal(p),
        spec_fits(p, segs),
        spec_fits(q, segs),
    ensures
        !outranks(q, p),
        q != p ==> outranks(p, q),
    decreases p.len(),
{
    if p.len() > 0 && q.len() > 0 {
        let p_rest = p.skip(1);
        let q_rest = q.skip(1);
        if q[0] is Literal {
            law_literal_outranks(p_rest, q_rest, segs.skip(1));
            if p_rest == q_rest {
                assert forall|k: int| 0 <= k < p.len() implies p[k] == q[k] by {
                    if k > 0 {
                        assert(p[k] == p_rest[k - 1]);
                    }
                }
                assert(p =~= q);
            }
        }
    } else if p.len() == 0 && q.len() == 0 {
        assert(p =~= q);
    }
}

/// A parameter takes any segment: where a sound pattern with `:name` at
/// place `k` accepts a path, it accepts the path with any other segment in
/// that place, and binds `name` to that segment.
pub proof fn law_param_takes_any_segment(
    p: Seq<SegmentView>,
    segs: Seq<Seq<char>>,
    k: int,
    name: Seq<char>,
    value: Seq<char>,
)
    requires
        pattern_wf(p),
        spec_fits(p, segs),
        0 <= k < p.len(),
        p[k] == SegmentView::Param(name),
    ensures
        k < segs.len(),
        spec_fits(p, segs.update(k, value)),
        lookup(spec_bind(p, segs.update(k, value)), name) == Some(value),
{
    law_param_binds(p, segs, k, name);
    lemma_fits_update(p, segs, k, value);
    law_param_binds(p, segs.update(k, value), k, name);
}

/// What a parameter's place holds does not decide whether the pattern
/// accepts the path.
proof fn lemma_fits_update(p: Seq<SegmentView>, segs: Seq<Seq<char>>, k: int, value: Seq<char>)
    requires
        spec_fits(p, segs),
        0 <= k < p.len(),
        k < segs.len(),
        p[k] is Param,
    ensures
        spec_fits(p, segs.update(k, value)),
    decreases p.len(),
{
    let changed = segs.update(k, value);
    if k == 0 {
        assert(changed.skip(1) =~= segs.skip(1));
    } else {
        match p[0] {
            SegmentView::CatchAll(_) => {},
            _ => {
                lemma_fits_update(p.skip(1), segs.skip(1), k - 1, value);
                assert(changed.skip(1) =~= segs.skip(1).update(k - 1, value));
            },
        }
    }
}

/// A route spec that reads as literals only is spelled as its path is:
/// the pattern's texts are the spec's segments.
pub proof fn law_literal_spec_texts(spec: Seq<char>)
    requires
        spec_parse(spec) is Ok,
        all_literal(spec_parse(spec)->Ok_0),
    ensures
        segment_texts(spec_parse(spec)->Ok_0) == split_path(spec),
{
}

} // verus!
